//! Explicit admission ceilings, not performance-qualified presets. Existing
//! scans/files finish at their original width; new work takes the saved limits.

use crate::domain::{opt_text, NANOS_PER_SEC};
use crate::text::{decimal, push_decimal};
use vstd::prelude::*;
use vstd::string::*;

verus! {

pub const SETTINGS_FILE: &'static str = "resource-limits.json";

pub const DISK_REFRESH_NS: u64 = 5 * NANOS_PER_SEC;

pub const DISK_MAX_AGE_NS: u64 = 30 * NANOS_PER_SEC;

#[derive(Debug, Clone, Copy, PartialEq, Eq, Structural)]
pub struct ResourceLimits {
    pub scan_threads: u32,
    pub concurrent_scans: u32,
    /// Free space reserved on the data directory's filesystem, in MiB.
    /// Zero explicitly disables this admission check (not recommended).
    pub minimum_free_mib: u32,
}

/// Why limits are refused.
pub const LIMITS_RANGE: &'static str =
    "scan threads must be 1..64 and concurrent scans must be 1..16";

impl ResourceLimits {
    pub open spec fn valid(self) -> bool {
        1 <= self.scan_threads <= 64 && 1 <= self.concurrent_scans <= 16
    }

    pub fn validate(&self) -> (r: Result<(), &'static str>)
        ensures
            r is Ok <==> self.valid(),
            r matches Err(e) ==> e@ == LIMITS_RANGE@,
    {
        if !(1 <= self.scan_threads && self.scan_threads <= 64) || !(1 <= self.concurrent_scans
            && self.concurrent_scans <= 16) {
            return Err(LIMITS_RANGE);
        }
        Ok(())
    }

    /// The limits of a node that has saved none.
    pub open spec fn initial_limits(scan_threads: usize) -> ResourceLimits {
        ResourceLimits {
            scan_threads: if scan_threads < 1 {
                1
            } else if scan_threads > 64 {
                64
            } else {
                scan_threads as u32
            },
            concurrent_scans: 1,
            minimum_free_mib: 1024,
        }
    }

    pub fn initial(scan_threads: usize) -> (r: ResourceLimits)
        ensures
            r.valid(),
            r == ResourceLimits::initial_limits(scan_threads),
    {
        let threads: u32 = if scan_threads < 1 {
            1
        } else if scan_threads > 64 {
            64
        } else {
            scan_threads as u32
        };
        ResourceLimits { scan_threads: threads, concurrent_scans: 1, minimum_free_mib: 1024 }
    }
}

/// A probe of the data volume: how old it is, and the free bytes or why they
/// are not known.
#[derive(Debug)]
pub struct DiskSample {
    pub age_ns: u64,
    pub free: Result<u64, String>,
}

/// Why new work is held back, if it is.
pub open spec fn disk_hold(limits: ResourceLimits, sample: Option<DiskSample>) -> Option<Seq<char>> {
    if limits.minimum_free_mib == 0 {
        None
    } else {
        match sample {
            None => Some("checking free space on the data volume"@),
            Some(s) => if s.age_ns > DISK_MAX_AGE_NS {
                Some("data-volume free-space probe is stale; new work is held until it recovers"@)
            } else {
                match s.free {
                    Err(e) => Some("cannot check data-volume free space: "@ + e@),
                    Ok(bytes) => if bytes < limits.minimum_free_mib * 1024 * 1024 {
                        Some(
                            "data volume below the "@ + decimal(limits.minimum_free_mib as nat)
                                + " MiB free-space reserve; free space or lower the reserve"@,
                        )
                    } else {
                        None
                    },
                }
            },
        }
    }
}

pub fn disk_reason(limits: ResourceLimits, sample: &Option<DiskSample>) -> (r: Option<String>)
    ensures
        opt_text(r) == disk_hold(limits, *sample),
{
    if limits.minimum_free_mib == 0 {
        return None;
    }
    match sample {
        None => Some("checking free space on the data volume".to_owned()),
        Some(s) => {
            if s.age_ns > DISK_MAX_AGE_NS {
                return Some(
                    "data-volume free-space probe is stale; new work is held until it recovers".to_owned(),
                );
            }
            match &s.free {
                Err(e) => Some("cannot check data-volume free space: ".to_owned().concat(e)),
                Ok(bytes) => {
                    let reserve: u64 = (limits.minimum_free_mib as u64) * 1024 * 1024;
                    if *bytes < reserve {
                        let mut m = "data volume below the ".to_owned();
                        push_decimal(&mut m, limits.minimum_free_mib as u64);
                        m.append(" MiB free-space reserve; free space or lower the reserve");
                        Some(m)
                    } else {
                        None
                    }
                },
            }
        },
    }
}

#[derive(Debug)]
pub struct ResourceView {
    pub limits: ResourceLimits,
    pub active_scans: u32,
    pub free_bytes: Option<u64>,
    pub disk_sample_age_s: Option<u64>,
    pub admission_blocked: Option<String>,
}

/// The limits in force and the scans that run under them.
pub struct ResourceControl {
    limits: ResourceLimits,
    active: u32,
    live: Ghost<Seq<usize>>,
}

/// One scan slot, and the threads it was granted.
#[derive(Debug)]
pub struct ScanReservation {
    threads: usize,
}

impl ScanReservation {
    pub closed spec fn granted_threads(&self) -> usize {
        self.threads
    }

    pub fn threads(&self) -> (r: usize)
        ensures
            r == self.granted_threads(),
    {
        self.threads
    }
}

impl ResourceControl {
    pub closed spec fn spec_limits(&self) -> ResourceLimits {
        self.limits
    }

    /// The widths of the scans that run.
    pub closed spec fn live(&self) -> Seq<usize> {
        self.live@
    }

    pub closed spec fn wf(&self) -> bool {
        self.active == self.live@.len() && self.limits.valid() && self.active <= 16
    }

    /// The control of a node that starts: with the saved limits, or with the
    /// initial ones where none were saved.
    pub fn load(saved: Option<ResourceLimits>, scan_threads: usize) -> (r: Result<
        ResourceControl,
        &'static str,
    >)
        ensures
            ({
                let limits = match saved {
                    Some(l) => l,
                    None => ResourceLimits::initial_limits(scan_threads),
                };
                &&& r is Ok <==> limits.valid()
                &&& r matches Err(e) ==> e@ == LIMITS_RANGE@
                &&& r matches Ok(c) ==> c.wf() && c.spec_limits() == limits && c.live()
                    == Seq::<usize>::empty()
            }),
    {
        let limits = match saved {
            Some(l) => l,
            None => ResourceLimits::initial(scan_threads),
        };
        match limits.validate() {
            Err(e) => Err(e),
            Ok(()) => Ok(ResourceControl { limits, active: 0, live: Ghost(Seq::empty()) }),
        }
    }

    /// New limits come into force after they were persisted; invalid ones and
    /// ones that could not be persisted change nothing. Scans that run keep
    /// their slots and their width.
    pub fn set(&mut self, limits: ResourceLimits, persisted: Result<(), String>) -> (r: Result<
        (),
        String,
    >)
        requires
            old(self).wf(),
        ensures
            final(self).wf(),
            final(self).live() == old(self).live(),
            !limits.valid() ==> (r matches Err(e) && e@ == LIMITS_RANGE@),
            limits.valid() ==> r == persisted,
            final(self).spec_limits() == (if r is Ok {
                limits
            } else {
                old(self).spec_limits()
            }),
    {
        match limits.validate() {
            Err(e) => {
                return Err(e.to_owned());
            },
            Ok(()) => {},
        }
        if persisted.is_ok() {
            self.limits = limits;
        }
        persisted
    }

    pub fn limits(&self) -> (r: ResourceLimits)
        ensures
            r == self.spec_limits(),
    {
        self.limits
    }

    pub fn blocked_reason(&self, sample: &Option<DiskSample>) -> (r: Option<String>)
        ensures
            opt_text(r) == disk_hold(self.spec_limits(), *sample),
    {
        disk_reason(self.limits, sample)
    }

    pub fn view(&self, sample: &Option<DiskSample>) -> (r: ResourceView)
        requires
            self.wf(),
        ensures
            r.limits == self.spec_limits(),
            r.active_scans == self.live().len(),
            r.free_bytes == (match *sample {
                Some(s) => match s.free {
                    Ok(b) => Some(b),
                    Err(_) => None,
                },
                None => None,
            }),
            r.disk_sample_age_s == (match *sample {
                Some(s) => Some((s.age_ns / NANOS_PER_SEC) as u64),
                None => None,
            }),
            opt_text(r.admission_blocked) == disk_hold(self.spec_limits(), *sample),
    {
        ResourceView {
            limits: self.limits,
            active_scans: self.active,
            free_bytes: match sample {
                Some(s) => match &s.free {
                    Ok(b) => Some(*b),
                    Err(_) => None,
                },
                None => None,
            },
            disk_sample_age_s: match sample {
                Some(s) => Some(s.age_ns / NANOS_PER_SEC),
                None => None,
            },
            admission_blocked: disk_reason(self.limits, sample),
        }
    }

    /// Take a scan slot, unless the data volume or the number of scans holds
    /// new work back.
    pub fn try_scan(&mut self, sample: &Option<DiskSample>) -> (r: Result<ScanReservation, String>)
        requires
            old(self).wf(),
        ensures
            final(self).wf(),
            final(self).spec_limits() == old(self).spec_limits(),
            match disk_hold(old(self).spec_limits(), *sample) {
                Some(reason) => r matches Err(e) && e@ == reason,
                None => if old(self).live().len() >= old(self).spec_limits().concurrent_scans {
                    r matches Err(e) && e@ == "waiting for a metadata scan slot"@
                } else {
                    r is Ok
                },
            },
            r is Err ==> final(self).live() == old(self).live(),
            r matches Ok(s) ==> {
                &&& s.granted_threads() == old(self).spec_limits().scan_threads
                &&& final(self).live() == old(self).live().push(s.granted_threads())
                &&& final(self).live().contains(s.granted_threads())
                &&& final(self).live().len() <= final(self).spec_limits().concurrent_scans
            },
    {
        if let Some(reason) = disk_reason(self.limits, sample) {
            return Err(reason);
        }
        if self.active >= self.limits.concurrent_scans {
            return Err("waiting for a metadata scan slot".to_owned());
        }
        let threads: usize = self.limits.scan_threads as usize;
        self.active = self.active + 1;
        proof {
            let n = self.live@.len();
            self.live@ = self.live@.push(threads);
            assert(self.live@[n as int] == threads);
        }
        Ok(ScanReservation { threads })
    }

    /// Give a slot back. It must have been handed out here; owning it shows
    /// that it was not given back before.
    pub fn release(&mut self, slot: ScanReservation)
        requires
            old(self).wf(),
            old(self).live().contains(slot.granted_threads()),
        ensures
            final(self).wf(),
            final(self).spec_limits() == old(self).spec_limits(),
            final(self).live() == old(self).live().remove(
                old(self).live().index_of(slot.granted_threads()),
            ),
    {
        let ghost at = self.live@.index_of(slot.threads);
        self.active = self.active - 1;
        proof {
            self.live@ = self.live@.remove(at);
        }
    }
}

/// Zero disables the free-space check, and only zero does: any other reserve
/// holds new work while nothing is known of the volume.
pub proof fn law_an_unknown_volume_holds_new_work(limits: ResourceLimits)
    ensures
        disk_hold(limits, None) is None <==> limits.minimum_free_mib == 0,
{
}

/// New work is held, where a reserve is set, exactly while the volume was not
/// looked at within thirty seconds, could not be looked at, or has less than
/// the reserve free.
pub proof fn law_a_short_volume_holds_new_work(limits: ResourceLimits, s: DiskSample)
    requires
        limits.minimum_free_mib > 0,
    ensures
        disk_hold(limits, Some(s)) is Some <==> s.age_ns > 30_000_000_000 || s.free is Err || (
        s.free matches Ok(b) && b < limits.minimum_free_mib * 1_048_576),
{
}

/// A node that has saved no limits scans one source at a time, as wide as it was
/// told but between one and sixty-four, and reserves a gibibyte.
pub proof fn law_initial_limits_are_valid(scan_threads: usize)
    ensures
        ({
            let l = ResourceLimits::initial_limits(scan_threads);
            &&& l.valid()
            &&& 1 <= scan_threads <= 64 ==> l.scan_threads == scan_threads
            &&& scan_threads > 64 ==> l.scan_threads == 64
            &&& scan_threads < 1 ==> l.scan_threads == 1
            &&& l.concurrent_scans == 1 && l.minimum_free_mib == 1024
        }),
        forall|l: ResourceLimits| #[trigger]
            l.valid() <==> 1 <= l.scan_threads <= 64 && 1 <= l.concurrent_scans <= 16,
{
}

/// A volume that has its reserve free, and was looked at recently, holds
/// nothing.
pub proof fn law_a_healthy_volume_recovers(limits: ResourceLimits, s: DiskSample)
    requires
        s.age_ns <= DISK_MAX_AGE_NS,
        s.free matches Ok(b) && b >= limits.minimum_free_mib * 1024 * 1024,
    ensures
        disk_hold(limits, Some(s)) is None,
{
}

} // verus!
