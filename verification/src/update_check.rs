//! Periodic driver for the durable release advisory.

use vstd::prelude::*;

verus! {

pub const CHECK_INTERVAL_S: u64 = 86_400;

/// How often a node whose operator turned automatic checks off re-reads that
/// setting, so turning it back on takes effect without restarting the service.
pub const DISABLED_INTERVAL_S: u64 = 60;

/// First check shortly after start so the UI is honest without a day's wait,
/// but off the startup path (scans and recovery come first).
pub const FIRST_DELAY_S: u64 = 60;

/// What the checker does next.
#[derive(Debug, Clone, Copy, PartialEq, Eq, Structural)]
pub enum CheckStep {
    Stop,
    /// Sleep for a slice, so that a shutdown is honored promptly.
    Sleep { seconds: u64 },
    /// Read the durable setting, and check if it allows that.
    Look,
}

/// The wait between two looks.
#[derive(Debug, Clone, Copy, PartialEq, Eq, Structural)]
pub struct CheckTimer {
    pub delay_s: u64,
    pub waited_s: u64,
}

impl CheckTimer {
    pub fn start() -> (r: CheckTimer)
        ensures
            r == (CheckTimer { delay_s: FIRST_DELAY_S, waited_s: 0 }),
    {
        CheckTimer { delay_s: FIRST_DELAY_S, waited_s: 0 }
    }

    /// Slices are of one second; a shutdown ends the wait before the next one.
    pub fn step(&mut self, shutdown: bool) -> (r: CheckStep)
        requires
            old(self).waited_s <= old(self).delay_s,
        ensures
            final(self).waited_s <= final(self).delay_s,
            final(self).delay_s == old(self).delay_s,
            if old(self).waited_s == old(self).delay_s {
                r == CheckStep::Look && *final(self) == *old(self)
            } else if shutdown {
                r == CheckStep::Stop && *final(self) == *old(self)
            } else {
                r == (CheckStep::Sleep { seconds: 1 }) && final(self).waited_s == old(
                    self,
                ).waited_s + 1
            },
    {
        if self.waited_s == self.delay_s {
            return CheckStep::Look;
        }
        if shutdown {
            return CheckStep::Stop;
        }
        self.waited_s = self.waited_s + 1;
        CheckStep::Sleep { seconds: 1 }
    }

    /// The setting was read; where it allows checks, one was made, whatever
    /// came of it. A node that says it does not check must not still be
    /// checking daily.
    pub fn looked(&mut self, checks_enabled: bool)
        ensures
            *final(self) == (CheckTimer {
                delay_s: if checks_enabled {
                    CHECK_INTERVAL_S
                } else {
                    DISABLED_INTERVAL_S
                },
                waited_s: 0,
            }),
    {
        self.delay_s = if checks_enabled {
            CHECK_INTERVAL_S
        } else {
            DISABLED_INTERVAL_S
        };
        self.waited_s = 0;
    }
}

} // verus!
