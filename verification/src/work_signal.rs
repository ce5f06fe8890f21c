//! Content-work wakeups are independent from catalog writer completions: an
//! empty claim completes a writer turn and must not wake another empty claim.
//!
//! One epoch, two wait sets. The epoch is what makes a wakeup impossible to
//! lose: a caller reads it before it checks its own state, and parks only if
//! nothing has advanced it since. The two wait sets are what keep a
//! single-worker wakeup useful. A worker parked above the pool size cannot
//! claim anything however much work is due, so work hints reach only the
//! waiters that can act on them; control transitions reach everyone.

use crate::scanner::wrapped;
use vstd::prelude::*;

verus! {

/// Where a worker parks.
#[derive(Debug, Clone, Copy, PartialEq, Eq, Structural)]
pub enum WaitSet {
    /// Workers inside the pool size: woken by control changes and work hints.
    Claimable,
    /// Workers parked above the pool size: only a control change can make
    /// them eligible again, so no work hint is ever spent here.
    Surplus,
}

/// How many parked workers a notification wakes.
#[derive(Debug, Clone, Copy, PartialEq, Eq, Structural)]
pub struct Woken {
    pub claimable: usize,
    pub surplus: usize,
}

#[derive(Debug, Clone, Copy, PartialEq, Eq, Structural)]
pub struct WorkSignal {
    pub epoch: u64,
    /// Parked workers that may claim.
    pub claimable: usize,
    /// Parked workers above the pool size.
    pub surplus: usize,
}

/// A count without one of those counted, if there is one.
pub open spec fn one_less(n: usize) -> usize {
    if n > 0 {
        (n - 1) as usize
    } else {
        0
    }
}

impl Default for WorkSignal {
    fn default() -> (r: WorkSignal)
        ensures
            r == (WorkSignal { epoch: 0, claimable: 0, surplus: 0 }),
    {
        WorkSignal { epoch: 0, claimable: 0, surplus: 0 }
    }
}

impl WorkSignal {
    /// The signal after everyone was notified: nobody is parked any more.
    pub open spec fn notified_all(self) -> WorkSignal {
        WorkSignal { epoch: wrapped(self.epoch + 1), claimable: 0, surplus: 0 }
    }

    /// The signal after one worker that may claim was notified.
    pub open spec fn notified_one(self) -> WorkSignal {
        WorkSignal {
            epoch: wrapped(self.epoch + 1),
            claimable: one_less(self.claimable),
            surplus: self.surplus,
        }
    }

    /// Who is woken when everyone is notified.
    pub open spec fn woken_by_all(self) -> Woken {
        Woken { claimable: self.claimable, surplus: self.surplus }
    }

    /// Who is woken when one worker that may claim is notified.
    pub open spec fn woken_by_one(self) -> Woken {
        Woken {
            claimable: if self.claimable > 0 {
                1
            } else {
                0
            },
            surplus: 0,
        }
    }

    /// The signal after one more worker went to sleep.
    pub open spec fn parked(self, set: WaitSet) -> WorkSignal {
        match set {
            WaitSet::Claimable => WorkSignal { claimable: (self.claimable + 1) as usize, ..self },
            WaitSet::Surplus => WorkSignal { surplus: (self.surplus + 1) as usize, ..self },
        }
    }

    /// The signal after a sleeping worker's timeout.
    pub open spec fn expired(self, set: WaitSet) -> WorkSignal {
        match set {
            WaitSet::Claimable => WorkSignal { claimable: one_less(self.claimable), ..self },
            WaitSet::Surplus => WorkSignal { surplus: one_less(self.surplus), ..self },
        }
    }

    /// Whether a worker that observed this epoch goes to sleep.
    pub open spec fn parks(self, observed: u64) -> bool {
        self.epoch == observed
    }

    /// The signal after a series of notifications, each of everyone or of one.
    pub open spec fn after(self, everyone: Seq<bool>) -> WorkSignal
        decreases everyone.len(),
    {
        if everyone.len() == 0 {
            self
        } else if everyone.last() {
            self.after(everyone.drop_last()).notified_all()
        } else {
            self.after(everyone.drop_last()).notified_one()
        }
    }

    pub fn epoch(&self) -> (r: u64)
        ensures
            r == self.epoch,
    {
        self.epoch
    }

    /// Wake every parked worker, in both wait sets. Use for control
    /// transitions — pause/resume, resize, shutdown, limit changes — where
    /// every worker has to re-evaluate its own state before it can decide
    /// anything, including whether it is still surplus.
    pub fn notify_all(&mut self) -> (r: Woken)
        ensures
            r == old(self).woken_by_all(),
            *final(self) == old(self).notified_all(),
    {
        let r = Woken { claimable: self.claimable, surplus: self.surplus };
        self.epoch = self.epoch.wrapping_add(1);
        self.claimable = 0;
        self.surplus = 0;
        r
    }

    /// Wake one worker that is allowed to claim. Use for "there may be due
    /// work" hints, which admission is still free to refuse. A worker that
    /// does claim hands the baton on, so a genuinely admittable backlog fills
    /// the pool in a chain; a backlog admission refuses costs one empty claim
    /// per hint instead of one per worker. Both calls advance the epoch: a
    /// worker between its work check and parking must never park on stale
    /// state.
    pub fn notify_one(&mut self) -> (r: Woken)
        ensures
            r == old(self).woken_by_one(),
            *final(self) == old(self).notified_one(),
    {
        self.epoch = self.epoch.wrapping_add(1);
        if self.claimable > 0 {
            self.claimable = self.claimable - 1;
            Woken { claimable: 1, surplus: 0 }
        } else {
            Woken { claimable: 0, surplus: 0 }
        }
    }

    /// Park a worker, unless the epoch has moved since it was observed.
    /// Capture the epoch BEFORE checking shutdown, admission and work
    /// availability: a notification between that check and this call cannot be
    /// lost. Says whether the worker sleeps.
    pub fn park(&mut self, set: WaitSet, observed: u64) -> (parked: bool)
        requires
            old(self).claimable < usize::MAX,
            old(self).surplus < usize::MAX,
        ensures
            parked == old(self).parks(observed),
            *final(self) == (if !parked {
                *old(self)
            } else {
                old(self).parked(set)
            }),
    {
        if self.epoch != observed {
            return false;
        }
        match set {
            WaitSet::Claimable => {
                self.claimable = self.claimable + 1;
            },
            WaitSet::Surplus => {
                self.surplus = self.surplus + 1;
            },
        }
        true
    }

    /// A parked worker's timeout expired. A notification may have come between
    /// the timeout and this call, and have counted the worker as woken already:
    /// then nobody is left to count.
    pub fn expire(&mut self, set: WaitSet)
        ensures
            *final(self) == old(self).expired(set),
    {
        match set {
            WaitSet::Claimable => {
                if self.claimable > 0 {
                    self.claimable = self.claimable - 1;
                }
            },
            WaitSet::Surplus => {
                if self.surplus > 0 {
                    self.surplus = self.surplus - 1;
                }
            },
        }
    }

    /// Parked workers across both wait sets.
    pub fn waiting(&self) -> (r: usize)
        requires
            self.claimable + self.surplus <= usize::MAX,
        ensures
            r == self.claimable + self.surplus,
    {
        self.claimable + self.surplus
    }
}

proof fn lemma_epoch_counts(s: WorkSignal, everyone: Seq<bool>)
    ensures
        s.after(everyone).epoch == wrapped(s.epoch + everyone.len()),
    decreases everyone.len(),
{
    if everyone.len() > 0 {
        lemma_epoch_counts(s, everyone.drop_last());
    }
}

/// A worker that observed the epoch before a notification does not park on it,
/// whatever notifications followed, short of as many as there are epochs.
pub proof fn law_no_notification_is_lost(s: WorkSignal, everyone: Seq<bool>)
    requires
        0 < everyone.len() <= u64::MAX,
    ensures
        !s.after(everyone).parks(s.epoch),
{
    lemma_epoch_counts(s, everyone);
}

/// A control change leaves nobody parked; a work hint is never spent on a
/// worker above the pool size.
pub proof fn law_hints_reach_only_those_who_may_claim(s: WorkSignal)
    ensures
        s.notified_all().claimable == 0 && s.notified_all().surplus == 0,
        s.notified_one().surplus == s.surplus,
        s.claimable > 0 ==> s.notified_one().claimable == s.claimable - 1,
{
}

/// Whoever is woken was parked, and is parked no more; a hint wakes a worker if
/// any may claim, and one at most. Between notifications a worker that went to
/// sleep and whose timeout expired leaves the signal as it was.
pub proof fn law_the_parked_are_counted(s: WorkSignal, set: WaitSet)
    requires
        s.claimable < usize::MAX,
        s.surplus < usize::MAX,
    ensures
        s.woken_by_all().claimable + s.notified_all().claimable == s.claimable,
        s.woken_by_all().surplus + s.notified_all().surplus == s.surplus,
        s.woken_by_one().claimable + s.notified_one().claimable == s.claimable,
        s.woken_by_one().surplus + s.notified_one().surplus == s.surplus,
        s.woken_by_one().claimable <= 1,
        s.woken_by_one().claimable == 0 <==> s.claimable == 0,
        s.parked(set).expired(set) == s,
        s.parked(set).claimable + s.parked(set).surplus == s.claimable + s.surplus + 1,
        s.parked(set).surplus == s.surplus <==> set == WaitSet::Claimable,
        s.parked(set).epoch == s.epoch && s.expired(set).epoch == s.epoch,
        s.expired(WaitSet::Surplus).claimable == s.claimable,
        s.expired(WaitSet::Claimable).surplus == s.surplus,
        s.parks(s.epoch),
{
}

} // verus!
