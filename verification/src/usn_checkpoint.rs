//! Volatile read-ahead over irrelevant USN records. Relevant changes still
//! commit with their checkpoint immediately. A crash replays only ignored
//! records; it never loses an unapplied source change.

use crate::domain::{Instant, NANOS_PER_SEC};
use crate::watcher::{UsnCheckpoint, UsnPosition};
use vstd::prelude::*;

verus! {

pub const FLUSH_INTERVAL_NS: u64 = 30 * NANOS_PER_SEC;

pub const MAX_LAG: i64 = 16 * 1024 * 1024;

#[derive(Debug, Clone, Copy, PartialEq, Eq, Structural)]
pub enum CheckpointPlan {
    Unchanged,
    Deferred,
    Persist,
    InvalidPosition,
}

#[derive(Debug)]
pub struct ReadAhead {
    durable: Option<UsnCheckpoint>,
    next: i64,
    saved_at: Instant,
}

pub struct ReadAheadModel {
    /// The checkpoint that the catalog holds.
    pub durable: Option<UsnPosition>,
    /// Where reading goes on in this process.
    pub next: i64,
    pub saved_at: Instant,
}

impl View for ReadAhead {
    type V = ReadAheadModel;

    closed spec fn view(&self) -> ReadAheadModel {
        ReadAheadModel {
            durable: match self.durable {
                Some(cp) => Some(cp@),
                None => None,
            },
            next: self.next,
            saved_at: self.saved_at,
        }
    }
}

/// A position was made durable.
pub open spec fn acknowledged(cp: UsnPosition, now: Instant) -> ReadAheadModel {
    ReadAheadModel { durable: Some(cp), next: cp.next_usn, saved_at: now }
}

/// The distance of a position from the durable one, as far as `i64` goes.
pub open spec fn lag(next: i64, durable: i64) -> int {
    let d = next - durable;
    if d > i64::MAX {
        i64::MAX as int
    } else if d < i64::MIN {
        i64::MIN as int
    } else {
        d
    }
}

/// What a translated batch that ends at `next` leads to.
pub open spec fn decided(m: ReadAheadModel, next: i64, must_persist: bool, now: Instant) -> CheckpointPlan {
    match m.durable {
        None => CheckpointPlan::InvalidPosition,
        Some(durable) => if next < m.next {
            CheckpointPlan::InvalidPosition
        } else if must_persist {
            CheckpointPlan::Persist
        } else if next == durable.next_usn {
            CheckpointPlan::Unchanged
        } else if lag(next, durable.next_usn) >= MAX_LAG || now.spec_since(m.saved_at)
            >= FLUSH_INTERVAL_NS {
            CheckpointPlan::Persist
        } else {
            CheckpointPlan::Deferred
        },
    }
}

/// The state after a batch was planned: only a deferred one is consumed.
pub open spec fn planned(m: ReadAheadModel, next: i64, must_persist: bool, now: Instant) -> ReadAheadModel {
    if decided(m, next, must_persist, now) == CheckpointPlan::Deferred {
        ReadAheadModel { next, ..m }
    } else {
        m
    }
}

/// A batch as it is planned.
pub struct PlannedBatch {
    pub next: i64,
    pub must_persist: bool,
    pub now: Instant,
}

/// The state after a series of batches, none of which was committed.
pub open spec fn read_on(m: ReadAheadModel, batches: Seq<PlannedBatch>) -> ReadAheadModel
    decreases batches.len(),
{
    if batches.len() == 0 {
        m
    } else {
        let b = batches.last();
        planned(read_on(m, batches.drop_last()), b.next, b.must_persist, b.now)
    }
}

impl ReadAhead {
    pub fn new(now: Instant) -> (r: ReadAhead)
        ensures
            r@ == (ReadAheadModel { durable: None, next: 0, saved_at: now }),
    {
        ReadAhead { durable: None, next: 0, saved_at: now }
    }

    /// A scan/recovery/checkpoint replacement invalidates all read-ahead.
    /// Return true so the caller also reopens the matching journal handle.
    pub fn synchronize(&mut self, durable: &UsnCheckpoint, now: Instant) -> (r: bool)
        ensures
            r == (old(self)@.durable != Some(durable@)),
            final(self)@ == (if r {
                acknowledged(durable@, now)
            } else {
                old(self)@
            }),
    {
        let current: bool = match &self.durable {
            Some(cp) => cp.same_as(durable),
            None => false,
        };
        if current {
            return false;
        }
        self.committed(durable, now);
        true
    }

    pub fn next_usn(&self) -> (r: i64)
        ensures
            r == self@.next,
    {
        self.next
    }

    /// Called only after translation succeeded. Deferral changes no catalog
    /// state. A batch that has to be persisted is not consumed before its
    /// compare-and-swap succeeds.
    pub fn plan(&mut self, next: i64, must_persist: bool, now: Instant) -> (r: CheckpointPlan)
        ensures
            r == decided(old(self)@, next, must_persist, now),
            final(self)@ == planned(old(self)@, next, must_persist, now),
    {
        let durable: i64 = match &self.durable {
            None => {
                return CheckpointPlan::InvalidPosition;
            },
            Some(cp) => cp.next_usn,
        };
        if next < self.next {
            return CheckpointPlan::InvalidPosition;
        }
        if must_persist {
            return CheckpointPlan::Persist;
        }
        if next == durable {
            return CheckpointPlan::Unchanged;
        }
        let behind: bool = if next >= 0 && durable < 0 && next > i64::MAX + durable {
            true
        } else if next < 0 && durable > 0 && next < i64::MIN + durable {
            false
        } else {
            next - durable >= MAX_LAG
        };
        if behind || now.since(self.saved_at) >= FLUSH_INTERVAL_NS {
            return CheckpointPlan::Persist;
        }
        self.next = next;
        CheckpointPlan::Deferred
    }

    /// Only a successful durable compare-and-swap may acknowledge this position.
    pub fn committed(&mut self, checkpoint: &UsnCheckpoint, now: Instant)
        ensures
            final(self)@ == acknowledged(checkpoint@, now),
    {
        self.durable = Some(checkpoint.copy());
        self.next = checkpoint.next_usn;
        self.saved_at = now;
    }
}

// ----- laws -----------------------------------------------------------------

/// A change that matters is never deferred, and reading goes on where its batch
/// began until it was committed: a write that fails is tried again.
pub proof fn law_relevant_changes_are_never_deferred(m: ReadAheadModel, next: i64, now: Instant)
    requires
        m.durable is Some,
        m.next <= next,
    ensures
        decided(m, next, true, now) == CheckpointPlan::Persist,
        planned(m, next, true, now) == m,
{
}

/// Reading never goes backwards, and never runs ahead of the durable position
/// by the bound or more, however many batches follow one another.
pub proof fn law_read_ahead_is_bounded(m: ReadAheadModel, batches: Seq<PlannedBatch>)
    requires
        m.durable is Some,
        m.next - m.durable->0.next_usn < MAX_LAG,
    ensures
        read_on(m, batches).next >= m.next,
        read_on(m, batches).next - m.durable->0.next_usn < MAX_LAG,
    decreases batches.len(),
{
    if batches.len() > 0 {
        law_read_ahead_is_bounded(m, batches.drop_last());
        law_restart_replays_what_was_only_read(m, batches.drop_last(), m.saved_at);
    }
}

/// A batch without relevant changes is only read ahead exactly while it is less
/// than 16 MiB ahead of the durable position and that is less than thirty
/// seconds old; one that goes nowhere leaves the checkpoint as it is, and one
/// that goes backwards, or has nothing to go on from, is refused.
pub proof fn law_irrelevant_batches_are_read_ahead(m: ReadAheadModel, next: i64, now: Instant)
    requires
        m.durable is Some,
        0 <= m.durable->0.next_usn <= m.next,
    ensures
        ({
            let ahead = next - m.durable->0.next_usn;
            let plan = decided(m, next, false, now);
            &&& plan == CheckpointPlan::InvalidPosition <==> next < m.next
            &&& plan == CheckpointPlan::Unchanged <==> next >= m.next && ahead == 0
            &&& plan == CheckpointPlan::Deferred <==> next >= m.next && 0 < ahead < 16_777_216
                && now.spec_since(m.saved_at) < 30_000_000_000
            &&& plan == CheckpointPlan::Persist <==> next >= m.next && ahead > 0 && (ahead
                >= 16_777_216 || now.spec_since(m.saved_at) >= 30_000_000_000)
            &&& plan == CheckpointPlan::Deferred ==> planned(m, next, false, now).next == next
            &&& plan != CheckpointPlan::Deferred ==> planned(m, next, false, now) == m
        }),
        forall|must: bool|
            #![trigger decided(ReadAheadModel { durable: None, ..m }, next, must, now)]
            decided(ReadAheadModel { durable: None, ..m }, next, must, now)
                == CheckpointPlan::InvalidPosition,
{
}

/// Nothing is deferred once the flush interval is over.
pub proof fn law_deferral_ends(m: ReadAheadModel, next: i64, must_persist: bool, now: Instant)
    requires
        now.spec_since(m.saved_at) >= FLUSH_INTERVAL_NS,
    ensures
        decided(m, next, must_persist, now) != CheckpointPlan::Deferred,
{
}

/// Reading ahead changes nothing durable: however many batches were planned, a
/// restart begins at the position that was last committed, and reads again what
/// was only read ahead.
pub proof fn law_restart_replays_what_was_only_read(
    m: ReadAheadModel,
    batches: Seq<PlannedBatch>,
    later: Instant,
)
    requires
        m.durable is Some,
    ensures
        read_on(m, batches).durable == m.durable,
        read_on(m, batches).saved_at == m.saved_at,
        acknowledged(read_on(m, batches).durable->0, later).next == m.durable->0.next_usn,
    decreases batches.len(),
{
    if batches.len() > 0 {
        law_restart_replays_what_was_only_read(m, batches.drop_last(), later);
    }
}

} // verus!
