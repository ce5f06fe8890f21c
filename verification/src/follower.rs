//! Catalog-index follower: what an iteration records, and when the next one
//! runs.

use crate::domain::{copy_opt, opt_text, Instant};
use crate::scanner::wrapped;
use vstd::prelude::*;
use vstd::string::*;

verus! {

/// Fallback wake-up interval. The follower is event-driven: every completed
/// catalog writer transaction signals it, so this only bounds staleness if a
/// signal is ever missed.
pub const FOLLOW_INTERVAL_MS: u64 = 500;

pub const FOLLOW_BATCH: u32 = 2000;

/// The pause after a failed iteration.
pub const FAILURE_PAUSE_MS: u64 = 2000;

pub const NANOS_PER_MS: u64 = 1_000_000;

/// A source that was indexed anew.
#[derive(Debug, Clone, Copy, PartialEq, Eq, Structural)]
pub struct Rebuild {
    pub documents: u64,
    pub elapsed_ms: u64,
}

/// A batch of changes that was indexed.
#[derive(Debug, Clone, Copy, PartialEq, Eq, Structural)]
pub struct Follow {
    pub rows: u64,
    pub documents_added: u64,
    pub last_seq: i64,
}

#[derive(Debug)]
pub struct FollowerStatus {
    pub iterations: u64,
    pub rebuilds: u64,
    pub rows_applied: u64,
    pub documents_added: u64,
    pub last_seq: i64,
    pub last_rebuild_ms: u64,
    pub last_error: Option<String>,
    pub last_activity: Option<Instant>,
    pub rebuilding: Option<i64>,
}

#[derive(Debug)]
pub struct FollowerView {
    pub iterations: u64,
    pub rebuilds: u64,
    pub rows_applied: u64,
    pub documents_added: u64,
    pub last_seq: i64,
    pub last_rebuild_ms: u64,
    pub last_error: Option<String>,
    pub last_activity_ms_ago: Option<u64>,
    pub rebuilding_source: Option<i64>,
    pub index_documents: u64,
    pub outbox_pending: u64,
}

impl Default for FollowerStatus {
    fn default() -> (r: FollowerStatus)
        ensures
            r == (FollowerStatus {
                iterations: 0,
                rebuilds: 0,
                rows_applied: 0,
                documents_added: 0,
                last_seq: 0,
                last_rebuild_ms: 0,
                last_error: None,
                last_activity: None,
                rebuilding: None,
            }),
    {
        FollowerStatus {
            iterations: 0,
            rebuilds: 0,
            rows_applied: 0,
            documents_added: 0,
            last_seq: 0,
            last_rebuild_ms: 0,
            last_error: None,
            last_activity: None,
            rebuilding: None,
        }
    }
}

/// How many documents some rebuilds added.
pub open spec fn rebuilt_documents(s: Seq<Rebuild>) -> nat
    decreases s.len(),
{
    if s.len() == 0 {
        0
    } else {
        rebuilt_documents(s.drop_last()) + s.last().documents as nat
    }
}

/// The status once an iteration succeeded.
pub open spec fn followed(
    s: FollowerStatus,
    rebuilt: Seq<Rebuild>,
    follow: Option<Follow>,
    now: Instant,
) -> FollowerStatus {
    FollowerStatus {
        iterations: s.iterations,
        rebuilds: wrapped(s.rebuilds + rebuilt.len()),
        rows_applied: match follow {
            Some(f) => wrapped(s.rows_applied + f.rows),
            None => s.rows_applied,
        },
        documents_added: wrapped(
            s.documents_added + rebuilt_documents(rebuilt) + (match follow {
                Some(f) => f.documents_added as int,
                None => 0,
            }),
        ),
        last_seq: match follow {
            Some(f) => f.last_seq,
            None => s.last_seq,
        },
        last_rebuild_ms: if rebuilt.len() > 0 {
            rebuilt.last().elapsed_ms
        } else {
            s.last_rebuild_ms
        },
        last_error: None,
        last_activity: if rebuilt.len() > 0 || follow is Some {
            Some(now)
        } else {
            s.last_activity
        },
        rebuilding: s.rebuilding,
    }
}

/// Where the follower goes on.
pub open spec fn next_step(outbox_pending: u64) -> FollowStep {
    if outbox_pending > 0 {
        FollowStep::Again
    } else {
        FollowStep::WaitForWrite
    }
}

/// An iteration adds what it did to what was done: its rebuilds, and of its batch
/// the rows and the documents; it follows on to where the batch ended, clears
/// the last error, and counts as activity exactly if it did anything. The next
/// one follows at once while changes are left.
pub proof fn law_an_iteration_adds_what_it_did(
    s: FollowerStatus,
    rebuilt: Seq<Rebuild>,
    one: Rebuild,
    f: Follow,
    now: Instant,
    pending: u64,
)
    requires
        s.rebuilds + rebuilt.len() + 1 <= u64::MAX,
        s.documents_added + rebuilt_documents(rebuilt) + one.documents + f.documents_added
            <= u64::MAX,
        s.rows_applied + f.rows <= u64::MAX,
    ensures
        ({
            let quiet = followed(s, Seq::empty(), None, now);
            let busy = followed(s, rebuilt, Some(f), now);
            let more = followed(s, rebuilt.push(one), Some(f), now);
            &&& quiet == (FollowerStatus { last_error: None, ..s })
            &&& busy.rebuilds == s.rebuilds + rebuilt.len()
            &&& busy.rows_applied == s.rows_applied + f.rows
            &&& busy.last_seq == f.last_seq
            &&& busy.last_error is None && busy.last_activity == Some(now)
            &&& more.documents_added == busy.documents_added + one.documents
            &&& more.rebuilds == busy.rebuilds + 1
            &&& more.last_rebuild_ms == one.elapsed_ms
            &&& followed(s, Seq::empty(), Some(f), now).documents_added == s.documents_added
                + f.documents_added
            &&& followed(s, rebuilt, None, now).last_seq == s.last_seq
        }),
        next_step(pending) == FollowStep::Again <==> pending > 0,
        next_step(pending) == FollowStep::WaitForWrite <==> pending == 0,
{
    assert(rebuilt.push(one).drop_last() =~= rebuilt);
    assert(rebuilt_documents(Seq::<Rebuild>::empty()) == 0);
}

/// What the follower does next.
#[derive(Debug, Clone, Copy, PartialEq, Eq, Structural)]
pub enum FollowStep {
    /// Another iteration at once.
    Again,
    Pause { ms: u64 },
    /// Wait for a write after the sequence number seen before the iteration.
    WaitForWrite,
}

proof fn lemma_wrapped_steps(a: int, b: int, c: int)
    ensures
        wrapped(wrapped(a + b) + c) == wrapped(a + b + c),
{
    let m = 0x1_0000_0000_0000_0000;
    assert(((a + b) % m + c) % m == (a + b + c) % m) by (nonlinear_arith)
        requires
            m == 0x1_0000_0000_0000_0000,
    ;
}

impl FollowerStatus {
    /// An iteration starts.
    pub fn begin(&mut self)
        ensures
            *final(self) == (FollowerStatus {
                iterations: wrapped(old(self).iterations + 1),
                ..*old(self)
            }),
    {
        self.iterations = self.iterations.wrapping_add(1);
    }

    /// An iteration failed. What it had counted stays.
    pub fn failed(&mut self, error: String) -> (r: FollowStep)
        ensures
            *final(self) == (FollowerStatus { last_error: Some(error), ..*old(self) }),
            r == (FollowStep::Pause { ms: FAILURE_PAUSE_MS }),
    {
        self.last_error = Some(error);
        FollowStep::Pause { ms: FAILURE_PAUSE_MS }
    }

    /// An iteration succeeded: it rebuilt some sources and then indexed a
    /// batch of changes, if there was one. A batch-limited drain leaves rows
    /// pending, and then the next iteration follows at once.
    pub fn succeeded(
        &mut self,
        rebuilt: &Vec<Rebuild>,
        follow: Option<Follow>,
        now: Instant,
        outbox_pending: u64,
    ) -> (r: FollowStep)
        ensures
            r == next_step(outbox_pending),
            *final(self) == followed(*old(self), rebuilt@, follow, now),
    {
        let mut i: usize = 0;
        assert(rebuilt@.take(0) =~= Seq::<Rebuild>::empty());
        while i < rebuilt.len()
            invariant
                0 <= i <= rebuilt.len(),
                self.iterations == old(self).iterations,
                self.rows_applied == old(self).rows_applied,
                self.last_seq == old(self).last_seq,
                self.rebuilding == old(self).rebuilding,
                self.rebuilds == wrapped(old(self).rebuilds + i),
                self.documents_added == wrapped(
                    old(self).documents_added + rebuilt_documents(rebuilt@.take(i as int)),
                ),
                self.last_rebuild_ms == (if i > 0 {
                    rebuilt@[i - 1].elapsed_ms
                } else {
                    old(self).last_rebuild_ms
                }),
                self.last_activity == (if i > 0 {
                    Some(now)
                } else {
                    old(self).last_activity
                }),
            decreases rebuilt.len() - i,
        {
            proof {
                lemma_wrapped_steps(old(self).rebuilds as int, i as int, 1);
                lemma_wrapped_steps(
                    old(self).documents_added as int,
                    rebuilt_documents(rebuilt@.take(i as int)) as int,
                    rebuilt@[i as int].documents as int,
                );
                assert(rebuilt@.take(i + 1).drop_last() =~= rebuilt@.take(i as int));
            }
            self.rebuilds = self.rebuilds.wrapping_add(1);
            self.last_rebuild_ms = rebuilt[i].elapsed_ms;
            self.documents_added = self.documents_added.wrapping_add(rebuilt[i].documents);
            self.last_activity = Some(now);
            i += 1;
        }
        assert(rebuilt@.take(i as int) =~= rebuilt@);
        if let Some(f) = follow {
            proof {
                lemma_wrapped_steps(
                    old(self).documents_added as int,
                    rebuilt_documents(rebuilt@) as int,
                    f.documents_added as int,
                );
            }
            self.rows_applied = self.rows_applied.wrapping_add(f.rows);
            self.documents_added = self.documents_added.wrapping_add(f.documents_added);
            self.last_seq = f.last_seq;
            self.last_activity = Some(now);
        }
        self.last_error = None;
        if outbox_pending > 0 {
            FollowStep::Again
        } else {
            FollowStep::WaitForWrite
        }
    }

    pub fn view(&self, now: Instant, index_documents: u64, outbox_pending: u64) -> (r: FollowerView)
        ensures
            r.iterations == self.iterations,
            r.rebuilds == self.rebuilds,
            r.rows_applied == self.rows_applied,
            r.documents_added == self.documents_added,
            r.last_seq == self.last_seq,
            r.last_rebuild_ms == self.last_rebuild_ms,
            opt_text(r.last_error) == opt_text(self.last_error),
            r.last_activity_ms_ago == (match self.last_activity {
                Some(at) => Some((now.spec_since(at) / NANOS_PER_MS) as u64),
                None => None,
            }),
            r.rebuilding_source == self.rebuilding,
            r.index_documents == index_documents,
            r.outbox_pending == outbox_pending,
    {
        FollowerView {
            iterations: self.iterations,
            rebuilds: self.rebuilds,
            rows_applied: self.rows_applied,
            documents_added: self.documents_added,
            last_seq: self.last_seq,
            last_rebuild_ms: self.last_rebuild_ms,
            last_error: copy_opt(&self.last_error),
            last_activity_ms_ago: match self.last_activity {
                Some(at) => Some(now.since(at) / NANOS_PER_MS),
                None => None,
            },
            rebuilding_source: self.rebuilding,
            index_documents,
            outbox_pending,
        }
    }
}

} // verus!
