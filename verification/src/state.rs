//! Shared service state: what startup repairs and decides, and the
//! reconciliations that wait.

use crate::domain::{SourceId, SourceKind, SourceState, UnixNanos};
use crate::source_map::SourceMap;
use vstd::prelude::*;
use vstd::string::*;

verus! {

/// Why an automatic reconciliation is waiting and the earliest time the
/// scheduler will reconsider it. Manual scans intentionally ignore content
/// deferrals, but never overlap another scan generation.
#[derive(Debug)]
pub struct ReconciliationDeferral {
    pub reason: String,
    pub next_eligible_at: UnixNanos,
}

pub struct DeferralModel {
    pub reason: Seq<char>,
    pub next_eligible_at: UnixNanos,
}

impl View for ReconciliationDeferral {
    type V = DeferralModel;

    open spec fn view(&self) -> DeferralModel {
        DeferralModel { reason: self.reason@, next_eligible_at: self.next_eligible_at }
    }
}

impl ReconciliationDeferral {
    pub fn copy(&self) -> (r: ReconciliationDeferral)
        ensures
            r@ == self@,
    {
        ReconciliationDeferral {
            reason: self.reason.clone(),
            next_eligible_at: self.next_eligible_at,
        }
    }
}

#[derive(Debug, Clone, Copy, PartialEq, Eq, Structural)]
pub enum ReconciliationDeferralCause {
    Scan,
    Content,
}

#[derive(Debug)]
pub struct StoredReconciliationDeferral {
    pub view: ReconciliationDeferral,
    pub cause: ReconciliationDeferralCause,
}

/// A remembered deferral and what caused it.
pub type StoredModel = (DeferralModel, ReconciliationDeferralCause);

/// The remembered deferral of each source that has one.
pub struct Deferrals {
    pub table: SourceMap<StoredReconciliationDeferral>,
}

impl View for Deferrals {
    type V = Map<i64, StoredModel>;

    open spec fn view(&self) -> Map<i64, StoredModel> {
        self.table@.map_values(|s: StoredReconciliationDeferral| (s.view@, s.cause))
    }
}

impl Deferrals {
    pub open spec fn wf(&self) -> bool {
        self.table.wf()
    }

    pub fn new() -> (r: Deferrals)
        ensures
            r.wf(),
            r@ == Map::<i64, StoredModel>::empty(),
    {
        let r = Deferrals { table: SourceMap::new() };
        assert(r@ =~= Map::empty());
        r
    }

    pub fn reconciliation_deferral(&self, id: SourceId) -> (r: Option<ReconciliationDeferral>)
        requires
            self.wf(),
        ensures
            r is Some <==> self@.dom().contains(id.0),
            r matches Some(d) ==> d@ == self@[id.0].0,
    {
        match self.table.get(id.0) {
            Some(stored) => Some(stored.view.copy()),
            None => None,
        }
    }

    pub fn scheduled_reconciliation_deferral(&self, id: SourceId) -> (r: Option<
        (ReconciliationDeferral, ReconciliationDeferralCause),
    >)
        requires
            self.wf(),
        ensures
            r is Some <==> self@.dom().contains(id.0),
            r matches Some(d) ==> (d.0@, d.1) == self@[id.0],
    {
        match self.table.get(id.0) {
            Some(stored) => Some((stored.view.copy(), stored.cause)),
            None => None,
        }
    }

    pub fn defer_reconciliation(
        &mut self,
        id: SourceId,
        view: ReconciliationDeferral,
        cause: ReconciliationDeferralCause,
    )
        requires
            old(self).wf(),
        ensures
            final(self).wf(),
            final(self)@ == old(self)@.insert(id.0, (view@, cause)),
    {
        self.table.insert(id.0, StoredReconciliationDeferral { view, cause });
        assert(self@ =~= old(self)@.insert(id.0, (view@, cause)));
    }

    pub fn clear_reconciliation_deferral(&mut self, id: SourceId)
        requires
            old(self).wf(),
        ensures
            final(self).wf(),
            final(self)@ == old(self)@.remove(id.0),
    {
        let _ = self.table.remove(id.0);
        assert(self@ =~= old(self)@.remove(id.0));
    }
}

/// Durable work repaired synchronously by the most recent service open.
/// These counters stay fixed for the process lifetime so operators can see
/// what startup changed even after workers have drained the recovered queue.
#[derive(Debug, Clone, Copy, PartialEq, Eq, Structural)]
pub struct StartupRecovery {
    pub aborted_scan_generations: u64,
    pub requeued_running_jobs: u64,
    pub requeued_unfinished_content: u64,
}

/// Why the content index is rebuilt from stored chunks at startup.
#[derive(Debug, Clone, Copy, PartialEq, Eq, Structural)]
pub enum RebuildReason {
    /// A previous rebuild did not finish.
    Unfinished,
    /// The index is empty although the catalog holds chunks.
    Empty,
}

/// What opening the service found.
#[derive(Debug, Clone, Copy, PartialEq, Eq, Structural)]
pub struct StartupFacts {
    pub aborted_generations: u64,
    pub requeued_running_jobs: u64,
    pub requeued_unfinished_content: u64,
    pub index_rebuilding: bool,
    pub index_fresh: bool,
    pub stored_chunks: u64,
    pub configured_workers: usize,
    /// The operator's durable override of the worker count.
    pub workers_override: Option<usize>,
    pub export_concurrency: usize,
    pub admission_concurrency: usize,
}

/// What opening the service settles before anything is advertised.
#[derive(Debug, Clone, Copy, PartialEq, Eq, Structural)]
pub struct StartupPlan {
    pub recovery: StartupRecovery,
    pub rebuild: Option<RebuildReason>,
    pub content_worker_count: usize,
    pub export_concurrency: usize,
}

/// An export holds at most one admission permit at a time. When the shared
/// gate has several slots, the export bound stays strictly below it.
pub open spec fn export_bound(wanted: usize, gate: usize) -> usize {
    let below = if gate > 0 {
        (gate - 1) as usize
    } else {
        0
    };
    let capped = if wanted < below {
        wanted
    } else {
        below
    };
    if capped < 1 {
        1
    } else {
        capped
    }
}

/// Decide how the service opens.
///
/// A (re)created content index holds nothing, and an unfinished rebuild leaves
/// a partial one. The catalog keeps every chunk's text, so the index is rebuilt
/// from storage instead of re-reading the sources.
pub fn startup_plan(facts: StartupFacts) -> (r: StartupPlan)
    ensures
        r.recovery == (StartupRecovery {
            aborted_scan_generations: facts.aborted_generations,
            requeued_running_jobs: facts.requeued_running_jobs,
            requeued_unfinished_content: facts.requeued_unfinished_content,
        }),
        r.rebuild == Some(RebuildReason::Unfinished) <==> facts.index_rebuilding,
        r.rebuild == Some(RebuildReason::Empty) <==> !facts.index_rebuilding && facts.index_fresh
            && facts.stored_chunks > 0,
        r.content_worker_count == (match facts.workers_override {
            Some(n) => n,
            None => facts.configured_workers,
        }),
        r.export_concurrency == export_bound(
            facts.export_concurrency,
            facts.admission_concurrency,
        ),
{
    let rebuild: Option<RebuildReason> = if facts.index_rebuilding {
        Some(RebuildReason::Unfinished)
    } else if facts.index_fresh && facts.stored_chunks > 0 {
        Some(RebuildReason::Empty)
    } else {
        None
    };
    let below: usize = if facts.admission_concurrency > 0 {
        facts.admission_concurrency - 1
    } else {
        0
    };
    let capped: usize = if facts.export_concurrency < below {
        facts.export_concurrency
    } else {
        below
    };
    StartupPlan {
        recovery: StartupRecovery {
            aborted_scan_generations: facts.aborted_generations,
            requeued_running_jobs: facts.requeued_running_jobs,
            requeued_unfinished_content: facts.requeued_unfinished_content,
        },
        rebuild,
        content_worker_count: match facts.workers_override {
            Some(n) => n,
            None => facts.configured_workers,
        },
        export_concurrency: if capped < 1 {
            1
        } else {
            capped
        },
    }
}

/// However the service is configured, exports leave interactive work a slot of
/// any gate that has more than one.
pub proof fn law_exports_leave_a_slot(wanted: usize, gate: usize)
    ensures
        export_bound(wanted, gate) >= 1,
        gate > 1 ==> export_bound(wanted, gate) < gate,
        1 <= wanted < gate ==> export_bound(wanted, gate) == wanted,
        1 < gate <= wanted ==> export_bound(wanted, gate) == gate - 1,
{
}

/// What the catalog says of one source, as far as scheduling reads it.
#[derive(Debug, Clone, Copy, PartialEq, Eq, Structural)]
pub struct SourceFacts {
    pub id: SourceId,
    pub state: SourceState,
    pub kind: SourceKind,
    /// A generation of the source is published.
    pub published: bool,
    /// The stored checkpoint belongs to a native change feed.
    pub native_checkpoint: bool,
    pub content_enabled: bool,
    pub reconcile_interval_s: Option<i64>,
    pub last_scan_completed_at: Option<UnixNanos>,
}

/// Whether startup resumes the change-feed watcher of a source.
pub fn resumes_watching(s: &SourceFacts) -> (r: bool)
    ensures
        r == (s.published && (s.kind == SourceKind::WindowsLocal || s.kind
            == SourceKind::MacosLocal) && s.native_checkpoint && s.state != SourceState::Retired),
{
    s.published && (s.kind == SourceKind::WindowsLocal || s.kind == SourceKind::MacosLocal)
        && s.native_checkpoint && s.state != SourceState::Retired
}

/// How long the on-disk footprint stays cached.
pub const STORAGE_REFRESH_S: u64 = 15;

/// On-disk footprint of the catalog and both indexes.
#[derive(Debug, Clone, Copy, PartialEq, Eq, Structural)]
pub struct StorageView {
    pub catalog_db_bytes: u64,
    pub catalog_index_bytes: u64,
    pub content_index_bytes: u64,
}

/// The cached footprint, while it is young enough.
pub fn cached_storage(cache: Option<(u64, StorageView)>) -> (r: Option<StorageView>)
    ensures
        r == (match cache {
            Some((age_s, view)) => if age_s < STORAGE_REFRESH_S {
                Some(view)
            } else {
                None
            },
            None => None,
        }),
{
    match cache {
        Some((age_s, view)) => if age_s < STORAGE_REFRESH_S {
            Some(view)
        } else {
            None
        },
        None => None,
    }
}

/// `path` with `suffix` appended to the file name (`catalog.db` ->
/// `catalog.db-wal`), which replacing the extension cannot express.
pub fn with_suffix(path: &str, suffix: &str) -> (r: String)
    ensures
        r@ == path@ + suffix@,
{
    path.to_owned().concat(suffix)
}

/// The files that make up the catalog database.
pub fn catalog_files(db: &str) -> (r: Vec<String>)
    ensures
        r.len() == 3,
        r@[0]@ == db@,
        r@[1]@ == db@ + "-wal"@,
        r@[2]@ == db@ + "-shm"@,
{
    let mut r: Vec<String> = Vec::new();
    r.push(db.to_owned());
    r.push(with_suffix(db, "-wal"));
    r.push(with_suffix(db, "-shm"));
    r
}

} // verus!
