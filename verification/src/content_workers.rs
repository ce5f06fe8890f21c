//! Content worker pool: what a worker may claim, what becomes of each job, and
//! when the coordinator commits, publishes and tops the queue up.
//!
//! A worker never claims work it has not already paid for: capacity is
//! reserved before any job is marked running, and given back when the batch
//! ends, however it ends.
//!
//! Claiming is gated by independent conditions — the process switch, the
//! operator pause, an index rebuild that owns the writer, and whatever holds
//! new work back. All of them stop *new claims* only.

use crate::device_budget::{
    charged_devices, decides, granted, law_check_agrees_with_reservation, returned, settled,
    BudgetModel, DeviceLease, LeaseModel, WorkKind,
};
use crate::device_control::{ControlModel, DeviceControl};
use crate::domain::{Instant, ObjectId, SourceId, SourceKind, SourceState, NANOS_PER_SEC};
use crate::scanner::wrapped;
use crate::source_budget::{
    given_back, kept, taken, ReservationModel, SourceBudgets, SourceBudgetsModel, SourceReservation,
};
use crate::source_map::SourceMap;
use vstd::prelude::*;
use vstd::string::*;

verus! {

pub const COMMIT_INTERVAL_NS: u64 = 2 * NANOS_PER_SEC;

pub const COMMIT_DOCS: u64 = 20_000;

pub const ENQUEUE_INTERVAL_NS: u64 = 5 * NANOS_PER_SEC;

/// Keep at least this many jobs queued per enabled source.
pub const QUEUE_LOW_WATER: u64 = 2_000;

pub const ENQUEUE_BATCH: u32 = 10_000;

pub const IDLE_SLEEP_NS: u64 = 500_000_000;

/// One file per worker round trip: pause/shrink drains at most the current
/// file, never a preclaimed backlog of large files per worker.
pub const CLAIM_BATCH: u32 = 1;

/// Durable operator override for the pool size, next to the pause marker.
pub const WORKERS_MARKER: &'static str = "content-workers.json";

/// Upper bound of the pool size.
pub const MAX_WORKERS: usize = 64;

// ----- the pool size --------------------------------------------------------

pub open spec fn pool_size(asked: usize) -> usize {
    if asked < 1 {
        1
    } else if asked > MAX_WORKERS {
        MAX_WORKERS
    } else {
        asked
    }
}

/// A pool size moved into its bounds. An operator's durable override is taken
/// the same way.
pub fn clamp_workers(asked: usize) -> (r: usize)
    ensures
        r == pool_size(asked),
{
    if asked < 1 {
        1
    } else if asked > MAX_WORKERS {
        MAX_WORKERS
    } else {
        asked
    }
}

/// The pool's desired size and the threads that exist.
#[derive(Debug, Clone, Copy, PartialEq, Eq, Structural)]
pub struct WorkerPool {
    /// Desired pool size. A worker whose index is at or past this parks
    /// instead of claiming.
    pub workers: usize,
    /// Threads actually spawned this process. Never shrinks: surplus threads
    /// park until the pool grows over them again.
    pub spawned: usize,
}

/// What a worker does at the top of its loop.
#[derive(Debug, Clone, Copy, PartialEq, Eq, Structural)]
pub enum WorkerTurn {
    Stop,
    /// Only a control change can make this thread eligible again.
    ParkSurplus,
    Claim,
}

impl WorkerPool {
    /// The first thread that a resize to `target` lacks.
    pub open spec fn missing(self, target: usize) -> Option<usize> {
        if self.spawned < pool_size(target) {
            Some(self.spawned)
        } else {
            None
        }
    }

    /// The pool once `n` more threads exist.
    pub open spec fn with_threads(self, n: nat) -> WorkerPool {
        WorkerPool { spawned: (self.spawned + n) as usize, ..self }
    }

    pub open spec fn turn_of(self, index: usize, shutdown: bool) -> WorkerTurn {
        if shutdown {
            WorkerTurn::Stop
        } else if index >= self.workers {
            WorkerTurn::ParkSurplus
        } else {
            WorkerTurn::Claim
        }
    }

    /// The thread that a resize to `target` spawns next. New threads park
    /// behind the old desired size until the resize is committed.
    pub fn next_spawn(&self, target: usize) -> (r: Option<usize>)
        ensures
            r == self.missing(target),
    {
        if self.spawned < clamp_workers(target) {
            Some(self.spawned)
        } else {
            None
        }
    }

    /// The next thread exists. If a later spawn fails, a retry resumes at the
    /// first missing index instead of duplicating threads.
    pub fn thread_started(&mut self)
        requires
            old(self).spawned < usize::MAX,
        ensures
            *final(self) == old(self).with_threads(1),
    {
        self.spawned = self.spawned + 1;
    }

    /// Every thread and the durable marker are there: the new size is in
    /// force.
    pub fn commit(&mut self, target: usize) -> (r: usize)
        requires
            old(self).spawned >= pool_size(target),
        ensures
            r == pool_size(target),
            *final(self) == (WorkerPool { workers: r, ..*old(self) }),
    {
        let n = clamp_workers(target);
        self.workers = n;
        n
    }

    /// Shrinking never interrupts a claimed batch, and growth reuses the
    /// parked thread.
    pub fn turn(&self, index: usize, shutdown: bool) -> (r: WorkerTurn)
        ensures
            r == self.turn_of(index, shutdown),
    {
        if shutdown {
            WorkerTurn::Stop
        } else if index >= self.workers {
            WorkerTurn::ParkSurplus
        } else {
            WorkerTurn::Claim
        }
    }
}

/// A resize that stops halfway, however many threads it started, changes who
/// exists and not who may claim: every worker does what it did before. A retry
/// goes on at the first missing thread.
pub proof fn law_a_partial_grow_keeps_the_old_size(
    p: WorkerPool,
    target: usize,
    started: nat,
    index: usize,
    shutdown: bool,
)
    requires
        p.spawned + started < pool_size(target),
    ensures
        p.with_threads(started).workers == p.workers,
        p.with_threads(started).turn_of(index, shutdown) == p.turn_of(index, shutdown),
        p.with_threads(started).missing(target) == Some((p.spawned + started) as usize),
{
}

/// A pool has between one and sixty-four workers, as many as were asked for
/// where that is within bounds; a worker claims exactly if it is one of them and
/// the process goes on.
pub proof fn law_a_pool_is_as_large_as_asked(p: WorkerPool, asked: usize, index: usize)
    ensures
        1 <= pool_size(asked) <= 64,
        1 <= asked <= 64 ==> pool_size(asked) == asked,
        asked > 64 ==> pool_size(asked) == 64,
        p.turn_of(index, true) == WorkerTurn::Stop,
        p.turn_of(index, false) == WorkerTurn::Claim <==> index < p.workers,
        p.turn_of(index, false) != WorkerTurn::Stop,
        p.missing(asked) is Some <==> p.spawned < pool_size(asked),
{
}

// ----- claiming -------------------------------------------------------------

/// Why extraction waits after a failed publication.
pub const PUBLICATION_BLOCKED: &'static str =
    "content publication failed; extraction waits for the automatic retry (see last error)";

/// Why new work is held back: a failed publication comes first, then whatever
/// the resource limits say.
pub fn admission_blocked_reason(publication_blocked: bool, resources: Option<String>) -> (r: Option<
    String,
>)
    ensures
        if publication_blocked {
            r is Some && r->0@ == PUBLICATION_BLOCKED@
        } else {
            r == resources
        },
{
    if publication_blocked {
        Some(PUBLICATION_BLOCKED.to_owned())
    } else {
        resources
    }
}

/// Whether a worker may claim a new batch right now.
pub fn claiming_allowed(enabled: bool, paused: bool, rebuilding: bool, blocked: bool) -> (r: bool)
    ensures
        r == (enabled && !paused && !rebuilding && !blocked),
{
    enabled && !paused && !rebuilding && !blocked
}

/// One unit of a source's budget and one of its devices'.
pub struct ContentReservation {
    source: SourceReservation,
    device: DeviceLease,
}

impl ContentReservation {
    pub closed spec fn unit(&self) -> ReservationModel {
        self.source@
    }

    pub closed spec fn lease(&self) -> LeaseModel {
        self.device@
    }

    /// Count these units towards the reported high-water marks. The caller
    /// does this once the claim has committed, never before.
    pub fn confirm(&mut self, budgets: &mut SourceBudgets)
        requires
            old(budgets).wf(),
            old(budgets)@.live.contains(old(self).unit()),
        ensures
            final(budgets).wf(),
            final(budgets)@ == kept(old(budgets)@, old(self).unit()),
            final(self).unit() == (ReservationModel { confirmed: true, ..old(self).unit() }),
            final(self).lease() == old(self).lease(),
            final(budgets)@.live.contains(final(self).unit()),
    {
        self.source.confirm(budgets);
    }

    pub fn source(&self) -> (r: SourceId)
        ensures
            r.0 == self.unit().source,
    {
        self.source.source()
    }

    /// Give both units back.
    pub fn release(self, budgets: &mut SourceBudgets, devices: &mut DeviceControl)
        requires
            old(budgets).wf(),
            old(budgets)@.live.contains(self.unit()),
            old(devices).wf(),
            old(devices).model().budget.live.contains(self.lease()),
        ensures
            final(budgets).wf(),
            final(budgets)@ == given_back(old(budgets)@, self.unit()),
            final(devices).wf(),
            final(devices).spec_probe() == old(devices).spec_probe(),
            final(devices).model() == (ControlModel {
                budget: settled(returned(old(devices).model().budget, self.lease())),
                ..old(devices).model()
            }),
    {
        budgets.release(self.source);
        devices.release(self.device);
    }
}

/// Whether every gate lets one file of a source be claimed.
pub open spec fn admits_source(
    scanning: bool,
    devices: BudgetModel,
    budgets: SourceBudgetsModel,
    source: SourceId,
) -> bool {
    &&& !scanning
    &&& decides(devices, source.0, WorkKind::Content, 1, Ok(1))
    &&& budgets.slot(source).admits()
}

/// A file is claimed exactly if its source is not being scanned, has a budget
/// that is not used up, and every device that it is on has room, with no change
/// of devices under way.
pub proof fn law_every_gate_has_to_open(
    scanning: bool,
    devices: BudgetModel,
    budgets: SourceBudgetsModel,
    source: SourceId,
    device: Seq<char>,
)
    requires
        devices.topology.dom().contains(source.0),
        charged_devices(devices.topology, source.0).contains(device),
    ensures
        admits_source(scanning, devices, budgets, source) ==> !scanning && devices.pending is None
            && devices.usage[device].content + devices.usage[device].scan < devices.limit
            && budgets.slot(source).budget is Some && budgets.slot(source).reserved < budgets.slot(
            source,
        ).budget->0,
        !scanning && devices.pending is None && (forall|k: Seq<char>| #[trigger]
            charged_devices(devices.topology, source.0).contains(k) ==> devices.usage[k].content
                + devices.usage[k].scan < devices.limit) && budgets.slot(source).budget is Some
            && budgets.slot(source).reserved < budgets.slot(source).budget->0 ==> admits_source(
            scanning,
            devices,
            budgets,
            source,
        ),
{
}

/// Reserve one unit of a source's budget and of its devices, or nothing.
///
/// A source that is being scanned admits nothing. The shared-device gate is
/// checked before the source budget is charged: a device refusal holds every
/// source at once, and a source unit taken and immediately given back would
/// describe work that the device gate is what actually held.
pub fn admit_content(
    scanning: bool,
    devices: &mut DeviceControl,
    budgets: &mut SourceBudgets,
    source: SourceId,
    now: Instant,
) -> (r: Option<ContentReservation>)
    requires
        old(devices).wf(),
        old(budgets).wf(),
    ensures
        final(devices).wf(),
        final(budgets).wf(),
        final(devices).spec_probe() == old(devices).spec_probe(),
        ({
            let m = if scanning {
                old(devices).model()
            } else {
                old(devices).model().expired(now)
            };
            &&& r is Some <==> admits_source(scanning, m.budget, old(budgets)@, source)
            &&& r matches Some(c) ==> {
                &&& c.unit() == (ReservationModel { source: source.0, confirmed: false })
                &&& c.lease().kind == WorkKind::Content
                &&& c.lease().units == 1
                &&& c.lease().devices == charged_devices(m.budget.topology, source.0)
                &&& final(budgets)@ == taken(old(budgets)@, source)
                &&& final(budgets)@.live.contains(c.unit())
                &&& final(devices).model() == (ControlModel {
                    budget: granted(m.budget, c.lease()),
                    ..m
                })
                &&& final(devices).model().budget.live.contains(c.lease())
            }
            &&& r is None ==> {
                &&& final(devices).model() == m
                &&& final(budgets)@.live == old(budgets)@.live
                &&& forall|id: SourceId| #[trigger]
                    final(budgets)@.slot(id) == old(budgets)@.slot(id)
            }
        }),
{
    if scanning {
        return None;
    }
    let ghost before = old(devices).model();
    match devices.would_admit(source.0, WorkKind::Content, 1, now) {
        Err(e) => {
            proof {
                let m = devices.model().budget;
                if decides(m, source.0, WorkKind::Content, 1, Ok(1)) {
                    law_check_agrees_with_reservation(
                        m,
                        source.0,
                        WorkKind::Content,
                        1,
                        Ok(1),
                        Err(e),
                    );
                }
            }
            return None;
        },
        Ok(units) => {
            assert(units == 1);
        },
    }
    let unit = match budgets.try_reserve(source) {
        None => {
            return None;
        },
        Some(u) => u,
    };
    assert(before.expired(now).expired(now) == before.expired(now));
    match devices.try_reserve(source.0, WorkKind::Content, 1, now) {
        Err(e) => {
            proof {
                law_check_agrees_with_reservation(
                    devices.model().budget,
                    source.0,
                    WorkKind::Content,
                    1,
                    Ok(1),
                    Err(e),
                );
            }
            budgets.release(unit);
            None
        },
        Ok(lease) => {
            proof {
                let m = devices.model().budget;
                assert(m.live[m.live.len() - 1] == lease@);
                assert(m.live.contains(lease@));
            }
            Some(ContentReservation { source: unit, device: lease })
        },
    }
}

// ----- jobs -----------------------------------------------------------------

/// What the pool has done since the process started.
#[derive(Debug, Clone, Copy, PartialEq, Eq, Structural)]
pub struct WorkerTotals {
    pub files_indexed: u64,
    pub files_unsupported: u64,
    pub files_failed: u64,
    pub files_skipped: u64,
    pub files_retried: u64,
    pub bytes_read: u64,
    pub chunks_written: u64,
}

impl WorkerTotals {
    pub open spec fn zero() -> WorkerTotals {
        WorkerTotals {
            files_indexed: 0,
            files_unsupported: 0,
            files_failed: 0,
            files_skipped: 0,
            files_retried: 0,
            bytes_read: 0,
            chunks_written: 0,
        }
    }
}

impl Default for WorkerTotals {
    fn default() -> (r: WorkerTotals)
        ensures
            r == WorkerTotals::zero(),
    {
        WorkerTotals {
            files_indexed: 0,
            files_unsupported: 0,
            files_failed: 0,
            files_skipped: 0,
            files_retried: 0,
            bytes_read: 0,
            chunks_written: 0,
        }
    }
}

/// What to do with one claimed job before it is processed.
#[derive(Debug, Clone, Copy, PartialEq, Eq, Structural)]
pub enum JobStart {
    /// The service stops: leave the rest running; start-up queues them again.
    LeaveRest,
    /// There is nothing to extract: complete the job.
    Complete,
    Process(ObjectId),
}

pub fn start_job(shutdown: bool, object: Option<ObjectId>) -> (r: JobStart)
    ensures
        r == (if shutdown {
            JobStart::LeaveRest
        } else {
            match object {
                Some(o) => JobStart::Process(o),
                None => JobStart::Complete,
            }
        }),
{
    if shutdown {
        return JobStart::LeaveRest;
    }
    match object {
        Some(o) => JobStart::Process(o),
        None => JobStart::Complete,
    }
}

/// Why a job failed, as far as retrying goes.
#[derive(Debug, Clone, Copy, PartialEq, Eq, Structural)]
pub enum FailureClass {
    Transient,
    Deterministic,
    Corrupt,
    Unsupported,
}

/// What extraction came back with.
#[derive(Debug)]
pub enum ProcessResult {
    Indexed { bytes: u64, chunks: u32 },
    /// Settled without text; `failed` says that extraction failed for good.
    Done { failed: bool, bytes: u64 },
    Skipped,
    Disabled,
    Retry { class: FailureClass, error: String },
    /// The pipeline itself failed.
    Broken(String),
}

/// What to do with a processed job.
#[derive(Debug)]
pub enum JobAction {
    /// The pipeline has settled it.
    Nothing,
    /// Publish the object after the next index commit.
    Publish(ObjectId),
    Complete,
    Delete,
    Fail { class: FailureClass, error: String },
}

/// What a result adds to the totals.
pub open spec fn counted(t: WorkerTotals, result: ProcessResult) -> WorkerTotals {
    match result {
        ProcessResult::Indexed { bytes, chunks } => WorkerTotals {
            files_indexed: wrapped(t.files_indexed + 1),
            bytes_read: wrapped(t.bytes_read + bytes),
            chunks_written: wrapped(t.chunks_written + chunks),
            ..t
        },
        ProcessResult::Done { failed, bytes } => WorkerTotals {
            files_failed: if failed {
                wrapped(t.files_failed + 1)
            } else {
                t.files_failed
            },
            files_unsupported: if failed {
                t.files_unsupported
            } else {
                wrapped(t.files_unsupported + 1)
            },
            bytes_read: wrapped(t.bytes_read + bytes),
            ..t
        },
        ProcessResult::Skipped => WorkerTotals {
            files_skipped: wrapped(t.files_skipped + 1),
            ..t
        },
        ProcessResult::Disabled => t,
        ProcessResult::Retry { .. } | ProcessResult::Broken(_) => WorkerTotals {
            files_retried: wrapped(t.files_retried + 1),
            ..t
        },
    }
}

/// What becomes of a processed job.
pub open spec fn action_of(object: ObjectId, result: ProcessResult) -> JobAction {
    match result {
        ProcessResult::Indexed { .. } => JobAction::Publish(object),
        ProcessResult::Done { .. } => JobAction::Nothing,
        ProcessResult::Skipped => JobAction::Complete,
        ProcessResult::Disabled => JobAction::Delete,
        ProcessResult::Retry { class, error } => JobAction::Fail { class, error },
        ProcessResult::Broken(error) => JobAction::Fail { class: FailureClass::Transient, error },
    }
}

/// What was indexed is published, what failed goes back with its own class and
/// error, what the pipeline broke on is tried again, and only what has become
/// disabled is dropped.
pub proof fn law_no_indexed_file_is_left_out(object: ObjectId, result: ProcessResult)
    ensures
        result is Indexed <==> action_of(object, result) is Publish,
        action_of(object, result) matches JobAction::Publish(o) ==> o == object,
        action_of(object, result) is Fail <==> result is Retry || result is Broken,
        result matches ProcessResult::Retry { class, error } ==> action_of(object, result) == (
        JobAction::Fail { class, error }),
        result matches ProcessResult::Broken(error) ==> action_of(object, result) == (
        JobAction::Fail { class: FailureClass::Transient, error }),
        action_of(object, result) is Delete <==> result is Disabled,
        action_of(object, result) is Complete <==> result is Skipped,
{
}

/// A processed file is counted once, under what became of it, and its bytes with
/// it; a disabled one is not counted.
pub proof fn law_each_file_is_counted_once(t: WorkerTotals, result: ProcessResult)
    requires
        t.files_indexed < u64::MAX,
        t.files_unsupported < u64::MAX,
        t.files_failed < u64::MAX,
        t.files_skipped < u64::MAX,
        t.files_retried < u64::MAX,
        result matches ProcessResult::Indexed { bytes, chunks } ==> t.bytes_read + bytes <= u64::MAX
            && t.chunks_written + chunks <= u64::MAX,
        result matches ProcessResult::Done { bytes, .. } ==> t.bytes_read + bytes <= u64::MAX,
    ensures
        ({
            let r = counted(t, result);
            &&& r.files_indexed + r.files_unsupported + r.files_failed + r.files_skipped
                + r.files_retried == t.files_indexed + t.files_unsupported + t.files_failed
                + t.files_skipped + t.files_retried + (if result is Disabled {
                0int
            } else {
                1int
            })
            &&& result is Indexed <==> r.files_indexed == t.files_indexed + 1
            &&& result is Skipped <==> r.files_skipped == t.files_skipped + 1
            &&& result is Retry || result is Broken <==> r.files_retried == t.files_retried + 1
            &&& (result matches ProcessResult::Done { failed, .. } && failed) <==> r.files_failed
                == t.files_failed + 1
            &&& result matches ProcessResult::Indexed { bytes, chunks } ==> r.bytes_read
                == t.bytes_read + bytes && r.chunks_written == t.chunks_written + chunks
            &&& result matches ProcessResult::Done { bytes, .. } ==> r.bytes_read == t.bytes_read
                + bytes
        }),
{
}

/// Account for one processed job and say what becomes of it. A pipeline error
/// is retried like a transient failure.
pub fn settle_job(totals: &mut WorkerTotals, object: ObjectId, result: ProcessResult) -> (r:
    JobAction)
    ensures
        *final(totals) == counted(*old(totals), result),
        r == action_of(object, result),
{
    match result {
        ProcessResult::Indexed { bytes, chunks } => {
            totals.files_indexed = totals.files_indexed.wrapping_add(1);
            totals.bytes_read = totals.bytes_read.wrapping_add(bytes);
            totals.chunks_written = totals.chunks_written.wrapping_add(chunks as u64);
            JobAction::Publish(object)
        },
        ProcessResult::Done { failed, bytes } => {
            if failed {
                totals.files_failed = totals.files_failed.wrapping_add(1);
            } else {
                totals.files_unsupported = totals.files_unsupported.wrapping_add(1);
            }
            totals.bytes_read = totals.bytes_read.wrapping_add(bytes);
            JobAction::Nothing
        },
        ProcessResult::Skipped => {
            totals.files_skipped = totals.files_skipped.wrapping_add(1);
            JobAction::Complete
        },
        ProcessResult::Disabled => JobAction::Delete,
        ProcessResult::Retry { class, error } => {
            totals.files_retried = totals.files_retried.wrapping_add(1);
            JobAction::Fail { class, error }
        },
        ProcessResult::Broken(error) => {
            totals.files_retried = totals.files_retried.wrapping_add(1);
            JobAction::Fail { class: FailureClass::Transient, error }
        },
    }
}

// ----- throughput -----------------------------------------------------------

/// One read: when, and how many bytes.
#[derive(Debug, Clone, Copy, PartialEq, Eq, Structural)]
pub struct Sample {
    pub at: Instant,
    pub bytes: u64,
}

pub const THROUGHPUT_WINDOW_NS: u64 = 60 * NANOS_PER_SEC;

/// The samples that are left once those that have aged out at the front are
/// dropped.
pub open spec fn pruned(s: Seq<Sample>, now: Instant) -> Seq<Sample>
    decreases s.len(),
{
    if s.len() > 0 && now.spec_since(s[0].at) > THROUGHPUT_WINDOW_NS {
        pruned(s.subrange(1, s.len() as int), now)
    } else {
        s
    }
}

/// Remember a read and forget those older than a minute.
pub fn record_sample(samples: &mut Vec<Sample>, bytes: u64, now: Instant)
    ensures
        final(samples)@ == pruned(old(samples)@.push(Sample { at: now, bytes }), now),
{
    samples.push(Sample { at: now, bytes });
    let ghost all = samples@;
    while samples.len() > 0 && now.since(samples[0].at) > THROUGHPUT_WINDOW_NS
        invariant
            pruned(samples@, now) == pruned(all, now),
        decreases samples.len(),
    {
        let ghost before = samples@;
        let _ = samples.remove(0);
        assert(samples@ =~= before.subrange(1, before.len() as int));
    }
}

/// Forgetting drops reads from the front, all of them older than a minute, and
/// stops at the first that is not.
pub proof fn law_only_old_reads_are_forgotten(s: Seq<Sample>, now: Instant)
    ensures
        ({
            let r = pruned(s, now);
            let gone = s.len() - r.len();
            &&& 0 <= gone && r == s.skip(gone)
            &&& forall|i: int|
                0 <= i < gone ==> now.spec_since((#[trigger] s[i]).at) > 60_000_000_000
            &&& r.len() > 0 ==> now.spec_since(r[0].at) <= 60_000_000_000
        }),
    decreases s.len(),
{
    if s.len() > 0 && now.spec_since(s[0].at) > THROUGHPUT_WINDOW_NS {
        let t = s.subrange(1, s.len() as int);
        law_only_old_reads_are_forgotten(t, now);
        let r = pruned(s, now);
        let gone = s.len() - r.len();
        assert(t.skip(gone - 1) =~= s.skip(gone));
        assert forall|i: int| 0 <= i < gone implies now.spec_since((#[trigger] s[i]).at)
            > 60_000_000_000 by {
            if i > 0 {
                assert(t[i - 1] == s[i]);
            }
        }
    } else {
        assert(s.skip(0) =~= s);
    }
}

/// Bytes read within the last minute.
pub open spec fn recent_bytes(s: Seq<Sample>, now: Instant) -> nat
    decreases s.len(),
{
    if s.len() == 0 {
        0
    } else {
        recent_bytes(s.drop_last(), now) + (if now.spec_since(s.last().at)
            <= THROUGHPUT_WINDOW_NS {
            s.last().bytes as nat
        } else {
            0
        })
    }
}

proof fn lemma_recent_bytes_grow(s: Seq<Sample>, k: int, now: Instant)
    requires
        0 <= k <= s.len(),
    ensures
        recent_bytes(s.take(k), now) <= recent_bytes(s, now),
    decreases s.len() - k,
{
    if k < s.len() {
        lemma_recent_bytes_grow(s, k + 1, now);
        assert(s.take(k + 1).drop_last() =~= s.take(k));
    } else {
        assert(s.take(k) =~= s);
    }
}

/// Bytes read within the last minute, and the time they are spread over: since
/// the oldest sample, within one second and one minute.
pub fn throughput(samples: &Vec<Sample>, now: Instant) -> (r: (u64, u64))
    requires
        recent_bytes(samples@, now) <= u64::MAX,
    ensures
        r.0 == recent_bytes(samples@, now),
        r.1 == throughput_span(samples@, now),
{
    let mut total: u64 = 0;
    let mut i: usize = 0;
    while i < samples.len()
        invariant
            0 <= i <= samples.len(),
            recent_bytes(samples@, now) <= u64::MAX,
            total == recent_bytes(samples@.take(i as int), now),
        decreases samples.len() - i,
    {
        assert(samples@.take(i + 1).drop_last() =~= samples@.take(i as int));
        proof {
            lemma_recent_bytes_grow(samples@, i + 1, now);
        }
        if now.since(samples[i].at) <= THROUGHPUT_WINDOW_NS {
            total = total + samples[i].bytes;
        }
        i += 1;
    }
    assert(samples@.take(i as int) =~= samples@);
    let age: u64 = if samples.len() > 0 {
        now.since(samples[0].at)
    } else {
        0
    };
    let capped: u64 = if age > THROUGHPUT_WINDOW_NS {
        THROUGHPUT_WINDOW_NS
    } else {
        age
    };
    let span: u64 = if capped < NANOS_PER_SEC {
        NANOS_PER_SEC
    } else {
        capped
    };
    (total, span)
}

pub open spec fn throughput_span(s: Seq<Sample>, now: Instant) -> u64 {
    let age = if s.len() > 0 {
        now.spec_since(s[0].at)
    } else {
        0
    };
    if age > THROUGHPUT_WINDOW_NS {
        THROUGHPUT_WINDOW_NS
    } else if age < NANOS_PER_SEC {
        NANOS_PER_SEC
    } else {
        age
    }
}

/// A read counts with its bytes while it is at most a minute old, and not
/// after; the time that reads are spread over is that since the oldest, but at
/// least a second and at most a minute.
pub proof fn law_recent_reads_add_up(s: Seq<Sample>, next: Sample, now: Instant)
    ensures
        recent_bytes(Seq::empty(), now) == 0,
        recent_bytes(s.push(next), now) == recent_bytes(s, now) + (if now.spec_since(next.at)
            <= 60_000_000_000 {
            next.bytes as int
        } else {
            0
        }),
        1_000_000_000 <= throughput_span(s, now) <= 60_000_000_000,
        s.len() > 0 && 1_000_000_000 <= now.spec_since(s[0].at) <= 60_000_000_000
            ==> throughput_span(s, now) == now.spec_since(s[0].at),
        s.len() > 0 && now.spec_since(s[0].at) > 60_000_000_000 ==> throughput_span(s, now)
            == 60_000_000_000,
        s.len() == 0 || now.spec_since(s[0].at) < 1_000_000_000 ==> throughput_span(s, now)
            == 1_000_000_000,
{
    assert(s.push(next).drop_last() =~= s);
}

// ----- publication ----------------------------------------------------------

/// Objects that wait to be published, and what stands in their way.
pub struct Publication {
    pub pending: Vec<ObjectId>,
    /// Persistent publication faults stop new extraction until a retry lands.
    pub blocked: bool,
    /// A commit failure needs the index step retried even when it left no
    /// dirty operations. Catalog-only retries need no extra commit.
    pub retry_index_commit: bool,
    pub commits: u64,
    pub published: u64,
    pub last_commit_ms: u64,
}

impl Publication {
    pub fn new() -> (r: Publication)
        ensures
            r.pending@ == Seq::<ObjectId>::empty(),
            !r.blocked,
            !r.retry_index_commit,
            r.commits == 0,
            r.published == 0,
            r.last_commit_ms == 0,
    {
        Publication {
            pending: Vec::new(),
            blocked: false,
            retry_index_commit: false,
            commits: 0,
            published: 0,
            last_commit_ms: 0,
        }
    }

    /// An object waits for the next commit.
    pub fn add_pending(&mut self, object: ObjectId)
        ensures
            final(self).pending@ == old(self).pending@.push(object),
            *final(self) == (Publication { pending: final(self).pending, ..*old(self) }),
    {
        self.pending.push(object);
    }

    /// Take what waits, and say whether the index has to be committed first.
    /// If its operations were committed already, only the catalog is asked
    /// again.
    pub fn begin(&mut self, index_dirty: bool) -> (r: (Vec<ObjectId>, bool))
        ensures
            takes_waiting(*old(self), *final(self), index_dirty, r.0@, r.1),
    {
        let mut objects: Vec<ObjectId> = Vec::new();
        objects.append(&mut self.pending);
        assert(objects@ =~= old(self).pending@);
        (objects, index_dirty || self.retry_index_commit)
    }

    /// The index was committed, or not. On failure the objects wait again,
    /// behind whatever the workers finished meanwhile.
    pub fn index_committed(&mut self, ok: bool, objects: Vec<ObjectId>) -> (r: Option<Vec<ObjectId>>)
        ensures
            r == (if ok {
                Some(objects)
            } else {
                None
            }),
            settles_commit(*old(self), *final(self), ok, objects@),
    {
        if !ok {
            let mut objects = objects;
            self.pending.append(&mut objects);
            self.retry_index_commit = true;
            self.blocked = true;
            return None;
        }
        self.retry_index_commit = false;
        self.commits = self.commits.wrapping_add(1);
        Some(objects)
    }

    /// The catalog acknowledged the objects, or not. On failure they wait
    /// again, and extraction stops until a retry lands.
    pub fn acknowledged(&mut self, marked: Option<u64>, objects: Vec<ObjectId>, took_ms: u64)
        ensures
            settles_marks(*old(self), *final(self), marked, objects@, took_ms),
    {
        match marked {
            Some(n) => {
                self.published = self.published.wrapping_add(n);
                self.blocked = false;
                self.last_commit_ms = took_ms;
            },
            None => {
                let mut objects = objects;
                self.pending.append(&mut objects);
                self.blocked = true;
            },
        }
    }
}

/// Everything that waits is taken for publication.
pub open spec fn takes_waiting(
    before: Publication,
    after: Publication,
    index_dirty: bool,
    objects: Seq<ObjectId>,
    commit: bool,
) -> bool {
    &&& objects == before.pending@
    &&& commit == (index_dirty || before.retry_index_commit)
    &&& after.pending@ == Seq::<ObjectId>::empty()
    &&& after == (Publication { pending: after.pending, ..before })
}

/// The index was committed, or not.
pub open spec fn settles_commit(
    before: Publication,
    after: Publication,
    ok: bool,
    objects: Seq<ObjectId>,
) -> bool {
    if ok {
        after == (Publication {
            retry_index_commit: false,
            commits: wrapped(before.commits + 1),
            ..before
        })
    } else {
        &&& after.pending@ == before.pending@ + objects
        &&& after == (Publication {
            pending: after.pending,
            retry_index_commit: true,
            blocked: true,
            ..before
        })
    }
}

/// The catalog marked the objects, or not.
pub open spec fn settles_marks(
    before: Publication,
    after: Publication,
    marked: Option<u64>,
    objects: Seq<ObjectId>,
    took_ms: u64,
) -> bool {
    match marked {
        Some(n) => after == (Publication {
            published: wrapped(before.published + n),
            blocked: false,
            last_commit_ms: took_ms,
            ..before
        }),
        None => {
            &&& after.pending@ == before.pending@ + objects
            &&& after == (Publication { pending: after.pending, blocked: true, ..before })
        },
    }
}

/// An object that waited, or that a worker finished meanwhile, still waits after
/// a publication that failed, at the commit or at the catalog; extraction is
/// then held, and a commit that failed is tried again even if nothing new is
/// dirty. One that succeeded holds nothing and counts what was published.
pub proof fn law_a_publication_keeps_or_publishes(
    before: Publication,
    taken: Publication,
    meanwhile: Publication,
    committed: Publication,
    after: Publication,
    index_dirty: bool,
    objects: Seq<ObjectId>,
    commit: bool,
    more: Seq<ObjectId>,
    ok: bool,
    marked: Option<u64>,
    took_ms: u64,
    object: ObjectId,
    later: Publication,
    again: Seq<ObjectId>,
    commit_again: bool,
)
    requires
        takes_waiting(before, taken, index_dirty, objects, commit),
        meanwhile == (Publication { pending: meanwhile.pending, ..taken }),
        meanwhile.pending@ == taken.pending@ + more,
        settles_commit(meanwhile, committed, ok, objects),
        ok ==> settles_marks(committed, after, marked, objects, took_ms),
        !ok ==> after == committed,
        takes_waiting(after, later, false, again, commit_again),
        before.published < u64::MAX - 1_000_000_000,
        marked matches Some(n) ==> n <= 1_000_000_000,
    ensures
        !ok || marked is None ==> after.blocked && (before.pending@.contains(object)
            || more.contains(object) ==> again.contains(object)),
        more.contains(object) ==> again.contains(object),
        !ok ==> commit_again,
        ok && marked is Some ==> !after.blocked && !commit_again && after.published
            == before.published + marked->0 && again == more,
        before.retry_index_commit ==> commit,
        index_dirty ==> commit,
{
    assert(meanwhile.pending@ =~= more);
    if !ok || marked is None {
        assert(again == more + objects);
        if more.contains(object) {
            assert(again[more.index_of(object)] == object);
        }
        if objects.contains(object) {
            assert(again[more.len() + objects.index_of(object)] == object);
        }
    }
}

/// No failure loses an object: what was taken for publication waits again,
/// together with what the workers finished meanwhile.
pub proof fn law_a_failed_publication_loses_nothing(
    waiting: Seq<ObjectId>,
    finished_meanwhile: Seq<ObjectId>,
    object: ObjectId,
)
    requires
        waiting.contains(object) || finished_meanwhile.contains(object),
    ensures
        (finished_meanwhile + waiting).contains(object),
{
    let all = finished_meanwhile + waiting;
    if finished_meanwhile.contains(object) {
        let i = finished_meanwhile.index_of(object);
        assert(all[i] == object);
    } else {
        let i = waiting.index_of(object);
        assert(all[finished_meanwhile.len() + i] == object);
    }
}

// ----- the coordinator ------------------------------------------------------

/// What the coordinator sees in one pass.
#[derive(Debug, Clone, Copy, PartialEq, Eq, Structural)]
pub struct CoordinatorFacts {
    pub shutdown: bool,
    pub rebuilding: bool,
    pub enabled: bool,
    pub claiming_allowed: bool,
    pub pending: usize,
    pub index_dirty: bool,
    pub uncommitted: u64,
    pub publication_blocked: bool,
    pub since_commit_ns: u64,
    pub since_enqueue_ns: u64,
    pub since_wake_ns: u64,
}

/// What the coordinator does about the queue.
#[derive(Debug, Clone, Copy, PartialEq, Eq, Structural)]
pub enum QueueWork {
    Nothing,
    /// Claiming is stopped: only reconcile the budgets, so a change made
    /// meanwhile is in force the moment claiming resumes.
    RefreshBudgets,
    TopUp,
}

/// What the coordinator does in one pass, in this order.
#[derive(Debug, Clone, Copy, PartialEq, Eq, Structural)]
pub struct CoordinatorPass {
    /// Commit what is finished and stop.
    pub stop: bool,
    pub apply_policies: bool,
    pub commit: bool,
    pub queue: QueueWork,
    pub wake: bool,
}

/// What one pass does.
pub open spec fn pass_of(f: CoordinatorFacts) -> CoordinatorPass {
    CoordinatorPass {
        stop: f.shutdown,
        apply_policies: !f.shutdown && !f.rebuilding,
        commit: f.shutdown || (!f.rebuilding && (f.pending > 0 || f.index_dirty
            || f.publication_blocked) && (f.since_commit_ns >= COMMIT_INTERVAL_NS || (f.uncommitted
            >= COMMIT_DOCS && !f.publication_blocked))),
        queue: if f.shutdown || !f.enabled || f.since_enqueue_ns < ENQUEUE_INTERVAL_NS {
            QueueWork::Nothing
        } else if f.claiming_allowed {
            QueueWork::TopUp
        } else {
            QueueWork::RefreshBudgets
        },
        wake: !f.shutdown && f.since_wake_ns >= IDLE_SLEEP_NS,
    }
}

/// What is finished is committed within two seconds, whether or not new jobs are
/// claimed, and at the end of the process; a rebuild keeps the writer to itself.
/// A full batch does not wait for the two seconds, unless publication is
/// blocked, and a blocked one is tried again in time.
pub proof fn law_finished_work_is_committed_in_time(f: CoordinatorFacts)
    ensures
        f.shutdown ==> pass_of(f).commit && pass_of(f).stop,
        !f.shutdown && f.rebuilding ==> !pass_of(f).commit && !pass_of(f).apply_policies,
        !f.shutdown && !f.rebuilding && f.since_commit_ns >= 2_000_000_000 ==> (pass_of(f).commit
            <==> f.pending > 0 || f.index_dirty || f.publication_blocked),
        !f.shutdown && !f.rebuilding && f.since_commit_ns < 2_000_000_000 ==> (pass_of(f).commit
            <==> !f.publication_blocked && f.uncommitted >= 20_000 && (f.pending > 0
            || f.index_dirty)),
        pass_of(CoordinatorFacts { claiming_allowed: !f.claiming_allowed, ..f }).commit == pass_of(
            f,
        ).commit,
{
}

/// The queue is topped up only where jobs are claimed; where they are not, the
/// budgets are still kept up to date, every five seconds; nothing is queued by a
/// process that extracts nothing or stops.
pub proof fn law_the_queue_follows_claiming(f: CoordinatorFacts)
    ensures
        pass_of(f).queue == QueueWork::TopUp ==> f.claiming_allowed && f.enabled && !f.shutdown,
        !f.shutdown && f.enabled && f.since_enqueue_ns >= 5_000_000_000 ==> pass_of(f).queue == (
        if f.claiming_allowed {
            QueueWork::TopUp
        } else {
            QueueWork::RefreshBudgets
        }),
        f.shutdown || !f.enabled || f.since_enqueue_ns < 5_000_000_000 ==> pass_of(f).queue
            == QueueWork::Nothing,
        pass_of(f).wake <==> !f.shutdown && f.since_wake_ns >= 500_000_000,
{
}

/// Decide one pass. Commits go on while claiming is stopped: a paused pipeline
/// must still publish what its draining workers extracted. A rebuild owns the
/// writer, so nothing is committed during one.
pub fn coordinator_pass(f: CoordinatorFacts) -> (r: CoordinatorPass)
    ensures
        r == pass_of(f),
{
    if f.shutdown {
        return CoordinatorPass {
            stop: true,
            apply_policies: false,
            commit: true,
            queue: QueueWork::Nothing,
            wake: false,
        };
    }
    let due = f.since_commit_ns >= COMMIT_INTERVAL_NS || (f.uncommitted >= COMMIT_DOCS
        && !f.publication_blocked);
    let work = f.pending > 0 || f.index_dirty || f.publication_blocked;
    CoordinatorPass {
        stop: false,
        apply_policies: !f.rebuilding,
        commit: !f.rebuilding && work && due,
        queue: if !f.enabled || f.since_enqueue_ns < ENQUEUE_INTERVAL_NS {
            QueueWork::Nothing
        } else if f.claiming_allowed {
            QueueWork::TopUp
        } else {
            QueueWork::RefreshBudgets
        },
        wake: f.since_wake_ns >= IDLE_SLEEP_NS,
    }
}

/// Whether a readiness check wakes a worker: one, not the pool, because the
/// due row may still be refused. The claiming worker wakes the next one.
pub fn wakes_worker(claiming_allowed: bool, due: bool) -> (r: bool)
    ensures
        r == (claiming_allowed && due),
{
    claiming_allowed && due
}

/// What one turn of a source's pending policy does.
#[derive(Debug, Clone, Copy, PartialEq, Eq, Structural)]
pub enum PolicyTurn {
    /// Content jobs of the source are running: come back later.
    Wait,
    Apply,
}

pub fn policy_turn(running_jobs: u64) -> (r: PolicyTurn)
    ensures
        r == (if running_jobs > 0 {
            PolicyTurn::Wait
        } else {
            PolicyTurn::Apply
        }),
{
    if running_jobs > 0 {
        PolicyTurn::Wait
    } else {
        PolicyTurn::Apply
    }
}

/// A source as the queue and the budgets see it.
#[derive(Debug, Clone, Copy, PartialEq, Eq, Structural)]
pub struct QueueSource {
    pub id: SourceId,
    pub content_enabled: bool,
    pub published: bool,
    pub state: SourceState,
    pub kind: SourceKind,
    pub content_concurrency: u32,
}

/// Whether content of a source is queued at all.
pub open spec fn queues(s: QueueSource) -> bool {
    s.content_enabled && s.published && s.state != SourceState::Retired && s.state
        != SourceState::Offline && s.kind != SourceKind::Remote
}

/// Content is queued only of a source that wants it, has a published generation
/// and can be read here: a replica, a retired and an offline source have none.
pub proof fn law_only_readable_sources_are_queued(s: QueueSource)
    ensures
        queues(s) ==> s.content_enabled && s.published && s.kind != SourceKind::Remote && s.state
            != SourceState::Retired && s.state != SourceState::Offline,
        s.content_enabled && s.published && s.kind != SourceKind::Remote && (s.state
            == SourceState::Enumerating || s.state == SourceState::Reconciling || s.state
            == SourceState::MetadataComplete || s.state == SourceState::ContentPending || s.state
            == SourceState::Complete || s.state == SourceState::Stale || s.state
            == SourceState::Degraded) ==> queues(s),
{
}

pub fn queues_content(s: &QueueSource) -> (r: bool)
    ensures
        r == queues(*s),
{
    s.content_enabled && s.published && s.state != SourceState::Retired && s.state
        != SourceState::Offline && !s.kind.is_remote()
}

/// Whether more jobs of a source are enqueued.
pub fn needs_top_up(s: &QueueSource, queued: u64) -> (r: bool)
    ensures
        r == (queues(*s) && queued < QUEUE_LOW_WATER),
{
    queues_content(s) && queued < QUEUE_LOW_WATER
}

/// Whether a source's root is probed for its devices: local and not retired.
pub fn probes_devices(s: &QueueSource) -> (r: bool)
    ensures
        r == (s.kind != SourceKind::Remote && s.state != SourceState::Retired),
{
    !s.kind.is_remote() && s.state != SourceState::Retired
}

/// What the last entry of each source says its concurrency is.
pub open spec fn policies(s: Seq<QueueSource>) -> Map<i64, u32>
    decreases s.len(),
{
    if s.len() == 0 {
        Map::empty()
    } else {
        policies(s.drop_last()).insert(s.last().id.0, s.last().content_concurrency)
    }
}

/// Every source that is listed has the concurrency of its last entry, and no
/// other source has any.
pub proof fn law_each_source_has_its_own_policy(s: Seq<QueueSource>, i: int, other: i64)
    requires
        0 <= i < s.len(),
        forall|j: int| i < j < s.len() ==> (#[trigger] s[j]).id.0 != s[i].id.0,
        forall|j: int| 0 <= j < s.len() ==> (#[trigger] s[j]).id.0 != other,
    ensures
        policies(s).dom().contains(s[i].id.0),
        policies(s)[s[i].id.0] == s[i].content_concurrency,
        !policies(s).dom().contains(other),
    decreases s.len(),
{
    lemma_unlisted(s, other);
    let init = s.drop_last();
    if i < init.len() {
        assert(s[s.len() - 1].id.0 != s[i].id.0);
        assert forall|j: int| i < j < init.len() implies (#[trigger] init[j]).id.0 != init[i].id.0 by {
            assert(s[j].id.0 != s[i].id.0);
        }
        assert forall|j: int| 0 <= j < init.len() implies (#[trigger] init[j]).id.0 != other by {
            assert(s[j].id.0 != other);
        }
        law_each_source_has_its_own_policy(init, i, other);
    }
}

proof fn lemma_unlisted(s: Seq<QueueSource>, other: i64)
    requires
        forall|j: int| 0 <= j < s.len() ==> (#[trigger] s[j]).id.0 != other,
    ensures
        !policies(s).dom().contains(other),
    decreases s.len(),
{
    if s.len() > 0 {
        let init = s.drop_last();
        assert(s[s.len() - 1].id.0 != other);
        assert forall|j: int| 0 <= j < init.len() implies (#[trigger] init[j]).id.0 != other by {
            assert(s[j].id.0 != other);
        }
        lemma_unlisted(init, other);
    }
}

/// The concurrency of every source, for [`SourceBudgets::set_all`].
pub fn source_policies(sources: &Vec<QueueSource>) -> (r: SourceMap<u32>)
    ensures
        r.wf(),
        r@ == policies(sources@),
{
    let mut r: SourceMap<u32> = SourceMap::new();
    let mut i: usize = 0;
    while i < sources.len()
        invariant
            0 <= i <= sources.len(),
            r.wf(),
            r@ == policies(sources@.take(i as int)),
        decreases sources.len() - i,
    {
        assert(sources@.take(i + 1).drop_last() =~= sources@.take(i as int));
        r.insert(sources[i].id.0, sources[i].content_concurrency);
        i += 1;
    }
    assert(sources@.take(i as int) =~= sources@);
    r
}

} // verus!
