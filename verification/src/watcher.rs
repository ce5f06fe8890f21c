//! Change-feed watchers and periodic reconciliation.
//!
//! One thread per native source polls its feed from the stored checkpoint,
//! translates records, and applies them with the checkpoint in the same catalog
//! transaction. Overflow or an invalid journal marks the source degraded,
//! clears the checkpoint, and triggers a reconciliation scan, after which
//! watching resumes from a fresh checkpoint. Sources without a live feed are
//! rescanned periodically by the reconciler.
//!
//! The loops themselves live with the threads that run them. Everything they
//! decide is here: each function takes what the last piece of outside work came
//! back with, and says what to do next.

use crate::domain::{
    copy_opt, opt_text, Instant, SourceId, SourceKind, SourceState, UnixNanos, NANOS_PER_SEC,
};
use crate::scanner::{source_label, source_name, wrapped};
use crate::state::SourceFacts;
use crate::text::same;
use vstd::prelude::*;
use vstd::string::*;

verus! {

pub const POLL_INTERVAL_MS: u64 = 500;

pub const DEFAULT_RECONCILE_INTERVAL_S: i64 = 6 * 3600;

/// Minimum pause before a watcher retries a reconciliation that failed.
pub const RECONCILE_RETRY_DELAY_S: u64 = 30;

/// Which native feed a watcher is driven by. A position is a position *in that
/// feed*: a USN is a byte offset in a journal and an FSEvents id is a
/// per-volume event counter, and neither is comparable to the other.
#[derive(Debug, Clone, Copy, PartialEq, Eq, Structural)]
pub enum WatcherFeed {
    WindowsUsn,
    MacosFsEvents,
}

#[derive(Debug, Clone, Copy, PartialEq, Eq, Structural)]
pub enum WatcherState {
    Starting,
    Live,
    Reconciling,
    Stopped,
}

// ----- status ---------------------------------------------------------------

/// What a watcher is doing and what it has applied.
#[derive(Debug)]
pub struct WatcherStatus {
    pub source_id: SourceId,
    pub cancel: bool,
    pub state: WatcherState,
    pub detail: Option<String>,
    pub started: Instant,
    pub batches: u64,
    pub events: u64,
    pub records: u64,
    pub reconciles: u64,
    /// Latest position applied from the native feed.
    pub last_position: i64,
    pub last_batch: Option<Instant>,
    pub last_apply_ms: u64,
}

pub struct StatusModel {
    pub source_id: SourceId,
    pub cancel: bool,
    pub state: WatcherState,
    pub detail: Option<Seq<char>>,
    pub started: Instant,
    pub batches: u64,
    pub events: u64,
    pub records: u64,
    pub reconciles: u64,
    pub last_position: i64,
    pub last_batch: Option<Instant>,
    pub last_apply_ms: u64,
}

impl View for WatcherStatus {
    type V = StatusModel;

    open spec fn view(&self) -> StatusModel {
        StatusModel {
            source_id: self.source_id,
            cancel: self.cancel,
            state: self.state,
            detail: opt_text(self.detail),
            started: self.started,
            batches: self.batches,
            events: self.events,
            records: self.records,
            reconciles: self.reconciles,
            last_position: self.last_position,
            last_batch: self.last_batch,
            last_apply_ms: self.last_apply_ms,
        }
    }
}

impl StatusModel {
    /// A watcher that just started.
    pub open spec fn fresh(source_id: SourceId, now: Instant) -> StatusModel {
        StatusModel {
            source_id,
            cancel: false,
            state: WatcherState::Starting,
            detail: None,
            started: now,
            batches: 0,
            events: 0,
            records: 0,
            reconciles: 0,
            last_position: 0,
            last_batch: None,
            last_apply_ms: 0,
        }
    }

    pub open spec fn showing(self, state: WatcherState, detail: Option<Seq<char>>) -> StatusModel {
        StatusModel { state, detail, ..self }
    }

    pub open spec fn reconciling(self, detail: Seq<char>) -> StatusModel {
        self.showing(WatcherState::Reconciling, Some(detail))
    }

    pub open spec fn starting(self, detail: Seq<char>) -> StatusModel {
        self.showing(WatcherState::Starting, Some(detail))
    }

    pub open spec fn stopped(self, reason: Seq<char>) -> StatusModel {
        self.showing(WatcherState::Stopped, Some(reason))
    }

    pub open spec fn live(self) -> StatusModel {
        self.showing(WatcherState::Live, None)
    }

    pub open spec fn reconciled_once_more(self) -> StatusModel {
        StatusModel { reconciles: wrapped(self.reconciles + 1), ..self }
    }

    /// A batch went through.
    pub open spec fn applied(
        self,
        events: u64,
        records: u64,
        position: Option<i64>,
        now: Instant,
        apply_ms: u64,
    ) -> StatusModel {
        StatusModel {
            batches: wrapped(self.batches + 1),
            events: wrapped(self.events + events),
            records: wrapped(self.records + records),
            last_position: match position {
                Some(p) => p,
                None => self.last_position,
            },
            last_batch: Some(now),
            last_apply_ms: apply_ms,
            ..self
        }
    }
}

#[derive(Debug)]
pub struct WatcherView {
    pub state: WatcherState,
    pub live: bool,
    pub detail: Option<String>,
    pub feed: WatcherFeed,
    pub batches: u64,
    pub events: u64,
    pub records: u64,
    pub reconciles: u64,
    pub last_position: i64,
    pub last_batch_ms_ago: Option<u64>,
    pub last_apply_ms: u64,
    pub uptime_s: u64,
}

impl WatcherStatus {
    pub fn copy(&self) -> (r: WatcherStatus)
        ensures
            r@ == self@,
    {
        WatcherStatus {
            source_id: self.source_id,
            cancel: self.cancel,
            state: self.state,
            detail: copy_opt(&self.detail),
            started: self.started,
            batches: self.batches,
            events: self.events,
            records: self.records,
            reconciles: self.reconciles,
            last_position: self.last_position,
            last_batch: self.last_batch,
            last_apply_ms: self.last_apply_ms,
        }
    }

    pub fn new(source_id: SourceId, now: Instant) -> (r: WatcherStatus)
        ensures
            r@ == StatusModel::fresh(source_id, now),
    {
        WatcherStatus {
            source_id,
            cancel: false,
            state: WatcherState::Starting,
            detail: None,
            started: now,
            batches: 0,
            events: 0,
            records: 0,
            reconciles: 0,
            last_position: 0,
            last_batch: None,
            last_apply_ms: 0,
        }
    }

    /// Ask the watcher to stop. From here on it starts no catalog mutation.
    pub fn request_cancel(&mut self)
        ensures
            final(self)@ == (StatusModel { cancel: true, ..old(self)@ }),
    {
        self.cancel = true;
    }

    /// Whether the watcher may start a catalog mutation.
    pub fn may_mutate(&self, shutdown: bool) -> (r: bool)
        ensures
            r == (!self@.cancel && !shutdown),
    {
        !self.cancel && !shutdown
    }

    pub fn set(&mut self, s: WatcherState, detail: Option<String>)
        ensures
            final(self)@ == old(self)@.showing(s, opt_text(detail)),
    {
        self.state = s;
        self.detail = detail;
    }

    pub fn is_stopped(&self) -> (r: bool)
        ensures
            r == (self@.state == WatcherState::Stopped),
    {
        self.state == WatcherState::Stopped
    }

    fn count_reconcile(&mut self)
        ensures
            final(self)@ == old(self)@.reconciled_once_more(),
    {
        self.reconciles = self.reconciles.wrapping_add(1);
    }

    fn count_batch(
        &mut self,
        events: u64,
        records: u64,
        position: Option<i64>,
        now: Instant,
        apply_ms: u64,
    )
        ensures
            final(self)@ == old(self)@.applied(events, records, position, now, apply_ms),
    {
        self.batches = self.batches.wrapping_add(1);
        self.events = self.events.wrapping_add(events);
        self.records = self.records.wrapping_add(records);
        if let Some(p) = position {
            self.last_position = p;
        }
        self.last_batch = Some(now);
        self.last_apply_ms = apply_ms;
    }

    pub fn view_at(&self, feed: WatcherFeed, now: Instant) -> (r: WatcherView)
        ensures
            r.state == self@.state,
            r.live == (self@.state == WatcherState::Live),
            opt_text(r.detail) == self@.detail,
            r.feed == feed,
            r.batches == self@.batches,
            r.events == self@.events,
            r.records == self@.records,
            r.reconciles == self@.reconciles,
            r.last_position == self@.last_position,
            r.last_batch_ms_ago == (match self@.last_batch {
                Some(t) => Some((now.spec_since(t) / 1_000_000) as u64),
                None => None,
            }),
            r.last_apply_ms == self@.last_apply_ms,
            r.uptime_s == now.spec_since(self@.started) / NANOS_PER_SEC,
    {
        WatcherView {
            state: self.state,
            live: self.state == WatcherState::Live,
            detail: copy_opt(&self.detail),
            feed,
            batches: self.batches,
            events: self.events,
            records: self.records,
            reconciles: self.reconciles,
            last_position: self.last_position,
            last_batch_ms_ago: match self.last_batch {
                Some(t) => Some(now.since(t) / 1_000_000),
                None => None,
            },
            last_apply_ms: self.last_apply_ms,
            uptime_s: now.since(self.started) / NANOS_PER_SEC,
        }
    }
}

/// Whether a watcher thread has to be spawned: there is none, or it stopped.
pub fn needs_watcher(existing: Option<&WatcherStatus>) -> (r: bool)
    ensures
        r == (existing matches Some(w) ==> w@.state == WatcherState::Stopped),
{
    match existing {
        Some(w) => w.is_stopped(),
        None => true,
    }
}

// ----- checkpoints ----------------------------------------------------------

/// Durable USN position for one source.
#[derive(Debug)]
pub struct UsnCheckpoint {
    pub journal_id: u64,
    pub next_usn: i64,
    pub volume_root: String,
}

pub struct UsnPosition {
    pub journal_id: u64,
    pub next_usn: i64,
    pub volume_root: Seq<char>,
}

impl View for UsnCheckpoint {
    type V = UsnPosition;

    open spec fn view(&self) -> UsnPosition {
        UsnPosition {
            journal_id: self.journal_id,
            next_usn: self.next_usn,
            volume_root: self.volume_root@,
        }
    }
}

impl UsnPosition {
    pub open spec fn at(self, next_usn: i64) -> UsnPosition {
        UsnPosition { next_usn, ..self }
    }
}

impl UsnCheckpoint {
    pub fn copy(&self) -> (r: UsnCheckpoint)
        ensures
            r@ == self@,
    {
        UsnCheckpoint {
            journal_id: self.journal_id,
            next_usn: self.next_usn,
            volume_root: self.volume_root.clone(),
        }
    }

    /// The same journal at another position.
    pub fn moved(&self, next_usn: i64) -> (r: UsnCheckpoint)
        ensures
            r@ == self@.at(next_usn),
    {
        UsnCheckpoint {
            journal_id: self.journal_id,
            next_usn,
            volume_root: self.volume_root.clone(),
        }
    }

    pub fn same_as(&self, other: &UsnCheckpoint) -> (r: bool)
        ensures
            r == (self@ == other@),
    {
        self.journal_id == other.journal_id && self.next_usn == other.next_usn && same(
            &self.volume_root,
            &other.volume_root,
        )
    }
}

/// A position in a volume's event store. The store's identity travels with the
/// id because an id from a replaced store is not stale but meaningless.
#[derive(Debug)]
pub struct FsEventsCursor {
    pub store_uuid: String,
    pub event_id: u64,
}

/// Durable FSEvents position for one source.
#[derive(Debug)]
pub struct FsEventsCheckpoint {
    pub cursor: FsEventsCursor,
    pub root: String,
}

pub struct FsEventsPosition {
    pub store_uuid: Seq<char>,
    pub event_id: u64,
    pub root: Seq<char>,
}

impl View for FsEventsCheckpoint {
    type V = FsEventsPosition;

    open spec fn view(&self) -> FsEventsPosition {
        FsEventsPosition {
            store_uuid: self.cursor.store_uuid@,
            event_id: self.cursor.event_id,
            root: self.root@,
        }
    }
}

impl FsEventsCheckpoint {
    pub fn moved(&self, event_id: u64) -> (r: FsEventsCheckpoint)
        ensures
            r@ == (FsEventsPosition { event_id, ..self@ }),
    {
        FsEventsCheckpoint {
            cursor: FsEventsCursor { store_uuid: self.cursor.store_uuid.clone(), event_id },
            root: self.root.clone(),
        }
    }
}

/// Where the cursor stands after a batch, and whether the batch has to be read
/// again. A batch with a retryable read failure describes less than it was
/// asked to: the cursor stays, so a later clean batch cannot acknowledge past
/// the missed path.
pub fn fsevents_batch_checkpoint(
    checkpoint: &FsEventsCheckpoint,
    event_id: u64,
    retryable_errors: u64,
) -> (r: (FsEventsCheckpoint, bool))
    ensures
        r.1 == (retryable_errors > 0),
        r.0@ == (if retryable_errors > 0 {
            checkpoint@
        } else {
            FsEventsPosition { event_id, ..checkpoint@ }
        }),
{
    if retryable_errors > 0 {
        return (checkpoint.moved(checkpoint.cursor.event_id), true);
    }
    (checkpoint.moved(event_id), false)
}

// ----- what the loops exchange ----------------------------------------------

/// What to do next, after a pause.
#[derive(Debug)]
pub struct Turn<A> {
    pub pause_ms: u64,
    pub action: A,
}

/// The watched source, as read at the top of a round.
#[derive(Debug, Clone, Copy, PartialEq, Eq, Structural)]
pub enum SourceRead {
    Found { state: SourceState, kind: SourceKind, published: bool },
    Removed,
    Failed,
}

/// How starting a recovery scan went. A watcher that was cancelled starts none.
#[derive(Debug)]
pub enum RecoveryStart {
    Cancelled,
    Started,
    Deferred(String),
    Failed,
}

/// How moving a checkpoint went: it only moves from the value it was read at.
#[derive(Debug, Clone, Copy, PartialEq, Eq, Structural)]
pub enum AdvanceResult {
    Cancelled,
    Advanced,
    Stale,
    Failed,
}

/// How applying a batch went.
#[derive(Debug, Clone, Copy, PartialEq, Eq, Structural)]
pub enum ApplyResult {
    Cancelled,
    Applied { events: u64 },
    Stale,
    Failed,
}

// ----- the USN loop ---------------------------------------------------------

/// What the USN loop does next. The actions that change the catalog are only
/// carried out while the watcher may mutate; otherwise the loop is told that
/// it was cancelled.
#[derive(Debug)]
pub enum UsnAction {
    /// Look at the cancellation flags: a new round begins.
    Check,
    ReadSource,
    /// Ask whether a scan of the source is in progress.
    ReadScan,
    ReadCheckpoint,
    /// Ask whether the last reconciliation failed a moment ago.
    ReadRecent,
    /// Start a recovery scan.
    Recover,
    OpenVolume { root: String },
    /// Mark the source offline because its volume does not open.
    MarkOffline { reason: String, error: String },
    /// Mark the source offline because its journal cannot be read.
    MarkUnreachable { reason: String },
    ReadJournal { journal_id: u64, next_usn: i64 },
    /// Move the checkpoint, if it is still the one read.
    Advance { from: UsnCheckpoint, to: UsnCheckpoint },
    ReadRootSerial,
    Translate { volume_serial: u64 },
    /// Apply the translated batch and move the checkpoint with it, if it is
    /// still the one read.
    Apply { from: UsnCheckpoint, to: UsnCheckpoint },
    /// Give an offline source its completeness state back.
    Restore,
    /// Mark the source degraded, forget the checkpoint, start a recovery scan.
    DegradeAndRecover { reason: String },
    /// Forget the checkpoint and note why only periodic scans are left.
    FallBack { state: SourceState, reason: String },
    Stop,
}

/// What reading the journal came back with.
#[derive(Debug)]
pub enum JournalRead {
    Records { empty: bool, next_usn: i64 },
    /// The journal wrapped or was recreated.
    Invalid,
    DeleteInProgress(String),
    /// Not active, access denied or unsupported.
    Unavailable(String),
    Cancelled(String),
    Io(String),
}

/// The state of one USN loop.
#[derive(Debug)]
pub struct UsnWatch {
    pub status: WatcherStatus,
    pub volume_open: bool,
    pub io_failures: u32,
    /// The source's state in this round.
    pub source_state: SourceState,
    pub published: bool,
    /// The checkpoint read in this round.
    pub checkpoint: UsnCheckpoint,
    /// Where the batch in flight ends.
    pub batch_end: i64,
}

pub struct UsnWatchModel {
    pub status: StatusModel,
    pub volume_open: bool,
    pub io_failures: u32,
    pub source_state: SourceState,
    pub published: bool,
    pub checkpoint: UsnPosition,
    pub batch_end: i64,
}

impl View for UsnWatch {
    type V = UsnWatchModel;

    open spec fn view(&self) -> UsnWatchModel {
        UsnWatchModel {
            status: self.status@,
            volume_open: self.volume_open,
            io_failures: self.io_failures,
            source_state: self.source_state,
            published: self.published,
            checkpoint: self.checkpoint@,
            batch_end: self.batch_end,
        }
    }
}

impl UsnWatchModel {
    pub open spec fn with_status(self, status: StatusModel) -> UsnWatchModel {
        UsnWatchModel { status, ..self }
    }
}

/// The loop ended for this reason.
pub open spec fn usn_stopped(
    before: UsnWatchModel,
    after: UsnWatchModel,
    t: Turn<UsnAction>,
    reason: Seq<char>,
) -> bool {
    &&& t.action is Stop
    &&& t.pause_ms == 0
    &&& after == before.with_status(before.status.stopped(reason))
}

/// A new round begins after a pause.
pub open spec fn usn_again(t: Turn<UsnAction>, pause_ms: u64) -> bool {
    t.action is Check && t.pause_ms == pause_ms
}

/// Why a wrapped or recreated journal is reconciled.
pub const JOURNAL_INVALID: &'static str = "USN journal overflowed or was recreated; reconciling";

/// How a watch goes on: [`UsnWatch::on_check`].
pub open spec fn usn_on_check(
    before: UsnWatchModel,
    after: UsnWatchModel,
    shutdown: bool,
    t: Turn<UsnAction>,
) -> bool {
    if before.status.cancel || shutdown {
        usn_stopped(before, after, t, "cancelled"@)
    } else {
        t.pause_ms == 0 && t.action is ReadSource && after == before
    }
}

/// How a watch goes on: [`UsnWatch::on_source`].
pub open spec fn usn_on_source(
    before: UsnWatchModel,
    after: UsnWatchModel,
    read: SourceRead,
    t: Turn<UsnAction>,
) -> bool {
    match read {
        SourceRead::Removed => usn_stopped(
            before,
            after,
            t,
            "source removed"@,
        ),
        SourceRead::Failed => usn_again(t, 2000) && after == before,
        SourceRead::Found { state, kind, published } => if state == SourceState::Retired {
            usn_stopped(before, after, t, "source retired"@)
        } else if kind == SourceKind::Remote {
            usn_stopped(
                before,
                after,
                t,
                "fleet replicas have no local change feed"@,
            )
        } else {
            &&& t.pause_ms == 0
            &&& t.action is ReadScan
            &&& after == (UsnWatchModel {
                source_state: state,
                published,
                ..before
            })
        },
    }
}

/// How a watch goes on: [`UsnWatch::on_scan`].
pub open spec fn usn_on_scan(
    before: UsnWatchModel,
    after: UsnWatchModel,
    running: bool,
    t: Turn<UsnAction>,
) -> bool {
    if running {
        &&& usn_again(t, POLL_INTERVAL_MS)
        &&& after == before.with_status(
            before.status.reconciling("scan in progress"@),
        )
    } else {
        t.pause_ms == 0 && t.action is ReadCheckpoint && after == before
    }
}

/// How a watch goes on: [`UsnWatch::on_checkpoint`].
pub open spec fn usn_on_checkpoint(
    before: UsnWatchModel,
    after: UsnWatchModel,
    read: Result<Option<UsnCheckpoint>, ()>,
    t: Turn<UsnAction>,
) -> bool {
    match read {
        Err(_) => usn_again(t, 2000) && after == before,
        Ok(None) => if !before.published {
            usn_stopped(
                before,
                after,
                t,
                "source has no published generation; scan it first"@,
            )
        } else {
            t.pause_ms == 0 && t.action is ReadRecent && after == before
        },
        Ok(Some(cp)) => {
            &&& t.pause_ms == 0
            &&& after == (UsnWatchModel { checkpoint: cp@, ..before })
            &&& if before.volume_open {
                t.action == (UsnAction::ReadJournal {
                    journal_id: cp.journal_id,
                    next_usn: cp.next_usn,
                })
            } else {
                t.action matches UsnAction::OpenVolume { root } && root@ == cp.volume_root@
            }
        },
    }
}

/// How a watch goes on: [`UsnWatch::on_recent`].
pub open spec fn usn_on_recent(
    before: UsnWatchModel,
    after: UsnWatchModel,
    failed_recently: bool,
    t: Turn<UsnAction>,
) -> bool {
    if failed_recently {
        &&& usn_again(t, POLL_INTERVAL_MS)
        &&& after == before.with_status(
            before.status.reconciling(
                "waiting to retry after a failed reconciliation"@,
            ),
        )
    } else {
        t.pause_ms == 0 && t.action is Recover && after == before
    }
}

/// How a watch goes on: [`UsnWatch::on_recovery`].
pub open spec fn usn_on_recovery(
    before: UsnWatchModel,
    after: UsnWatchModel,
    start: RecoveryStart,
    t: Turn<UsnAction>,
) -> bool {
    match start {
        RecoveryStart::Cancelled => usn_stopped(
            before,
            after,
            t,
            "cancelled"@,
        ),
        RecoveryStart::Started => {
            &&& usn_again(t, POLL_INTERVAL_MS)
            &&& after == before.with_status(
                before.status.reconciling(
                    "establishing checkpoint"@,
                ).reconciled_once_more(),
            )
        },
        RecoveryStart::Deferred(reason) => {
            &&& usn_again(t, POLL_INTERVAL_MS)
            &&& after == before.with_status(
                before.status.reconciling(reason@),
            )
        },
        RecoveryStart::Failed => usn_again(t, 5500) && after == before,
    }
}

/// How a watch goes on: [`UsnWatch::on_open`].
pub open spec fn usn_on_open(
    before: UsnWatchModel,
    after: UsnWatchModel,
    opened: Result<(), String>,
    t: Turn<UsnAction>,
) -> bool {
    match opened {
        Ok(_) => {
            &&& t.pause_ms == 0
            &&& t.action == (UsnAction::ReadJournal {
                journal_id: before.checkpoint.journal_id,
                next_usn: before.checkpoint.next_usn,
            })
            &&& after == (UsnWatchModel { volume_open: true, ..before })
        },
        Err(e) => {
            let counted = UsnWatchModel {
                io_failures: (before.io_failures + 1) as u32,
                ..before
            };
            if counted.io_failures == 5 {
                &&& t.pause_ms == 0
                &&& t.action matches UsnAction::MarkOffline { reason, error }
                &&& reason@ == "volume "@ + before.checkpoint.volume_root
                    + " unavailable: "@ + e@
                &&& error@ == e@
                &&& after == counted
            } else {
                &&& usn_again(t, 5000)
                &&& after == counted.with_status(
                    counted.status.starting("volume open failed: "@ + e@),
                )
            }
        },
    }
}

/// How a watch goes on: [`UsnWatch::on_offline_marked`].
pub open spec fn usn_on_offline_marked(
    before: UsnWatchModel,
    after: UsnWatchModel,
    cancelled: bool,
    error: String,
    t: Turn<UsnAction>,
) -> bool {
    if cancelled {
        usn_stopped(before, after, t, "cancelled"@)
    } else {
        &&& usn_again(t, 5000)
        &&& after == before.with_status(
            before.status.starting("volume open failed: "@ + error@),
        )
    }
}

/// How a watch goes on: [`UsnWatch::on_read`].
pub open spec fn usn_on_read(
    before: UsnWatchModel,
    after: UsnWatchModel,
    read: JournalRead,
    shutdown: bool,
    t: Turn<UsnAction>,
) -> bool {
    match read {
        JournalRead::Records { empty, next_usn } => {
            let reset = UsnWatchModel {
                io_failures: 0,
                batch_end: next_usn,
                ..before
            };
            if before.status.cancel || shutdown {
                // The completed batch is discarded rather than
                // applied to a stopped source.
                usn_stopped(before, after, t, "cancelled"@)
            } else if !empty {
                t.pause_ms == 0 && t.action is ReadRootSerial && after == reset
            } else if next_usn != before.checkpoint.next_usn {
                &&& t.pause_ms == 0
                &&& t.action matches UsnAction::Advance { from, to }
                &&& from@ == before.checkpoint
                &&& to@ == before.checkpoint.at(next_usn)
                &&& after == reset
            } else {
                usn_again(t, 0) && after == reset.with_status(reset.status.live())
            }
        },
        JournalRead::Invalid => if before.status.cancel || shutdown {
            usn_stopped(before, after, t, "cancelled"@)
        } else {
            &&& t.pause_ms == 0
            &&& t.action matches UsnAction::DegradeAndRecover { reason }
            &&& reason@ == JOURNAL_INVALID@
            &&& after == before
        },
        JournalRead::DeleteInProgress(_) => {
            &&& usn_again(t, 5000)
            &&& after == before.with_status(
                before.status.starting("journal deletion in progress"@),
            )
        },
        JournalRead::Unavailable(e) => {
            &&& t.pause_ms == 0
            &&& t.action matches UsnAction::FallBack { state, reason }
            &&& state == before.source_state
            &&& reason@ == e@ + "; falling back to periodic reconciliation"@
            &&& after == before
        },
        JournalRead::Cancelled(_) => usn_stopped(
            before,
            after,
            t,
            "cancelled"@,
        ),
        JournalRead::Io(e) => {
            &&& after == (UsnWatchModel {
                io_failures: (before.io_failures + 1) as u32,
                volume_open: false,
                ..before
            })
            &&& if after.io_failures >= 5 {
                &&& t.pause_ms == 0
                &&& t.action matches UsnAction::MarkUnreachable { reason }
                &&& reason@ == "volume unreachable: "@ + e@
            } else {
                usn_again(t, 5000)
            }
        },
    }
}

/// How a watch goes on: [`UsnWatch::on_unreachable_marked`].
pub open spec fn usn_on_unreachable_marked(
    before: UsnWatchModel,
    after: UsnWatchModel,
    cancelled: bool,
    t: Turn<UsnAction>,
) -> bool {
    if cancelled {
        usn_stopped(before, after, t, "cancelled"@)
    } else {
        usn_again(t, 5000) && after == before
    }
}

/// How a watch goes on: [`UsnWatch::on_advanced`].
pub open spec fn usn_on_advanced(
    before: UsnWatchModel,
    after: UsnWatchModel,
    result: AdvanceResult,
    t: Turn<UsnAction>,
) -> bool {
    match result {
        AdvanceResult::Cancelled => usn_stopped(
            before,
            after,
            t,
            "cancelled"@,
        ),
        AdvanceResult::Advanced => {
            &&& usn_again(t, 0)
            &&& after == before.with_status(
                (StatusModel {
                    last_position: before.batch_end,
                    ..before.status
                }).live(),
            )
        },
        AdvanceResult::Stale => {
            &&& usn_again(t, 0)
            &&& after == (UsnWatchModel { volume_open: false, ..before })
        },
        AdvanceResult::Failed => usn_again(t, 2000) && after == before,
    }
}

/// How a watch goes on: [`UsnWatch::on_serial`].
pub open spec fn usn_on_serial(
    before: UsnWatchModel,
    after: UsnWatchModel,
    serial: Option<u64>,
    t: Turn<UsnAction>,
) -> bool {
    match serial {
        None => usn_stopped(
            before,
            after,
            t,
            "root object has no native identity; rescan required"@,
        ),
        Some(s) => {
            &&& t.pause_ms == 0
            &&& t.action == (UsnAction::Translate { volume_serial: s })
            &&& after == before
        },
    }
}

/// How a watch goes on: [`UsnWatch::on_translated`].
pub open spec fn usn_on_translated(
    before: UsnWatchModel,
    after: UsnWatchModel,
    complete: bool,
    t: Turn<UsnAction>,
) -> bool {
    &&& after == before
    &&& if complete {
        &&& t.pause_ms == 0
        &&& t.action matches UsnAction::Apply { from, to }
        &&& from@ == before.checkpoint
        &&& to@ == before.checkpoint.at(before.batch_end)
    } else {
        usn_again(t, 2000)
    }
}

/// How a watch goes on: [`UsnWatch::on_applied`].
pub open spec fn usn_on_applied(
    before: UsnWatchModel,
    after: UsnWatchModel,
    result: ApplyResult,
    records: u64,
    now: Instant,
    apply_ms: u64,
    t: Turn<UsnAction>,
) -> bool {
    match result {
        ApplyResult::Cancelled => usn_stopped(
            before,
            after,
            t,
            "cancelled"@,
        ),
        ApplyResult::Applied { events } => {
            &&& t.pause_ms == 0
            &&& if before.source_state == SourceState::Offline {
                t.action is Restore
            } else {
                t.action is Check
            }
            &&& after == before.with_status(
                before.status.applied(
                    events,
                    records,
                    Some(before.batch_end),
                    now,
                    apply_ms,
                ).live(),
            )
        },
        ApplyResult::Stale => {
            &&& usn_again(t, 0)
            &&& after == (UsnWatchModel { volume_open: false, ..before })
        },
        ApplyResult::Failed => usn_again(t, 2000) && after == before,
    }
}

/// How a watch goes on: [`UsnWatch::on_restored`].
pub open spec fn usn_on_restored(
    before: UsnWatchModel,
    after: UsnWatchModel,
    cancelled: bool,
    t: Turn<UsnAction>,
) -> bool {
    if cancelled {
        usn_stopped(before, after, t, "cancelled"@)
    } else {
        usn_again(t, 0) && after == before
    }
}

/// How a watch goes on: [`UsnWatch::on_degraded`].
pub open spec fn usn_on_degraded(
    before: UsnWatchModel,
    after: UsnWatchModel,
    start: RecoveryStart,
    t: Turn<UsnAction>,
) -> bool {
    ({
        let closed = UsnWatchModel { volume_open: false, ..before };
        let shown = closed.status.reconciling(JOURNAL_INVALID@);
        match start {
            RecoveryStart::Cancelled => usn_stopped(
                before,
                after,
                t,
                "cancelled"@,
            ),
            RecoveryStart::Started => usn_again(t, 1000) && after
                == closed.with_status(shown.reconciled_once_more()),
            RecoveryStart::Deferred(reason) => usn_again(t, 1000) && after
                == closed.with_status(shown.reconciling(reason@)),
            RecoveryStart::Failed => usn_again(t, 1000) && after
                == closed.with_status(shown),
        }
    })
}

/// How a watch goes on: [`UsnWatch::on_fallback`].
pub open spec fn usn_on_fallback(
    before: UsnWatchModel,
    after: UsnWatchModel,
    cancelled: bool,
    reason: String,
    t: Turn<UsnAction>,
) -> bool {
    usn_stopped(
        before,
        after,
        t,
        if cancelled {
            "cancelled"@
        } else {
            reason@
        },
    )
}

impl UsnWatch {
    pub fn new(source_id: SourceId, now: Instant) -> (r: UsnWatch)
        ensures
            r@.status == StatusModel::fresh(source_id, now),
            !r@.volume_open,
            r@.io_failures == 0,
    {
        UsnWatch {
            status: WatcherStatus::new(source_id, now),
            volume_open: false,
            io_failures: 0,
            source_state: SourceState::Enumerating,
            published: false,
            checkpoint: UsnCheckpoint { journal_id: 0, next_usn: 0, volume_root: String::new() },
            batch_end: 0,
        }
    }

    fn stop(&mut self, reason: &str) -> (t: Turn<UsnAction>)
        ensures
            usn_stopped(old(self)@, final(self)@, t, reason@),
    {
        self.status.set(WatcherState::Stopped, Some(reason.to_owned()));
        Turn { pause_ms: 0, action: UsnAction::Stop }
    }

    fn again(pause_ms: u64) -> (t: Turn<UsnAction>)
        ensures
            usn_again(t, pause_ms),
    {
        Turn { pause_ms, action: UsnAction::Check }
    }

    fn go(action: UsnAction) -> (t: Turn<UsnAction>)
        ensures
            t.pause_ms == 0,
            t.action == action,
    {
        Turn { pause_ms: 0, action }
    }

    /// A round begins.
    pub fn on_check(&mut self, shutdown: bool) -> (t: Turn<UsnAction>)
        ensures
            usn_on_check(old(self)@, final(self)@, shutdown, t),
    {
        if !self.status.may_mutate(shutdown) {
            return self.stop("cancelled");
        }
        Self::go(UsnAction::ReadSource)
    }

    pub fn on_source(&mut self, read: SourceRead) -> (t: Turn<UsnAction>)
        ensures
            usn_on_source(old(self)@, final(self)@, read, t),
    {
        match read {
            SourceRead::Removed => self.stop("source removed"),
            SourceRead::Failed => Self::again(2000),
            SourceRead::Found { state, kind, published } => {
                if state == SourceState::Retired {
                    return self.stop("source retired");
                }
                if kind.is_remote() {
                    return self.stop("fleet replicas have no local change feed");
                }
                self.source_state = state;
                self.published = published;
                Self::go(UsnAction::ReadScan)
            },
        }
    }

    pub fn on_scan(&mut self, running: bool) -> (t: Turn<UsnAction>)
        ensures
            usn_on_scan(old(self)@, final(self)@, running, t),
    {
        if running {
            self.status.set(WatcherState::Reconciling, Some("scan in progress".to_owned()));
            return Self::again(POLL_INTERVAL_MS);
        }
        Self::go(UsnAction::ReadCheckpoint)
    }

    /// The stored checkpoint was read; `Ok(None)` where there is none that a
    /// USN journal can continue from.
    pub fn on_checkpoint(&mut self, read: Result<Option<UsnCheckpoint>, ()>) -> (t: Turn<UsnAction>)
        ensures
            usn_on_checkpoint(old(self)@, final(self)@, read, t),
    {
        match read {
            Err(_) => Self::again(2000),
            Ok(None) => {
                if !self.published {
                    return self.stop("source has no published generation; scan it first");
                }
                Self::go(UsnAction::ReadRecent)
            },
            Ok(Some(cp)) => {
                let root = cp.volume_root.clone();
                let journal_id = cp.journal_id;
                let next_usn = cp.next_usn;
                self.checkpoint = cp;
                if self.volume_open {
                    Self::go(UsnAction::ReadJournal { journal_id, next_usn })
                } else {
                    Self::go(UsnAction::OpenVolume { root })
                }
            },
        }
    }

    /// Whether the last scan failed within [`RECONCILE_RETRY_DELAY_S`]. Such a
    /// scan is retried after a pause rather than in a tight loop.
    pub fn on_recent(&mut self, failed_recently: bool) -> (t: Turn<UsnAction>)
        ensures
            usn_on_recent(old(self)@, final(self)@, failed_recently, t),
    {
        if failed_recently {
            self.status.set(
                WatcherState::Reconciling,
                Some("waiting to retry after a failed reconciliation".to_owned()),
            );
            return Self::again(POLL_INTERVAL_MS);
        }
        Self::go(UsnAction::Recover)
    }

    /// A recovery scan was to establish a checkpoint.
    pub fn on_recovery(&mut self, start: RecoveryStart) -> (t: Turn<UsnAction>)
        ensures
            usn_on_recovery(old(self)@, final(self)@, start, t),
    {
        match start {
            RecoveryStart::Cancelled => self.stop("cancelled"),
            RecoveryStart::Started => {
                self.status.set(
                    WatcherState::Reconciling,
                    Some("establishing checkpoint".to_owned()),
                );
                self.status.count_reconcile();
                Self::again(POLL_INTERVAL_MS)
            },
            RecoveryStart::Deferred(reason) => {
                self.status.set(WatcherState::Reconciling, Some(reason));
                Self::again(POLL_INTERVAL_MS)
            },
            RecoveryStart::Failed => Self::again(5500),
        }
    }

    /// Opening the volume succeeded, or failed with this error. The fifth
    /// failure in a row marks the source offline.
    pub fn on_open(&mut self, opened: Result<(), String>) -> (t: Turn<UsnAction>)
        requires
            old(self)@.io_failures < u32::MAX,
        ensures
            usn_on_open(old(self)@, final(self)@, opened, t),
    {
        match opened {
            Ok(_) => {
                self.volume_open = true;
                Self::go(
                    UsnAction::ReadJournal {
                        journal_id: self.checkpoint.journal_id,
                        next_usn: self.checkpoint.next_usn,
                    },
                )
            },
            Err(e) => {
                self.io_failures = self.io_failures + 1;
                if self.io_failures == 5 {
                    let reason = "volume ".to_owned().concat(&self.checkpoint.volume_root).concat(
                        " unavailable: ",
                    ).concat(&e);
                    return Self::go(UsnAction::MarkOffline { reason, error: e });
                }
                self.open_failed(&e)
            },
        }
    }

    fn open_failed(&mut self, error: &String) -> (t: Turn<UsnAction>)
        ensures
            usn_again(t, 5000),
            final(self)@ == old(self)@.with_status(
                old(self)@.status.starting("volume open failed: "@ + error@),
            ),
    {
        self.status.set(
            WatcherState::Starting,
            Some("volume open failed: ".to_owned().concat(error)),
        );
        Self::again(5000)
    }

    /// The source was marked offline after its volume did not open.
    pub fn on_offline_marked(&mut self, cancelled: bool, error: String) -> (t: Turn<UsnAction>)
        ensures
            usn_on_offline_marked(old(self)@, final(self)@, cancelled, error, t),
    {
        if cancelled {
            return self.stop("cancelled");
        }
        self.open_failed(&error)
    }

    /// The journal was read.
    pub fn on_read(&mut self, read: JournalRead, shutdown: bool) -> (t: Turn<UsnAction>)
        requires
            old(self)@.io_failures < u32::MAX,
        ensures
            usn_on_read(old(self)@, final(self)@, read, shutdown, t),
    {
        match read {
            JournalRead::Records { empty, next_usn } => {
                if !self.status.may_mutate(shutdown) {
                    return self.stop("cancelled");
                }
                self.io_failures = 0;
                self.batch_end = next_usn;
                if !empty {
                    return Self::go(UsnAction::ReadRootSerial);
                }
                if next_usn != self.checkpoint.next_usn {
                    let from = self.checkpoint.copy();
                    let to = self.checkpoint.moved(next_usn);
                    return Self::go(UsnAction::Advance { from, to });
                }
                self.status.set(WatcherState::Live, None);
                Self::again(0)
            },
            JournalRead::Invalid => {
                if !self.status.may_mutate(shutdown) {
                    return self.stop("cancelled");
                }
                Self::go(UsnAction::DegradeAndRecover { reason: JOURNAL_INVALID.to_owned() })
            },
            JournalRead::DeleteInProgress(_) => {
                self.status.set(
                    WatcherState::Starting,
                    Some("journal deletion in progress".to_owned()),
                );
                Self::again(5000)
            },
            JournalRead::Unavailable(e) => {
                let reason = e.concat("; falling back to periodic reconciliation");
                Self::go(UsnAction::FallBack { state: self.source_state, reason })
            },
            JournalRead::Cancelled(_) => self.stop("cancelled"),
            JournalRead::Io(e) => {
                self.io_failures = self.io_failures + 1;
                self.volume_open = false;
                if self.io_failures >= 5 {
                    let reason = "volume unreachable: ".to_owned().concat(&e);
                    return Self::go(UsnAction::MarkUnreachable { reason });
                }
                Self::again(5000)
            },
        }
    }

    /// The source was marked offline after its journal could not be read.
    pub fn on_unreachable_marked(&mut self, cancelled: bool) -> (t: Turn<UsnAction>)
        ensures
            usn_on_unreachable_marked(old(self)@, final(self)@, cancelled, t),
    {
        if cancelled {
            return self.stop("cancelled");
        }
        Self::again(5000)
    }

    /// An empty batch was acknowledged.
    pub fn on_advanced(&mut self, result: AdvanceResult) -> (t: Turn<UsnAction>)
        ensures
            usn_on_advanced(old(self)@, final(self)@, result, t),
    {
        match result {
            AdvanceResult::Cancelled => self.stop("cancelled"),
            AdvanceResult::Advanced => {
                self.status.last_position = self.batch_end;
                self.status.set(WatcherState::Live, None);
                Self::again(0)
            },
            AdvanceResult::Stale => {
                self.volume_open = false;
                Self::again(0)
            },
            AdvanceResult::Failed => Self::again(2000),
        }
    }

    /// The volume serial of the source's root, which its records are keyed by.
    pub fn on_serial(&mut self, serial: Option<u64>) -> (t: Turn<UsnAction>)
        ensures
            usn_on_serial(old(self)@, final(self)@, serial, t),
    {
        match serial {
            None => self.stop("root object has no native identity; rescan required"),
            Some(s) => Self::go(UsnAction::Translate { volume_serial: s }),
        }
    }

    /// The batch was translated, completely or not. An incomplete translation
    /// is never acknowledged: the checkpoint stays and the batch is read again.
    pub fn on_translated(&mut self, complete: bool) -> (t: Turn<UsnAction>)
        ensures
            usn_on_translated(old(self)@, final(self)@, complete, t),
    {
        if !complete {
            return Self::again(2000);
        }
        let from = self.checkpoint.copy();
        let to = self.checkpoint.moved(self.batch_end);
        Self::go(UsnAction::Apply { from, to })
    }

    /// The batch was applied together with its checkpoint, or not.
    pub fn on_applied(
        &mut self,
        result: ApplyResult,
        records: u64,
        now: Instant,
        apply_ms: u64,
    ) -> (t: Turn<UsnAction>)
        ensures
            usn_on_applied(old(self)@, final(self)@, result, records, now, apply_ms, t),
    {
        match result {
            ApplyResult::Cancelled => self.stop("cancelled"),
            ApplyResult::Applied { events } => {
                let end = self.batch_end;
                self.status.count_batch(events, records, Some(end), now, apply_ms);
                self.status.set(WatcherState::Live, None);
                if self.source_state == SourceState::Offline {
                    Self::go(UsnAction::Restore)
                } else {
                    Self::again(0)
                }
            },
            ApplyResult::Stale => {
                self.volume_open = false;
                Self::again(0)
            },
            ApplyResult::Failed => Self::again(2000),
        }
    }

    /// An offline source got its state back.
    pub fn on_restored(&mut self, cancelled: bool) -> (t: Turn<UsnAction>)
        ensures
            usn_on_restored(old(self)@, final(self)@, cancelled, t),
    {
        if cancelled {
            return self.stop("cancelled");
        }
        Self::again(0)
    }

    /// The checkpoint of an invalid journal was dropped and a recovery scan
    /// was to start.
    pub fn on_degraded(&mut self, start: RecoveryStart) -> (t: Turn<UsnAction>)
        ensures
            usn_on_degraded(old(self)@, final(self)@, start, t),
    {
        if let RecoveryStart::Cancelled = start {
            return self.stop("cancelled");
        }
        self.status.set(WatcherState::Reconciling, Some(JOURNAL_INVALID.to_owned()));
        self.volume_open = false;
        match start {
            RecoveryStart::Started => {
                self.status.count_reconcile();
            },
            RecoveryStart::Deferred(reason) => {
                self.status.set(WatcherState::Reconciling, Some(reason));
            },
            RecoveryStart::Failed => {},
            RecoveryStart::Cancelled => {},
        }
        Self::again(1000)
    }

    /// The journal is not available: only periodic reconciliation is left.
    pub fn on_fallback(&mut self, cancelled: bool, reason: String) -> (t: Turn<UsnAction>)
        ensures
            usn_on_fallback(old(self)@, final(self)@, cancelled, reason, t),
    {
        if cancelled {
            return self.stop("cancelled");
        }
        self.stop(&reason)
    }
}

// ----- the FSEvents loop ----------------------------------------------------

/// What the FSEvents loop does next. The actions that change the catalog are
/// only carried out while the watcher may mutate; otherwise the loop is told
/// that it was cancelled.
#[derive(Debug)]
pub enum FsEventsAction {
    /// Look at the cancellation flags: a new round begins.
    Check,
    ReadSource,
    ReadScan,
    ReadCheckpoint,
    ReadRecent,
    /// Open the feed at this round's checkpoint.
    OpenFeed,
    /// Mark the source degraded, forget the cursor, start a recovery scan, and
    /// hand back the reason and the pause.
    Reconcile { reason: String, then_pause_ms: u64 },
    /// Wait for a message for at most [`POLL_INTERVAL_MS`].
    Receive,
    Translate,
    /// Apply the translated batch and move the checkpoint with it, if it is
    /// still the one read.
    Apply { from: FsEventsCheckpoint, to: FsEventsCheckpoint },
    Restore,
    Stop,
}

/// How opening the feed went.
#[derive(Debug)]
pub enum FeedOpen {
    Opened { replaying: bool },
    /// The cursor cannot be continued from.
    Unsupported(String),
    Failed(String),
}

/// What the feed delivered.
#[derive(Debug)]
pub enum FeedMessage {
    Nothing,
    HistoryDone,
    /// Event continuity was lost.
    Rescan(String),
    Batch { event_id: u64 },
}

/// The state of one FSEvents loop.
#[derive(Debug)]
pub struct FsEventsWatch {
    pub status: WatcherStatus,
    pub feed_open: bool,
    pub source_state: SourceState,
    pub published: bool,
    /// The checkpoint read in this round.
    pub checkpoint: FsEventsCheckpoint,
    /// The id that the batch in flight ends at.
    pub batch_end: u64,
    /// The batch in flight has to be read again.
    pub replay_batch: bool,
}

pub struct FsEventsWatchModel {
    pub status: StatusModel,
    pub feed_open: bool,
    pub source_state: SourceState,
    pub published: bool,
    pub checkpoint: FsEventsPosition,
    pub batch_end: u64,
    pub replay_batch: bool,
}

impl View for FsEventsWatch {
    type V = FsEventsWatchModel;

    open spec fn view(&self) -> FsEventsWatchModel {
        FsEventsWatchModel {
            status: self.status@,
            feed_open: self.feed_open,
            source_state: self.source_state,
            published: self.published,
            checkpoint: self.checkpoint@,
            batch_end: self.batch_end,
            replay_batch: self.replay_batch,
        }
    }
}

impl FsEventsWatchModel {
    pub open spec fn with_status(self, status: StatusModel) -> FsEventsWatchModel {
        FsEventsWatchModel { status, ..self }
    }

    pub open spec fn closed_feed(self) -> FsEventsWatchModel {
        FsEventsWatchModel { feed_open: false, ..self }
    }
}

pub open spec fn fsevents_stopped(
    before: FsEventsWatchModel,
    after: FsEventsWatchModel,
    t: Turn<FsEventsAction>,
    reason: Seq<char>,
) -> bool {
    &&& t.action is Stop
    &&& t.pause_ms == 0
    &&& after == before.with_status(before.status.stopped(reason))
}

pub open spec fn fsevents_again(t: Turn<FsEventsAction>, pause_ms: u64) -> bool {
    t.action is Check && t.pause_ms == pause_ms
}

/// Every path that loses event continuity asks for this, so a partial feed can
/// never be mistaken for a complete one.
pub open spec fn asks_reconcile(
    t: Turn<FsEventsAction>,
    expected: Seq<char>,
    pause_ms: u64,
) -> bool {
    &&& t.pause_ms == 0
    &&& t.action matches FsEventsAction::Reconcile { reason, then_pause_ms }
    &&& reason@ == expected
    &&& then_pause_ms == pause_ms
}

/// Why an oversized batch is reconciled.
pub const SUBTREE_TOO_LARGE: &'static str =
    "a moved subtree is larger than one batch can describe; reconciling";

/// How a watch goes on: [`FsEventsWatch::on_check`].
pub open spec fn fsevents_on_check(
    before: FsEventsWatchModel,
    after: FsEventsWatchModel,
    shutdown: bool,
    t: Turn<FsEventsAction>,
) -> bool {
    if before.status.cancel || shutdown {
        fsevents_stopped(before, after, t, "cancelled"@)
    } else {
        t.pause_ms == 0 && t.action is ReadSource && after == before
    }
}

/// How a watch goes on: [`FsEventsWatch::on_source`].
pub open spec fn fsevents_on_source(
    before: FsEventsWatchModel,
    after: FsEventsWatchModel,
    read: SourceRead,
    t: Turn<FsEventsAction>,
) -> bool {
    match read {
        SourceRead::Removed => fsevents_stopped(
            before,
            after,
            t,
            "source removed"@,
        ),
        SourceRead::Failed => fsevents_again(t, 2000) && after == before,
        SourceRead::Found { state, kind, published } => if state == SourceState::Retired {
            fsevents_stopped(before, after, t, "source retired"@)
        } else if kind == SourceKind::Remote {
            fsevents_stopped(
                before,
                after,
                t,
                "fleet replicas have no local change feed"@,
            )
        } else {
            &&& t.pause_ms == 0
            &&& t.action is ReadScan
            &&& after == (FsEventsWatchModel {
                source_state: state,
                published,
                ..before
            })
        },
    }
}

/// How a watch goes on: [`FsEventsWatch::on_scan`].
pub open spec fn fsevents_on_scan(
    before: FsEventsWatchModel,
    after: FsEventsWatchModel,
    running: bool,
    t: Turn<FsEventsAction>,
) -> bool {
    if running {
        &&& fsevents_again(t, POLL_INTERVAL_MS)
        &&& after == before.closed_feed().with_status(
            before.status.reconciling("scan in progress"@),
        )
    } else {
        t.pause_ms == 0 && t.action is ReadCheckpoint && after == before
    }
}

/// How a watch goes on: [`FsEventsWatch::on_checkpoint`].
pub open spec fn fsevents_on_checkpoint(
    before: FsEventsWatchModel,
    after: FsEventsWatchModel,
    read: Result<Option<FsEventsCheckpoint>, ()>,
    t: Turn<FsEventsAction>,
) -> bool {
    match read {
        Err(_) => fsevents_again(t, 2000) && after == before,
        Ok(None) => if !before.published {
            fsevents_stopped(
                before,
                after,
                t,
                "source has no published generation; scan it first"@,
            )
        } else {
            t.pause_ms == 0 && t.action is ReadRecent && after == before
        },
        Ok(Some(cp)) => {
            &&& t.pause_ms == 0
            &&& if before.feed_open {
                t.action is Receive
            } else {
                t.action is OpenFeed
            }
            &&& after == (FsEventsWatchModel { checkpoint: cp@, ..before })
        },
    }
}

/// How a watch goes on: [`FsEventsWatch::on_recent`].
pub open spec fn fsevents_on_recent(
    before: FsEventsWatchModel,
    after: FsEventsWatchModel,
    failed_recently: bool,
    t: Turn<FsEventsAction>,
) -> bool {
    if failed_recently {
        &&& fsevents_again(t, POLL_INTERVAL_MS)
        &&& after == before.with_status(
            before.status.reconciling(
                "waiting to retry after a failed reconciliation"@,
            ),
        )
    } else {
        &&& asks_reconcile(t, "establishing a change-feed cursor"@, POLL_INTERVAL_MS)
        &&& after == before
    }
}

/// How a watch goes on: [`FsEventsWatch::on_reconciled`].
pub open spec fn fsevents_on_reconciled(
    before: FsEventsWatchModel,
    after: FsEventsWatchModel,
    start: RecoveryStart,
    reason: String,
    then_pause_ms: u64,
    t: Turn<FsEventsAction>,
) -> bool {
    match start {
        RecoveryStart::Cancelled => fsevents_stopped(
            before,
            after,
            t,
            "cancelled"@,
        ),
        RecoveryStart::Started => {
            &&& fsevents_again(t, then_pause_ms)
            &&& after == before.with_status(
                before.status.reconciled_once_more().reconciling(reason@),
            )
        },
        RecoveryStart::Deferred(why) => {
            &&& fsevents_again(t, then_pause_ms)
            &&& after == before.with_status(before.status.reconciling(why@))
        },
        RecoveryStart::Failed => fsevents_again(t, then_pause_ms) && after == before,
    }
}

/// How a watch goes on: [`FsEventsWatch::on_open`].
pub open spec fn fsevents_on_open(
    before: FsEventsWatchModel,
    after: FsEventsWatchModel,
    opened: FeedOpen,
    t: Turn<FsEventsAction>,
) -> bool {
    match opened {
        FeedOpen::Opened { replaying } => {
            &&& t.pause_ms == 0
            &&& t.action is Receive
            &&& after == (FsEventsWatchModel {
                feed_open: true,
                ..before
            }).with_status(
                before.status.starting(
                    if replaying {
                        "replaying stored events"@
                    } else {
                        "watching"@
                    },
                ),
            )
        },
        FeedOpen::Unsupported(e) => {
            &&& asks_reconcile(t, e@ + "; reconciling"@, POLL_INTERVAL_MS)
            &&& after == before
        },
        FeedOpen::Failed(e) => {
            &&& fsevents_again(t, 5000)
            &&& after == before.with_status(
                before.status.starting("opening the change feed failed: "@ + e@),
            )
        },
    }
}

/// How a watch goes on: [`FsEventsWatch::on_message`].
pub open spec fn fsevents_on_message(
    before: FsEventsWatchModel,
    after: FsEventsWatchModel,
    message: FeedMessage,
    shutdown: bool,
    t: Turn<FsEventsAction>,
) -> bool {
    match message {
        FeedMessage::Nothing | FeedMessage::HistoryDone => {
            &&& fsevents_again(t, 0)
            &&& after == before.with_status(before.status.live())
        },
        FeedMessage::Rescan(reason) => {
            &&& asks_reconcile(t, reason@ + "; reconciling"@, 1000)
            &&& after == before.closed_feed()
        },
        FeedMessage::Batch { event_id } => if before.status.cancel || shutdown {
            fsevents_stopped(before, after, t, "cancelled"@)
        } else {
            &&& t.pause_ms == 0
            &&& t.action is Translate
            &&& after == (FsEventsWatchModel { batch_end: event_id, ..before })
        },
    }
}

/// How a watch goes on: [`FsEventsWatch::on_translated`].
pub open spec fn fsevents_on_translated(
    before: FsEventsWatchModel,
    after: FsEventsWatchModel,
    needs_rescan: bool,
    retryable_errors: u64,
    t: Turn<FsEventsAction>,
) -> bool {
    if needs_rescan {
        &&& asks_reconcile(t, SUBTREE_TOO_LARGE@, 0)
        &&& after == before.closed_feed()
    } else {
        &&& t.pause_ms == 0
        &&& t.action matches FsEventsAction::Apply { from, to }
        &&& from@ == before.checkpoint
        &&& to@ == (if retryable_errors > 0 {
            before.checkpoint
        } else {
            FsEventsPosition { event_id: before.batch_end, ..before.checkpoint }
        })
        &&& after == (FsEventsWatchModel {
            replay_batch: retryable_errors > 0,
            ..before
        })
    }
}

/// How a watch goes on: [`FsEventsWatch::on_applied`].
pub open spec fn fsevents_on_applied(
    before: FsEventsWatchModel,
    after: FsEventsWatchModel,
    result: ApplyResult,
    paths: u64,
    now: Instant,
    apply_ms: u64,
    t: Turn<FsEventsAction>,
) -> bool {
    match result {
        ApplyResult::Cancelled => fsevents_stopped(
            before,
            after,
            t,
            "cancelled"@,
        ),
        ApplyResult::Applied { events } => {
            let counted = before.status.applied(
                events,
                paths,
                if before.replay_batch {
                    None
                } else {
                    Some(signed_position(before.batch_end))
                },
                now,
                apply_ms,
            );
            &&& t.pause_ms == 0
            &&& if before.source_state == SourceState::Offline {
                t.action is Restore
            } else {
                t.action is Check
            }
            &&& after == (if before.replay_batch {
                before.closed_feed().with_status(
                    counted.starting("retrying an incomplete change-feed batch"@),
                )
            } else {
                before.with_status(counted.live())
            })
        },
        ApplyResult::Stale => fsevents_again(t, 0) && after == before.closed_feed(),
        ApplyResult::Failed => fsevents_again(t, 2000) && after == before.closed_feed(),
    }
}

/// How a watch goes on: [`FsEventsWatch::on_restored`].
pub open spec fn fsevents_on_restored(
    before: FsEventsWatchModel,
    after: FsEventsWatchModel,
    cancelled: bool,
    t: Turn<FsEventsAction>,
) -> bool {
    if cancelled {
        fsevents_stopped(before, after, t, "cancelled"@)
    } else {
        fsevents_again(t, 0) && after == before
    }
}

impl FsEventsWatch {
    pub fn new(source_id: SourceId, now: Instant) -> (r: FsEventsWatch)
        ensures
            r@.status == StatusModel::fresh(source_id, now),
            !r@.feed_open,
    {
        FsEventsWatch {
            status: WatcherStatus::new(source_id, now),
            feed_open: false,
            source_state: SourceState::Enumerating,
            published: false,
            checkpoint: FsEventsCheckpoint {
                cursor: FsEventsCursor { store_uuid: String::new(), event_id: 0 },
                root: String::new(),
            },
            batch_end: 0,
            replay_batch: false,
        }
    }

    fn stop(&mut self, reason: &str) -> (t: Turn<FsEventsAction>)
        ensures
            fsevents_stopped(old(self)@, final(self)@, t, reason@),
    {
        self.status.set(WatcherState::Stopped, Some(reason.to_owned()));
        Turn { pause_ms: 0, action: FsEventsAction::Stop }
    }

    fn again(pause_ms: u64) -> (t: Turn<FsEventsAction>)
        ensures
            fsevents_again(t, pause_ms),
    {
        Turn { pause_ms, action: FsEventsAction::Check }
    }

    fn go(action: FsEventsAction) -> (t: Turn<FsEventsAction>)
        ensures
            t.pause_ms == 0,
            t.action == action,
    {
        Turn { pause_ms: 0, action }
    }

    /// A round begins.
    pub fn on_check(&mut self, shutdown: bool) -> (t: Turn<FsEventsAction>)
        ensures
            fsevents_on_check(old(self)@, final(self)@, shutdown, t),
    {
        if !self.status.may_mutate(shutdown) {
            return self.stop("cancelled");
        }
        Self::go(FsEventsAction::ReadSource)
    }

    pub fn on_source(&mut self, read: SourceRead) -> (t: Turn<FsEventsAction>)
        ensures
            fsevents_on_source(old(self)@, final(self)@, read, t),
    {
        match read {
            SourceRead::Removed => self.stop("source removed"),
            SourceRead::Failed => Self::again(2000),
            SourceRead::Found { state, kind, published } => {
                if state == SourceState::Retired {
                    return self.stop("source retired");
                }
                if kind.is_remote() {
                    return self.stop("fleet replicas have no local change feed");
                }
                self.source_state = state;
                self.published = published;
                Self::go(FsEventsAction::ReadScan)
            },
        }
    }

    /// An in-flight scan owns the source; the feed is closed so the watcher
    /// cannot apply events against a generation being built.
    pub fn on_scan(&mut self, running: bool) -> (t: Turn<FsEventsAction>)
        ensures
            fsevents_on_scan(old(self)@, final(self)@, running, t),
    {
        if running {
            self.feed_open = false;
            self.status.set(WatcherState::Reconciling, Some("scan in progress".to_owned()));
            return Self::again(POLL_INTERVAL_MS);
        }
        Self::go(FsEventsAction::ReadCheckpoint)
    }

    pub fn on_checkpoint(&mut self, read: Result<Option<FsEventsCheckpoint>, ()>) -> (t: Turn<
        FsEventsAction,
    >)
        ensures
            fsevents_on_checkpoint(old(self)@, final(self)@, read, t),
    {
        match read {
            Err(_) => Self::again(2000),
            Ok(None) => {
                if !self.published {
                    return self.stop("source has no published generation; scan it first");
                }
                Self::go(FsEventsAction::ReadRecent)
            },
            Ok(Some(cp)) => {
                self.checkpoint = cp;
                if self.feed_open {
                    Self::go(FsEventsAction::Receive)
                } else {
                    Self::go(FsEventsAction::OpenFeed)
                }
            },
        }
    }

    pub fn on_recent(&mut self, failed_recently: bool) -> (t: Turn<FsEventsAction>)
        ensures
            fsevents_on_recent(old(self)@, final(self)@, failed_recently, t),
    {
        if failed_recently {
            self.status.set(
                WatcherState::Reconciling,
                Some("waiting to retry after a failed reconciliation".to_owned()),
            );
            return Self::again(POLL_INTERVAL_MS);
        }
        Self::go(
            FsEventsAction::Reconcile {
                reason: "establishing a change-feed cursor".to_owned(),
                then_pause_ms: POLL_INTERVAL_MS,
            },
        )
    }

    /// The cursor was dropped and a recovery scan was to start.
    pub fn on_reconciled(&mut self, start: RecoveryStart, reason: String, then_pause_ms: u64) -> (t:
        Turn<FsEventsAction>)
        ensures
            fsevents_on_reconciled(old(self)@, final(self)@, start, reason, then_pause_ms, t),
    {
        match start {
            RecoveryStart::Cancelled => {
                return self.stop("cancelled");
            },
            RecoveryStart::Started => {
                self.status.count_reconcile();
                self.status.set(WatcherState::Reconciling, Some(reason));
            },
            RecoveryStart::Deferred(why) => {
                self.status.set(WatcherState::Reconciling, Some(why));
            },
            RecoveryStart::Failed => {},
        }
        Self::again(then_pause_ms)
    }

    pub fn on_open(&mut self, opened: FeedOpen) -> (t: Turn<FsEventsAction>)
        ensures
            fsevents_on_open(old(self)@, final(self)@, opened, t),
    {
        match opened {
            FeedOpen::Opened { replaying } => {
                let detail = if replaying {
                    "replaying stored events".to_owned()
                } else {
                    "watching".to_owned()
                };
                self.status.set(WatcherState::Starting, Some(detail));
                self.feed_open = true;
                Self::go(FsEventsAction::Receive)
            },
            FeedOpen::Unsupported(e) => Self::go(
                FsEventsAction::Reconcile {
                    reason: e.concat("; reconciling"),
                    then_pause_ms: POLL_INTERVAL_MS,
                },
            ),
            FeedOpen::Failed(e) => {
                self.status.set(
                    WatcherState::Starting,
                    Some("opening the change feed failed: ".to_owned().concat(&e)),
                );
                Self::again(5000)
            },
        }
    }

    pub fn on_message(&mut self, message: FeedMessage, shutdown: bool) -> (t: Turn<FsEventsAction>)
        ensures
            fsevents_on_message(old(self)@, final(self)@, message, shutdown, t),
    {
        match message {
            FeedMessage::Nothing | FeedMessage::HistoryDone => {
                self.status.set(WatcherState::Live, None);
                Self::again(0)
            },
            FeedMessage::Rescan(reason) => {
                self.feed_open = false;
                Self::go(
                    FsEventsAction::Reconcile {
                        reason: reason.concat("; reconciling"),
                        then_pause_ms: 1000,
                    },
                )
            },
            FeedMessage::Batch { event_id } => {
                if !self.status.may_mutate(shutdown) {
                    return self.stop("cancelled");
                }
                self.batch_end = event_id;
                Self::go(FsEventsAction::Translate)
            },
        }
    }

    /// The batch was translated. What was read is applied; the cursor moves
    /// only past a batch that was read completely.
    pub fn on_translated(&mut self, needs_rescan: bool, retryable_errors: u64) -> (t: Turn<
        FsEventsAction,
    >)
        ensures
            fsevents_on_translated(old(self)@, final(self)@, needs_rescan, retryable_errors, t),
    {
        if needs_rescan {
            self.feed_open = false;
            return Self::go(
                FsEventsAction::Reconcile {
                    reason: SUBTREE_TOO_LARGE.to_owned(),
                    then_pause_ms: 0,
                },
            );
        }
        let (to, replay) = fsevents_batch_checkpoint(
            &self.checkpoint,
            self.batch_end,
            retryable_errors,
        );
        self.replay_batch = replay;
        let from = self.checkpoint.moved(self.checkpoint.cursor.event_id);
        Self::go(FsEventsAction::Apply { from, to })
    }

    /// The batch was applied together with its checkpoint, or not. A failed or
    /// incomplete batch is retried by opening the feed at the unchanged
    /// checkpoint again, because the stream has already consumed it.
    pub fn on_applied(
        &mut self,
        result: ApplyResult,
        paths: u64,
        now: Instant,
        apply_ms: u64,
    ) -> (t: Turn<FsEventsAction>)
        ensures
            fsevents_on_applied(old(self)@, final(self)@, result, paths, now, apply_ms, t),
    {
        match result {
            ApplyResult::Cancelled => self.stop("cancelled"),
            ApplyResult::Applied { events } => {
                let position: Option<i64> = if self.replay_batch {
                    None
                } else {
                    Some(position_of(self.batch_end))
                };
                self.status.count_batch(events, paths, position, now, apply_ms);
                if self.replay_batch {
                    self.feed_open = false;
                    self.status.set(
                        WatcherState::Starting,
                        Some("retrying an incomplete change-feed batch".to_owned()),
                    );
                } else {
                    self.status.set(WatcherState::Live, None);
                }
                if self.source_state == SourceState::Offline {
                    Self::go(FsEventsAction::Restore)
                } else {
                    Self::again(0)
                }
            },
            ApplyResult::Stale => {
                self.feed_open = false;
                Self::again(0)
            },
            ApplyResult::Failed => {
                self.feed_open = false;
                Self::again(2000)
            },
        }
    }

    pub fn on_restored(&mut self, cancelled: bool) -> (t: Turn<FsEventsAction>)
        ensures
            fsevents_on_restored(old(self)@, final(self)@, cancelled, t),
    {
        if cancelled {
            return self.stop("cancelled");
        }
        Self::again(0)
    }
}

/// An event id as a signed position: the same bits.
pub open spec fn signed_position(event_id: u64) -> i64 {
    if event_id <= i64::MAX {
        event_id as i64
    } else {
        (event_id - 0x1_0000_0000_0000_0000) as i64
    }
}

fn position_of(event_id: u64) -> (r: i64)
    ensures
        r == signed_position(event_id),
{
    if event_id <= 9223372036854775807 {
        event_id as i64
    } else {
        let below: u64 = event_id - 9223372036854775808;
        i64::MIN + (below as i64)
    }
}

// ----- laws of the loops ----------------------------------------------------

/// A batch of the journal is applied together with exactly the position that it
/// was read up to, in the same journal and on the same volume, and only in place
/// of the position that it was read from. One that was not translated completely
/// is neither applied nor acknowledged; it is read again.
pub proof fn law_a_journal_position_follows_what_was_read(
    a: UsnWatchModel,
    b: UsnWatchModel,
    c: UsnWatchModel,
    d: UsnWatchModel,
    next: i64,
    shutdown: bool,
    serial: u64,
    complete: bool,
    read: Turn<UsnAction>,
    asked: Turn<UsnAction>,
    t: Turn<UsnAction>,
)
    requires
        usn_on_read(a, b, JournalRead::Records { empty: false, next_usn: next }, shutdown, read),
        !a.status.cancel && !shutdown,
        usn_on_serial(b, c, Some(serial), asked),
        usn_on_translated(c, d, complete, t),
    ensures
        read.action is ReadRootSerial && read.pause_ms == 0,
        asked.action == (UsnAction::Translate { volume_serial: serial }) && asked.pause_ms == 0,
        complete ==> t.pause_ms == 0,
        complete <==> t.action is Apply,
        t.action matches UsnAction::Apply { from, to } ==> {
            &&& from@ == a.checkpoint
            &&& to@.next_usn == next
            &&& to@.journal_id == a.checkpoint.journal_id
            &&& to@.volume_root == a.checkpoint.volume_root
        },
        !complete ==> t.action is Check && t.pause_ms > 0,
        d.checkpoint == a.checkpoint && d.batch_end == next,
{
}

/// A batch without records moves the position to where it was read up to, if
/// that is further, and from nowhere but where it was read from.
pub proof fn law_an_empty_batch_only_moves_the_position(
    a: UsnWatchModel,
    b: UsnWatchModel,
    next: i64,
    shutdown: bool,
    t: Turn<UsnAction>,
)
    requires
        usn_on_read(a, b, JournalRead::Records { empty: true, next_usn: next }, shutdown, t),
        !a.status.cancel && !shutdown,
    ensures
        t.action is Advance <==> next != a.checkpoint.next_usn,
        t.action matches UsnAction::Advance { from, to } ==> from@ == a.checkpoint && to@.next_usn
            == next && to@.journal_id == a.checkpoint.journal_id && to@.volume_root
            == a.checkpoint.volume_root,
        t.action !is Advance ==> t.action is Check && b.status.state == WatcherState::Live,
        b.io_failures == 0,
{
}

/// A journal that lost records is never read on: the source is degraded and
/// scanned again, its volume is opened anew, and the watch shows that it
/// reconciles. A journal that is not there leaves the source to periodic scans.
pub proof fn law_lost_records_are_reconciled(
    a: UsnWatchModel,
    b: UsnWatchModel,
    c: UsnWatchModel,
    shutdown: bool,
    start: RecoveryStart,
    error: String,
    t: Turn<UsnAction>,
    u: Turn<UsnAction>,
    gone: Turn<UsnAction>,
)
    requires
        !a.status.cancel && !shutdown,
        usn_on_read(a, b, JournalRead::Invalid, shutdown, t),
        usn_on_degraded(b, c, start, u),
        usn_on_read(a, b, JournalRead::Unavailable(error), shutdown, gone),
    ensures
        t.action is DegradeAndRecover,
        gone.action matches UsnAction::FallBack { state, .. } && state == a.source_state,
        start !is Cancelled ==> u.action is Check && u.pause_ms > 0 && !c.volume_open
            && c.status.state == WatcherState::Reconciling,
        start is Started && a.status.reconciles < u64::MAX ==> c.status.reconciles
            == a.status.reconciles + 1,
        start is Cancelled ==> u.action is Stop && c.status.state == WatcherState::Stopped,
{
}

/// A volume that does not open five times in a row marks its source offline, at
/// the fifth time and not before; a journal that cannot be read does so from the
/// fifth failure on; a batch that is read starts the count anew.
pub proof fn law_the_fifth_failure_marks_a_source_offline(
    a: UsnWatchModel,
    b: UsnWatchModel,
    error: String,
    opened: Turn<UsnAction>,
    c: UsnWatchModel,
    shutdown: bool,
    read: Turn<UsnAction>,
)
    requires
        a.io_failures < u32::MAX,
        usn_on_open(a, b, Err(error), opened),
        usn_on_read(a, c, JournalRead::Io(error), shutdown, read),
    ensures
        b.io_failures == a.io_failures + 1 && c.io_failures == a.io_failures + 1,
        opened.action is MarkOffline <==> a.io_failures == 4,
        opened.action !is MarkOffline ==> opened.action is Check && opened.pause_ms > 0,
        read.action is MarkUnreachable <==> a.io_failures >= 4,
        read.action !is MarkUnreachable ==> read.action is Check && read.pause_ms > 0,
        !c.volume_open,
{
}

/// What was applied is counted and shown: one batch, its events, its records,
/// and the position that it ended at. A source that was offline is restored, and
/// only such a one.
pub proof fn law_an_applied_batch_is_counted(
    a: UsnWatchModel,
    b: UsnWatchModel,
    events: u64,
    records: u64,
    now: Instant,
    apply_ms: u64,
    t: Turn<UsnAction>,
)
    requires
        usn_on_applied(a, b, ApplyResult::Applied { events }, records, now, apply_ms, t),
        a.status.batches < u64::MAX,
        a.status.events + events <= u64::MAX,
        a.status.records + records <= u64::MAX,
    ensures
        b.status.batches == a.status.batches + 1,
        b.status.events == a.status.events + events,
        b.status.records == a.status.records + records,
        b.status.last_position == a.batch_end,
        b.status.last_batch == Some(now) && b.status.last_apply_ms == apply_ms,
        b.status.state == WatcherState::Live && b.status.detail is None,
        t.action is Restore <==> a.source_state == SourceState::Offline,
        t.action !is Restore ==> t.action is Check,
{
}

/// A checkpoint that someone else moved, and one that could not be moved, count
/// nothing: the next round reads again what the catalog has.
pub proof fn law_an_unapplied_batch_counts_nothing(
    a: UsnWatchModel,
    b: UsnWatchModel,
    result: ApplyResult,
    records: u64,
    now: Instant,
    apply_ms: u64,
    t: Turn<UsnAction>,
)
    requires
        usn_on_applied(a, b, result, records, now, apply_ms, t),
        result is Stale || result is Failed,
    ensures
        t.action is Check,
        b.status == a.status,
        result is Stale ==> !b.volume_open,
        result is Failed ==> t.pause_ms > 0,
{
}

/// Once a watch is cancelled it asks for nothing more of the catalog: at the
/// next look at the flags, and after a batch was read, it stops.
pub proof fn law_a_cancelled_watch_stops(
    a: UsnWatchModel,
    b: UsnWatchModel,
    c: UsnWatchModel,
    read: JournalRead,
    shutdown: bool,
    t: Turn<UsnAction>,
    u: Turn<UsnAction>,
    x: FsEventsWatchModel,
    y: FsEventsWatchModel,
    z: FsEventsWatchModel,
    event_id: u64,
    v: Turn<FsEventsAction>,
    w: Turn<FsEventsAction>,
)
    requires
        a.status.cancel || shutdown,
        x.status.cancel || shutdown,
        usn_on_check(a, b, shutdown, t),
        usn_on_read(a, c, read, shutdown, u),
        read is Records || read is Invalid || read is Cancelled,
        fsevents_on_check(x, y, shutdown, v),
        fsevents_on_message(x, z, FeedMessage::Batch { event_id }, shutdown, w),
    ensures
        t.action is Stop && b.status.state == WatcherState::Stopped,
        u.action is Stop && c.status.state == WatcherState::Stopped,
        v.action is Stop && y.status.state == WatcherState::Stopped,
        w.action is Stop && z.status.state == WatcherState::Stopped,
{
}

/// Only a local source that is not retired is watched, in either loop, and not
/// while it is scanned.
pub proof fn law_only_idle_local_sources_are_watched(
    a: UsnWatchModel,
    b: UsnWatchModel,
    c: UsnWatchModel,
    x: FsEventsWatchModel,
    y: FsEventsWatchModel,
    z: FsEventsWatchModel,
    read: SourceRead,
    running: bool,
    t: Turn<UsnAction>,
    u: Turn<UsnAction>,
    v: Turn<FsEventsAction>,
    w: Turn<FsEventsAction>,
)
    requires
        usn_on_source(a, b, read, t),
        fsevents_on_source(x, y, read, v),
        usn_on_scan(a, c, running, u),
        fsevents_on_scan(x, z, running, w),
    ensures
        t.action is ReadScan <==> (read matches SourceRead::Found { state, kind, .. } && state
            != SourceState::Retired && kind != SourceKind::Remote),
        v.action is ReadScan <==> t.action is ReadScan,
        read is Failed ==> t.action is Check && v.action is Check,
        read !is Failed && t.action !is ReadScan ==> t.action is Stop && v.action is Stop,
        u.action is ReadCheckpoint <==> !running,
        w.action is ReadCheckpoint <==> !running,
        running ==> u.action is Check && w.action is Check && !z.feed_open && c.status.state
            == WatcherState::Reconciling && z.status.state == WatcherState::Reconciling,
{
}

/// A source without a position is scanned to get one, if it has a published
/// generation and the last attempt did not fail a moment ago; with one, it is
/// read from there.
pub proof fn law_a_watch_goes_on_from_its_position(
    a: UsnWatchModel,
    b: UsnWatchModel,
    read: Result<Option<UsnCheckpoint>, ()>,
    t: Turn<UsnAction>,
    c: UsnWatchModel,
    failed_recently: bool,
    u: Turn<UsnAction>,
)
    requires
        usn_on_checkpoint(a, b, read, t),
        usn_on_recent(a, c, failed_recently, u),
    ensures
        read matches Ok(Some(cp)) ==> b.checkpoint == cp@ && (if a.volume_open {
            t.action == (UsnAction::ReadJournal { journal_id: cp.journal_id, next_usn: cp.next_usn })
        } else {
            t.action is OpenVolume
        }),
        read == Ok::<Option<UsnCheckpoint>, ()>(None) ==> (t.action is ReadRecent <==> a.published)
            && (t.action is Stop <==> !a.published),
        read is Err ==> t.action is Check && b == a,
        u.action is Recover <==> !failed_recently,
        failed_recently ==> u.action is Check && u.pause_ms > 0,
{
}

/// A batch of the event feed is applied in place of the cursor that it was read
/// from. The cursor moves to where the batch ended exactly if all of it could be
/// read, in the same store and for the same root; else it stays, and the batch
/// is read again once it was applied.
pub proof fn law_a_cursor_follows_what_was_read(
    a: FsEventsWatchModel,
    b: FsEventsWatchModel,
    c: FsEventsWatchModel,
    d: FsEventsWatchModel,
    event_id: u64,
    shutdown: bool,
    retryable_errors: u64,
    events: u64,
    paths: u64,
    now: Instant,
    apply_ms: u64,
    message: Turn<FsEventsAction>,
    t: Turn<FsEventsAction>,
    u: Turn<FsEventsAction>,
)
    requires
        fsevents_on_message(a, b, FeedMessage::Batch { event_id }, shutdown, message),
        !a.status.cancel && !shutdown,
        fsevents_on_translated(b, c, false, retryable_errors, t),
        fsevents_on_applied(c, d, ApplyResult::Applied { events }, paths, now, apply_ms, u),
    ensures
        message.action is Translate,
        t.action matches FsEventsAction::Apply { from, to } && from@ == a.checkpoint
            && to@.store_uuid == a.checkpoint.store_uuid && to@.root == a.checkpoint.root
            && to@.event_id == (if retryable_errors == 0 {
            event_id
        } else {
            a.checkpoint.event_id
        }),
        d.feed_open <==> a.feed_open && retryable_errors == 0,
        retryable_errors == 0 ==> d.status.state == WatcherState::Live && d.status.last_position
            == signed_position(event_id),
        retryable_errors > 0 ==> d.status.state == WatcherState::Starting && d.status.last_position
            == a.status.last_position,
        u.action is Restore <==> a.source_state == SourceState::Offline,
{
}

/// Every way to lose continuity leads to a reconciliation: a feed that says so,
/// a cursor that cannot be continued from, a subtree that is too large, and no
/// cursor at all. The feed is closed where it was open, and nothing is applied.
pub proof fn law_lost_continuity_is_reconciled(
    a: FsEventsWatchModel,
    b: FsEventsWatchModel,
    c: FsEventsWatchModel,
    d: FsEventsWatchModel,
    e: FsEventsWatchModel,
    reason: String,
    shutdown: bool,
    retryable_errors: u64,
    t: Turn<FsEventsAction>,
    u: Turn<FsEventsAction>,
    v: Turn<FsEventsAction>,
    w: Turn<FsEventsAction>,
)
    requires
        fsevents_on_message(a, b, FeedMessage::Rescan(reason), shutdown, t),
        fsevents_on_translated(a, c, true, retryable_errors, u),
        fsevents_on_open(a, d, FeedOpen::Unsupported(reason), v),
        fsevents_on_recent(a, e, false, w),
    ensures
        t.action is Reconcile && u.action is Reconcile && v.action is Reconcile && w.action
            is Reconcile,
        t.pause_ms == 0 && u.pause_ms == 0 && v.pause_ms == 0 && w.pause_ms == 0,
        d == a && e == a,
        !b.feed_open && !c.feed_open,
        b.checkpoint == a.checkpoint && c.checkpoint == a.checkpoint,
{
}

/// A batch that was not applied is read again: the feed, which has consumed it,
/// is opened anew at the cursor that the catalog has, and nothing is counted.
pub proof fn law_an_unapplied_feed_batch_is_read_again(
    a: FsEventsWatchModel,
    b: FsEventsWatchModel,
    result: ApplyResult,
    paths: u64,
    now: Instant,
    apply_ms: u64,
    t: Turn<FsEventsAction>,
)
    requires
        fsevents_on_applied(a, b, result, paths, now, apply_ms, t),
        result is Stale || result is Failed,
    ensures
        t.action is Check,
        !b.feed_open,
        b.status == a.status && b.checkpoint == a.checkpoint,
        result is Failed ==> t.pause_ms > 0,
{
}

/// A position that was moved is shown, and the watch is live; one that someone
/// else moved is read again from the catalog, and one that could not be moved
/// stays. Nothing is counted as a batch.
pub proof fn law_a_moved_position_is_shown(
    a: UsnWatchModel,
    b: UsnWatchModel,
    result: AdvanceResult,
    t: Turn<UsnAction>,
)
    requires
        usn_on_advanced(a, b, result, t),
    ensures
        result is Advanced ==> b.status.last_position == a.batch_end && b.status.state
            == WatcherState::Live,
        result !is Advanced ==> b.status.last_position == a.status.last_position,
        result is Stale ==> !b.volume_open && b.status == a.status,
        result is Failed ==> b == a && t.pause_ms > 0,
        result is Cancelled <==> t.action is Stop,
        result !is Cancelled ==> t.action is Check,
        b.status.batches == a.status.batches && b.status.events == a.status.events,
{
}

/// Whatever a watch waited for, being cancelled meanwhile stops it, and nothing
/// else does; a reconciliation that was started is counted, one that waits shows
/// for what.
pub proof fn law_an_interrupted_watch_stops(
    a: UsnWatchModel,
    b: UsnWatchModel,
    c: UsnWatchModel,
    d: UsnWatchModel,
    e: UsnWatchModel,
    f: UsnWatchModel,
    x: FsEventsWatchModel,
    y: FsEventsWatchModel,
    z: FsEventsWatchModel,
    start: RecoveryStart,
    cancelled: bool,
    error: String,
    reason: String,
    pause_ms: u64,
    recovery: Turn<UsnAction>,
    offline: Turn<UsnAction>,
    unreachable: Turn<UsnAction>,
    restored: Turn<UsnAction>,
    fallback: Turn<UsnAction>,
    reconciled: Turn<FsEventsAction>,
    feed_restored: Turn<FsEventsAction>,
)
    requires
        a.status.reconciles < u64::MAX,
        x.status.reconciles < u64::MAX,
        usn_on_recovery(a, b, start, recovery),
        usn_on_offline_marked(a, c, cancelled, error, offline),
        usn_on_unreachable_marked(a, d, cancelled, unreachable),
        usn_on_restored(a, e, cancelled, restored),
        usn_on_fallback(a, f, cancelled, reason, fallback),
        fsevents_on_reconciled(x, y, start, reason, pause_ms, reconciled),
        fsevents_on_restored(x, z, cancelled, feed_restored),
    ensures
        recovery.action is Stop <==> start is Cancelled,
        reconciled.action is Stop <==> start is Cancelled,
        start !is Cancelled ==> recovery.action is Check && recovery.pause_ms > 0
            && reconciled.action is Check && reconciled.pause_ms == pause_ms,
        start is Started <==> b.status.reconciles == a.status.reconciles + 1,
        start is Started <==> y.status.reconciles == x.status.reconciles + 1,
        start is Started ==> b.status.state == WatcherState::Reconciling && y.status.state
            == WatcherState::Reconciling,
        start matches RecoveryStart::Deferred(why) ==> b.status.detail == Some(why@)
            && y.status.detail == Some(why@) && b.status.state == WatcherState::Reconciling,
        start is Failed ==> b == a && y == x,
        offline.action is Stop <==> cancelled,
        unreachable.action is Stop <==> cancelled,
        restored.action is Stop <==> cancelled,
        feed_restored.action is Stop <==> cancelled,
        !cancelled ==> offline.action is Check && unreachable.action is Check && restored.action
            is Check && feed_restored.action is Check && offline.pause_ms > 0
            && unreachable.pause_ms > 0 && c.status.state == WatcherState::Starting,
        fallback.action is Stop && f.status.state == WatcherState::Stopped,
        !cancelled ==> f.status.detail == Some(reason@),
{
}

/// A feed is opened where it is not open, and received from where it is.
pub proof fn law_an_open_feed_is_received_from(
    a: FsEventsWatchModel,
    b: FsEventsWatchModel,
    cp: FsEventsCheckpoint,
    c: FsEventsWatchModel,
    replaying: bool,
    t: Turn<FsEventsAction>,
    u: Turn<FsEventsAction>,
)
    requires
        fsevents_on_checkpoint(a, b, Ok(Some(cp)), t),
        fsevents_on_open(a, c, FeedOpen::Opened { replaying }, u),
    ensures
        t.action is Receive <==> a.feed_open,
        t.action is OpenFeed <==> !a.feed_open,
        b.checkpoint == cp@,
        c.feed_open && u.action is Receive && u.pause_ms == 0,
        c.status.state == WatcherState::Starting,
        c.status.detail == Some("replaying stored events"@) <==> replaying,
{
    reveal_strlit("replaying stored events");
    reveal_strlit("watching");
    assert("replaying stored events"@.len() != "watching"@.len());
}

/// A cursor that cannot be read is asked for again; where there is none, a
/// source is scanned to get one if it has a published generation, and its watch
/// ends if it has not. A quiet feed is live, and one that does not open is tried
/// again.
pub proof fn law_a_feed_without_a_cursor_gets_one(
    a: FsEventsWatchModel,
    b: FsEventsWatchModel,
    c: FsEventsWatchModel,
    d: FsEventsWatchModel,
    e: FsEventsWatchModel,
    f: FsEventsWatchModel,
    message: FeedMessage,
    shutdown: bool,
    error: String,
    failed: Turn<FsEventsAction>,
    none: Turn<FsEventsAction>,
    quiet: Turn<FsEventsAction>,
    closed: Turn<FsEventsAction>,
    waiting: Turn<FsEventsAction>,
)
    requires
        fsevents_on_checkpoint(a, b, Err(()), failed),
        fsevents_on_checkpoint(a, c, Ok(None), none),
        message is Nothing || message is HistoryDone,
        fsevents_on_message(a, d, message, shutdown, quiet),
        fsevents_on_open(a, e, FeedOpen::Failed(error), closed),
        fsevents_on_recent(a, f, true, waiting),
    ensures
        failed.action is Check && failed.pause_ms > 0 && b == a,
        none.action is ReadRecent <==> a.published,
        none.action is Stop <==> !a.published,
        quiet.action is Check && quiet.pause_ms == 0 && d.status.state == WatcherState::Live
            && d.feed_open == a.feed_open,
        closed.action is Check && closed.pause_ms > 0 && e.status.state == WatcherState::Starting
            && e.feed_open == a.feed_open,
        waiting.action is Check && waiting.pause_ms > 0 && f.status.state
            == WatcherState::Reconciling,
{
}

/// An event id keeps its bits as a signed position.
pub proof fn law_a_position_keeps_its_bits(a: u64, b: u64)
    ensures
        signed_position(a) == signed_position(b) ==> a == b,
        a <= i64::MAX ==> signed_position(a) == a,
        a > i64::MAX ==> signed_position(a) < 0 && signed_position(a) + 0x1_0000_0000_0000_0000 == a,
{
}

// ----- restoring, replaying, publishing -------------------------------------

/// The truthful completeness state of a source that comes back from offline.
pub fn restored_state(content_pending: u64) -> (r: SourceState)
    ensures
        r == (if content_pending > 0 {
            SourceState::ContentPending
        } else {
            SourceState::MetadataComplete
        }),
{
    if content_pending > 0 {
        SourceState::ContentPending
    } else {
        SourceState::MetadataComplete
    }
}

/// One step of the feed that replays the changes overlapping enumeration.
#[derive(Debug)]
pub enum ReplayStep<E> {
    /// Events for the records up to `next_usn` (possibly none,
    /// when every record was out of scope); the feed must be read again.
    Batch { events: Vec<E>, next_usn: i64 },
    /// No records remain; the feed position is `next_usn`.
    CaughtUp { next_usn: i64 },
    /// The journal wrapped or was recreated: the pending checkpoint cannot
    /// be continued and some overlapping changes are unrecoverable.
    JournalInvalid,
    /// The feed could not be read.
    Failed(String),
}

/// What a read of the journal is to a replay. `translated` is what became of
/// the records, if there were any. Whatever keeps the journal from being read,
/// short of having lost records, fails the replay.
pub fn replay_step<E>(read: JournalRead, translated: Result<Vec<E>, String>) -> (r: ReplayStep<E>)
    ensures
        r == (match read {
            JournalRead::Records { empty, next_usn } => if empty {
                ReplayStep::<E>::CaughtUp { next_usn }
            } else {
                match translated {
                    Ok(events) => ReplayStep::<E>::Batch { events, next_usn },
                    Err(e) => ReplayStep::<E>::Failed(e),
                }
            },
            JournalRead::Invalid => ReplayStep::<E>::JournalInvalid,
            JournalRead::DeleteInProgress(e) => ReplayStep::<E>::Failed(e),
            JournalRead::Unavailable(e) => ReplayStep::<E>::Failed(e),
            JournalRead::Cancelled(e) => ReplayStep::<E>::Failed(e),
            JournalRead::Io(e) => ReplayStep::<E>::Failed(e),
        }),
{
    match read {
        JournalRead::Records { empty, next_usn } => {
            if empty {
                return ReplayStep::CaughtUp { next_usn };
            }
            match translated {
                Ok(events) => ReplayStep::Batch { events, next_usn },
                Err(e) => ReplayStep::Failed(e),
            }
        },
        JournalRead::Invalid => ReplayStep::JournalInvalid,
        JournalRead::DeleteInProgress(e) => ReplayStep::Failed(e),
        JournalRead::Unavailable(e) => ReplayStep::Failed(e),
        JournalRead::Cancelled(e) => ReplayStep::Failed(e),
        JournalRead::Io(e) => ReplayStep::Failed(e),
    }
}

#[derive(Debug)]
pub enum ReplayOutcome {
    CaughtUp { cp: UsnCheckpoint, replayed: u64 },
    JournalInvalid { cp: UsnCheckpoint, replayed: u64 },
    Failed(String),
}

/// What a replay does next.
#[derive(Debug)]
pub enum ReplayAction<E> {
    /// Read the feed from this position.
    Read { next_usn: i64 },
    Apply { events: Vec<E> },
    Done(ReplayOutcome),
}

/// A replay of the changes that overlapped enumeration.
#[derive(Debug)]
pub struct Replay {
    pub cp: UsnCheckpoint,
    pub replayed: u64,
    /// Where the batch that is being applied ends.
    pub batch_end: i64,
}

impl Replay {
    pub fn new(cp: UsnCheckpoint) -> (r: Replay)
        ensures
            r.cp == cp,
            r.replayed == 0,
    {
        let batch_end = cp.next_usn;
        Replay { cp, replayed: 0, batch_end }
    }

    /// The feed answered.
    pub fn on_step<E>(&mut self, step: ReplayStep<E>) -> (r: ReplayAction<E>)
        ensures
            replays(*old(self), *final(self), step, r),
    {
        match step {
            ReplayStep::Batch { events, next_usn } => {
                if events.len() == 0 {
                    self.cp.next_usn = next_usn;
                    return ReplayAction::Read { next_usn };
                }
                self.batch_end = next_usn;
                ReplayAction::Apply { events }
            },
            ReplayStep::CaughtUp { next_usn } => ReplayAction::Done(
                ReplayOutcome::CaughtUp { cp: self.cp.moved(next_usn), replayed: self.replayed },
            ),
            ReplayStep::JournalInvalid => ReplayAction::Done(
                ReplayOutcome::JournalInvalid { cp: self.cp.copy(), replayed: self.replayed },
            ),
            ReplayStep::Failed(e) => ReplayAction::Done(ReplayOutcome::Failed(e)),
        }
    }

    /// The batch was applied: the position moves past it. A failed batch ends
    /// the replay before the position moves.
    pub fn on_applied<E>(&mut self, applied: Result<u64, String>) -> (r: ReplayAction<E>)
        requires
            applied matches Ok(n) ==> old(self).replayed + n <= u64::MAX,
        ensures
            replay_applied(*old(self), *final(self), applied, r),
    {
        match applied {
            Ok(n) => {
                self.replayed = self.replayed + n;
                self.cp.next_usn = self.batch_end;
                ReplayAction::Read { next_usn: self.batch_end }
            },
            Err(e) => ReplayAction::Done(
                ReplayOutcome::Failed("apply failed: ".to_owned().concat(&e)),
            ),
        }
    }
}

/// How a replay goes on after an answer of the feed.
pub open spec fn replays<E>(before: Replay, after: Replay, step: ReplayStep<E>, r: ReplayAction<E>) -> bool {
    &&& after.replayed == before.replayed
    &&& match step {
        ReplayStep::Batch { events, next_usn } => if events@.len() == 0 {
            &&& r == (ReplayAction::<E>::Read { next_usn })
            &&& after.cp@ == before.cp@.at(next_usn)
        } else {
            &&& r == (ReplayAction::<E>::Apply { events })
            &&& after.cp@ == before.cp@
            &&& after.batch_end == next_usn
        },
        ReplayStep::CaughtUp { next_usn } => {
            &&& r matches ReplayAction::Done(ReplayOutcome::CaughtUp { cp, replayed })
            &&& cp@ == before.cp@.at(next_usn)
            &&& replayed == before.replayed
        },
        ReplayStep::JournalInvalid => {
            &&& r matches ReplayAction::Done(ReplayOutcome::JournalInvalid { cp, replayed })
            &&& cp@ == before.cp@
            &&& replayed == before.replayed
        },
        ReplayStep::Failed(e) => r == ReplayAction::<E>::Done(ReplayOutcome::Failed(e)),
    }
}

/// How a replay goes on after a batch was applied, or not.
pub open spec fn replay_applied<E>(
    before: Replay,
    after: Replay,
    applied: Result<u64, String>,
    r: ReplayAction<E>,
) -> bool {
    match applied {
        Ok(n) => {
            &&& r == (ReplayAction::<E>::Read { next_usn: before.batch_end })
            &&& after.cp@ == before.cp@.at(before.batch_end)
            &&& after.replayed == before.replayed + n
        },
        Err(e) => {
            &&& r matches ReplayAction::Done(ReplayOutcome::Failed(why))
            &&& why@ == "apply failed: "@ + e@
            &&& after == before
        },
    }
}

/// A replay moves past a batch with changes only once they were applied, and
/// reads on exactly where the batch ended; it counts what was applied. What it
/// publishes with is the position at which the feed had nothing left, in the
/// journal that it started in.
pub proof fn law_a_replay_skips_nothing<E>(
    a: Replay,
    b: Replay,
    c: Replay,
    d: Replay,
    events: Vec<E>,
    next_usn: i64,
    applied: Result<u64, String>,
    last_usn: i64,
    r: ReplayAction<E>,
    s: ReplayAction<E>,
    t: ReplayAction<E>,
    p: Publication,
)
    requires
        replays(a, b, ReplayStep::Batch { events, next_usn }, r),
        events@.len() > 0,
        replay_applied(b, c, applied, s),
        replays(c, d, ReplayStep::CaughtUp { next_usn: last_usn }, t),
        t matches ReplayAction::Done(outcome) && publishes(outcome, p),
    ensures
        r matches ReplayAction::Apply { events: e } && e == events,
        b.cp@ == a.cp@ && b.replayed == a.replayed,
        applied matches Ok(n) ==> s == (ReplayAction::<E>::Read { next_usn }) && c.cp@.next_usn
            == next_usn && c.replayed == a.replayed + n,
        applied is Err ==> c.cp@ == a.cp@ && c.replayed == a.replayed && (s matches
            ReplayAction::Done(o) && o is Failed),
        p matches Publication::WithCheckpoint(cp) && cp@.next_usn == last_usn && cp@.journal_id
            == a.cp@.journal_id && cp@.volume_root == a.cp@.volume_root,
{
}

/// How an enumerated generation is published.
#[derive(Debug)]
pub enum Publication {
    /// Publish with this checkpoint in the same transaction.
    WithCheckpoint(UsnCheckpoint),
    /// Publish what was enumerated, degraded and without a checkpoint, so the
    /// watcher reconciles again.
    Degraded { reason: String },
    /// Abort: the previous generation and its checkpoint stay in force.
    Abort { reason: String },
}

/// Why a generation is published degraded.
pub const WRAPPED_DURING_SCAN: &'static str =
    "USN journal wrapped during enumeration; another reconciliation is required";

/// How a generation is published after a replay.
pub open spec fn publishes(outcome: ReplayOutcome, r: Publication) -> bool {
    match outcome {
        ReplayOutcome::CaughtUp { cp, .. } => r == Publication::WithCheckpoint(cp),
        ReplayOutcome::JournalInvalid { .. } => r matches Publication::Degraded { reason } && reason@
            == WRAPPED_DURING_SCAN@,
        ReplayOutcome::Failed(e) => r matches Publication::Abort { reason } && reason@
            == "replaying changes that overlapped enumeration failed: "@ + e@,
    }
}

/// A position is published only with a generation that holds everything before
/// it; where changes were lost the generation is published without one, and
/// where they could not be read it is not published.
pub proof fn law_only_a_complete_replay_publishes_a_position(outcome: ReplayOutcome, r: Publication)
    requires
        publishes(outcome, r),
    ensures
        r is WithCheckpoint <==> outcome is CaughtUp,
        r is Degraded <==> outcome is JournalInvalid,
        r is Abort <==> outcome is Failed,
{
}

/// Decide how to publish after a replay. Only a replay that caught up carries
/// its position into the catalog.
pub fn publication(outcome: ReplayOutcome) -> (r: Publication)
    ensures
        publishes(outcome, r),
{
    match outcome {
        ReplayOutcome::CaughtUp { cp, replayed } => Publication::WithCheckpoint(cp),
        ReplayOutcome::JournalInvalid { cp, replayed } => Publication::Degraded {
            reason: WRAPPED_DURING_SCAN.to_owned(),
        },
        ReplayOutcome::Failed(e) => Publication::Abort {
            reason: "replaying changes that overlapped enumeration failed: ".to_owned().concat(&e),
        },
    }
}

// ----- the native scan sequence ---------------------------------------------

/// What a volume offers a scan.
#[derive(Debug)]
pub struct VolumeFacts {
    pub supports_usn: bool,
    pub remote: bool,
    pub macos_fsevents: bool,
    pub volume_root: String,
}

/// A scan without a change feed: what to do once it is published.
#[derive(Debug)]
pub struct PlainScan {
    pub clear_checkpoint: bool,
    /// Shown with the published state.
    pub note: Option<String>,
    /// A watcher of the source has to retire; the reconciler owns it now.
    pub stop_watcher: bool,
}

/// Which way a scan goes.
#[derive(Debug)]
pub enum ScanRoute {
    /// Query this volume's USN journal first.
    QueryJournal { volume_root: String },
    /// Take the current event id first.
    QueryCursor,
    Plain(PlainScan),
    /// Enumerate, replay from this position, publish with it, watch.
    Journal(UsnCheckpoint),
    /// Enumerate, publish with this cursor, watch.
    EventFeed(FsEventsCheckpoint),
}

/// Why a source cannot be scanned here.
#[derive(Debug, Clone, Copy, PartialEq, Eq, Structural)]
pub enum ScanRefusal {
    NotFound(SourceId),
    Replica(SourceId),
}

impl ScanRefusal {
    pub open spec fn text(&self) -> Seq<char> {
        match self {
            ScanRefusal::NotFound(id) => source_label(*id) + " not found"@,
            ScanRefusal::Replica(id) => source_label(*id)
                + " is a fleet replica and cannot be scanned here"@,
        }
    }

    pub fn message(&self) -> (r: String)
        ensures
            r@ == self.text(),
    {
        match self {
            ScanRefusal::NotFound(id) => source_name(*id).concat(" not found"),
            ScanRefusal::Replica(id) => source_name(*id).concat(
                " is a fleet replica and cannot be scanned here",
            ),
        }
    }
}

/// Whether the source exists and is local.
pub fn scannable_here(id: SourceId, kind: Option<SourceKind>) -> (r: Result<(), ScanRefusal>)
    ensures
        match kind {
            None => r == Err::<(), ScanRefusal>(ScanRefusal::NotFound(id)),
            Some(k) => if k == SourceKind::Remote {
                r == Err::<(), ScanRefusal>(ScanRefusal::Replica(id))
            } else {
                r is Ok
            },
        },
{
    match kind {
        None => Err(ScanRefusal::NotFound(id)),
        Some(k) => if k.is_remote() {
            Err(ScanRefusal::Replica(id))
        } else {
            Ok(())
        },
    }
}

/// First decision of a scan on Windows: a local volume that keeps a USN journal
/// is scanned against it; anything else is walked plainly and loses its
/// checkpoint.
pub fn usn_scan_route(volume: Option<VolumeFacts>) -> (r: ScanRoute)
    ensures
        match volume {
            Some(v) => if v.supports_usn && !v.remote {
                r matches ScanRoute::QueryJournal { volume_root } && volume_root@ == v.volume_root@
            } else {
                plain_route(r, None, false)
            },
            None => plain_route(r, None, false),
        },
{
    if let Some(v) = volume {
        if v.supports_usn && !v.remote {
            return ScanRoute::QueryJournal { volume_root: v.volume_root };
        }
    }
    ScanRoute::Plain(PlainScan { clear_checkpoint: true, note: None, stop_watcher: false })
}

/// A plain scan that clears the checkpoint.
pub open spec fn plain_route(r: ScanRoute, note: Option<Seq<char>>, stop_watcher: bool) -> bool {
    &&& r matches ScanRoute::Plain(p)
    &&& p.clear_checkpoint
    &&& opt_text(p.note) == note
    &&& p.stop_watcher == stop_watcher
}

/// A plain scan leaves no position behind that nobody follows.
pub proof fn law_a_plain_scan_forgets_its_position(r: ScanRoute, note: Option<Seq<char>>, stop: bool)
    requires
        plain_route(r, note, stop),
    ensures
        r matches ScanRoute::Plain(p) && p.clear_checkpoint && p.stop_watcher == stop && (p.note
            is Some <==> note is Some),
{
}

/// Second decision on Windows: `journal` is the journal's id and next position
/// taken before enumeration, or why it could not be queried.
pub fn usn_journal_route(volume_root: String, journal: Result<(u64, i64), String>) -> (r: ScanRoute)
    ensures
        match journal {
            Ok((journal_id, next_usn)) => {
                &&& r matches ScanRoute::Journal(checkpoint)
                &&& checkpoint@ == (UsnPosition { journal_id, next_usn, volume_root: volume_root@ })
            },
            Err(e) => plain_route(r, Some(e@ + "; periodic reconciliation only"@), false),
        },
{
    match journal {
        Ok((journal_id, next_usn)) => ScanRoute::Journal(
            UsnCheckpoint { journal_id, next_usn, volume_root },
        ),
        Err(e) => ScanRoute::Plain(
            PlainScan {
                clear_checkpoint: true,
                note: Some(e.concat("; periodic reconciliation only")),
                stop_watcher: false,
            },
        ),
    }
}

/// First decision of a scan on macOS: whether to take a cursor. It is taken
/// *before* enumeration, so it is always behind what the published generation
/// contains: replaying a change the walk already saw is idempotent, skipping
/// one is data loss.
pub fn wants_cursor(volume: &Option<VolumeFacts>) -> (r: bool)
    ensures
        r == (volume matches Some(v) && v.macos_fsevents),
{
    match volume {
        Some(v) => v.macos_fsevents,
        None => false,
    }
}

/// Second decision on macOS. Without a resumable cursor an existing watcher
/// retires, and the periodic reconciler owns the source from here.
pub fn fsevents_scan_route(native: bool, cursor: Option<FsEventsCursor>, root: String) -> (r:
    ScanRoute)
    ensures
        match cursor {
            Some(c) => {
                &&& r matches ScanRoute::EventFeed(checkpoint)
                &&& checkpoint@ == (FsEventsPosition {
                    store_uuid: c.store_uuid@,
                    event_id: c.event_id,
                    root: root@,
                })
            },
            None => plain_route(
                r,
                if native {
                    Some("this volume keeps no event history; periodic reconciliation only"@)
                } else {
                    None
                },
                true,
            ),
        },
{
    match cursor {
        Some(cursor) => ScanRoute::EventFeed(FsEventsCheckpoint { cursor, root }),
        None => ScanRoute::Plain(
            PlainScan {
                clear_checkpoint: true,
                note: if native {
                    Some(
                        "this volume keeps no event history; periodic reconciliation only".to_owned(),
                    )
                } else {
                    None
                },
                stop_watcher: true,
            },
        ),
    }
}

/// A platform without a native feed scans plainly and keeps what is stored.
pub fn plain_scan_route() -> (r: ScanRoute)
    ensures
        r matches ScanRoute::Plain(p) && !p.clear_checkpoint && p.note is None && !p.stop_watcher,
{
    ScanRoute::Plain(PlainScan { clear_checkpoint: false, note: None, stop_watcher: false })
}

// ----- periodic reconciliation ----------------------------------------------

/// What a reconciler tick does with one source.
#[derive(Debug, Clone, Copy, PartialEq, Eq, Structural)]
pub struct TickDecision {
    pub clear_deferral: bool,
    pub mark_stale: bool,
    pub start_scan: bool,
}

/// Why an overdue source is marked stale.
pub const OVERDUE: &'static str = "reconciliation overdue; results may be out of date";

/// How many whole seconds ago a scan completed, rounded towards zero.
pub open spec fn age_seconds(now: UnixNanos, then: Option<UnixNanos>) -> int {
    match then {
        None => i64::MAX as int,
        Some(t) => if now.0 >= t.0 {
            (now.0 - t.0) / 1_000_000_000
        } else {
            -((t.0 - now.0) / 1_000_000_000)
        },
    }
}

pub open spec fn reconcile_interval(s: SourceFacts) -> int {
    match s.reconcile_interval_s {
        Some(i) => i as int,
        None => DEFAULT_RECONCILE_INTERVAL_S as int,
    }
}

/// A source that the reconciler owns: published, local, and without a live
/// feed of its own.
pub open spec fn reconciler_owns(s: SourceFacts, watched: bool) -> bool {
    s.published && s.state != SourceState::Retired && s.kind != SourceKind::Remote && !(
    s.native_checkpoint && watched)
}

/// What a tick does with a source.
pub open spec fn tick(s: SourceFacts, watched: bool, auto_reconcile: bool, now: UnixNanos) -> TickDecision {
    let age = age_seconds(now, s.last_scan_completed_at);
    let interval = reconcile_interval(s);
    let owned = reconciler_owns(s, watched);
    let start = owned && age >= interval && auto_reconcile;
    TickDecision {
        start_scan: start,
        clear_deferral: !start,
        mark_stale: owned && age >= interval * 2 && (s.state == SourceState::MetadataComplete
            || s.state == SourceState::ContentPending || s.state == SourceState::Complete),
    }
}

/// A source that the reconciler owns is scanned once its interval has passed
/// since the last scan, or if it never was, where the service may start scans on
/// its own; it is shown as stale once twice the interval has passed. Nothing
/// happens to any other source.
pub proof fn law_an_overdue_source_is_scanned(
    s: SourceFacts,
    watched: bool,
    auto_reconcile: bool,
    now: UnixNanos,
    interval: i64,
)
    requires
        s.reconcile_interval_s == Some(interval) || (s.reconcile_interval_s is None && interval
            == 21_600),
        0 <= interval <= 1_000_000_000,
        s.last_scan_completed_at matches Some(t) ==> t.0 <= now.0,
    ensures
        ({
            let r = tick(s, watched, auto_reconcile, now);
            let local = s.published && s.state != SourceState::Retired && s.kind
                != SourceKind::Remote && !(s.native_checkpoint && watched);
            let due = s.last_scan_completed_at matches Some(t) ==> now.0 - t.0 >= interval
                * 1_000_000_000;
            let overdue = s.last_scan_completed_at matches Some(t) ==> now.0 - t.0 >= 2 * interval
                * 1_000_000_000;
            &&& r.start_scan <==> local && due && auto_reconcile
            &&& r.clear_deferral <==> !r.start_scan
            &&& r.mark_stale ==> local && overdue
            &&& local && overdue && s.state == SourceState::Complete ==> r.mark_stale
        }),
{
}

/// Decide one source at a tick. `watched` says that a watcher of the source is
/// running; `auto_reconcile` that the service may start scans on its own.
pub fn reconcile_source(s: &SourceFacts, watched: bool, auto_reconcile: bool, now: UnixNanos) -> (r:
    TickDecision)
    requires
        s.last_scan_completed_at matches Some(t) ==> i64::MIN <= now.0 - t.0 <= i64::MAX,
        i64::MIN <= reconcile_interval(*s) * 2 <= i64::MAX,
    ensures
        r == tick(*s, watched, auto_reconcile, now),
{
    let nothing = TickDecision { clear_deferral: true, mark_stale: false, start_scan: false };
    if !s.published || s.state == SourceState::Retired || s.kind.is_remote() {
        return nothing;
    }
    if s.native_checkpoint && watched {
        return nothing;
    }
    let interval: i64 = match s.reconcile_interval_s {
        Some(i) => i,
        None => DEFAULT_RECONCILE_INTERVAL_S,
    };
    let age: i64 = match s.last_scan_completed_at {
        None => i64::MAX,
        Some(t) => if now.0 >= t.0 {
            (now.0 - t.0) / 1_000_000_000
        } else if now.0 - t.0 == i64::MIN {
            -9_223_372_036
        } else {
            -((-(now.0 - t.0)) / 1_000_000_000)
        },
    };
    let settled: bool = s.state == SourceState::MetadataComplete || s.state
        == SourceState::ContentPending || s.state == SourceState::Complete;
    let start = age >= interval && auto_reconcile;
    TickDecision {
        clear_deferral: !start,
        mark_stale: age >= interval * 2 && settled,
        start_scan: start,
    }
}

/// A replica of another node's source is never scheduled here, however long
/// ago it was scanned.
pub proof fn law_replicas_are_never_scheduled(s: SourceFacts, watched: bool)
    requires
        s.kind == SourceKind::Remote,
    ensures
        !reconciler_owns(s, watched),
{
}

/// A source with a live feed is left to its watcher.
pub proof fn law_live_feeds_are_left_alone(s: SourceFacts)
    requires
        s.native_checkpoint,
    ensures
        !reconciler_owns(s, true),
{
}

} // verus!
