use eidos_service::domain::{Instant, SourceId, SourceKind, SourceState, UnixNanos};
use eidos_service::scanner::{
    ContentLoad, ScanRegistry, ScanResult, ScanSummary, StartScanError, StartStep,
};
use eidos_service::state::SourceFacts;
use eidos_service::watcher::{
    fsevents_batch_checkpoint, fsevents_scan_route, needs_watcher, publication, reconcile_source,
    replay_step, restored_state, usn_journal_route, usn_scan_route, AdvanceResult, ApplyResult, FeedMessage,
    FeedOpen, FsEventsAction, FsEventsCheckpoint, FsEventsCursor, FsEventsWatch, JournalRead,
    Publication, RecoveryStart, Replay, ReplayAction, ReplayOutcome, ReplayStep, ScanRoute,
    SourceRead, UsnAction, UsnCheckpoint, UsnWatch, VolumeFacts, WatcherFeed, WatcherState,
    WatcherStatus, DEFAULT_RECONCILE_INTERVAL_S,
};

const ID: SourceId = SourceId(1);
const CLOCK: Instant = Instant(1_000_000_000);
const COMPLETED: i64 = 1_700_000_000_000_000_000;

fn checkpoint(event_id: u64) -> FsEventsCheckpoint {
    FsEventsCheckpoint {
        cursor: FsEventsCursor {
            store_uuid: "store".into(),
            event_id,
        },
        root: "/source".into(),
    }
}

#[test]
fn cancellation_waits_for_an_inflight_watcher_mutation() {
    let mut status = WatcherStatus::new(ID, CLOCK);
    assert!(status.may_mutate(false));
    assert!(!status.cancel);
    status.request_cancel();
    assert!(status.cancel);
    assert!(!status.may_mutate(false));
}

#[test]
fn an_incomplete_batch_retains_its_cursor_and_reopens_the_feed() {
    let current = checkpoint(10);
    let (next, reopen) = fsevents_batch_checkpoint(&current, 20, 1);

    assert!(reopen);
    assert_eq!(next.cursor.event_id, current.cursor.event_id);
    assert_eq!(next.cursor.store_uuid, current.cursor.store_uuid);
    assert_eq!(next.root, current.root);
}

#[test]
fn a_complete_batch_advances_without_reopening_the_feed() {
    let current = checkpoint(10);
    let (next, reopen) = fsevents_batch_checkpoint(&current, 20, 0);

    assert!(!reopen);
    assert_eq!(next.cursor.event_id, 20);
    assert_eq!(next.cursor.store_uuid, current.cursor.store_uuid);
}

/// A source that was scanned, and what the catalog says of it.
struct Fixture {
    registry: ScanRegistry,
    source: SourceFacts,
    open_generation: Option<i64>,
    last_generation: i64,
    load: ContentLoad,
}

impl Fixture {
    fn new() -> Self {
        Self {
            registry: ScanRegistry::new(),
            source: SourceFacts {
                id: ID,
                state: SourceState::MetadataComplete,
                kind: SourceKind::WindowsGeneric,
                published: true,
                native_checkpoint: false,
                content_enabled: true,
                reconcile_interval_s: None,
                last_scan_completed_at: Some(UnixNanos(COMPLETED)),
            },
            open_generation: None,
            last_generation: 1,
            load: ContentLoad {
                queued: 0,
                running: 0,
                content_enabled: true,
                content_paused: false,
                source_enabled: true,
            },
        }
    }

    fn next_due(&self) -> UnixNanos {
        let completed = self.source.last_scan_completed_at.unwrap();
        UnixNanos(completed.0 + (DEFAULT_RECONCILE_INTERVAL_S + 1) * 1_000_000_000)
    }

    fn start(&mut self, now: UnixNanos, coordinate: bool) -> StartStep {
        let kind = Some(self.source.kind);
        let mut step = self
            .registry
            .begin_automatic(ID, kind, now, coordinate)
            .unwrap();
        loop {
            step = match step {
                StartStep::AskGeneration => {
                    self.registry
                        .with_generation(ID, self.open_generation, now, coordinate, CLOCK)
                }
                StartStep::AskContent => self.registry.with_content(ID, self.load, now, CLOCK),
                done => return done,
            };
        }
    }

    /// One tick of the reconciler.
    fn tick(&mut self, now: UnixNanos) {
        let d = reconcile_source(&self.source, false, true, now);
        if d.clear_deferral {
            self.registry.deferrals.clear_reconciliation_deferral(ID);
        }
        if d.mark_stale {
            self.source.state = SourceState::Stale;
        }
        if d.start_scan {
            self.start(now, true);
        }
    }

    fn finish(&mut self) -> i64 {
        self.last_generation += 1;
        let summary = ScanSummary {
            generation: self.last_generation,
            final_state: SourceState::MetadataComplete,
        };
        let at = self.registry.scans.lower_bound(ID.0);
        self.registry.scans.entries[at]
            .1
            .finish(CLOCK, ScanResult::Published(summary));
        self.source.state = SourceState::MetadataComplete;
        self.last_generation
    }

    fn reason(&self) -> Option<(String, UnixNanos)> {
        self.registry
            .deferrals
            .reconciliation_deferral(ID)
            .map(|d| (d.reason, d.next_eligible_at))
    }
}

#[test]
fn content_work_defers_ticks_but_manual_override_and_later_tick_run() {
    let mut fixture = Fixture::new();
    fixture.load.queued = 2;
    let due = fixture.next_due();

    fixture.tick(due);
    let first = fixture.reason().expect("content should defer reconciliation");
    assert_eq!(first.0, "content crawl active (2 queued, 0 running)");
    assert!(first.1 .0 > due.0);
    assert!(!fixture.registry.is_scanning(ID));

    // A fast second scheduler tick returns the remembered result instead of
    // querying and attempting another generation.
    fixture.tick(UnixNanos(due.0 + 1_000_000_000));
    assert_eq!(fixture.reason().unwrap(), first);

    // Explicit operator intent overrides content coordination.
    let kind = Some(fixture.source.kind);
    fixture
        .registry
        .start_scan(ID, kind, fixture.open_generation, CLOCK)
        .unwrap();
    assert_eq!(fixture.finish(), 2);
    assert!(fixture.reason().is_none());

    fixture.load.queued = 0;
    fixture.tick(fixture.next_due());
    assert!(
        fixture.registry.is_scanning(ID),
        "eligible reconciliation should start"
    );
    assert_eq!(fixture.finish(), 3);
}

#[test]
fn durable_open_generation_blocks_manual_and_automatic_starts() {
    let mut fixture = Fixture::new();
    fixture.open_generation = Some(2);
    let kind = Some(fixture.source.kind);
    assert!(matches!(
        fixture
            .registry
            .start_scan(ID, kind, fixture.open_generation, CLOCK),
        Err(StartScanError::AlreadyRunning)
    ));

    let due = fixture.next_due();
    fixture.tick(due);
    let first = fixture
        .reason()
        .expect("open generation should defer reconciliation");
    assert_eq!(first.0, "scan generation 2 is already open");
    fixture.tick(UnixNanos(due.0 + 1_000_000_000));
    assert_eq!(fixture.reason().unwrap(), first);

    fixture.open_generation = None;
    fixture.last_generation = 2;
    assert!(
        matches!(fixture.start(first.1, true), StartStep::Started),
        "reconciliation remained deferred after the open generation closed"
    );
    assert_eq!(fixture.finish(), 3);
}

#[test]
fn paused_content_queue_does_not_block_automatic_reconciliation() {
    let mut fixture = Fixture::new();
    fixture.load.queued = 1;
    fixture.load.content_enabled = false;
    let due = fixture.next_due();
    assert!(
        matches!(fixture.start(due, true), StartStep::Started),
        "a paused content queue should not defer reconciliation"
    );
    assert_eq!(fixture.finish(), 2);
}

#[test]
fn feed_recovery_bypasses_content_but_not_scan_ownership() {
    let mut fixture = Fixture::new();
    fixture.load.queued = 1;
    let due = fixture.next_due();
    assert!(
        matches!(fixture.start(due, false), StartStep::Started),
        "native feed recovery should bypass the content delay"
    );
    assert_eq!(fixture.finish(), 2);

    fixture.open_generation = Some(3);
    let due = fixture.next_due();
    assert!(matches!(fixture.start(due, false), StartStep::Deferred(_)));
}

#[test]
fn remote_sources_are_never_scheduled_for_local_reconciliation() {
    let mut fixture = Fixture::new();
    fixture.source.kind = SourceKind::Remote;
    fixture.source.last_scan_completed_at = Some(UnixNanos(1));
    let long_overdue = UnixNanos(1 + DEFAULT_RECONCILE_INTERVAL_S * 10 * 1_000_000_000);
    fixture.tick(long_overdue);
    assert!(!fixture.registry.is_scanning(ID));
    assert_eq!(fixture.source.kind, SourceKind::Remote);
    assert_eq!(fixture.source.state, SourceState::MetadataComplete);
    assert!(fixture.reason().is_none());
}

// ----- the journal watcher ---------------------------------------------------

fn found(state: SourceState) -> SourceRead {
    SourceRead::Found {
        state,
        kind: SourceKind::WindowsLocal,
        published: true,
    }
}

fn position(next_usn: i64) -> UsnCheckpoint {
    UsnCheckpoint {
        journal_id: 9,
        next_usn,
        volume_root: "C:\\".into(),
    }
}

/// A watch that has its volume open and asks for the journal.
fn watching() -> UsnWatch {
    let mut w = UsnWatch::new(ID, CLOCK);
    assert!(matches!(w.on_check(false).action, UsnAction::ReadSource));
    assert!(matches!(
        w.on_source(found(SourceState::MetadataComplete)).action,
        UsnAction::ReadScan
    ));
    assert!(matches!(
        w.on_scan(false).action,
        UsnAction::ReadCheckpoint
    ));
    match w.on_checkpoint(Ok(Some(position(100)))).action {
        UsnAction::OpenVolume { root } => assert_eq!(root, "C:\\"),
        other => panic!("{other:?}"),
    }
    match w.on_open(Ok(())).action {
        UsnAction::ReadJournal {
            journal_id,
            next_usn,
        } => assert_eq!((journal_id, next_usn), (9, 100)),
        other => panic!("{other:?}"),
    }
    w
}

#[test]
fn an_applied_batch_moves_the_checkpoint() {
    let mut w = watching();
    let t = w.on_read(
        JournalRead::Records {
            empty: false,
            next_usn: 200,
        },
        false,
    );
    assert!(matches!(t.action, UsnAction::ReadRootSerial));
    assert!(matches!(
        w.on_serial(Some(7)).action,
        UsnAction::Translate { volume_serial: 7 }
    ));
    match w.on_translated(true).action {
        UsnAction::Apply { from, to } => {
            assert!(from.same_as(&position(100)));
            assert!(to.same_as(&position(200)));
        }
        other => panic!("{other:?}"),
    }
    let t = w.on_applied(ApplyResult::Applied { events: 3 }, 5, CLOCK, 4);
    assert!(matches!(t.action, UsnAction::Check));
    let v = w.status.view_at(WatcherFeed::WindowsUsn, CLOCK);
    assert_eq!((v.batches, v.events, v.records), (1, 3, 5));
    assert_eq!(v.last_position, 200);
}

#[test]
fn an_incomplete_translation_keeps_the_checkpoint() {
    let mut w = watching();
    w.on_read(
        JournalRead::Records {
            empty: false,
            next_usn: 200,
        },
        false,
    );
    w.on_serial(Some(7));
    let t = w.on_translated(false);
    assert!(matches!(t.action, UsnAction::Check));
    assert_eq!(t.pause_ms, 2000);
    assert!(w.checkpoint.same_as(&position(100)));
}

#[test]
fn an_empty_read_only_advances_the_position() {
    let mut w = watching();
    let t = w.on_read(
        JournalRead::Records {
            empty: true,
            next_usn: 150,
        },
        false,
    );
    match t.action {
        UsnAction::Advance { from, to } => {
            assert_eq!((from.next_usn, to.next_usn), (100, 150));
        }
        other => panic!("{other:?}"),
    }
    let t = w.on_advanced(AdvanceResult::Advanced);
    assert!(matches!(t.action, UsnAction::Check));
}

#[test]
fn a_lost_journal_degrades_the_source_and_recovers() {
    let mut w = watching();
    match w.on_read(JournalRead::Invalid, false).action {
        UsnAction::DegradeAndRecover { reason } => {
            assert!(reason.starts_with("USN journal overflowed or was recreated"));
        }
        other => panic!("{other:?}"),
    }
    w.on_degraded(RecoveryStart::Started);
    assert_eq!(w.status.state, WatcherState::Reconciling);
}

#[test]
fn a_removed_source_ends_the_watch() {
    let mut w = UsnWatch::new(ID, CLOCK);
    w.on_check(false);
    assert!(matches!(
        w.on_source(SourceRead::Removed).action,
        UsnAction::Stop
    ));
    assert!(w.status.is_stopped());
    let mut w = UsnWatch::new(ID, CLOCK);
    assert!(matches!(w.on_check(true).action, UsnAction::Stop));
}

#[test]
fn a_watcher_is_needed_once() {
    assert!(needs_watcher(None));
    let mut s = WatcherStatus::new(ID, CLOCK);
    assert!(!needs_watcher(Some(&s)));
    s.set(WatcherState::Stopped, None);
    assert!(needs_watcher(Some(&s)));
}

// ----- the event feed --------------------------------------------------------

#[test]
fn an_event_batch_is_applied_under_its_cursor() {
    let mut w = FsEventsWatch::new(ID, CLOCK);
    assert!(matches!(
        w.on_check(false).action,
        FsEventsAction::ReadSource
    ));
    let read = SourceRead::Found {
        state: SourceState::MetadataComplete,
        kind: SourceKind::MacosLocal,
        published: true,
    };
    assert!(matches!(w.on_source(read).action, FsEventsAction::ReadScan));
    assert!(matches!(
        w.on_scan(false).action,
        FsEventsAction::ReadCheckpoint
    ));
    assert!(matches!(
        w.on_checkpoint(Ok(Some(checkpoint(10)))).action,
        FsEventsAction::OpenFeed
    ));
    assert!(matches!(
        w.on_open(FeedOpen::Opened { replaying: false }).action,
        FsEventsAction::Receive
    ));
    assert!(matches!(
        w.on_message(FeedMessage::Batch { event_id: 20 }, false).action,
        FsEventsAction::Translate
    ));
    match w.on_translated(false, 0).action {
        FsEventsAction::Apply { from, to } => {
            assert_eq!((from.cursor.event_id, to.cursor.event_id), (10, 20));
        }
        other => panic!("{other:?}"),
    }
    w.on_applied(ApplyResult::Applied { events: 2 }, 4, CLOCK, 1);
    assert_eq!(w.status.events, 2);
}

// ----- scans -----------------------------------------------------------------

#[test]
fn replay_runs_until_the_journal_is_caught_up() {
    let mut r = Replay::new(position(100));
    match r.on_step(ReplayStep::Batch {
        events: vec![1, 2],
        next_usn: 150,
    }) {
        ReplayAction::Apply { events } => assert_eq!(events, vec![1, 2]),
        other => panic!("{other:?}"),
    }
    match r.on_applied::<i32>(Ok(2)) {
        ReplayAction::Read { next_usn } => assert_eq!(next_usn, 150),
        other => panic!("{other:?}"),
    }
    match r.on_step(ReplayStep::<i32>::CaughtUp { next_usn: 160 }) {
        ReplayAction::Done(ReplayOutcome::CaughtUp { cp, replayed }) => {
            assert_eq!((cp.next_usn, replayed), (160, 2));
            match publication(ReplayOutcome::CaughtUp { cp, replayed }) {
                Publication::WithCheckpoint(cp) => assert_eq!(cp.next_usn, 160),
                other => panic!("{other:?}"),
            }
        }
        other => panic!("{other:?}"),
    }
    match publication(ReplayOutcome::JournalInvalid {
        cp: position(1),
        replayed: 0,
    }) {
        Publication::Degraded { reason } => {
            assert!(reason.starts_with("USN journal wrapped during enumeration"));
        }
        other => panic!("{other:?}"),
    }
    assert!(matches!(
        publication(ReplayOutcome::Failed("E".into())),
        Publication::Abort { .. }
    ));
}

#[test]
fn the_scan_route_follows_the_volume() {
    let ntfs = VolumeFacts {
        supports_usn: true,
        remote: false,
        macos_fsevents: false,
        volume_root: "C:\\".into(),
    };
    match usn_scan_route(Some(ntfs)) {
        ScanRoute::QueryJournal { volume_root } => assert_eq!(volume_root, "C:\\"),
        other => panic!("{other:?}"),
    }
    match usn_journal_route("C:\\".into(), Ok((9, 100))) {
        ScanRoute::Journal(cp) => assert!(cp.same_as(&position(100))),
        other => panic!("{other:?}"),
    }
    assert!(matches!(
        usn_journal_route("C:\\".into(), Err("denied".into())),
        ScanRoute::Plain(_)
    ));
    assert!(matches!(usn_scan_route(None), ScanRoute::Plain(_)));
    let cursor = FsEventsCursor {
        store_uuid: "store".into(),
        event_id: 4,
    };
    match fsevents_scan_route(true, Some(cursor), "/source".into()) {
        ScanRoute::EventFeed(cp) => assert_eq!(cp.cursor.event_id, 4),
        other => panic!("{other:?}"),
    }
    assert_eq!(restored_state(0), SourceState::MetadataComplete);
    assert_eq!(restored_state(1), SourceState::ContentPending);
}

#[test]
fn a_read_of_the_journal_is_a_step_of_the_replay() {
    let records = |empty: bool| JournalRead::Records {
        empty,
        next_usn: 160,
    };
    assert!(matches!(
        replay_step::<i32>(records(true), Ok(vec![])),
        ReplayStep::CaughtUp { next_usn: 160 }
    ));
    assert!(matches!(
        replay_step(records(false), Ok(vec![7])),
        ReplayStep::Batch { events, next_usn: 160 } if events == [7]
    ));
    assert!(matches!(
        replay_step::<i32>(records(false), Err("unread".into())),
        ReplayStep::Failed(e) if e == "unread"
    ));
    assert!(matches!(
        replay_step::<i32>(JournalRead::Invalid, Ok(vec![])),
        ReplayStep::JournalInvalid
    ));
    for read in [
        JournalRead::DeleteInProgress("e".into()),
        JournalRead::Unavailable("e".into()),
        JournalRead::Cancelled("e".into()),
        JournalRead::Io("e".into()),
    ] {
        assert!(matches!(
            replay_step::<i32>(read, Ok(vec![])),
            ReplayStep::Failed(e) if e == "e"
        ));
    }
}
