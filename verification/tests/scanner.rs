use eidos_service::domain::{Instant, SourceId, SourceKind, SourceState, UnixNanos, NANOS_PER_SEC};
use eidos_service::scanner::{
    ensure_scannable, plan_enumeration, source_name, EnumerateError, Enumeration, EnumerationEnd,
    ScanKind, ScanProgress, ScanRegistry, ScanResult, ScanSummary, StartScanError,
};
use eidos_service::state::{
    cached_storage, catalog_files, resumes_watching, startup_plan, Deferrals, RebuildReason,
    ReconciliationDeferral, ReconciliationDeferralCause, SourceFacts, StartupFacts, StorageView,
};

const ID: SourceId = SourceId(8);
const T0: Instant = Instant(10 * NANOS_PER_SEC);

#[test]
fn a_scan_is_seen_through_its_progress() {
    let mut p = ScanProgress::new(ID, T0);
    p.set_phase("enumerating");
    let e = Enumeration::new();
    assert!(e.observe(&mut p, Some(5)));
    assert!(e.observe(&mut p, None));
    let v = p.view(Instant(T0.0 + 1_500_000_000));
    assert!(v.running);
    assert_eq!((v.dirs, v.entries, v.errors), (2, 5, 1));
    assert_eq!((v.phase.as_str(), v.elapsed_ms), ("enumerating", 1500));
    let end = Instant(T0.0 + 2 * NANOS_PER_SEC);
    p.finish(end, ScanResult::Failed("offline".into()));
    assert!(p.is_finished());
    assert!(p.failed_within(Instant(end.0 + 1), NANOS_PER_SEC));
    assert!(!p.failed_within(Instant(end.0 + 2 * NANOS_PER_SEC), NANOS_PER_SEC));
    let later = Instant(end.0 + 7 * NANOS_PER_SEC);
    assert_eq!(p.finished_for(later), Some(7 * NANOS_PER_SEC));
    let v = p.view(later);
    assert!(!v.running);
    assert_eq!(v.error.as_deref(), Some("offline"));
    assert_eq!(v.elapsed_ms, 2000);
}

#[test]
fn an_ingest_failure_ends_the_enumeration() {
    let mut p = ScanProgress::new(ID, T0);
    let mut e = Enumeration::new();
    assert!(matches!(e.conclude(false), EnumerationEnd::Open));
    match e.conclude(true) {
        EnumerationEnd::Abort {
            reason,
            error,
            cancelled,
        } => {
            assert_eq!(reason, "scan cancelled");
            assert_eq!(error, "scan cancelled");
            assert!(cancelled);
        }
        EnumerationEnd::Open => panic!("cancelled"),
    }
    e.ingest_failed(&mut p, "disk full".into());
    assert!(p.cancel);
    assert!(!e.observe(&mut p, Some(3)), "nothing is ingested any more");
    assert_eq!(p.entries, 0);
    match e.conclude(true) {
        EnumerationEnd::Abort {
            reason,
            error,
            cancelled,
        } => {
            assert_eq!(reason, "ingest error: disk full");
            assert_eq!(error, "disk full");
            assert!(!cancelled);
        }
        EnumerationEnd::Open => panic!("failed"),
    }
}

#[test]
fn enumeration_is_planned_from_the_source() {
    let local = SourceKind::WindowsLocal;
    let plan = plan_enumeration(ID, Some((local, false)), None).unwrap();
    assert_eq!((plan.new_kind, plan.scan), (None, ScanKind::Full));
    let plan = plan_enumeration(ID, Some((local, true)), Some(SourceKind::Smb)).unwrap();
    assert_eq!(
        (plan.new_kind, plan.scan),
        (Some(SourceKind::Smb), ScanKind::Reconcile)
    );
    assert_eq!(
        plan_enumeration(ID, None, None).unwrap_err(),
        EnumerateError::NotFound(ID)
    );
    assert_eq!(
        plan_enumeration(ID, Some((SourceKind::Remote, true)), None).unwrap_err(),
        EnumerateError::Replica(ID)
    );
}

#[test]
fn only_local_sources_are_scanned_and_only_once() {
    assert!(ensure_scannable(ID, Some(SourceKind::Smb)).is_ok());
    assert!(matches!(
        ensure_scannable(ID, None),
        Err(StartScanError::NotFound(ID))
    ));
    assert!(matches!(
        ensure_scannable(ID, Some(SourceKind::Remote)),
        Err(StartScanError::RemoteSource)
    ));
    let mut r = ScanRegistry::new();
    let kind = Some(SourceKind::WindowsLocal);
    r.start_scan(ID, kind, None, T0).unwrap();
    assert!(r.is_scanning(ID));
    assert!(matches!(
        r.start_scan(ID, kind, None, T0),
        Err(StartScanError::AlreadyRunning)
    ));
    assert!(!r.reap(ID, T0), "a running scan is kept");
    let summary = ScanSummary {
        generation: 1,
        final_state: SourceState::MetadataComplete,
    };
    r.scans.entries[0]
        .1
        .finish(T0, ScanResult::Published(summary));
    assert!(!r.is_scanning(ID));
    assert!(!r.reap(ID, T0), "diagnostics stay a while");
    assert!(r.reap(ID, Instant(T0.0 + 31 * NANOS_PER_SEC)));
    assert_eq!(source_name(ID), "source 8");
}

// ----- state -----------------------------------------------------------------

#[test]
fn deferrals_are_remembered_per_source() {
    let mut d = Deferrals::new();
    let view = ReconciliationDeferral {
        reason: "busy".into(),
        next_eligible_at: UnixNanos(9),
    };
    d.defer_reconciliation(ID, view, ReconciliationDeferralCause::Content);
    assert_eq!(d.reconciliation_deferral(ID).unwrap().reason, "busy");
    let (_, cause) = d.scheduled_reconciliation_deferral(ID).unwrap();
    assert_eq!(cause, ReconciliationDeferralCause::Content);
    assert!(d.reconciliation_deferral(SourceId(1)).is_none());
    d.clear_reconciliation_deferral(ID);
    assert!(d.reconciliation_deferral(ID).is_none());
}

#[test]
fn opening_settles_workers_exports_and_rebuilds() {
    let facts = StartupFacts {
        aborted_generations: 1,
        requeued_running_jobs: 2,
        requeued_unfinished_content: 3,
        index_rebuilding: false,
        index_fresh: true,
        stored_chunks: 0,
        configured_workers: 4,
        workers_override: None,
        export_concurrency: 2,
        admission_concurrency: 4,
    };
    let plan = startup_plan(facts);
    assert_eq!(plan.rebuild, None);
    assert_eq!(plan.content_worker_count, 4);
    assert_eq!(plan.export_concurrency, 2);
    assert_eq!(plan.recovery.requeued_unfinished_content, 3);
    let mut f = facts;
    f.stored_chunks = 5;
    f.workers_override = Some(9);
    f.admission_concurrency = 2;
    let plan = startup_plan(f);
    assert_eq!(plan.rebuild, Some(RebuildReason::Empty));
    assert_eq!(plan.content_worker_count, 9);
    assert_eq!(plan.export_concurrency, 1);
    f.index_rebuilding = true;
    f.admission_concurrency = 0;
    let plan = startup_plan(f);
    assert_eq!(plan.rebuild, Some(RebuildReason::Unfinished));
    assert_eq!(plan.export_concurrency, 1);
}

#[test]
fn storage_is_measured_now_and_then() {
    let view = StorageView {
        catalog_db_bytes: 1,
        catalog_index_bytes: 2,
        content_index_bytes: 3,
    };
    assert_eq!(cached_storage(None), None);
    assert_eq!(cached_storage(Some((14, view))), Some(view));
    assert_eq!(cached_storage(Some((15, view))), None);
    assert_eq!(
        catalog_files("catalog.db"),
        vec!["catalog.db", "catalog.db-wal", "catalog.db-shm"]
    );
    let source = SourceFacts {
        id: ID,
        state: SourceState::MetadataComplete,
        kind: SourceKind::WindowsLocal,
        published: true,
        native_checkpoint: true,
        content_enabled: true,
        reconcile_interval_s: None,
        last_scan_completed_at: None,
    };
    assert!(resumes_watching(&source));
    let mut plain = source;
    plain.native_checkpoint = false;
    assert!(!resumes_watching(&plain));
}

#[test]
fn only_a_scan_that_reads_its_source_holds_content_off() {
    let id = SourceId(4);
    let mut r = ScanRegistry::new();
    assert!(!r.holds_off_content(id));
    r.start_scan(id, Some(SourceKind::WindowsLocal), None, Instant(0))
        .unwrap();
    assert!(!r.holds_off_content(id), "queued for a slot");
    r.scans.entries[0].1.got_slot();
    assert!(r.holds_off_content(id));
    r.scans.entries[0]
        .1
        .finish(Instant(5), ScanResult::Failed("x".into()));
    assert!(!r.holds_off_content(id), "still shown, but finished");
}
