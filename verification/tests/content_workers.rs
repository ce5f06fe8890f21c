use eidos_service::content_workers::{
    admission_blocked_reason, admit_content, claiming_allowed, clamp_workers, coordinator_pass,
    needs_top_up, policy_turn, probes_devices, queues_content, record_sample,
    settle_job, source_policies, start_job, throughput, wakes_worker, CoordinatorFacts,
    FailureClass, JobAction, JobStart, PolicyTurn, ProcessResult, Publication, QueueSource,
    QueueWork, WorkerPool, WorkerTotals, WorkerTurn,
};
use eidos_service::device_control::{DeviceControl, ProbeBatch};
use eidos_service::domain::{
    Instant, ObjectId, SourceId, SourceKind, SourceState, NANOS_PER_SEC,
};
use eidos_service::source_budget::SourceBudgets;
use eidos_service::source_map::SourceMap;

const NOW: Instant = Instant(100 * NANOS_PER_SEC);

/// Grow or shrink a pool; `spawn` creates thread after thread.
fn resize_workers_with(
    pool: &mut WorkerPool,
    marker: &mut Option<usize>,
    target: usize,
    mut spawn: impl FnMut(usize) -> Result<(), String>,
) -> Result<usize, String> {
    while let Some(index) = pool.next_spawn(target) {
        spawn(index)?;
        pool.thread_started();
    }
    *marker = Some(clamp_workers(target));
    Ok(pool.commit(target))
}

#[test]
fn partial_grow_failure_keeps_the_old_size_and_retry_resumes() {
    let mut pool = WorkerPool {
        workers: 0,
        spawned: 0,
    };
    let mut marker = None;
    resize_workers_with(&mut pool, &mut marker, 2, |_index| Ok(())).unwrap();
    assert_eq!((pool.workers, pool.spawned), (2, 2));

    let mut attempted = Vec::new();
    let error = resize_workers_with(&mut pool, &mut marker, 6, |index| {
        attempted.push(index);
        if index == 4 {
            Err("injected spawn failure".to_string())
        } else {
            Ok(())
        }
    })
    .unwrap_err();
    assert_eq!(error, "injected spawn failure");
    assert_eq!(attempted, vec![2, 3, 4]);
    assert_eq!(pool.spawned, 4);
    assert_eq!(pool.workers, 2);
    assert_eq!(marker, Some(2));

    let mut retried = Vec::new();
    assert_eq!(
        resize_workers_with(&mut pool, &mut marker, 6, |index| {
            retried.push(index);
            Ok(())
        })
        .unwrap(),
        6
    );
    assert_eq!(retried, vec![4, 5]);
    assert_eq!(pool.spawned, 6);
    assert_eq!(pool.workers, 6);
    assert_eq!(marker, Some(6));
}

#[test]
fn surplus_workers_park_and_shutdown_stops_all() {
    let pool = WorkerPool {
        workers: 2,
        spawned: 4,
    };
    assert_eq!(pool.turn(1, false), WorkerTurn::Claim);
    assert_eq!(pool.turn(2, false), WorkerTurn::ParkSurplus);
    assert_eq!(pool.turn(1, true), WorkerTurn::Stop);
    assert_eq!(clamp_workers(0), 1);
    assert_eq!(clamp_workers(65), 64);
}

fn devices() -> DeviceControl {
    let mut c = DeviceControl::new(1).unwrap();
    let mut roots = SourceMap::new();
    roots.insert(1, "one".to_string());
    roots.insert(2, "two".to_string());
    c.set_sources(roots);
    let mut results = SourceMap::new();
    results.insert(1, Ok(vec!["a".to_string()]));
    results.insert(2, Ok(vec!["a".to_string()]));
    let batch = ProbeBatch {
        revision: c.revision(),
        started: NOW,
        results,
    };
    c.accept(&batch, NOW);
    c
}

#[test]
fn a_device_refusal_does_not_touch_the_source_budget() {
    let mut devices = devices();
    let mut budgets = SourceBudgets::new();
    budgets.set(SourceId(1), 1);
    budgets.set(SourceId(2), 1);
    assert!(admit_content(true, &mut devices, &mut budgets, SourceId(1), NOW).is_none());
    let mut one = admit_content(false, &mut devices, &mut budgets, SourceId(1), NOW).unwrap();
    one.confirm(&mut budgets);
    assert_eq!(one.source(), SourceId(1));
    // Both sources share the one device.
    assert!(admit_content(false, &mut devices, &mut budgets, SourceId(2), NOW).is_none());
    assert_eq!(budgets.reserved(SourceId(2)), 0);
    assert_eq!(budgets.peak_reserved(SourceId(2)), 0);
    one.release(&mut budgets, &mut devices);
    assert_eq!(budgets.peak_reserved(SourceId(1)), 1);
    let two = admit_content(false, &mut devices, &mut budgets, SourceId(2), NOW).unwrap();
    two.release(&mut budgets, &mut devices);
    assert!(
        admit_content(false, &mut devices, &mut budgets, SourceId(3), NOW).is_none(),
        "an unknown source has no budget"
    );
}

#[test]
fn claims_need_every_switch() {
    assert!(claiming_allowed(true, false, false, false));
    assert!(!claiming_allowed(false, false, false, false));
    assert!(!claiming_allowed(true, true, false, false));
    assert!(!claiming_allowed(true, false, true, false));
    assert!(!claiming_allowed(true, false, false, true));
    assert_eq!(
        admission_blocked_reason(false, Some("low space".into())).as_deref(),
        Some("low space")
    );
    assert!(admission_blocked_reason(true, None)
        .unwrap()
        .starts_with("content publication failed"));
    assert_eq!(admission_blocked_reason(false, None), None);
    assert!(wakes_worker(true, true));
    assert!(!wakes_worker(true, false));
}

#[test]
fn every_outcome_is_counted_and_settled() {
    let mut t = WorkerTotals::default();
    let id = ObjectId(5);
    assert_eq!(start_job(true, Some(id)), JobStart::LeaveRest);
    assert_eq!(start_job(false, Some(id)), JobStart::Process(id));
    assert_eq!(start_job(false, None), JobStart::Complete);
    let mut settle = |r| settle_job(&mut t, id, r);
    assert!(matches!(
        settle(ProcessResult::Indexed {
            bytes: 10,
            chunks: 2
        }),
        JobAction::Publish(ObjectId(5))
    ));
    assert!(matches!(
        settle(ProcessResult::Done {
            failed: true,
            bytes: 3
        }),
        JobAction::Nothing
    ));
    assert!(matches!(
        settle(ProcessResult::Done {
            failed: false,
            bytes: 4
        }),
        JobAction::Nothing
    ));
    assert!(matches!(settle(ProcessResult::Skipped), JobAction::Complete));
    assert!(matches!(settle(ProcessResult::Disabled), JobAction::Delete));
    match settle(ProcessResult::Retry {
        class: FailureClass::Corrupt,
        error: "bad".into(),
    }) {
        JobAction::Fail { class, error } => {
            assert_eq!((class, error.as_str()), (FailureClass::Corrupt, "bad"))
        }
        other => panic!("{other:?}"),
    }
    assert!(matches!(
        settle(ProcessResult::Broken("locked".into())),
        JobAction::Fail {
            class: FailureClass::Transient,
            ..
        }
    ));
    assert_eq!(
        (t.files_indexed, t.files_failed, t.files_unsupported),
        (1, 1, 1)
    );
    assert_eq!((t.files_skipped, t.files_retried), (1, 2));
    assert_eq!((t.bytes_read, t.chunks_written), (17, 2));
}

#[test]
fn throughput_covers_the_last_minute() {
    let mut samples = Vec::new();
    record_sample(&mut samples, 1000, Instant(0));
    record_sample(&mut samples, 500, Instant(30 * NANOS_PER_SEC));
    assert_eq!(
        throughput(&samples, Instant(50 * NANOS_PER_SEC)),
        (1500, 50 * NANOS_PER_SEC)
    );
    record_sample(&mut samples, 7, Instant(61 * NANOS_PER_SEC));
    assert_eq!(samples.len(), 2, "the first sample is too old");
    assert_eq!(
        throughput(&samples, Instant(61 * NANOS_PER_SEC)),
        (507, 31 * NANOS_PER_SEC)
    );
    assert_eq!(throughput(&vec![], Instant(5)), (0, NANOS_PER_SEC));
}

#[test]
fn a_failed_publication_is_retried_without_loss() {
    let mut p = Publication::new();
    p.add_pending(ObjectId(1));
    p.add_pending(ObjectId(2));
    let (objects, commit) = p.begin(true);
    assert!(commit && objects.len() == 2);
    p.add_pending(ObjectId(3));
    assert!(p.index_committed(false, objects).is_none());
    assert!(p.blocked);
    let (objects, commit) = p.begin(false);
    assert!(commit, "the failed commit is tried again");
    assert_eq!(objects, vec![ObjectId(3), ObjectId(1), ObjectId(2)]);
    let objects = p.index_committed(true, objects).unwrap();
    p.acknowledged(None, objects, 5);
    assert!(p.blocked && p.pending.len() == 3);
    let (objects, commit) = p.begin(false);
    assert!(!commit, "only the catalog is asked again");
    p.acknowledged(Some(3), objects, 6);
    assert!(!p.blocked && p.pending.is_empty());
    assert_eq!((p.published, p.commits, p.last_commit_ms), (3, 1, 6));
}

fn facts() -> CoordinatorFacts {
    CoordinatorFacts {
        shutdown: false,
        rebuilding: false,
        enabled: true,
        claiming_allowed: true,
        pending: 0,
        index_dirty: false,
        uncommitted: 0,
        publication_blocked: false,
        since_commit_ns: 0,
        since_enqueue_ns: 0,
        since_wake_ns: 0,
    }
}

#[test]
fn the_coordinator_commits_queues_and_wakes_on_time() {
    let quiet = coordinator_pass(facts());
    assert!(!quiet.commit && !quiet.wake && !quiet.stop);
    assert_eq!(quiet.queue, QueueWork::Nothing);
    let mut f = facts();
    f.pending = 1;
    f.since_commit_ns = 2 * NANOS_PER_SEC;
    assert!(coordinator_pass(f).commit);
    f.rebuilding = true;
    assert!(!coordinator_pass(f).commit, "the rebuild owns the writer");
    let mut f = facts();
    f.index_dirty = true;
    f.uncommitted = 20_000;
    assert!(coordinator_pass(f).commit);
    f.publication_blocked = true;
    assert!(!coordinator_pass(f).commit, "a retry waits its interval");
    let mut f = facts();
    f.since_enqueue_ns = 5 * NANOS_PER_SEC;
    assert_eq!(coordinator_pass(f).queue, QueueWork::TopUp);
    f.claiming_allowed = false;
    assert_eq!(coordinator_pass(f).queue, QueueWork::RefreshBudgets);
    let mut f = facts();
    f.shutdown = true;
    let last = coordinator_pass(f);
    assert!(last.stop && last.commit);
    assert_eq!(policy_turn(0), PolicyTurn::Apply);
    assert_eq!(policy_turn(1), PolicyTurn::Wait);
}

#[test]
fn only_published_local_sources_are_queued() {
    let source = QueueSource {
        id: SourceId(3),
        content_enabled: true,
        published: true,
        state: SourceState::MetadataComplete,
        kind: SourceKind::WindowsLocal,
        content_concurrency: 4,
    };
    assert!(queues_content(&source));
    assert!(needs_top_up(&source, 0));
    assert!(!needs_top_up(&source, 2_000));
    assert!(probes_devices(&source));
    let mut off = source;
    off.content_enabled = false;
    assert!(!queues_content(&off));
    let mut remote = source;
    remote.kind = SourceKind::Remote;
    assert!(!queues_content(&remote) && !probes_devices(&remote));
    let mut retired = source;
    retired.state = SourceState::Retired;
    assert!(!probes_devices(&retired));
    let table = source_policies(&vec![source]);
    assert_eq!(table.get(3), Some(&4));
}
