use eidos_service::domain::Instant;
use eidos_service::usn_checkpoint::{CheckpointPlan, ReadAhead, FLUSH_INTERVAL_NS, MAX_LAG};
use eidos_service::watcher::UsnCheckpoint;

const NOW: Instant = Instant(5_000_000_000);

fn checkpoint(next_usn: i64) -> UsnCheckpoint {
    UsnCheckpoint {
        journal_id: 1,
        next_usn,
        volume_root: "fixture-volume".into(),
    }
}

#[test]
fn thousands_of_irrelevant_batches_create_no_checkpoint_writes() {
    let cp = checkpoint(100);
    let mut pending = ReadAhead::new(NOW);
    pending.synchronize(&cp, NOW);
    for next in 101..10_101 {
        assert_eq!(pending.plan(next, false, NOW), CheckpointPlan::Deferred);
        assert!(!pending.synchronize(&cp, NOW));
        assert_eq!(pending.next_usn(), next);
    }
}

#[test]
fn real_changes_are_immediate_and_failed_writes_do_not_skip_them() {
    let mut pending = ReadAhead::new(NOW);
    pending.synchronize(&checkpoint(100), NOW);
    assert_eq!(pending.plan(200, false, NOW), CheckpointPlan::Deferred);
    assert_eq!(pending.plan(300, true, NOW), CheckpointPlan::Persist);
    assert_eq!(
        pending.next_usn(),
        200,
        "failed write must retry the relevant batch"
    );
    pending.committed(&checkpoint(300), NOW);
    assert_eq!(pending.next_usn(), 300);
}

#[test]
fn age_and_byte_bounds_flush_without_a_quiet_idle_timer() {
    let mut pending = ReadAhead::new(NOW);
    pending.synchronize(&checkpoint(100), NOW);
    assert_eq!(
        pending.plan(200, false, Instant(NOW.0 + FLUSH_INTERVAL_NS)),
        CheckpointPlan::Persist
    );
    assert_eq!(pending.next_usn(), 100);
    assert_eq!(
        pending.plan(100 + MAX_LAG, false, NOW),
        CheckpointPlan::Persist
    );
    pending.committed(&checkpoint(100 + MAX_LAG), NOW);
    assert_eq!(
        pending.plan(101 + MAX_LAG, false, NOW),
        CheckpointPlan::Deferred
    );
}

#[test]
fn restart_replays_ignored_records_and_replacement_discards_old_read_ahead() {
    let mut pending = ReadAhead::new(NOW);
    pending.synchronize(&checkpoint(100), NOW);
    pending.plan(200, false, NOW);
    let mut restarted = ReadAhead::new(NOW);
    restarted.synchronize(&checkpoint(100), NOW);
    assert_eq!(restarted.next_usn(), 100);
    let mut replacement = checkpoint(50);
    replacement.journal_id = 2;
    assert!(pending.synchronize(&replacement, NOW));
    assert_eq!(pending.next_usn(), 50);
    replacement.volume_root = "replacement-volume".into();
    assert!(pending.synchronize(&replacement, NOW));
}

#[test]
fn unchanged_and_regressing_positions_never_advance() {
    let mut pending = ReadAhead::new(NOW);
    assert_eq!(
        pending.plan(100, false, NOW),
        CheckpointPlan::InvalidPosition
    );
    pending.synchronize(&checkpoint(100), NOW);
    assert_eq!(pending.plan(100, false, NOW), CheckpointPlan::Unchanged);
    pending.plan(200, false, NOW);
    assert_eq!(
        pending.plan(199, false, NOW),
        CheckpointPlan::InvalidPosition
    );
    assert_eq!(pending.next_usn(), 200);
}

#[test]
fn catalog_fencing_and_failed_persistence_preserve_the_retry_position() {
    let cp = checkpoint(100);
    let mut stored = cp.copy();
    let mut pending = ReadAhead::new(NOW);
    pending.synchronize(&cp, NOW);
    for next in 101..201 {
        assert_eq!(pending.plan(next, false, NOW), CheckpointPlan::Deferred);
        assert!(stored.same_as(&cp));
    }
    assert_eq!(pending.plan(300, true, NOW), CheckpointPlan::Persist);
    // The write fails, so nothing is committed.
    assert_eq!(pending.next_usn(), 200);
    assert!(stored.same_as(&cp));
    // A rescan won the checkpoint while the old batch was in flight.
    let replacement = checkpoint(500);
    stored = replacement.copy();
    assert!(!stored.same_as(&cp), "the old batch is fenced off");
    assert!(pending.synchronize(&replacement, NOW));
    assert_eq!(pending.next_usn(), 500);
    assert!(stored.same_as(&replacement));
}
