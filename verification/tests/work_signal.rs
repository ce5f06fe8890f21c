use eidos_service::work_signal::{WaitSet, WorkSignal, Woken};

#[test]
fn a_notification_between_check_and_park_is_not_lost() {
    let mut signal = WorkSignal::default();
    let observed = signal.epoch();
    signal.notify_all();
    assert!(!signal.park(WaitSet::Claimable, observed));
    assert_eq!(signal.waiting(), 0);
}

#[test]
fn a_surplus_waiter_also_keeps_a_control_change_it_raced() {
    let mut signal = WorkSignal::default();
    let observed = signal.epoch();
    signal.notify_all();
    assert!(!signal.park(WaitSet::Surplus, observed));
    assert_eq!(signal.waiting(), 0);
}

fn park_all(signal: &mut WorkSignal, count: usize, set: WaitSet) {
    for _ in 0..count {
        let observed = signal.epoch();
        assert!(signal.park(set, observed));
    }
}

#[test]
fn one_control_notification_wakes_all_parked_workers() {
    let mut signal = WorkSignal::default();
    park_all(&mut signal, 5, WaitSet::Claimable);
    park_all(&mut signal, 3, WaitSet::Surplus);
    assert_eq!(signal.waiting(), 8);
    assert_eq!(
        signal.notify_all(),
        Woken {
            claimable: 5,
            surplus: 3
        }
    );
    assert_eq!(signal.waiting(), 0);
}

#[test]
fn a_work_hint_wakes_exactly_one_parked_worker() {
    let mut signal = WorkSignal::default();
    park_all(&mut signal, 8, WaitSet::Claimable);
    assert_eq!(
        signal.notify_one(),
        Woken {
            claimable: 1,
            surplus: 0
        }
    );
    assert_eq!(signal.waiting(), 7);
    signal.notify_all();
    assert_eq!(signal.waiting(), 0);
}

#[test]
fn a_work_hint_is_never_spent_on_a_worker_parked_above_the_pool_size() {
    let mut signal = WorkSignal::default();
    park_all(&mut signal, 7, WaitSet::Surplus);
    park_all(&mut signal, 1, WaitSet::Claimable);
    assert_eq!(
        signal.notify_one(),
        Woken {
            claimable: 1,
            surplus: 0
        },
        "only the claimable worker may wake"
    );
    assert_eq!(signal.waiting(), 7);
    signal.notify_all();
    assert_eq!(signal.waiting(), 0);
}

#[test]
fn a_quiet_wait_expires_without_creating_a_new_notification() {
    let mut signal = WorkSignal::default();
    let observed = signal.epoch();
    assert!(signal.park(WaitSet::Claimable, observed));
    signal.expire(WaitSet::Claimable);
    assert_eq!(signal.epoch(), observed);
    assert_eq!(signal.waiting(), 0);
}

#[test]
fn a_timeout_after_a_notification_counts_nobody_twice() {
    let mut signal = WorkSignal::default();
    assert!(signal.park(WaitSet::Claimable, 0));
    assert!(signal.park(WaitSet::Surplus, 0));
    signal.notify_all();
    // Both timed out just before they were notified.
    signal.expire(WaitSet::Claimable);
    signal.expire(WaitSet::Surplus);
    assert_eq!(signal.waiting(), 0);
    assert!(signal.park(WaitSet::Claimable, 1));
    signal.expire(WaitSet::Claimable);
    assert_eq!(signal.waiting(), 0);
}
