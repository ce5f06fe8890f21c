use eidos_service::admission::{
    round_seconds, Admission, AdmissionConfig, AdmissionError, Entry, Expensive, PermitTry,
    PermitWait, Work,
};
use eidos_service::api::ApiError;

fn gate(queue_depth: usize) -> Admission {
    Admission::new(AdmissionConfig {
        concurrency: 1,
        queue_depth,
        ..Default::default()
    })
}

fn admitted(e: Entry) -> Work {
    match e {
        Entry::Admitted { work, .. } => work,
        other => panic!("{other:?}"),
    }
}

fn refused(e: Entry) -> AdmissionError {
    match e {
        Entry::Refused(e) => e,
        other => panic!("{other:?}"),
    }
}

#[test]
fn work_runs_queues_or_is_shed() {
    let mut a = gate(1);
    let first = admitted(a.enter(Expensive::Search, true, PermitTry::Granted));
    assert_eq!(a.gauges().in_flight, 1);
    match a.enter(Expensive::Browse, true, PermitTry::NoPermits) {
        Entry::Queue { wait_ms } => assert_eq!(wait_ms, 5000),
        other => panic!("{other:?}"),
    }
    let e = refused(a.enter(Expensive::Browse, true, PermitTry::NoPermits));
    let api = ApiError::from_admission(e);
    assert_eq!((api.status, api.kind, api.retry_after_s), (503, "busy", Some(5)));
    a.finish(first);
    let second = admitted(a.end_wait(Expensive::Browse, PermitWait::Granted));
    a.finish(second);
    let g = a.gauges();
    assert_eq!((g.in_flight, g.queued, g.completed), (0, 0, 2));
    assert_eq!((g.admitted, g.rejected_busy), (2, 1));
}

#[test]
fn a_timed_out_operation_keeps_its_slot_until_it_ends() {
    let mut a = gate(1);
    let mut work = admitted(a.enter(Expensive::Search, true, PermitTry::Granted));
    a.abandon(&mut work);
    let e = a.time_out(Expensive::Search);
    assert_eq!(e.message(), "search exceeded its 30s time limit");
    let api = ApiError::from_admission(e);
    assert_eq!((api.status, api.kind), (504, "timeout"));
    let g = a.gauges();
    assert_eq!((g.in_flight, g.detached, g.timed_out), (1, 1, 1));
    a.finish(work);
    let g = a.gauges();
    assert_eq!((g.in_flight, g.detached), (0, 0));
}

#[test]
fn exports_never_queue_and_yield() {
    let mut a = gate(4);
    let work = admitted(a.enter(Expensive::Search, true, PermitTry::Granted));
    let e = refused(a.enter(Expensive::Export, false, PermitTry::NoPermits));
    assert_eq!(e.message(), "no free slot; export pages do not queue");
    assert!(matches!(
        a.enter(Expensive::Search, true, PermitTry::NoPermits),
        Entry::Queue { .. }
    ));
    a.finish(work);
    let e = refused(a.enter(Expensive::Export, false, PermitTry::Granted));
    assert_eq!(
        e.message(),
        "interactive work is waiting; export page yielded"
    );
    a.leave_queue();
    let page = admitted(a.enter(Expensive::Export, false, PermitTry::Granted));
    a.finish(page);
    let e = refused(a.enter(Expensive::Search, true, PermitTry::Closed));
    assert_eq!(e.message(), "service is shutting down");
}

#[test]
fn failures_and_seconds_are_spelled_out() {
    let e = AdmissionError::Failed("panicked".into());
    assert_eq!(e.message(), "operation failed: panicked");
    assert_eq!(ApiError::from_admission(e).status, 500);
    assert_eq!(Expensive::Maintenance.label(), "maintenance");
    assert_eq!(round_seconds(1499), 1);
    assert_eq!(round_seconds(1500), 2);
    assert_eq!(gate(3).config().queue_depth, 3);
}
