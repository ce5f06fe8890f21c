use eidos_service::device_budget::{WaitReason, WorkKind};
use eidos_service::device_control::{
    probe_allowed, DeviceControl, DeviceLimits, ProbeBatch, SourceRoots, MAX_AGE_NS, REFRESH_NS,
};
use eidos_service::domain::{Instant, NANOS_PER_SEC};
use eidos_service::source_map::SourceMap;

const NOW: Instant = Instant(1_000 * NANOS_PER_SEC);

fn later(ns: u64) -> Instant {
    Instant(NOW.0 + ns)
}

fn roots() -> SourceRoots {
    let mut map = SourceMap::new();
    map.insert(1, "synthetic-first".to_string());
    map.insert(2, "synthetic-second".to_string());
    map
}

fn batch(control: &DeviceControl, started: Instant) -> ProbeBatch {
    let mut results = SourceMap::new();
    results.insert(1, Ok(vec!["a".to_string()]));
    results.insert(2, Ok(vec!["b".to_string()]));
    ProbeBatch {
        revision: control.revision(),
        started,
        results,
    }
}

#[test]
fn changed_roots_reject_a_completed_old_probe() {
    let mut c = DeviceControl::new(1).unwrap();
    c.set_sources(roots());
    let old = batch(&c, NOW);
    let mut changed = roots();
    changed.insert(1, "replacement-root".into());
    c.set_sources(changed);
    c.accept(&old, NOW);
    assert!(c.view(NOW).stale);
    assert!(c.view(NOW).budget.unresolved_shared_fallback);
    let fresh = batch(&c, NOW);
    c.accept(&fresh, NOW);
    assert!(!c.view(NOW).stale);
    assert_eq!(c.view(NOW).budget.devices.len(), 2);
}

#[test]
fn stale_samples_fall_back_only_after_live_leases_drain() {
    let mut c = DeviceControl::new(1).unwrap();
    c.set_sources(roots());
    let fresh = batch(&c, NOW);
    c.accept(&fresh, NOW);
    let a = c.try_reserve(1, WorkKind::Content, 1, NOW).unwrap();
    let b = c.try_reserve(2, WorkKind::Content, 1, NOW).unwrap();
    let aged = later(MAX_AGE_NS + NANOS_PER_SEC);
    assert_eq!(
        c.try_reserve(1, WorkKind::Content, 1, aged).unwrap_err(),
        WaitReason::TopologyDraining
    );
    c.release(a);
    assert!(c.view(aged).budget.topology_draining);
    c.release(b);
    let a = c.try_reserve(1, WorkKind::Content, 1, aged).unwrap();
    assert!(c.try_reserve(2, WorkKind::Content, 1, aged).is_err());
    assert!(c.view(aged).stale);
    assert!(c.view(aged).budget.unresolved_shared_fallback);
    c.release(a);
}

#[test]
fn a_slow_batch_is_not_fresh_merely_because_it_just_completed() {
    let mut c = DeviceControl::new(1).unwrap();
    c.set_sources(roots());
    let slow = batch(&c, NOW);
    let done = later(MAX_AGE_NS + NANOS_PER_SEC);
    c.accept(&slow, done);
    assert!(c.view(done).stale);
    assert!(c.view(done).budget.unresolved_shared_fallback);
}

#[test]
fn probe_failures_keep_the_retry_ttl_and_do_not_spawn_on_every_request() {
    let mut c = DeviceControl::new(1).unwrap();
    c.set_sources(roots());
    c.probe_finished(Err("probe worker failed".into()), NOW);
    for _ in 0..100 {
        assert!(c.refresh(NOW).is_none(), "error TTL was bypassed");
    }
    assert!(c.view(NOW).stale);
    assert_eq!(c.view(NOW).source_errors.entries.len(), 2);
    assert!(c.view(NOW).budget.unresolved_shared_fallback);
    assert!(c.refresh(later(REFRESH_NS)).is_some());
}

#[test]
fn stuck_probe_never_multiplies_and_claims_do_not_probe() {
    let mut c = DeviceControl::new(1).unwrap();
    c.set_sources(roots());
    let request = c.refresh(NOW).expect("the first probe starts");
    assert_eq!(request.roots.entries.len(), 2);
    for i in 0..100 {
        assert!(
            c.refresh(later(i * REFRESH_NS)).is_none(),
            "replacement worker launched"
        );
        let lease = c.try_reserve(1, WorkKind::Content, 1, NOW).unwrap();
        c.release(lease);
        assert!(c.view(NOW).budget.unresolved_shared_fallback);
    }
    let mut results = SourceMap::new();
    results.insert(1, Ok(vec!["a".to_string()]));
    results.insert(2, Ok(vec!["a".to_string()]));
    let finished = ProbeBatch {
        revision: request.revision,
        started: NOW,
        results,
    };
    c.probe_finished(Ok(finished), NOW);
    assert!(c.refresh(NOW).is_none(), "the answer is fresh");
    assert!(!c.view(NOW).budget.unresolved_shared_fallback);
}

#[test]
fn a_changed_source_refreshes_as_soon_as_the_old_probe_is_back() {
    let mut c = DeviceControl::new(1).unwrap();
    c.set_sources(roots());
    c.refresh(NOW).expect("first probe");
    let old = batch(&c, NOW);
    let mut changed = roots();
    changed.insert(3, "third".into());
    c.set_sources(changed);
    assert!(c.refresh(NOW).is_none(), "the old probe still runs");
    c.probe_finished(Ok(old), NOW);
    let again = c.refresh(NOW).expect("no retry interval for other roots");
    assert_eq!(again.roots.entries.len(), 3);
}

#[test]
fn failed_roots_are_named_and_unknown() {
    let mut c = DeviceControl::new(2).unwrap();
    c.set_sources(roots());
    let mut results = SourceMap::new();
    results.insert(1, Ok(vec!["a".to_string()]));
    results.insert(2, Err("no such volume".to_string()));
    let answer = ProbeBatch {
        revision: c.revision(),
        started: NOW,
        results,
    };
    c.accept(&answer, NOW);
    let v = c.view(later(5 * NANOS_PER_SEC));
    assert_eq!(v.sample_age_s, Some(5));
    assert!(!v.stale);
    assert!(v.budget.unresolved_shared_fallback);
    assert_eq!(v.source_errors.entries[0].0, 2);
    assert_eq!(v.source_errors.entries[0].1, "no such volume");
    assert_eq!(v.source_roots.entries[0].1, "synthetic-first");
}

#[test]
fn device_limits_are_checked_and_persisted_first() {
    assert_eq!(DeviceLimits::initial().readers_per_device, 2);
    let mut c = DeviceControl::new(2).unwrap();
    let bad = DeviceLimits {
        readers_per_device: 0,
    };
    assert_eq!(
        c.save_limits(bad, Ok(())),
        Err("device reader limit must be 1..64".to_string())
    );
    let good = DeviceLimits {
        readers_per_device: 7,
    };
    assert_eq!(
        c.save_limits(good, Err("disk full".to_string())),
        Err("disk full".to_string())
    );
    assert_eq!(c.view(NOW).budget.readers_per_device, 2);
    assert_eq!(c.save_limits(good, Ok(())), Ok(()));
    assert_eq!(c.view(NOW).budget.readers_per_device, 7);
    assert!(c.set_limit(0).is_err());
}

#[test]
fn a_batch_stops_probing_once_its_window_is_over() {
    assert!(probe_allowed(NOW, later(MAX_AGE_NS)).is_ok());
    assert_eq!(
        probe_allowed(NOW, later(MAX_AGE_NS + 1)),
        Err("topology batch exceeded its freshness window before this root was probed")
    );
}
