use eidos_service::device_budget::{DeviceBudgets, Topology, WaitReason, WorkKind};
use eidos_service::source_map::SourceMap;

fn topology(rows: &[(i64, &[&str])]) -> Topology {
    let mut map = SourceMap::new();
    for (id, keys) in rows {
        map.insert(*id, Some(keys.iter().map(|key| key.to_string()).collect()));
    }
    map
}

fn fixture(limit: u32, rows: &[(i64, &[&str])]) -> DeviceBudgets {
    let mut budgets = DeviceBudgets::new(limit).unwrap();
    budgets.set_topology(topology(rows));
    budgets
}

/// Take a unit and give it back at once.
fn passes(b: &mut DeviceBudgets, source: i64, kind: WorkKind, width: u32) -> Option<u32> {
    match b.try_reserve(source, kind, width) {
        Ok(lease) => {
            let units = lease.units();
            b.release(lease);
            Some(units)
        }
        Err(_) => None,
    }
}

#[test]
fn shared_roots_and_multidisk_volumes_charge_every_device() {
    let mut b = fixture(
        2,
        &[(1, &["a"]), (2, &["a", "b"]), (3, &["b"]), (4, &["c"])],
    );
    let a = b.try_reserve(1, WorkKind::Content, 1).unwrap();
    let both = b.try_reserve(2, WorkKind::Content, 1).unwrap();
    assert_eq!(
        b.try_reserve(1, WorkKind::Content, 1).unwrap_err(),
        WaitReason::DeviceAtCapacity
    );
    let b_only = b.try_reserve(3, WorkKind::Content, 1).unwrap();
    assert!(b.try_reserve(2, WorkKind::Content, 1).is_err());
    assert!(passes(&mut b, 4, WorkKind::Content, 1).is_some());
    b.release(a);
    b.release(both);
    b.release(b_only);
    assert!(b.snapshot().devices.iter().all(|d| d.content_readers == 0));
}

#[test]
fn scan_width_and_content_share_the_cap_and_lowering_drains() {
    let mut b = fixture(3, &[(1, &["a"]), (2, &["a"])]);
    let content = b.try_reserve(1, WorkKind::Content, 1).unwrap();
    let scan = b.try_reserve(2, WorkKind::Scan, 8).unwrap();
    assert_eq!(scan.units(), 2);
    assert!(b.try_reserve(1, WorkKind::Content, 1).is_err());
    b.set_limit(1).unwrap();
    b.release(content);
    assert!(b.try_reserve(1, WorkKind::Content, 1).is_err());
    b.release(scan);
    assert_eq!(passes(&mut b, 1, WorkKind::Scan, 8), Some(1));
    assert_eq!(b.snapshot().devices[0].peak_readers, 3);
}

#[test]
fn unknown_topology_shares_conservative_capacity_and_released_slots() {
    let mut b = fixture(2, &[(1, &["a"]), (2, &["b"])]);
    let mut map = topology(&[(1, &["a"]), (2, &["b"])]);
    map.insert(3, None);
    b.set_topology(map);
    let first = b.try_reserve(1, WorkKind::Content, 1).unwrap();
    let second = b.try_reserve(2, WorkKind::Content, 1).unwrap();
    assert_eq!(
        b.try_reserve(3, WorkKind::Content, 1).unwrap_err(),
        WaitReason::DeviceAtCapacity
    );
    assert!(b.snapshot().unresolved_shared_fallback);
    assert_eq!(b.snapshot().devices[0].sources, vec![1, 2, 3]);
    b.release(first);
    assert!(passes(&mut b, 3, WorkKind::Content, 1).is_some());
    b.release(second);
}

#[test]
fn topology_changes_hold_new_work_until_original_leases_drain() {
    let mut b = fixture(2, &[(1, &["a"]), (2, &["b"])]);
    let a = b.try_reserve(1, WorkKind::Content, 1).unwrap();
    let old_b = b.try_reserve(2, WorkKind::Content, 1).unwrap();
    b.set_topology(topology(&[(1, &["a"]), (2, &["a"])]));
    assert!(b.snapshot().topology_draining);
    assert_eq!(
        b.try_reserve(1, WorkKind::Content, 1).unwrap_err(),
        WaitReason::TopologyDraining
    );
    b.release(a);
    assert!(b.try_reserve(2, WorkKind::Content, 1).is_err());
    b.release(old_b);
    assert!(!b.snapshot().topology_draining);
    assert_eq!(b.snapshot().devices.len(), 1);
    assert_eq!(b.snapshot().devices[0].sources, vec![1, 2]);
}

#[test]
fn unknown_to_known_and_source_removal_do_not_erase_live_accounting() {
    let mut b = fixture(1, &[(1, &[])]);
    let held = b.try_reserve(1, WorkKind::Content, 1).unwrap();
    b.set_topology(topology(&[(2, &["a"])]));
    assert!(b.try_reserve(2, WorkKind::Content, 1).is_err());
    b.release(held);
    assert_eq!(
        b.try_reserve(1, WorkKind::Content, 1).unwrap_err(),
        WaitReason::UnknownSource
    );
    assert!(passes(&mut b, 2, WorkKind::Content, 1).is_some());
    assert!(!b.snapshot().unresolved_shared_fallback);
}

#[test]
fn topology_updates_coalesce_and_returning_to_original_cancels_drain() {
    let mut b = fixture(2, &[(1, &["a"])]);
    let held = b.try_reserve(1, WorkKind::Content, 1).unwrap();
    b.set_topology(topology(&[(1, &["b"])]));
    b.set_topology(topology(&[(1, &["c"])]));
    assert!(b.snapshot().topology_draining);
    assert_eq!(b.snapshot().devices[0].key, "a");
    b.release(held);
    assert_eq!(b.snapshot().devices[0].key, "c");

    let held = b.try_reserve(1, WorkKind::Content, 1).unwrap();
    b.set_topology(topology(&[(1, &["d"])]));
    b.set_topology(topology(&[(1, &["c"])]));
    assert!(!b.snapshot().topology_draining);
    let second = b.try_reserve(1, WorkKind::Content, 1).unwrap();
    assert_eq!(b.snapshot().devices[0].content_readers, 2);
    b.release(held);
    b.release(second);
    assert_eq!(b.snapshot().devices[0].key, "c");
}

#[test]
fn topology_churn_does_not_retain_obsolete_devices() {
    let mut b = fixture(2, &[(1, &["a"]), (2, &["b"])]);
    assert_eq!(passes(&mut b, 1, WorkKind::Content, 1), Some(1));
    assert_eq!(passes(&mut b, 2, WorkKind::Scan, 2), Some(2));
    b.set_topology(topology(&[(2, &["b"])]));
    assert_eq!(b.tracked_devices(), 1);
    assert_eq!(b.snapshot().devices[0].peak_readers, 2);
    b.set_topology(SourceMap::new());
    assert_eq!(b.tracked_devices(), 0);
    assert_eq!(
        b.try_reserve(2, WorkKind::Content, 1).unwrap_err(),
        WaitReason::UnknownSource
    );
}

#[test]
fn a_denied_multidisk_claim_never_charges_its_other_devices() {
    let mut b = fixture(1, &[(1, &["a"]), (2, &["a", "b"]), (3, &["b"])]);
    let held = b.try_reserve(1, WorkKind::Content, 1).unwrap();
    assert_eq!(
        b.try_reserve(2, WorkKind::Scan, 1).unwrap_err(),
        WaitReason::DeviceAtCapacity
    );
    assert_eq!(b.snapshot().devices[1].peak_readers, 0);
    let independent = b.try_reserve(3, WorkKind::Content, 1).unwrap();
    b.release(held);
    b.release(independent);
}

#[test]
fn invalid_inputs_and_duplicate_devices_do_not_create_capacity() {
    assert!(DeviceBudgets::new(0).is_err());
    let mut b = fixture(2, &[(1, &["a", "a"])]);
    assert!(b.set_limit(65).is_err());
    assert_eq!(
        b.try_reserve(1, WorkKind::Scan, 0).unwrap_err(),
        WaitReason::InvalidWidth
    );
    assert_eq!(
        b.try_reserve(1, WorkKind::Content, 2).unwrap_err(),
        WaitReason::InvalidWidth
    );
    let held = b.try_reserve(1, WorkKind::Scan, 2).unwrap();
    assert_eq!(b.snapshot().devices[0].scan_threads, 2);
    b.release(held);
    assert_eq!(b.snapshot().devices[0].scan_threads, 0);
}

#[test]
fn a_read_only_check_matches_the_reservation_without_charging_anything() {
    let mut b = fixture(2, &[(1, &["a"]), (2, &["a", "b"]), (3, &["c"])]);
    assert_eq!(b.would_admit(2, WorkKind::Scan, 8), Ok(2));
    assert_eq!(b.would_admit(1, WorkKind::Content, 1), Ok(1));
    assert_eq!(
        b.would_admit(9, WorkKind::Content, 1),
        Err(WaitReason::UnknownSource)
    );
    assert_eq!(
        b.would_admit(1, WorkKind::Content, 2),
        Err(WaitReason::InvalidWidth)
    );
    // Repeated checks must not consume, charge or raise a peak.
    for _ in 0..8 {
        assert_eq!(b.would_admit(1, WorkKind::Content, 1), Ok(1));
    }
    assert!(b.snapshot().devices.iter().all(|d| d.peak_readers == 0));

    let held = b.try_reserve(2, WorkKind::Content, 1).unwrap();
    assert_eq!(b.would_admit(1, WorkKind::Scan, 8), Ok(1));
    let second = b.try_reserve(1, WorkKind::Content, 1).unwrap();
    assert_eq!(b.would_admit(3, WorkKind::Content, 1), Ok(1));
    assert_eq!(
        b.would_admit(1, WorkKind::Content, 1),
        Err(WaitReason::DeviceAtCapacity)
    );
    b.set_topology(topology(&[(1, &["a"])]));
    assert_eq!(
        b.would_admit(1, WorkKind::Content, 1),
        Err(WaitReason::TopologyDraining)
    );
    b.release(held);
    b.release(second);
    assert_eq!(b.would_admit(1, WorkKind::Content, 1), Ok(1));
}

#[test]
fn limits_are_refused_with_their_range() {
    assert_eq!(
        DeviceBudgets::new(65).err(),
        Some("device reader limit must be 1..64")
    );
    let b = DeviceBudgets::new(64).unwrap();
    assert_eq!(b.snapshot().readers_per_device, 64);
    assert_eq!(b.tracked_devices(), 0);
}

#[test]
fn unusable_reports_fall_back_to_the_shared_budget() {
    let mut b = fixture(2, &[(1, &["", "a"]), (2, &["b"])]);
    let s = b.snapshot();
    assert!(s.unresolved_shared_fallback);
    assert_eq!(s.devices.len(), 1);
    assert_eq!(s.devices[0].key, "unresolved-shared-budget");
    b.set_topology(topology(&[(2, &["unresolved-shared-budget"])]));
    assert!(b.snapshot().unresolved_shared_fallback);
}

#[test]
fn a_lease_says_what_it_is_for() {
    let mut b = fixture(4, &[(1, &["a"])]);
    let lease = b.try_reserve(1, WorkKind::Scan, 3).unwrap();
    assert_eq!((lease.units(), lease.kind()), (3, WorkKind::Scan));
    b.release(lease);
}
