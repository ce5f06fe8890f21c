use eidos_service::domain::NANOS_PER_SEC;
use eidos_service::resource_control::{
    disk_reason, DiskSample, ResourceControl, ResourceLimits, DISK_MAX_AGE_NS,
};

fn sample(age_s: u64, free: Result<u64, String>) -> Option<DiskSample> {
    Some(DiskSample {
        age_ns: age_s * NANOS_PER_SEC,
        free,
    })
}

#[test]
fn limits_are_durable_and_lowering_does_not_revoke_active_work() {
    let mut c = ResourceControl::load(None, 8).unwrap();
    let limits = ResourceLimits {
        scan_threads: 3,
        concurrent_scans: 2,
        minimum_free_mib: 0,
    };
    c.set(limits, Ok(())).unwrap();
    let a = c.try_scan(&None).unwrap();
    let b = c.try_scan(&None).unwrap();
    assert_eq!(a.threads(), 3);
    c.set(
        ResourceLimits {
            concurrent_scans: 1,
            scan_threads: 1,
            ..limits
        },
        Ok(()),
    )
    .unwrap();
    assert!(c.try_scan(&None).is_err());
    c.release(a);
    assert!(c.try_scan(&None).is_err());
    c.release(b);
    let again = c.try_scan(&None).unwrap();
    assert_eq!(again.threads(), 1);
    c.release(again);
    assert_eq!(c.view(&None).active_scans, 0);
    assert_eq!(
        ResourceControl::load(Some(c.limits()), 8)
            .unwrap()
            .view(&None)
            .limits,
        c.view(&None).limits
    );
}

#[test]
fn failed_write_and_invalid_settings_do_not_change_effective_limits() {
    let mut c = ResourceControl::load(None, 8).unwrap();
    let before = c.view(&None).limits;
    assert!(c
        .set(
            ResourceLimits {
                scan_threads: 0,
                ..before
            },
            Ok(())
        )
        .is_err());
    assert_eq!(
        c.set(
            ResourceLimits {
                scan_threads: 1,
                ..before
            },
            Err("is a directory".to_string())
        ),
        Err("is a directory".to_string())
    );
    assert_eq!(c.view(&None).limits, before);
}

#[test]
fn low_space_errors_and_stale_samples_hold_new_work_and_recover() {
    let limits = ResourceLimits {
        scan_threads: 1,
        concurrent_scans: 1,
        minimum_free_mib: 1,
    };
    let reason = |sample: Option<DiskSample>| disk_reason(limits, &sample);
    assert!(reason(None).is_some());
    assert!(reason(sample(0, Ok(100))).unwrap().contains("reserve"));
    assert!(reason(sample(0, Err("offline".into())))
        .unwrap()
        .contains("offline"));
    assert!(reason(sample(31, Ok(u64::MAX))).unwrap().contains("stale"));
    assert!(reason(sample(0, Ok(1024 * 1024))).is_none());
}

#[test]
fn reasons_are_spelled_out() {
    let limits = ResourceLimits {
        scan_threads: 1,
        concurrent_scans: 1,
        minimum_free_mib: 2048,
    };
    assert_eq!(
        disk_reason(limits, &sample(0, Ok(0))).unwrap(),
        "data volume below the 2048 MiB free-space reserve; free space or lower the reserve"
    );
    assert_eq!(
        disk_reason(limits, &None).unwrap(),
        "checking free space on the data volume"
    );
    assert_eq!(
        disk_reason(limits, &sample(1, Err("E5".into()))).unwrap(),
        "cannot check data-volume free space: E5"
    );
    let at_limit = Some(DiskSample {
        age_ns: DISK_MAX_AGE_NS,
        free: Ok(u64::MAX),
    });
    assert_eq!(disk_reason(limits, &at_limit), None);
    let off = ResourceLimits {
        minimum_free_mib: 0,
        ..limits
    };
    assert_eq!(disk_reason(off, &None), None);
}

#[test]
fn a_node_without_saved_limits_starts_within_range() {
    assert_eq!(ResourceLimits::initial(0).scan_threads, 1);
    assert_eq!(ResourceLimits::initial(8).scan_threads, 8);
    assert_eq!(ResourceLimits::initial(4096).scan_threads, 64);
    let bad = ResourceLimits {
        scan_threads: 1,
        concurrent_scans: 17,
        minimum_free_mib: 0,
    };
    assert_eq!(
        ResourceControl::load(Some(bad), 8).err(),
        Some("scan threads must be 1..64 and concurrent scans must be 1..16")
    );
    let mut c = ResourceControl::load(None, 8).unwrap();
    let free = sample(12, Ok(1 << 40));
    let slot = c.try_scan(&free).unwrap();
    assert_eq!(
        c.try_scan(&free).unwrap_err(),
        "waiting for a metadata scan slot"
    );
    assert_eq!(
        c.try_scan(&None).unwrap_err(),
        "checking free space on the data volume"
    );
    let v = c.view(&free);
    assert_eq!(
        (v.active_scans, v.free_bytes, v.disk_sample_age_s),
        (1, Some(1 << 40), Some(12))
    );
    assert_eq!(v.admission_blocked, None);
    c.release(slot);
}
