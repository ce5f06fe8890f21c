use eidos_service::domain::NANOS_PER_SEC;
use eidos_service::memory::{
    cached_view, parse_linux_status as parse, CatalogMemoryConfig, ProcessMemory, MAX_AGE_NS,
};

/// A catalog of thirteen connections, each with a page cache of 64 MiB.
const CATALOG: CatalogMemoryConfig = CatalogMemoryConfig {
    baseline_connections: 13,
    page_cache_per_connection_bytes: 64 * 1024 * 1024,
    page_cache_baseline_target_bytes: 13 * 64 * 1024 * 1024,
    mmap_per_connection_limit_bytes: 256 * 1024 * 1024,
};

fn parse_linux_status(status: &str) -> Result<ProcessMemory, &'static str> {
    parse(status, 42)
}

#[test]
fn linux_units_and_missing_values_are_not_confused_with_zero() {
    let sample = parse_linux_status("VmRSS: 1234 kB\nVmHWM: 5678 kB\n").unwrap();
    assert_eq!(sample.resident_bytes, 1234 * 1024);
    assert_eq!(sample.peak_resident_bytes, Some(5678 * 1024));
    assert!(sample.private_commit_bytes.is_none());
    assert!(parse_linux_status("VmRSS: 42 MB").is_err());
    assert!(parse_linux_status("VmRSS: 18446744073709551615 kB").is_err());
    assert!(parse_linux_status("").is_err());
    assert!(parse_linux_status("VmRSS: 1 kB")
        .unwrap()
        .peak_resident_bytes
        .is_none());
}

#[test]
fn unavailable_probe_preserves_configuration_without_taking_a_writer() {
    let sample = Some((0, Err("probe failed".to_string())));
    for _ in 0..100 {
        let view = cached_view(&sample, CATALOG, 64, 128);
        assert!(view.process.is_none());
        assert!(view.stale);
        assert_eq!(view.error.as_deref(), Some("probe failed"));
        assert_eq!(view.catalog.baseline_connections, 13);
        assert_eq!(
            view.catalog.page_cache_baseline_target_bytes,
            13 * 64 * 1024 * 1024
        );
        assert_eq!(view.catalog, CATALOG);
        assert_eq!(view.catalog_writer_budget_bytes, 64);
        assert_eq!(view.content_writer_budget_bytes, 128);
    }
}

#[test]
fn the_first_line_of_a_name_counts_and_fields_may_be_spaced() {
    let text = "Name:\tx\nVmRSS:\t   7 kB\r\nVmRSS: 9 kB\n";
    let sample = parse_linux_status(text).unwrap();
    assert_eq!(sample.resident_bytes, 7 * 1024);
    assert_eq!(sample.pid, 42);
    assert_eq!(
        parse_linux_status("VmRSS: 1").unwrap_err(),
        "resident memory is unavailable in /proc/self/status"
    );
    assert!(parse_linux_status(" VmRSS: 1 kB").is_err());
}

#[test]
fn samples_age_out() {
    let process = ProcessMemory {
        pid: 1,
        resident_bytes: 2,
        peak_resident_bytes: None,
        private_commit_bytes: None,
    };
    let fresh = cached_view(&Some((MAX_AGE_NS, Ok(process))), CATALOG, 0, 0);
    assert!(!fresh.stale);
    assert_eq!(fresh.sample_age_s, Some(30));
    let old = cached_view(&Some((MAX_AGE_NS + NANOS_PER_SEC, Ok(process))), CATALOG, 0, 0);
    assert!(old.stale);
    assert_eq!(old.process, Some(process));
    let cold = cached_view(&None, CATALOG, 0, 0);
    assert!(cold.stale && cold.sample_age_s.is_none() && cold.error.is_none());
}
