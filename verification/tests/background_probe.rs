use eidos_service::background_probe::BackgroundProbe;
use eidos_service::domain::{Instant, NANOS_PER_SEC};

fn at(s: u64) -> Instant {
    Instant(s * NANOS_PER_SEC)
}

#[test]
fn timeout_and_retries_keep_one_probe_until_it_really_finishes() {
    let mut probe = BackgroundProbe::<u32>::cold();
    assert!(probe.begin(0, at(0)));
    assert!(probe.warm(None, at(1)).is_none(), "nothing to answer with");
    for i in 0..50 {
        assert!(!probe.begin(0, at(i)), "duplicate probe");
    }
    probe.finish(Ok(7), at(60));
    assert_eq!(probe.warm(None, at(60)), Some(&Ok(7)));
    assert!(!probe.begin(60 * NANOS_PER_SEC, at(61)), "cache bypass");
    assert_eq!(probe.warm(None, at(61)), Some(&Ok(7)));
}

#[test]
fn warm_cache_is_available_during_a_slow_refresh() {
    let mut probe = BackgroundProbe::seeded(Ok(3), at(0));
    assert!(probe.begin(0, at(0)));
    assert_eq!(probe.warm(None, at(5)), Some(&Ok(3)));
    probe.finish(Ok(4), at(6));
    assert_eq!(probe.snapshot(at(9)), Some((3 * NANOS_PER_SEC, &Ok(4))));
}

#[test]
fn an_aged_answer_is_not_usable_within_a_limit() {
    let probe = BackgroundProbe::seeded(Err::<u32, _>("broken".to_string()), at(0));
    let limit = Some(30 * NANOS_PER_SEC);
    assert!(probe.warm(limit, at(30)).is_some());
    assert!(probe.warm(limit, at(31)).is_none());
    assert!(probe.warm(None, at(31)).is_some());
}
