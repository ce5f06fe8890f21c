use eidos_service::content_control::{
    content_status, marker_failure, ContentFlow, ContentPause, ContentSearchState, Marker,
    MarkerChange, RebuildPhase, RebuildStatus,
};

/// What a marker holds after a change was made to it.
fn changed(marker: Marker, change: MarkerChange) -> Marker {
    match change {
        MarkerChange::Nothing => marker,
        MarkerChange::Write { paused_at_unix_s } => Marker::Present {
            paused_at_unix_s: Some(paused_at_unix_s),
        },
        MarkerChange::Remove => Marker::Absent,
    }
}

#[test]
fn the_marker_round_trips_and_both_directions_are_idempotent() {
    let mut marker = Marker::Absent;
    let mut p = ContentPause::load(marker, 10);
    assert!(!p.is_paused());
    assert_eq!(p.paused_since_unix_s(), None);

    marker = changed(marker, p.marker_change(true, 20));
    assert_eq!(
        p.set_paused::<()>(true, 20, Ok(())),
        Ok(true),
        "first pause changed the flag"
    );
    assert_eq!(p.marker_change(true, 21), MarkerChange::Nothing);
    assert_eq!(
        p.set_paused::<()>(true, 21, Ok(())),
        Ok(false),
        "pausing twice is a no-op"
    );
    assert!(p.is_paused());
    assert_eq!(p.paused_since_unix_s(), Some(20));
    assert!(matches!(marker, Marker::Present { .. }));

    // A fresh load (a restart) sees the pause.
    let mut reloaded = ContentPause::load(marker, 30);
    assert!(reloaded.is_paused());
    assert_eq!(reloaded.paused_since_unix_s(), p.paused_since_unix_s());

    marker = changed(marker, reloaded.marker_change(false, 40));
    assert_eq!(reloaded.set_paused::<()>(false, 40, Ok(())), Ok(true));
    assert_eq!(reloaded.set_paused::<()>(false, 41, Ok(())), Ok(false));
    assert!(matches!(marker, Marker::Absent));
    assert!(!ContentPause::load(marker, 50).is_paused());
}

#[test]
fn a_torn_marker_still_means_paused() {
    let p = ContentPause::load(
        Marker::Present {
            paused_at_unix_s: None,
        },
        77,
    );
    assert!(p.is_paused());
    assert_eq!(
        p.paused_since_unix_s(),
        Some(77),
        "an unreadable timestamp falls back to now"
    );
}

#[test]
fn a_pause_that_cannot_be_recorded_does_not_change_the_flag() {
    let mut p = ContentPause::load(Marker::Absent, 1);
    assert_eq!(p.set_paused(true, 2, Err("gone")), Err("gone"));
    assert!(!p.is_paused(), "a failed write leaves claiming enabled");
    assert_eq!(
        marker_failure(true, "gone"),
        "the pause marker could not be written: gone"
    );
    assert_eq!(
        marker_failure(false, "gone"),
        "the pause marker could not be removed: gone"
    );
}

fn rebuild(phase: RebuildPhase) -> RebuildStatus {
    RebuildStatus {
        phase,
        docs: 3,
        chunks: 5,
        elapsed_ms: 9,
        error: None,
    }
}

#[test]
fn the_flow_follows_the_switches() {
    let running = ContentPause::load(Marker::Absent, 1);
    let paused = ContentPause::load(
        Marker::Present {
            paused_at_unix_s: Some(5),
        },
        9,
    );
    let off = content_status(false, &running, rebuild(RebuildPhase::Idle), 0);
    assert_eq!(off.flow, ContentFlow::Disabled);
    assert_eq!(off.search, ContentSearchState::Disabled);
    let draining = content_status(true, &paused, rebuild(RebuildPhase::Idle), 2);
    assert_eq!(draining.flow, ContentFlow::Draining);
    assert_eq!(draining.paused_since_unix_s, Some(5));
    let stopped = content_status(true, &paused, rebuild(RebuildPhase::Idle), 0);
    assert_eq!(stopped.flow, ContentFlow::Stopped);
    let rebuilding = content_status(true, &running, rebuild(RebuildPhase::Running), 0);
    assert_eq!(rebuilding.flow, ContentFlow::Stopped);
    assert_eq!(
        rebuilding.flow_reason,
        "the content index is being rebuilt: claiming resumes when it finishes"
    );
    assert_eq!(rebuilding.search, ContentSearchState::Rebuilding);
    let drained = content_status(true, &running, rebuild(RebuildPhase::Pending), 3);
    assert_eq!(drained.flow, ContentFlow::Draining);
    let waiting = content_status(true, &running, rebuild(RebuildPhase::Idle), 0);
    assert_eq!(waiting.flow, ContentFlow::Waiting);
    let live = content_status(true, &running, rebuild(RebuildPhase::Done), 1);
    assert_eq!(live.flow, ContentFlow::Running);
    assert_eq!(live.search, ContentSearchState::Ready);
    assert_eq!(live.in_flight, 1);
    let failed = content_status(true, &running, rebuild(RebuildPhase::Failed), 0);
    assert_eq!(failed.search, ContentSearchState::Failed);
}
