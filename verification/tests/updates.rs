use eidos_service::domain::UnixNanos;
use eidos_service::staging::VerifiedIdentity;
use eidos_service::updates::{
    parse_version, partial_file, product_version_matches, prunes, select_release, setup_file,
    validate_artifact, version_is_compatible_newer, version_is_newer, GithubAsset, GithubRelease,
    ReleaseArtifact, ReleaseCheck, StageAction, StageEvent, StagePhase, StageRun, StagedArtifact,
    UpdateManager, UpdateSettings, UpdateState, DEFAULT_MAX_ARTIFACT_BYTES, OPERATION_RUNNING, RELEASE_DOWNLOAD_PREFIX,
};
use serde_json::Value;

/// Read a release as the release host describes it.
fn release_from_json(body: &str, current: &str, max: u64) -> Result<ReleaseCheck, String> {
    let text = |v: &Value| v.as_str().unwrap_or_default().to_string();
    let root: Value = serde_json::from_str(body).map_err(|e| e.to_string())?;
    let assets = root["assets"]
        .as_array()
        .unwrap()
        .iter()
        .map(|a| GithubAsset {
            name: text(&a["name"]),
            browser_download_url: text(&a["browser_download_url"]),
            size: a["size"].as_u64().unwrap(),
            digest: a["digest"].as_str().map(|d| d.to_string()),
            state: text(&a["state"]),
        })
        .collect();
    let release = GithubRelease {
        tag_name: text(&root["tag_name"]),
        assets,
    };
    select_release(&release, current, max)
}

fn is_nothing(check: &ReleaseCheck) -> bool {
    check.latest_version.is_none() && check.artifact.is_none()
}

#[test]
fn windows_product_version_must_name_exactly_the_release() {
    assert!(product_version_matches("0.5.1", "0.5.1"));
    assert!(product_version_matches(" v0.5.1.0 ", "0.5.1"));
    assert!(product_version_matches("vv0.5.1", "0.5.1"));
    assert!(!product_version_matches("0.5.1", "vv0.5.1"));
    assert!(
        !product_version_matches("0.5.1.999", "0.5.1"),
        "a discarded fourth component would verify a different build"
    );
    assert!(!product_version_matches("0.5.10", "0.5.1"));
    assert!(!product_version_matches("0.5", "0.5.1"));
    assert!(!product_version_matches("0.5.1-rc1", "0.5.1"));
}

const RELEASE: &str = r#"{"tag_name":"v0.5.1","assets":[{"name":"eidos-v0.5.1-setup.exe","browser_download_url":"https://github.com/josiah-nelson/eidos/releases/download/v0.5.1/eidos-v0.5.1-setup.exe","size":1048576,"digest":"sha256:aaaaaaaaaaaaaaaaaaaaaaaaaaaaaaaaaaaaaaaaaaaaaaaaaaaaaaaaaaaaaaaa","state":"uploaded"}]}"#;

#[test]
fn release_selection_is_exact_bounded_and_digest_backed() {
    let body = RELEASE;
    let got = release_from_json(body, "0.5.0", 2_000_000).unwrap();
    assert_eq!(got.latest_version.as_deref(), Some("0.5.1"));
    assert_eq!(got.artifact.unwrap().version, "0.5.1");
    let current = release_from_json(body, "0.5.1", 2_000_000).unwrap();
    assert!(is_nothing(&current), "no release, no advisory");
    assert!(release_from_json(body, "0.5.0", 100).is_err());
    let hostile = body.replace("github.com/josiah-nelson", "example.test/josiah-nelson");
    assert!(release_from_json(&hostile, "0.5.0", 2_000_000).is_err());
}

#[test]
fn a_newer_major_release_is_advertised_but_never_stageable() {
    let body = r#"{"tag_name":"v1.0.0","assets":[{"name":"eidos-v1.0.0-setup.exe","browser_download_url":"https://github.com/josiah-nelson/eidos/releases/download/v1.0.0/eidos-v1.0.0-setup.exe","size":1048576,"digest":"sha256:aaaaaaaaaaaaaaaaaaaaaaaaaaaaaaaaaaaaaaaaaaaaaaaaaaaaaaaaaaaaaaaa","state":"uploaded"}]}"#;
    let got = release_from_json(body, "0.5.0", 2_000_000).unwrap();
    assert_eq!(got.latest_version.as_deref(), Some("1.0.0"));
    assert!(
        got.artifact.is_none(),
        "a new major is advisory only; this build must not stage it"
    );
    let nightly = r#"{"tag_name":"nightly","assets":[]}"#;
    assert!(
        is_nothing(&release_from_json(nightly, "0.5.0", 2_000_000).unwrap()),
        "a non-numeric tag never advertises anything"
    );
}

fn fresh(command_line_checks: bool, saved: Option<UpdateSettings>) -> UpdateManager {
    UpdateManager::load(Ok(saved), Ok(None), command_line_checks, "0.5.0").0
}

#[test]
fn automatic_check_setting_is_readable_by_the_periodic_driver() {
    let mut manager = fresh(true, None);
    assert!(manager.periodic_checks_allowed() && manager.checks_enabled());
    let off = UpdateSettings {
        automatic_checks: false,
        ..Default::default()
    };
    manager.save_settings(off.validated().unwrap());
    assert!(!manager.checks_enabled());
    assert!(
        manager.periodic_checks_allowed(),
        "the driver must keep running so the setting can be turned back on"
    );
    manager.save_settings(UpdateSettings::default());
    assert!(manager.checks_enabled(), "and back on without a restart");
    let disabled = fresh(false, Some(manager.settings()));
    assert!(!disabled.periodic_checks_allowed() && !disabled.checks_enabled());
}

#[test]
fn startup_drops_stale_advisories_and_unusable_staged_bytes() {
    let mut stored = UpdateState::initial("0.5.0");
    stored.latest_version = Some("0.0.1".into());
    let (manager, _) = UpdateManager::load(Ok(None), Ok(Some(stored)), true, "0.5.0");
    assert_eq!(manager.view().latest_version, None, "older than this build");
    assert!(prunes("eidos-v0.4.9-setup.exe", &None));
    assert!(prunes("eidos-v0.4.9-setup.exe.part", &None));
    assert!(
        !prunes("operator-notes.txt", &None),
        "only canonical staging names are removed"
    );
}

#[test]
fn interrupted_stage_is_durably_failed_on_restart() {
    let mut stored = UpdateState::initial("0.5.0");
    stored.stage_phase = StagePhase::Verifying;
    let (manager, _) = UpdateManager::load(Ok(None), Ok(Some(stored)), true, "0.5.0");
    assert_eq!(manager.view().stage_phase, StagePhase::Failed);
    assert!(manager.view().stage_error.unwrap().contains("interrupted"));
}

#[test]
fn unreadable_settings_fail_updates_closed_without_blocking_service_open() {
    let (manager, _) =
        UpdateManager::load(Err("expected value".into()), Ok(None), true, "0.5.0");
    assert!(!manager.view().checks_enabled);
    assert!(manager.view().check_error.unwrap().contains("unreadable"));
}

#[test]
fn settings_require_bounds_and_product() {
    assert!(UpdateSettings {
        max_artifact_bytes: 1,
        ..Default::default()
    }
    .validated()
    .is_err());
    assert!(UpdateSettings {
        expected_product: " ".into(),
        ..Default::default()
    }
    .validated()
    .is_err());
    let wire = UpdateSettings {
        automatic_checks: true,
        expected_publisher: None,
        expected_product: "Eidos".into(),
        max_artifact_bytes: "268435456".parse().unwrap(),
    }
    .validated()
    .unwrap();
    assert_eq!(wire.max_artifact_bytes, DEFAULT_MAX_ARTIFACT_BYTES);
}

fn artifact() -> ReleaseArtifact {
    ReleaseArtifact {
        version: "0.5.1".into(),
        name: "eidos-v0.5.1-setup.exe".into(),
        download_url: format!("{RELEASE_DOWNLOAD_PREFIX}v0.5.1/eidos-v0.5.1-setup.exe"),
        size: 2_000_000,
        sha256: "a".repeat(64),
    }
}

fn publisher_settings() -> UpdateSettings {
    UpdateSettings {
        expected_publisher: Some("CN=Test Publisher".into()),
        ..Default::default()
    }
}

#[test]
fn a_failed_commit_keeps_the_artifact_durable_state_still_names() {
    let mut stored = UpdateState::initial("0.5.0");
    stored.stage_phase = StagePhase::Staged;
    stored.staged = Some(StagedArtifact {
        version: "0.5.2".into(),
        path: "updates/staging/eidos-v0.5.2-setup.exe".into(),
        size: 31,
        sha256: "b".repeat(64),
        publisher: "CN=Test Publisher".into(),
        product: "Eidos".into(),
    });
    let (mut manager, keep) = UpdateManager::load(Ok(None), Ok(Some(stored)), true, "0.5.0");
    assert!(
        !prunes("eidos-v0.5.2-setup.exe", &keep),
        "startup keeps what state still names"
    );
    manager.save_settings(publisher_settings());
    manager.record_check(
        UnixNanos(5),
        Ok(ReleaseCheck {
            latest_version: Some("0.5.1".into()),
            artifact: Some(artifact()),
        }),
    );
    let mut run = StageRun::new(manager.begin_stage().unwrap());
    match reach_record(&mut run, &mut manager) {
        StageAction::Record(next) => assert_eq!(next.staged.unwrap().version, "0.5.1"),
        other => panic!("{other:?}"),
    }
    // The write of that state fails, so it is never committed.
    match run.next(&mut manager, StageEvent::Failed("disk full".into())) {
        StageAction::Fail(error) => assert_eq!(error, "disk full"),
        other => panic!("{other:?}"),
    }
    assert_eq!(manager.view().stage_phase, StagePhase::Failed);
    assert_eq!(manager.view().staged.unwrap().version, "0.5.2");
}

#[test]
fn controlled_fixture_reaches_verified_durable_stage_without_execution() {
    let mut manager = fresh(true, None);
    manager.save_settings(publisher_settings());
    assert!(manager.begin_stage().is_err(), "nothing is available yet");
    manager.record_check(
        UnixNanos(5),
        Ok(ReleaseCheck {
            latest_version: Some("0.5.1".into()),
            artifact: Some(artifact()),
        }),
    );
    let mut run = StageRun::new(manager.begin_stage().unwrap());
    assert_eq!(run.job().publisher, "CN=Test Publisher");
    let recorded = reach_record(&mut run, &mut manager);
    assert!(matches!(recorded, StageAction::Record(_)));
    assert!(manager.view().staged.is_none(), "not in force before it is recorded");
    match run.next(&mut manager, StageEvent::Done) {
        StageAction::Prune(keep) => assert_eq!(keep, "eidos-v0.5.1-setup.exe"),
        other => panic!("{other:?}"),
    }
    let state = manager.view();
    assert_eq!(state.stage_phase, StagePhase::Staged);
    let staged = state.staged.unwrap();
    assert_eq!(staged.path, "updates/staging/eidos-v0.5.1-setup.exe");
    assert!(
        prunes("eidos-v0.4.9-setup.exe", &Some("eidos-v0.5.1-setup.exe".into())),
        "staging retains only the verified artifact"
    );
    assert!(!prunes(
        "eidos-v0.5.1-setup.exe",
        &Some("eidos-v0.5.1-setup.exe".into())
    ));
}

/// Every step up to the record succeeds.
fn reach_record(run: &mut StageRun, manager: &mut UpdateManager) -> StageAction {
    let mut next = |event: StageEvent| run.next(manager, event);
    assert!(matches!(next(StageEvent::Done), StageAction::StorePhase));
    assert!(matches!(next(StageEvent::Done), StageAction::Download));
    assert!(matches!(next(StageEvent::Done), StageAction::StorePhase));
    assert!(matches!(next(StageEvent::Done), StageAction::CheckBytes));
    assert!(matches!(next(StageEvent::Done), StageAction::CheckIdentity));
    let identity = VerifiedIdentity {
        publisher: "CN=Test Publisher".into(),
        product: "Eidos".into(),
    };
    assert!(matches!(
        next(StageEvent::Identified(identity)),
        StageAction::Replace
    ));
    next(StageEvent::Placed(
        "updates/staging/eidos-v0.5.1-setup.exe".into(),
    ))
}

fn ready() -> (UpdateManager, StageRun) {
    let mut manager = fresh(true, None);
    manager.save_settings(publisher_settings());
    manager.record_check(
        UnixNanos(5),
        Ok(ReleaseCheck {
            latest_version: Some("0.5.1".into()),
            artifact: Some(artifact()),
        }),
    );
    let run = StageRun::new(manager.begin_stage().unwrap());
    (manager, run)
}

#[test]
fn a_run_that_fails_its_checks_never_reaches_the_record() {
    let (mut manager, mut run) = ready();
    for _ in 0..4 {
        run.next(&mut manager, StageEvent::Done);
    }
    assert_eq!(manager.view().stage_phase, StagePhase::Verifying);
    match run.next(&mut manager, StageEvent::Failed("digest mismatch".into())) {
        StageAction::Fail(error) => assert_eq!(error, "digest mismatch"),
        other => panic!("{other:?}"),
    }
    let state = manager.view();
    assert_eq!(state.stage_phase, StagePhase::Failed);
    assert_eq!(state.stage_error.as_deref(), Some("digest mismatch"));
    assert!(state.staged.is_none());
}

#[test]
fn a_run_that_cannot_prepare_leaves_no_trace() {
    let (mut manager, mut run) = ready();
    match run.next(&mut manager, StageEvent::Failed("read-only disk".into())) {
        StageAction::Refuse(error) => assert_eq!(error, "read-only disk"),
        other => panic!("{other:?}"),
    }
    assert_eq!(manager.view().stage_phase, StagePhase::Idle);
    assert_eq!(manager.view().stage_error, None);
}

#[test]
fn versions_compare_by_their_numbers() {
    assert!(version_is_newer("0.5.9", "0.5.10"));
    assert!(!version_is_newer("0.5.10", "0.5.9"));
    assert!(!version_is_newer("0.5.0", "0.5.0"));
    assert!(version_is_newer("0.5.0", "1.0.0"));
    assert!(version_is_compatible_newer("0.5.0", "0.6.0"));
    assert!(!version_is_compatible_newer("0.5.0", "1.0.0"));
    assert_eq!(parse_version("v1.2.3").unwrap().text(), "1.2.3");
    assert_eq!(parse_version(" v0.5.1 ").unwrap().text(), "0.5.1");
    assert!(parse_version("vv0.5.1").is_none());
    assert!(parse_version("0.5").is_none());
    assert!(parse_version("nightly").is_none());
    assert!(parse_version("1.2").is_none());
    assert!(parse_version("1.2.x").is_none());
    assert_eq!(setup_file("0.5.1"), "eidos-v0.5.1-setup.exe");
    assert_eq!(
        partial_file("eidos-v0.5.1-setup.exe"),
        "eidos-v0.5.1-setup.exe.part"
    );
    assert_eq!(OPERATION_RUNNING, "an update operation is already running");
}

#[test]
fn only_exact_artifacts_may_be_downloaded() {
    let max = DEFAULT_MAX_ARTIFACT_BYTES;
    assert!(validate_artifact(&artifact(), "0.5.0", max).is_ok());
    let mut a = artifact();
    a.sha256 = "a".repeat(63);
    assert!(validate_artifact(&a, "0.5.0", max).is_err());
    let mut a = artifact();
    a.name = "eidos-v0.5.2-setup.exe".into();
    assert_eq!(
        validate_artifact(&a, "0.5.0", max).unwrap_err(),
        "artifact name is not canonical"
    );
    let mut a = artifact();
    a.size = max + 1;
    assert!(validate_artifact(&a, "0.5.0", max).is_err());
    assert!(validate_artifact(&artifact(), "0.5.1", max).is_err());
}

#[test]
fn a_failed_check_is_remembered_with_its_time() {
    let mut manager = fresh(true, None);
    manager.record_check(UnixNanos(9), Err("offline".into()));
    let v = manager.view();
    assert_eq!(v.checked_at, Some(UnixNanos(9)));
    assert!(v.check_error.unwrap().contains("offline"));
}
