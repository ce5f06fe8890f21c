use eidos_service::collector_api::{
    apply_upload, collector_error, query_status, unavailable, CollectorStatus, CollectorUploadView,
    PipeFailure, StatusReply, UploadReply, WINDOWS_ONLY,
};
use eidos_service::domain::{Instant, ObjectId, SourceId, SourceKind};
use eidos_service::durable_file::temp_path;
use eidos_service::fleet_api::{
    bad_listen, central_peer, check_central, check_decider, check_sync_policy, forget_view,
    join_decided, parse_node, peer_change, requested_listen, update_central, CentralBody,
    FleetPeer, FleetSettings, ListenChange, NodeId, PeerBody, PeerRole,
};
use eidos_service::follower::{Follow, FollowStep, FollowerStatus, Rebuild};
use eidos_service::retry_api::{job_selector, parse_class, source_selector, RetryBody};
use eidos_service::update_check::{CheckStep, CheckTimer};
use eidos_service::api::{
    admit_source, check_directory, content_policy, facet_names, indexed_state, query_input,
    requested_root, shown_freshness, source_kind, AddSourceBody, ApiError, CatalogFailure,
    Freshness, ProbedVolume, QueryInput, SearchFailure,
};

// ----- fleet -----------------------------------------------------------------

#[test]
fn a_node_id_that_cannot_be_read_is_refused() {
    let read = |id: &str| match id {
        "ff" => Some(NodeId(255)),
        _ => None,
    };
    assert_eq!(parse_node("ff", &read).unwrap(), NodeId(255));
    let refused = parse_node("fg", &read).unwrap_err();
    assert_eq!(
        (refused.status, refused.message.as_str()),
        (400, "node id must be 32 hex characters")
    );
}

#[test]
fn a_member_cannot_become_the_master() {
    assert!(check_central(Some(true), false, false).is_ok());
    assert!(check_central(Some(false), true, true).is_ok());
    assert!(check_central(None, true, true).is_ok());
    assert_eq!(
        check_central(Some(true), true, true).unwrap_err().message,
        "leave the current fleet before making this node the master"
    );
    assert_eq!(
        check_central(Some(true), false, true).unwrap_err().message,
        "cancel the pending join before making this node the master"
    );
}

#[test]
fn a_new_master_listens_on_the_default_port() {
    let mut s = FleetSettings {
        central: false,
        listen: None,
        pending_join: false,
    };
    update_central(&mut s, Some(true), ListenChange::Keep, 7701).unwrap();
    assert!(s.central);
    assert_eq!(s.listen.as_deref(), Some("0.0.0.0:7701"));
    let body = CentralBody {
        central: None,
        listen: Some(" 127.0.0.1:9 ".into()),
    };
    update_central(&mut s, None, requested_listen(&body), 7701).unwrap();
    assert_eq!(s.listen.as_deref(), Some("127.0.0.1:9"));
    let stop = CentralBody {
        central: None,
        listen: Some("  ".into()),
    };
    update_central(&mut s, None, requested_listen(&stop), 7701).unwrap();
    assert_eq!(s.listen, None);
    s.pending_join = true;
    assert!(update_central(&mut s, Some(true), ListenChange::Keep, 7701).is_err());
    assert_eq!(bad_listen("no port").message, "listen address: no port");
}

#[test]
fn only_the_master_decides_on_joins() {
    assert!(check_decider(true).is_ok());
    assert_eq!(check_decider(false).unwrap_err().status, 400);
    assert_eq!(join_decided("r1", true, true).unwrap(), 1);
    assert_eq!(join_decided("r1", true, false).unwrap(), 0);
    let e = join_decided("r1", false, true).unwrap_err();
    assert_eq!((e.status, e.message.as_str()), (404, "join request r1"));
}

#[test]
fn peers_are_found_changed_and_forgotten() {
    let node = |id, role| FleetPeer {
        node_id: NodeId(id),
        role,
    };
    let peers = vec![
        node(1, PeerRole::Node),
        node(2, PeerRole::Central),
        node(3, PeerRole::Central),
    ];
    assert_eq!(central_peer(&peers).unwrap().node_id, NodeId(2));
    assert_eq!(
        central_peer(&vec![]).unwrap_err().message,
        "this node has not joined a master"
    );
    let c = peer_change(&PeerBody {
        endpoint: Some(" ".into()),
        enabled: Some(false),
    });
    assert_eq!(c.endpoint, Some(None));
    assert!(c.close);
    let c = peer_change(&PeerBody {
        endpoint: Some(" h:1 ".into()),
        enabled: None,
    });
    assert_eq!(c.endpoint, Some(Some("h:1".to_string())));
    assert!(!c.close);
    assert_eq!(forget_view(&vec![true, false, true]).retired_sources, 2);
    assert!(check_sync_policy(4, Some(SourceKind::WindowsLocal)).is_ok());
    assert_eq!(
        check_sync_policy(4, Some(SourceKind::Remote)).unwrap_err().message,
        "a replicated source has no sync policy of its own"
    );
    assert_eq!(check_sync_policy(-4, None).unwrap_err().message, "source -4");
}

// ----- collector -------------------------------------------------------------

#[test]
fn the_collector_is_shown_or_its_absence_explained() {
    let status = CollectorStatus {
        version: "1.2".into(),
        uptime_s: 5,
        spool_records: 6,
        capture_gaps: 7,
        upload: CollectorUploadView {
            enabled: true,
            destination: "\\\\s\\d".into(),
            hour: 3,
            last_upload_unix_ns: None,
            uploaded_total: 1,
            pending: 2,
            last_error: None,
        },
    };
    let v = query_status(StatusReply::Status(status));
    assert!(v.available && v.detail.is_none());
    assert_eq!((v.uptime_s, v.spool_records, v.capture_gaps), (5, 6, 7));
    assert_eq!(v.upload.unwrap().hour, 3);
    let v = query_status(StatusReply::Failed(PipeFailure::NotFound, "x".into()));
    assert!(!v.available);
    assert_eq!(
        v.detail.as_deref(),
        Some("the collector service is not installed or not running on this host")
    );
    let v = query_status(StatusReply::Other("Accepted".into()));
    assert_eq!(
        v.detail.as_deref(),
        Some("unexpected collector response: Accepted")
    );
    assert_eq!(
        unavailable(WINDOWS_ONLY.to_string()).detail.as_deref(),
        Some("the collector runs on Windows hosts only")
    );
    assert!(collector_error(PipeFailure::PermissionDenied, "").contains("denied"));
    assert_eq!(
        collector_error(PipeFailure::Other, "E1"),
        "collector control pipe: E1"
    );
}

#[test]
fn forwarding_changes_report_what_came_of_them() {
    assert!(apply_upload(UploadReply::Accepted).is_ok());
    let e = apply_upload(UploadReply::Refused("bad hour".into())).unwrap_err();
    assert_eq!((e.status, e.message.as_str()), (400, "bad hour"));
    let e = apply_upload(UploadReply::Other("Status".into())).unwrap_err();
    assert_eq!(e.status, 500);
    let e = apply_upload(UploadReply::Failed(PipeFailure::Other, "E".into())).unwrap_err();
    assert_eq!((e.status, e.kind), (503, "unavailable"));
}

// ----- retries ---------------------------------------------------------------

#[test]
fn retries_select_by_known_classes_only() {
    let parse = |s: &str| if s == "corrupt" { Some(3u8) } else { None };
    assert_eq!(parse_class(&None, &parse).unwrap(), None);
    assert_eq!(parse_class(&Some("  ".into()), &parse).unwrap(), None);
    assert_eq!(
        parse_class(&Some(" corrupt ".into()), &parse).unwrap(),
        Some(3)
    );
    let e = parse_class(&Some("odd".into()), &parse).unwrap_err();
    assert_eq!(
        (e.status, e.message.as_str()),
        (400, "unknown failure class 'odd'")
    );
    let mut body = RetryBody::default();
    body.preview = true;
    body.limit = Some(4);
    body.reason_prefix = Some(" ".into());
    let one = job_selector::<u8>(9, &body);
    assert_eq!((one.job, one.preview, one.limit), (Some(9), true, None));
    let many = source_selector(SourceId(2), Some(3u8), &body);
    assert_eq!(many.source, Some(SourceId(2)));
    assert_eq!((many.class, many.limit), (Some(3), Some(4)));
    assert_eq!(many.reason_prefix, None);
    body.reason_prefix = Some("os 5".into());
    let many = source_selector(SourceId(2), None::<u8>, &body);
    assert_eq!(many.reason_prefix.as_deref(), Some("os 5"));
}

// ----- follower --------------------------------------------------------------

#[test]
fn the_follower_counts_and_paces_itself() {
    let mut f = FollowerStatus::default();
    f.begin();
    assert_eq!(
        f.failed("locked".into()),
        FollowStep::Pause { ms: 2000 }
    );
    f.begin();
    let rebuilt = vec![
        Rebuild {
            documents: 10,
            elapsed_ms: 3,
        },
        Rebuild {
            documents: 5,
            elapsed_ms: 4,
        },
    ];
    let follow = Follow {
        rows: 7,
        documents_added: 2,
        last_seq: 99,
    };
    let now = Instant(5_000_000);
    assert_eq!(
        f.succeeded(&rebuilt, Some(follow), now, 1),
        FollowStep::Again
    );
    let v = f.view(Instant(9_000_000), 100, 1);
    assert_eq!((v.iterations, v.rebuilds, v.rows_applied), (2, 2, 7));
    assert_eq!((v.documents_added, v.last_seq), (17, 99));
    assert_eq!((v.last_rebuild_ms, v.last_activity_ms_ago), (4, Some(4)));
    assert_eq!(v.last_error, None);
    assert_eq!(
        f.succeeded(&vec![], None, now, 0),
        FollowStep::WaitForWrite
    );
}

#[test]
fn the_checker_waits_in_slices() {
    let mut t = CheckTimer::start();
    for _ in 0..60 {
        assert_eq!(t.step(false), CheckStep::Sleep { seconds: 1 });
    }
    assert_eq!(t.step(true), CheckStep::Look, "a full wait ends in a look");
    t.looked(false);
    assert_eq!(t.delay_s, 60);
    assert_eq!(t.step(true), CheckStep::Stop);
    t.looked(true);
    assert_eq!(t.delay_s, 86_400);
}

#[test]
fn temporaries_are_siblings() {
    assert_eq!(temp_path("data/x.json"), "data/x.json.tmp");
}

// ----- the API ---------------------------------------------------------------

#[test]
fn failures_have_a_status_and_a_code() {
    let e = ApiError::from_catalog(CatalogFailure::InvalidState("busy".into()));
    assert_eq!((e.status, e.kind), (409, "conflict"));
    let e = ApiError::from_catalog(CatalogFailure::NotFound("x".into()));
    assert_eq!((e.status, e.kind), (404, "not_found"));
    let e = ApiError::from_search(SearchFailure::Query("bad".into()));
    assert_eq!((e.status, e.kind), (400, "query"));
    let e = ApiError::from_search(SearchFailure::Other("x".into()));
    assert_eq!((e.status, e.kind), (500, "search"));
    let e = ApiError::conflict("x".into()).with_kind("special");
    assert_eq!((e.status, e.kind), (409, "special"));
}

#[test]
fn sources_are_admitted_and_classified() {
    let body = AddSourceBody {
        name: "n".into(),
        root_path: "  C:\\x ".into(),
        kind: None,
        aliases: vec![],
        scan: false,
    };
    assert_eq!(requested_root(&body).unwrap(), "C:\\x");
    let blank = AddSourceBody {
        root_path: " ".into(),
        ..body
    };
    assert_eq!(
        requested_root(&blank).unwrap_err().message,
        "name and root_path are required"
    );
    assert!(admit_source("n", "r", true, false).is_ok());
    assert_eq!(
        admit_source("n", "r", false, true).unwrap_err().message,
        "root_path is not an accessible directory: r"
    );
    assert_eq!(
        admit_source("n", "r", true, true).unwrap_err().message,
        "source 'n' already exists"
    );
    let volume = |remote, native_local| {
        Some(ProbedVolume {
            remote,
            native_local,
        })
    };
    assert_eq!(source_kind(None, volume(true, true)), SourceKind::Smb);
    assert_eq!(
        source_kind(None, volume(false, true)),
        SourceKind::WindowsLocal
    );
    assert_eq!(source_kind(None, None), SourceKind::WindowsGeneric);
    assert_eq!(
        source_kind(Some(SourceKind::Remote), None),
        SourceKind::Remote
    );
    assert_eq!(content_policy(None, Some(100), true, 2), (true, 64));
    assert_eq!(content_policy(Some(false), None, true, 2), (false, 2));
}

#[test]
fn views_and_listings_decide_small_things() {
    assert_eq!(shown_freshness(Freshness::Live, false), Freshness::Unknown);
    assert_eq!(shown_freshness(Freshness::Live, true), Freshness::Live);
    assert_eq!(shown_freshness(Freshness::Stale, false), Freshness::Stale);
    assert!(indexed_state(Some(3), Some((3, 9))).in_sync);
    assert!(!indexed_state(Some(3), Some((2, 9))).in_sync);
    assert!(!indexed_state(None, None).in_sync);
    assert_eq!(facet_names("a,,b"), vec!["a", "b"]);
    assert!(matches!(query_input(Some(1), Some("x".into())), QueryInput::Tree(1)));
    assert!(matches!(
        query_input(None::<i32>, Some("x".into())),
        QueryInput::Text(t) if t == "x"
    ));
    assert!(matches!(
        query_input(None::<i32>, None),
        QueryInput::Everything
    ));
    assert!(check_directory(ObjectId(7), Some(true)).is_ok());
    assert_eq!(check_directory(ObjectId(7), Some(false)).unwrap_err().status, 400);
    assert_eq!(check_directory(ObjectId(7), None).unwrap_err().status, 404);
}
