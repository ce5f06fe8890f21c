use eidos_service::changes::{ChangeEvent, NativeKey, ObjectKind, ScanErrorKind};
use eidos_service::usn_apply::{
    coalesce, known_deletion, link_path, to_snapshot, AfterSnapshot, FileSnapshot, KnownEntry,
    LiveLink, TranslateStats, Translation, UsnRecord, USN_REASON_FILE_CREATE,
    USN_REASON_FILE_DELETE, USN_REASON_HARD_LINK_CHANGE, USN_REASON_RENAME_OLD_NAME,
};

#[test]
fn partial_snapshot_translation_cannot_be_acknowledged_as_complete() {
    assert!(TranslateStats::default().ensure_complete().is_ok());
    assert!(TranslateStats {
        io_errors: 1,
        ..Default::default()
    }
    .ensure_complete()
    .is_err());
}

#[test]
fn only_unfixable_snapshot_failures_may_be_skipped() {
    let mut stats = TranslateStats::default();
    // Replaying the record produces the same failure forever.
    for kind in [
        ScanErrorKind::AccessDenied,
        ScanErrorKind::AccessDenied,
        ScanErrorKind::Unsupported,
        ScanErrorKind::NotFound,
        ScanErrorKind::InvalidName,
    ] {
        stats.record_snapshot_failure(kind);
    }
    assert_eq!(stats.unreadable, 5);
    assert_eq!(stats.io_errors, 0);
    assert!(
        stats.ensure_complete().is_ok(),
        "a permanently unreadable object must not stall the feed or abort replay"
    );
    // An unclassified failure must not be assumed permanent.
    for kind in [
        ScanErrorKind::Transient,
        ScanErrorKind::Other,
        ScanErrorKind::Other,
    ] {
        let mut retryable = TranslateStats::default();
        retryable.record_snapshot_failure(kind);
        assert_eq!(retryable.io_errors, 1, "must retain the position");
        assert_eq!(retryable.unreadable, 0);
        assert!(retryable.ensure_complete().is_err());
    }
}

#[test]
fn an_indexed_identity_still_emits_its_deletion() {
    let key = NativeKey {
        volume_serial: 7,
        id: 1,
    };
    assert!(matches!(
        known_deletion::<()>(Ok(true), key),
        Ok(Some(ChangeEvent::Delete { object })) if object == key
    ));
}

#[test]
fn deletes_absent_from_the_source_do_not_become_feed_events() {
    for id in 1..100 {
        let key = NativeKey {
            volume_serial: 7,
            id,
        };
        assert!(known_deletion::<()>(Ok(false), key).unwrap().is_none());
    }
}

#[test]
fn a_failed_catalog_lookup_is_not_confused_with_an_unrelated_delete() {
    let key = NativeKey {
        volume_serial: 7,
        id: 1,
    };
    assert_eq!(
        known_deletion(Err("no such table"), key).unwrap_err(),
        "no such table"
    );
    let f = &coalesce(&vec![record(1, 5, USN_REASON_FILE_DELETE, "x")])[0];
    let mut t = Translation::new(7, 1, 1);
    assert_eq!(t.delete(f, Err("no such table")), Err("no such table"));
    assert_eq!(t.vanish(f, Err("no such table")), Err("no such table"));
    assert!(t.finish().unwrap().0.is_empty());
}

fn record(frn: u128, parent_frn: u128, reason: u32, name: &str) -> UsnRecord {
    UsnRecord {
        frn,
        parent_frn,
        reason,
        directory: false,
        name: name.to_string(),
    }
}

fn snapshot(id: u128, links: u32, path: Option<&str>) -> FileSnapshot {
    FileSnapshot {
        native: NativeKey {
            volume_serial: 7,
            id,
        },
        kind: ObjectKind::File,
        directory_like: false,
        attributes: 32,
        size: 10,
        allocated: 4096,
        link_count: links,
        created: None,
        modified: None,
        changed: None,
        accessed: None,
        reparse_tag: None,
        path: path.map(|p| p.to_string()),
    }
}

#[test]
fn records_of_one_file_become_one_change() {
    let changes = coalesce(&vec![
        record(1, 5, USN_REASON_FILE_CREATE, "a.txt"),
        record(2, 5, USN_REASON_FILE_CREATE, "b.txt"),
        record(1, 5, USN_REASON_RENAME_OLD_NAME, "a.txt"),
        record(1, 6, USN_REASON_FILE_CREATE, "c.txt"),
    ]);
    assert_eq!(changes.len(), 2);
    assert_eq!((changes[0].frn, changes[1].frn), (1, 2));
    assert_eq!(changes[0].old_names, vec![(5, "a.txt".to_string())]);
    assert_eq!(changes[0].latest, Some((6, "c.txt".to_string())));
    assert!(!changes[0].deleted);
}

#[test]
fn a_deleted_file_is_deleted_only_if_it_is_known() {
    let f = &coalesce(&vec![record(1, 5, USN_REASON_FILE_DELETE, "a.txt")])[0];
    assert!(f.deleted);
    let mut t = Translation::new(7, 1, 1);
    t.delete::<()>(f, Ok(false)).unwrap();
    t.delete::<()>(f, Ok(true)).unwrap();
    t.vanish::<()>(f, Ok(false)).unwrap();
    let (events, stats) = t.finish().unwrap();
    assert_eq!(events.len(), 1);
    assert_eq!((stats.out_of_scope, stats.vanished), (1, 1));
    assert!(matches!(&events[0], ChangeEvent::Delete { object } if object.id == 1));
}

#[test]
fn a_moved_file_is_unlinked_and_linked() {
    let f = &coalesce(&vec![
        record(1, 5, USN_REASON_RENAME_OLD_NAME, "a.txt"),
        record(1, 6, USN_REASON_FILE_CREATE, "b.txt"),
    ])[0];
    let mut t = Translation::new(7, 2, 1);
    assert!(t.unlink_old_names(f, &vec![true]));
    assert!(t.wants_snapshot(f, true, true));
    let snap = snapshot(1, 1, None);
    assert!(matches!(
        t.snapshot_taken(f, &snap),
        AfterSnapshot::LinkLatest
    ));
    t.link_latest(f, &snap, true, false);
    let (events, stats) = t.finish().unwrap();
    assert_eq!(stats.snapshots, 1);
    assert!(matches!(&events[0], ChangeEvent::Unlink { parent, name }
        if parent.id == 5 && name == "a.txt"));
    assert!(matches!(&events[1], ChangeEvent::Link { parent, name, snapshot }
        if parent.id == 6 && name == "b.txt" && *snapshot == to_snapshot(&snap)));
}

#[test]
fn changed_hard_links_are_resynchronised() {
    let f = &coalesce(&vec![record(1, 5, USN_REASON_HARD_LINK_CHANGE, "a.txt")])[0];
    let mut t = Translation::new(7, 1, 1);
    assert!(t.wants_snapshot(f, false, false));
    let snap = snapshot(1, 2, Some("C:\\x\\a.txt"));
    match t.snapshot_taken(f, &snap) {
        AfterSnapshot::ResyncLinks { path } => assert_eq!(path, "C:\\x\\a.txt"),
        AfterSnapshot::LinkLatest => panic!("links changed"),
    }
    let parent = NativeKey {
        volume_serial: 7,
        id: 5,
    };
    t.resync_links(
        to_snapshot(&snap),
        &vec![LiveLink {
            parent,
            name: "a.txt".to_string(),
        }],
        &vec![KnownEntry {
            parent: Some(parent),
            name: "gone.txt".to_string(),
        }],
    );
    let (events, stats) = t.finish().unwrap();
    assert_eq!(stats.link_resyncs, 1);
    assert!(events
        .iter()
        .any(|e| matches!(e, ChangeEvent::Unlink { name, .. } if name == "gone.txt")));
    assert!(events
        .iter()
        .any(|e| matches!(e, ChangeEvent::Link { name, .. } if name == "a.txt")));
}

#[test]
fn an_unreadable_file_keeps_the_batch_only_if_it_may_become_readable() {
    let mut t = Translation::new(7, 1, 1);
    t.snapshot_failed(ScanErrorKind::AccessDenied);
    assert_eq!(t.finish().unwrap().1.unreadable, 1);
    let mut t = Translation::new(7, 1, 1);
    t.snapshot_failed(ScanErrorKind::Transient);
    assert!(t.finish().is_err());
}

#[test]
fn link_paths_are_below_the_volume() {
    assert_eq!(link_path("C:\\", "\\dir\\a.txt"), "C:\\dir\\a.txt");
}
