use eidos_service::changes::{ChangeEvent, NativeKey, ObjectKind, ScanErrorKind};
use eidos_service::usn_apply::{
    FileSnapshot, KnownEntry, LiveLink, UsnRecord, USN_REASON_FILE_CREATE, USN_REASON_FILE_DELETE,
    USN_REASON_HARD_LINK_CHANGE, USN_REASON_RENAME_OLD_NAME,
};
use eidos_service::usn_translate::{translate, Lookups, SnapshotRead, TranslateError};

const SERIAL: u64 = 7;

fn key(id: u128) -> NativeKey {
    NativeKey {
        volume_serial: SERIAL,
        id,
    }
}

fn record(frn: u128, parent_frn: u128, reason: u32, name: &str) -> UsnRecord {
    UsnRecord {
        frn,
        parent_frn,
        reason,
        directory: false,
        name: name.to_string(),
    }
}

fn file(id: u128, links: u32) -> FileSnapshot {
    FileSnapshot {
        native: key(id),
        kind: ObjectKind::File,
        directory_like: false,
        attributes: 32,
        size: 10,
        allocated: 4096,
        link_count: links,
        created: None,
        modified: None,
        changed: None,
        accessed: None,
        reparse_tag: None,
        path: Some(format!("C:\\in\\{id}")),
    }
}

/// Directory 5 is indexed; file 1 exists, file 2 is known and gone, file 3
/// cannot be read just now, file 4 has a second name.
fn read(frn: u128) -> SnapshotRead {
    match frn {
        1 => SnapshotRead::Found(file(1, 1)),
        3 => SnapshotRead::Failed(ScanErrorKind::Transient),
        4 => SnapshotRead::Found(file(4, 2)),
        _ => SnapshotRead::Gone,
    }
}

fn run(records: Vec<UsnRecord>) -> Result<Vec<ChangeEvent>, TranslateError<&'static str>> {
    let ask = Lookups {
        scope: |dir: u128| {
            if dir == 99 {
                Err("no such table")
            } else {
                Ok(dir == 5)
            }
        },
        known: |k: NativeKey| -> Result<bool, &'static str> { Ok(k.id == 2) },
        read,
        links: |_: &str| -> Option<Vec<LiveLink>> {
            Some(vec![LiveLink {
                parent: key(5),
                name: "second".into(),
            }])
        },
        entries: |_: NativeKey| -> Vec<KnownEntry> {
            vec![KnownEntry {
                parent: Some(key(5)),
                name: "first".into(),
            }]
        },
        protected: |path: &str| -> Result<bool, &'static str> { Ok(path.ends_with("secret")) },
    };
    translate(&ask, SERIAL, &records).map(|(events, _)| events)
}

#[test]
fn a_created_file_is_linked_below_an_indexed_directory_only() {
    let events = run(vec![record(1, 5, USN_REASON_FILE_CREATE, "a.txt")]).unwrap();
    assert_eq!(events.len(), 1);
    assert!(matches!(&events[0], ChangeEvent::Link { parent, name, snapshot }
        if *parent == key(5) && name == "a.txt" && snapshot.native == key(1)));
    assert!(run(vec![record(1, 6, USN_REASON_FILE_CREATE, "a.txt")])
        .unwrap()
        .is_empty());
}

#[test]
fn a_rename_out_of_scope_only_unlinks() {
    let events = run(vec![
        record(1, 5, USN_REASON_RENAME_OLD_NAME, "a.txt"),
        record(1, 6, 0, "b.txt"),
    ])
    .unwrap();
    assert_eq!(events.len(), 1);
    assert!(matches!(&events[0], ChangeEvent::Unlink { parent, name }
        if *parent == key(5) && name == "a.txt"));
}

#[test]
fn known_files_are_deleted_and_unknown_ones_are_not() {
    let deleted = run(vec![record(2, 5, USN_REASON_FILE_DELETE, "x")]).unwrap();
    assert!(matches!(&deleted[0], ChangeEvent::Delete { object } if *object == key(2)));
    let vanished = run(vec![record(2, 5, USN_REASON_FILE_CREATE, "x")]).unwrap();
    assert!(matches!(&vanished[0], ChangeEvent::Delete { object } if *object == key(2)));
    assert!(run(vec![record(8, 5, USN_REASON_FILE_DELETE, "x")])
        .unwrap()
        .is_empty());
}

#[test]
fn hard_links_are_resynchronised_with_the_disk() {
    let events = run(vec![record(4, 6, USN_REASON_HARD_LINK_CHANGE, "second")]).unwrap();
    assert_eq!(events.len(), 2);
    assert!(events
        .iter()
        .any(|e| matches!(e, ChangeEvent::Link { name, .. } if name == "second")));
    assert!(events
        .iter()
        .any(|e| matches!(e, ChangeEvent::Unlink { name, .. } if name == "first")));
}

#[test]
fn a_batch_with_a_transient_failure_is_not_complete() {
    match run(vec![
        record(1, 5, USN_REASON_FILE_CREATE, "a.txt"),
        record(3, 5, USN_REASON_FILE_CREATE, "b.txt"),
    ]) {
        Err(TranslateError::Incomplete(text)) => assert!(text.contains('1'), "{text}"),
        _ => panic!("the batch was acknowledged"),
    }
}

#[test]
fn a_failed_lookup_fails_the_batch() {
    match run(vec![record(1, 99, USN_REASON_FILE_CREATE, "a.txt")]) {
        Err(TranslateError::Lookup(e)) => assert_eq!(e, "no such table"),
        _ => panic!("the lookup failed"),
    }
}
