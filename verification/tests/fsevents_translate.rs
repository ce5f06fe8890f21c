use eidos_service::changes::{ChangeEvent, NativeKey, ObjectKind, ScanErrorKind};
use eidos_service::fsevents_apply::{
    CatalogEntry, EntryLookup, Listing, PathParts, RawEntry, ReadFailure, TranslateStats,
};
use eidos_service::fsevents_translate::{translate, PathLookups};

fn path(p: &str) -> PathParts {
    PathParts {
        parts: p.split('/').map(|s| s.to_string()).collect(),
    }
}

fn key(id: u128) -> NativeKey {
    NativeKey {
        volume_serial: 1,
        id,
    }
}

fn entry(name: &str, id: u128, kind: ObjectKind) -> RawEntry {
    RawEntry {
        name: name.into(),
        native_id: Some(key(id)),
        kind,
        attributes: 0,
        size: 3,
        allocated: None,
        created: None,
        modified: None,
        changed: None,
        accessed: None,
        reparse_tag: None,
    }
}

/// The root `r` is object 1 and indexed. On disk: a file, and a directory that
/// the catalog does not know yet. The catalog also has object 9 as `r/old`.
fn stat(p: &PathParts) -> Result<RawEntry, ReadFailure> {
    match p.parts.join("/").as_str() {
        "r" => Ok(entry("r", 1, ObjectKind::Directory)),
        "r/file" => Ok(entry("file", 2, ObjectKind::File)),
        "r/dir" => Ok(entry("dir", 3, ObjectKind::Directory)),
        "r/moved" => Ok(entry("moved", 9, ObjectKind::File)),
        "r/busy" => Err(ReadFailure {
            kind: ScanErrorKind::Transient,
            retryable: true,
        }),
        _ => Err(ReadFailure {
            kind: ScanErrorKind::NotFound,
            retryable: false,
        }),
    }
}

fn run(changes: &[&str]) -> (Vec<ChangeEvent>, TranslateStats) {
    let ask = PathLookups {
        stat,
        known: |k: NativeKey| k.id == 1 || k.id == 9,
        entries: |k: NativeKey| {
            if k.id == 9 {
                vec![CatalogEntry {
                    parent: Some(key(1)),
                    name: "old".into(),
                }]
            } else {
                Vec::new()
            }
        },
        disk: |_: &CatalogEntry| (EntryLookup::Missing, None),
        subtree: |_: &PathParts| {
            vec![Listing::Entries {
                parent: Some(key(3)),
                children: vec![entry("inner", 4, ObjectKind::File)],
            }]
        },
        resolve: |p: &PathParts| match p.parts.join("/").as_str() {
            "r/old" => Some((key(9), false)),
            "r/tree" => Some((key(8), true)),
            _ => None,
        },
    };
    let changes: Vec<PathParts> = changes.iter().map(|p| path(p)).collect();
    translate(&ask, &path("r"), &changes)
}

#[test]
fn a_new_file_is_linked() {
    let (events, stats) = run(&["r/file", "elsewhere/x"]);
    assert_eq!(events.len(), 1);
    assert!(matches!(&events[0], ChangeEvent::Link { parent, name, .. }
        if *parent == key(1) && name == "file"));
    assert_eq!((stats.paths, stats.out_of_scope), (1, 1));
}

#[test]
fn a_new_directory_brings_its_contents() {
    let (events, stats) = run(&["r/dir"]);
    assert!(matches!(&events[0], ChangeEvent::Link { parent, name, .. }
        if *parent == key(1) && name == "dir"));
    assert!(matches!(&events[1], ChangeEvent::Link { parent, name, .. }
        if *parent == key(3) && name == "inner"));
    assert_eq!(stats.expanded_directories, 1);
    assert!(!stats.needs_rescan);
}

#[test]
fn a_move_is_not_a_deletion() {
    let (events, stats) = run(&["r/old", "r/moved"]);
    assert!(events
        .iter()
        .any(|e| matches!(e, ChangeEvent::Link { name, .. } if name == "moved")));
    assert!(events
        .iter()
        .any(|e| matches!(e, ChangeEvent::Unlink { name, .. } if name == "old")));
    assert!(!events
        .iter()
        .any(|e| matches!(e, ChangeEvent::Delete { .. })));
    assert_eq!(stats.removed, 0);
}

#[test]
fn a_gone_file_loses_its_name_and_a_gone_directory_is_deleted() {
    let (events, stats) = run(&["r/old"]);
    assert_eq!(events.len(), 1);
    assert!(matches!(&events[0], ChangeEvent::Unlink { parent, name }
        if *parent == key(1) && name == "old"));
    assert_eq!(stats.removed, 1);
    let (events, stats) = run(&["r/tree"]);
    assert_eq!(events.len(), 1);
    assert!(matches!(&events[0], ChangeEvent::Delete { object } if *object == key(8)));
    assert_eq!(stats.removed, 1);
    assert!(run(&["r/never"]).0.is_empty());
}

#[test]
fn a_busy_path_is_counted_for_a_retry() {
    let (events, stats) = run(&["r/busy"]);
    assert!(events.is_empty());
    assert_eq!(stats.retryable_errors, 1);
}
