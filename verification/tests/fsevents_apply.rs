use eidos_service::changes::{ChangeEvent, NativeKey, ObjectKind, ScanErrorKind};
use eidos_service::fsevents_apply::{
    entry_names_object, is_below, is_elsewhere, ordered_changes, snapshot, CatalogEntry,
    EntryLookup, Listing, PathParts, PathTranslation, RawEntry, ReadFailure, StaleName,
};

fn path(p: &str) -> PathParts {
    PathParts {
        parts: p.split('/').map(|s| s.to_string()).collect(),
    }
}

fn text(p: &PathParts) -> String {
    p.parts.join("/")
}

fn key(id: u128) -> NativeKey {
    NativeKey {
        volume_serial: 1,
        id,
    }
}

fn entry(name: &str, id: Option<u128>, kind: ObjectKind) -> RawEntry {
    RawEntry {
        name: name.into(),
        native_id: id.map(key),
        kind,
        attributes: 0,
        size: 3,
        allocated: None,
        created: None,
        modified: None,
        changed: None,
        accessed: None,
        reparse_tag: None,
    }
}

#[test]
fn changes_are_taken_parents_first_and_once() {
    let root = path("r");
    let changes = vec![path("r/a/b"), path("x"), path("r/a"), path("r/a"), path("r")];
    let (paths, outside) = ordered_changes(&root, &changes);
    assert_eq!(paths.iter().map(text).collect::<Vec<_>>(), ["r/a", "r/a/b"]);
    assert_eq!(outside, 1);
    assert!(is_below(&root, &path("r/a")));
    assert!(!is_below(&path("r/a"), &path("r/ab")));
}

#[test]
fn a_moved_directory_is_linked_not_deleted() {
    let mut t = PathTranslation::new(2, 0);
    let dir = entry("new", Some(7), ObjectKind::Directory);
    assert!(t.attaches(Some(key(1)), true));
    let object = t.identify(&dir).unwrap();
    let stale = vec![StaleName {
        parent: key(1),
        name: "old".into(),
    }];
    assert!(!t.link(key(1), &dir, object, &stale, true));
    assert!(t.creates(key(7)));
    assert!(!t.remove(Some((key(7), true))), "it lives elsewhere");
    let (events, stats) = t.finish();
    assert_eq!(events.len(), 2);
    assert!(matches!(&events[0], ChangeEvent::Unlink { name, .. } if name == "old"));
    assert!(matches!(&events[1], ChangeEvent::Link { name, .. } if name == "new"));
    assert_eq!((stats.removed, stats.relinked), (0, 1));
}

#[test]
fn a_new_directory_is_expanded() {
    let mut t = PathTranslation::new(1, 0);
    let dir = entry("d", Some(7), ObjectKind::Directory);
    let object = t.identify(&dir).unwrap();
    assert!(t.link(key(1), &dir, object, &vec![], false));
    let x = PathTranslation::begin_expansion();
    let listing = Listing::Entries {
        parent: Some(key(7)),
        children: vec![
            entry("f", Some(8), ObjectKind::File),
            entry("g", None, ObjectKind::File),
        ],
    };
    let x = t.expand(x, &listing);
    let x = t.expand(x, &Listing::Failed { retryable: true });
    t.end_expansion(x);
    assert!(!x.overflowed);
    let (events, stats) = t.finish();
    assert!(matches!(&events[1], ChangeEvent::Link { parent, name, .. }
        if *parent == key(7) && name == "f"));
    assert_eq!(events.len(), 2, "an entry without identity is not linked");
    assert_eq!(stats.retryable_errors, 1);
    assert!(!stats.needs_rescan);
}

#[test]
fn gone_paths_are_removed_or_unlinked() {
    let mut t = PathTranslation::new(3, 0);
    assert!(t.unread(ReadFailure {
        kind: ScanErrorKind::NotFound,
        retryable: false
    }));
    assert!(!t.unread(ReadFailure {
        kind: ScanErrorKind::AccessDenied,
        retryable: false
    }));
    assert!(!t.unread(ReadFailure {
        kind: ScanErrorKind::Transient,
        retryable: true
    }));
    assert!(!t.remove(None));
    assert!(!t.remove(Some((key(5), true))));
    assert!(t.remove(Some((key(6), false))));
    t.unlink_gone(Some(key(1)), "f");
    t.unlink_gone(None, "g");
    assert!(!t.attaches(None, true));
    let (events, stats) = t.finish();
    assert!(matches!(&events[0], ChangeEvent::Delete { object } if *object == key(5)));
    assert!(matches!(&events[1], ChangeEvent::Unlink { name, .. } if name == "f"));
    assert_eq!(events.len(), 2);
    assert_eq!(
        (stats.removed, stats.io_errors, stats.retryable_errors),
        (2, 1, 1)
    );
    assert_eq!(stats.out_of_scope, 1);
}

#[test]
fn entries_and_names_are_compared() {
    let e = CatalogEntry {
        parent: Some(key(1)),
        name: "a".into(),
    };
    assert!(!is_elsewhere(&e, key(1), "a"));
    assert!(is_elsewhere(&e, key(2), "a"));
    assert!(is_elsewhere(&e, key(1), "b"));
    assert!(entry_names_object(EntryLookup::Found(key(3)), key(3), Some(true)));
    assert!(!entry_names_object(EntryLookup::Missing, key(3), None));
    let s = snapshot(&entry("a", Some(9), ObjectKind::File)).unwrap();
    assert_eq!((s.native, s.size), (key(9), 3));
    assert!(snapshot(&entry("a", None, ObjectKind::File)).is_none());
}
