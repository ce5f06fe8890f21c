//! Translating a whole batch of path notifications.
//!
//! The order of the decisions is fixed here; what the filesystem and the
//! catalog say is asked through [`PathLookups`] as it is needed.

use crate::changes::{
    event_models, names_after_all, ChangeEvent, EventModel, Names, NativeKey, ObjectKind,
    ObjectSnapshot, ScanErrorKind,
};
use crate::fsevents_apply::{
    below, child_links, elsewhere, entry_names_object, entry_object, in_order,
    is_elsewhere, lemma_child_links, lemma_shallower_order, ordered_changes, outside_count, path_models, removed,
    still_names, unlink_events, CatalogEntry, EntryLookup, Expansion, Listing, PathParts, PathTranslation,
    PathTranslationModel, RawEntry, ReadFailure, StaleName, TranslateStats, MAX_EXPANDED_ENTRIES,
};
use crate::picks::{lemma_picks_next, lemma_picks_none, picks, rising};
use vstd::prelude::*;
use vstd::string::*;

verus! {

/// The most paths that one batch holds.
pub const MAX_PATHS: usize = 0x7fff_ffff;

/// The most directories that one subtree is read as.
pub const MAX_LISTINGS: usize = 0x7fff_ffff;

/// What a translation asks.
pub struct PathLookups<T, K, N, D, W, G> {
    /// The entry at a path.
    pub stat: T,
    /// Whether the catalog knows an identity.
    pub known: K,
    /// The names under which the catalog has an identity.
    pub entries: N,
    /// What is found on disk where a catalog entry points, and whether the
    /// directory lists that spelling.
    pub disk: D,
    /// Every directory of a subtree.
    pub subtree: W,
    /// What the catalog has at a path: the identity, and whether it can hold
    /// children.
    pub resolve: G,
}

// ----- paths ----------------------------------------------------------------

/// The directory that a path is in.
pub open spec fn parent_path(p: Seq<Seq<char>>) -> Seq<Seq<char>> {
    p.drop_last()
}

fn parent_of(p: &PathParts) -> (r: PathParts)
    requires
        p.parts.len() > 0,
    ensures
        r@ == parent_path(p@),
{
    let n: usize = p.parts.len() - 1;
    let mut parts: Vec<String> = Vec::new();
    let mut i: usize = 0;
    while i < n
        invariant
            0 <= i <= n < p.parts.len(),
            parts.len() == i,
            forall|j: int| 0 <= j < i ==> (#[trigger] parts@[j])@ == p.parts@[j]@,
        decreases n - i,
    {
        parts.push(p.parts[i].clone());
        i += 1;
    }
    let r = PathParts { parts };
    assert(r@ =~= parent_path(p@));
    r
}

/// The entry at a path, as it was read.
pub open spec fn stat_is<T: Fn(&PathParts) -> Result<RawEntry, ReadFailure>>(
    stat: T,
    p: Seq<Seq<char>>,
    r: Result<RawEntry, ReadFailure>,
) -> bool {
    exists|q: &PathParts| #[trigger] call_ensures(stat, (q,), r) && q@ == p
}

/// The identity of what is at a path now.
pub open spec fn key_is<T: Fn(&PathParts) -> Result<RawEntry, ReadFailure>>(
    stat: T,
    p: Seq<Seq<char>>,
    key: Option<NativeKey>,
) -> bool {
    exists|r: Result<RawEntry, ReadFailure>| #[trigger]
        stat_is(stat, p, r) && key == (match r {
            Ok(e) => e.native_id,
            Err(_) => None,
        })
}

fn key_of<T: Fn(&PathParts) -> Result<RawEntry, ReadFailure>>(stat: &T, p: &PathParts) -> (r: Option<
    NativeKey,
>)
    requires
        forall|q: &PathParts| call_requires(*stat, (q,)),
    ensures
        key_is(*stat, p@, r),
{
    let found = stat(p);
    assert(stat_is(*stat, p@, found));
    match found {
        Ok(e) => e.native_id,
        Err(_) => None,
    }
}

// ----- stale names ----------------------------------------------------------

/// Whether an entry still names the object on disk.
pub open spec fn names_object(
    found: (EntryLookup, Option<bool>),
    object: NativeKey,
) -> bool {
    still_names(found.0, object, found.1)
}

/// Whether an entry is stale: it names the object elsewhere, and nothing on
/// disk bears it out. Only an entry that names it elsewhere is looked up.
pub open spec fn stale_is<D: Fn(&CatalogEntry) -> (EntryLookup, Option<bool>)>(
    disk: D,
    e: CatalogEntry,
    object: NativeKey,
    parent: NativeKey,
    name: Seq<char>,
    stale: bool,
) -> bool {
    if elsewhere(e, parent, name) {
        exists|found: (EntryLookup, Option<bool>)| #[trigger]
            call_ensures(disk, (&e,), found) && stale == !names_object(found, object)
    } else {
        !stale
    }
}

pub open spec fn stale_flags<D: Fn(&CatalogEntry) -> (EntryLookup, Option<bool>)>(
    disk: D,
    entries: Seq<CatalogEntry>,
    object: NativeKey,
    parent: NativeKey,
    name: Seq<char>,
    flags: Seq<bool>,
) -> bool {
    &&& flags.len() == entries.len()
    &&& forall|i: int|
        0 <= i < entries.len() ==> stale_is(
            disk,
            #[trigger] entries[i],
            object,
            parent,
            name,
            flags[i],
        )
}

/// The unlinks of the stale entries.
pub open spec fn stale_events(entries: Seq<CatalogEntry>, flags: Seq<bool>) -> Seq<EventModel>
    decreases entries.len(),
{
    if entries.len() == 0 {
        Seq::empty()
    } else {
        let init = stale_events(entries.drop_last(), flags.drop_last());
        let e = entries.last();
        if flags.last() {
            init.push(EventModel::Unlink { parent: e.parent->0, name: e.name@ })
        } else {
            init
        }
    }
}

fn stale_names<D: Fn(&CatalogEntry) -> (EntryLookup, Option<bool>)>(
    disk: &D,
    entries: &Vec<CatalogEntry>,
    object: NativeKey,
    parent: NativeKey,
    name: &str,
) -> (r: Vec<StaleName>)
    requires
        forall|e: &CatalogEntry| call_requires(*disk, (e,)),
    ensures
        exists|flags: Seq<bool>| #[trigger]
            stale_flags(*disk, entries@, object, parent, name@, flags)
                && unlink_events(r@) == stale_events(entries@, flags),
{
    let ghost mut flags: Seq<bool> = Seq::empty();
    let mut r: Vec<StaleName> = Vec::new();
    let mut i: usize = 0;
    assert(unlink_events(r@) =~= stale_events(entries@.take(0), flags));
    while i < entries.len()
        invariant
            0 <= i <= entries.len(),
            forall|e: &CatalogEntry| call_requires(*disk, (e,)),
            flags.len() == i,
            forall|j: int|
                0 <= j < i ==> stale_is(
                    *disk,
                    #[trigger] entries@[j],
                    object,
                    parent,
                    name@,
                    flags[j],
                ),
            unlink_events(r@) == stale_events(
                entries@.take(i as int),
                flags,
            ),
        decreases entries.len() - i,
    {
        let e = &entries[i];
        let ghost before = r@;
        let mut stale: bool = false;
        if is_elsewhere(e, parent, name) {
            let (found, spelled) = disk(e);
            assert(call_ensures(*disk, (e,), (found, spelled)));
            stale = !entry_names_object(found, object, spelled);
            assert(stale == !names_object((found, spelled), object));
            if stale {
                if let Some(p) = e.parent {
                    r.push(StaleName { parent: p, name: e.name.clone() });
                }
            }
        }
        proof {
            assert(stale_is(*disk, entries@[i as int], object, parent, name@, stale));
            let next = flags.push(stale);
            assert(next.drop_last() =~= flags);
            assert(entries@.take(i + 1).drop_last() =~= entries@.take(i as int));
            assert(unlink_events(r@) =~= stale_events(
                entries@.take(i + 1),
                next,
            ));
            flags = next;
        }
        i += 1;
    }
    proof {
        assert(entries@.take(i as int) =~= entries@);
        assert(stale_flags(*disk, entries@, object, parent, name@, flags));
    }
    r
}

// ----- subtrees -------------------------------------------------------------

/// A subtree that was read as far as the budget goes.
pub open spec fn expanded(m: PathTranslationModel, x: Expansion, listing: Listing) -> (
    PathTranslationModel,
    Expansion,
) {
    let (y, after) = crate::fsevents_apply::expanded(m, x, listing);
    (after, y)
}

pub open spec fn all_expanded(m: PathTranslationModel, listings: Seq<Listing>) -> (
    PathTranslationModel,
    Expansion,
)
    decreases listings.len(),
{
    if listings.len() == 0 {
        (m, Expansion { budget: MAX_EXPANDED_ENTRIES, overflowed: false })
    } else {
        let (before, x) = all_expanded(m, listings.drop_last());
        expanded(before, x, listings.last())
    }
}

/// A subtree read as a whole; one that is too large asks for a rescan.
pub open spec fn subtree_linked(m: PathTranslationModel, listings: Seq<Listing>) -> PathTranslationModel {
    let (after, x) = all_expanded(m, listings);
    after.with_stats(
        TranslateStats { needs_rescan: after.stats.needs_rescan || x.overflowed, ..after.stats },
    )
}

proof fn lemma_child_links_len(parent: NativeKey, children: Seq<RawEntry>)
    ensures
        child_links(parent, children).len() <= children.len(),
    decreases children.len(),
{
    if children.len() > 0 {
        lemma_child_links_len(parent, children.drop_last());
    }
}

/// What the counters can have grown to.
spec fn grown(a: TranslateStats, b: TranslateStats, snapshots: int, n: int) -> bool {
    &&& b.paths == a.paths
    &&& b.snapshots <= a.snapshots + snapshots
    &&& b.removed <= a.removed + n
    &&& b.relinked <= a.relinked + n
    &&& b.expanded_directories <= a.expanded_directories + n
    &&& b.out_of_scope <= a.out_of_scope + n
    &&& b.io_errors <= a.io_errors + n
    &&& b.retryable_errors <= a.retryable_errors + n
}

fn expand_directory(t: &mut PathTranslation, listings: &Vec<Listing>)
    requires
        listings.len() <= MAX_LISTINGS,
        old(t)@.stats.has_room((MAX_LISTINGS + MAX_EXPANDED_ENTRIES + 1) as nat),
    ensures
        final(t)@ == subtree_linked(old(t)@, listings@),
        grown(
            old(t)@.stats,
            final(t)@.stats,
            MAX_EXPANDED_ENTRIES as int,
            listings@.len() as int,
        ),
{
    let ghost m = t@;
    let mut x = PathTranslation::begin_expansion();
    let mut i: usize = 0;
    assert(listings@.take(0) =~= Seq::<Listing>::empty());
    while i < listings.len()
        invariant
            0 <= i <= listings.len() <= MAX_LISTINGS,
            m.stats.has_room((MAX_LISTINGS + MAX_EXPANDED_ENTRIES + 1) as nat),
            (t@, x) == all_expanded(m, listings@.take(i as int)),
            x.budget <= MAX_EXPANDED_ENTRIES,
            grown(m.stats, t@.stats, MAX_EXPANDED_ENTRIES - x.budget, i as int),
            t@.stats.needs_rescan == m.stats.needs_rescan,
        decreases listings.len() - i,
    {
        proof {
            assert(listings@.take(i + 1).drop_last() =~= listings@.take(i as int));
            if let Listing::Entries { parent: Some(p), children } = listings@[i as int] {
                let n = if children@.len() <= x.budget {
                    children@.len() as int
                } else {
                    x.budget as int
                };
                lemma_child_links_len(p, children@.take(n));
            }
        }
        x = t.expand(x, &listings[i]);
        i += 1;
    }
    assert(listings@.take(i as int) =~= listings@);
    t.end_expansion(x);
}

// ----- one path -------------------------------------------------------------

pub open spec fn skipped(m: PathTranslationModel) -> PathTranslationModel {
    m.with_stats(TranslateStats { out_of_scope: (m.stats.out_of_scope + 1) as u64, ..m.stats })
}

pub open spec fn unidentified(m: PathTranslationModel) -> PathTranslationModel {
    m.with_stats(TranslateStats { io_errors: (m.stats.io_errors + 1) as u64, ..m.stats })
}

/// An existing path linked where it is, and unlinked from where it was.
pub open spec fn placed(
    m: PathTranslationModel,
    parent: NativeKey,
    entry: RawEntry,
    object: ObjectSnapshot,
    stale: Seq<EventModel>,
) -> PathTranslationModel {
    PathTranslationModel {
        events: (m.events + stale).push(
            EventModel::Link { parent, name: entry.name@, snapshot: object },
        ),
        batch_dirs: if entry.kind == ObjectKind::Directory {
            m.batch_dirs.insert(object.native)
        } else {
            m.batch_dirs
        },
        relinked: m.relinked.insert(object.native),
        stats: TranslateStats {
            relinked: if stale.len() > 0 {
                (m.stats.relinked + 1) as u64
            } else {
                m.stats.relinked
            },
            snapshots: (m.stats.snapshots + 1) as u64,
            ..m.stats
        },
    }
}

/// A directory is in scope if this batch links it, or the catalog knows it.
pub open spec fn scope_is<K: Fn(NativeKey) -> bool>(
    known: K,
    m: PathTranslationModel,
    dir: NativeKey,
    yes: bool,
) -> bool {
    if m.batch_dirs.contains(dir) {
        yes
    } else {
        call_ensures(known, (dir,), yes)
    }
}

/// What became of an existing path whose directory is in scope.
pub open spec fn object_settled<
    T,
    K: Fn(NativeKey) -> bool,
    N: Fn(NativeKey) -> Vec<CatalogEntry>,
    D: Fn(&CatalogEntry) -> (EntryLookup, Option<bool>),
    W: Fn(&PathParts) -> Vec<Listing>,
    G,
>(
    ask: PathLookups<T, K, N, D, W, G>,
    m: PathTranslationModel,
    p: Seq<Seq<char>>,
    entry: RawEntry,
    parent: NativeKey,
    after: PathTranslationModel,
) -> bool {
    match entry_object(entry) {
        None => after == unidentified(m),
        Some(object) => exists|known: bool, entries: Vec<CatalogEntry>, flags: Seq<bool>|
            {
                &&& #[trigger] call_ensures(ask.known, (object.native,), known)
                &&& #[trigger] call_ensures(ask.entries, (object.native,), entries)
                &&& #[trigger] stale_flags(
                    ask.disk,
                    entries@,
                    object.native,
                    parent,
                    entry.name@,
                    flags,
                )
                &&& ({
                    let now = placed(m, parent, entry, object, stale_events(entries@, flags));
                    if entry.kind == ObjectKind::Directory && !known {
                        subtree_settled(ask.subtree, now, p, after)
                    } else {
                        after == now
                    }
                })
            },
    }
}

/// A directory that the catalog has never seen may have arrived with its whole
/// subtree; nothing inside it generated a notification of its own.
pub open spec fn subtree_settled<W: Fn(&PathParts) -> Vec<Listing>>(
    subtree: W,
    m: PathTranslationModel,
    p: Seq<Seq<char>>,
    after: PathTranslationModel,
) -> bool {
    exists|q: &PathParts, listings: Vec<Listing>| #[trigger]
        call_ensures(subtree, (q,), listings) && q@ == p && after == subtree_linked(m, listings@)
}

/// What became of a path that exists.
pub open spec fn present_settled<
    T: Fn(&PathParts) -> Result<RawEntry, ReadFailure>,
    K: Fn(NativeKey) -> bool,
    N: Fn(NativeKey) -> Vec<CatalogEntry>,
    D: Fn(&CatalogEntry) -> (EntryLookup, Option<bool>),
    W: Fn(&PathParts) -> Vec<Listing>,
    G,
>(
    ask: PathLookups<T, K, N, D, W, G>,
    m: PathTranslationModel,
    p: Seq<Seq<char>>,
    entry: RawEntry,
    after: PathTranslationModel,
) -> bool {
    exists|key: Option<NativeKey>| #[trigger]
        key_is(ask.stat, parent_path(p), key) && match key {
            None => after == skipped(m),
            Some(parent) => exists|yes: bool| #[trigger]
                scope_is(ask.known, m, parent, yes) && if yes {
                    object_settled(ask, m, p, entry, parent, after)
                } else {
                    after == skipped(m)
                },
        }
}

/// What became of a notification in the first pass: whether the path is gone
/// is settled once every existing path was looked at.
pub open spec fn path_settled<
    T: Fn(&PathParts) -> Result<RawEntry, ReadFailure>,
    K: Fn(NativeKey) -> bool,
    N: Fn(NativeKey) -> Vec<CatalogEntry>,
    D: Fn(&CatalogEntry) -> (EntryLookup, Option<bool>),
    W: Fn(&PathParts) -> Vec<Listing>,
    G,
>(
    ask: PathLookups<T, K, N, D, W, G>,
    m: PathTranslationModel,
    p: Seq<Seq<char>>,
    gone: bool,
    after: PathTranslationModel,
) -> bool {
    exists|r: Result<RawEntry, ReadFailure>| #[trigger]
        stat_is(ask.stat, p, r) && match r {
            Ok(entry) => !gone && present_settled(ask, m, p, entry, after),
            Err(failure) => gone == (failure.kind == ScanErrorKind::NotFound) && after == (
            if gone {
                m
            } else if failure.retryable {
                m.with_stats(
                    TranslateStats {
                        retryable_errors: (m.stats.retryable_errors + 1) as u64,
                        ..m.stats
                    },
                )
            } else {
                unidentified(m)
            }),
        }
}

/// What became of a path that is gone.
pub open spec fn absent_settled<
    T: Fn(&PathParts) -> Result<RawEntry, ReadFailure>,
    K,
    N,
    D,
    W,
    G: Fn(&PathParts) -> Option<(NativeKey, bool)>,
>(
    ask: PathLookups<T, K, N, D, W, G>,
    m: PathTranslationModel,
    p: Seq<Seq<char>>,
    after: PathTranslationModel,
) -> bool {
    exists|q: &PathParts, object: Option<(NativeKey, bool)>| #[trigger]
        call_ensures(ask.resolve, (q,), object) && q@ == p && {
            let left = removed(m, object);
            if object matches Some((native, directory)) && !m.relinked.contains(native)
                && !directory {
                exists|key: Option<NativeKey>| #[trigger]
                    key_is(ask.stat, parent_path(p), key) && after == (match key {
                        Some(parent) => left.with_event(
                            EventModel::Unlink { parent, name: p.last() },
                        ),
                        None => left,
                    })
            } else {
                after == left
            }
        }
}

/// Every question may be asked, and no subtree is larger than can be counted.
pub open spec fn answerable<
    T: Fn(&PathParts) -> Result<RawEntry, ReadFailure>,
    K: Fn(NativeKey) -> bool,
    N: Fn(NativeKey) -> Vec<CatalogEntry>,
    D: Fn(&CatalogEntry) -> (EntryLookup, Option<bool>),
    W: Fn(&PathParts) -> Vec<Listing>,
    G: Fn(&PathParts) -> Option<(NativeKey, bool)>,
>(ask: PathLookups<T, K, N, D, W, G>) -> bool {
    &&& forall|p: &PathParts| call_requires(ask.stat, (p,))
    &&& forall|k: NativeKey| call_requires(ask.known, (k,))
    &&& forall|k: NativeKey| call_requires(ask.entries, (k,))
    &&& forall|e: &CatalogEntry| call_requires(ask.disk, (e,))
    &&& forall|p: &PathParts| call_requires(ask.subtree, (p,))
    &&& forall|p: &PathParts| call_requires(ask.resolve, (p,))
    &&& forall|p: &PathParts, v: Vec<Listing>| #[trigger]
        call_ensures(ask.subtree, (p,), v) ==> v@.len() <= MAX_LISTINGS
}

/// One notification for a path that still exists.
fn present<
    T: Fn(&PathParts) -> Result<RawEntry, ReadFailure>,
    K: Fn(NativeKey) -> bool,
    N: Fn(NativeKey) -> Vec<CatalogEntry>,
    D: Fn(&CatalogEntry) -> (EntryLookup, Option<bool>),
    W: Fn(&PathParts) -> Vec<Listing>,
    G: Fn(&PathParts) -> Option<(NativeKey, bool)>,
>(t: &mut PathTranslation, ask: &PathLookups<T, K, N, D, W, G>, p: &PathParts, entry: RawEntry)
    requires
        answerable(*ask),
        p.parts.len() > 0,
        old(t)@.stats.has_room((MAX_LISTINGS + MAX_EXPANDED_ENTRIES + 2) as nat),
    ensures
        present_settled(*ask, old(t)@, p@, entry, final(t)@),
        grown(
            old(t)@.stats,
            final(t)@.stats,
            MAX_EXPANDED_ENTRIES + 1,
            MAX_LISTINGS + 1,
        ),
{
    let ghost m = t@;
    let dir = parent_of(p);
    let key = key_of(&ask.stat, &dir);
    let known_dir: bool = match key {
        None => false,
        Some(k) => if t.creates(k) {
            true
        } else {
            (ask.known)(k)
        },
    };
    assert(key matches Some(k) ==> scope_is(ask.known, m, k, known_dir));
    if !t.attaches(key, known_dir) {
        return;
    }
    let parent = match key {
        Some(k) => k,
        None => {
            return;
        },
    };
    let object = match t.identify(&entry) {
        None => {
            assert(object_settled(*ask, m, p@, entry, parent, t@));
            return;
        },
        Some(o) => o,
    };
    let known = (ask.known)(object.native);
    let entries = (ask.entries)(object.native);
    let stale = stale_names(&ask.disk, &entries, object.native, parent, &entry.name);
    let ghost flags = choose|flags: Seq<bool>| #[trigger]
        stale_flags(ask.disk, entries@, object.native, parent, entry.name@, flags)
            && unlink_events(stale@) == stale_events(entries@, flags);
    let expand = t.link(parent, &entry, object, &stale, known);
    let ghost now = placed(m, parent, entry, object, stale_events(entries@, flags));
    proof {
        assert(unlink_events(stale@).len() == stale@.len());
        assert(t@ == now);
        assert(call_ensures(ask.known, (object.native,), known));
        assert(call_ensures(ask.entries, (object.native,), entries));
        assert(stale_flags(ask.disk, entries@, object.native, parent, entry.name@, flags));
    }
    if expand {
        let listings = (ask.subtree)(p);
        assert(call_ensures(ask.subtree, (p,), listings));
        expand_directory(t, &listings);
        assert(subtree_settled(ask.subtree, now, p@, t@));
    }
    assert(object_settled(*ask, m, p@, entry, parent, t@));
}

/// One notification for a path that no longer exists.
fn absent<
    T: Fn(&PathParts) -> Result<RawEntry, ReadFailure>,
    K: Fn(NativeKey) -> bool,
    N: Fn(NativeKey) -> Vec<CatalogEntry>,
    D: Fn(&CatalogEntry) -> (EntryLookup, Option<bool>),
    W: Fn(&PathParts) -> Vec<Listing>,
    G: Fn(&PathParts) -> Option<(NativeKey, bool)>,
>(t: &mut PathTranslation, ask: &PathLookups<T, K, N, D, W, G>, p: &PathParts)
    requires
        answerable(*ask),
        p.parts.len() > 0,
        old(t)@.stats.has_room(1),
    ensures
        absent_settled(*ask, old(t)@, p@, final(t)@),
        grown(old(t)@.stats, final(t)@.stats, 0, 1),
{
    let ghost m = t@;
    let object = (ask.resolve)(p);
    assert(call_ensures(ask.resolve, (p,), object));
    if t.remove(object) {
        let dir = parent_of(p);
        let key = key_of(&ask.stat, &dir);
        let last: usize = p.parts.len() - 1;
        assert(p@.last() == p.parts@[last as int]@);
        t.unlink_gone(key, &p.parts[last]);
    }
}

// ----- laws of one path -----------------------------------------------------

/// The identity at a path is that of the entry that is read there, and none
/// where none can be read.
pub proof fn law_the_identity_at_a_path_is_what_is_read<
    T: Fn(&PathParts) -> Result<RawEntry, ReadFailure>,
>(stat: T, p: Seq<Seq<char>>, key: Option<NativeKey>, answer: Result<RawEntry, ReadFailure>)
    requires
        key_is(stat, p, key),
        forall|r: Result<RawEntry, ReadFailure>| #[trigger] stat_is(stat, p, r) ==> r == answer,
    ensures
        answer matches Ok(e) ==> key == e.native_id,
        answer is Err ==> key is None,
{
}

/// A name is stale exactly if it stands elsewhere than where the object was
/// found and the disk disproves it; the name where the object was found, and one
/// whose directory the catalog does not know, never is.
pub proof fn law_a_name_is_stale_only_on_proof<D: Fn(&CatalogEntry) -> (EntryLookup, Option<bool>)>(
    disk: D,
    e: CatalogEntry,
    object: NativeKey,
    parent: NativeKey,
    name: Seq<char>,
    stale: bool,
    answer: (EntryLookup, Option<bool>),
)
    requires
        stale_is(disk, e, object, parent, name, stale),
        forall|found: (EntryLookup, Option<bool>)| #[trigger]
            call_ensures(disk, (&e,), found) ==> found == answer,
    ensures
        e.parent is None ==> !stale,
        e.parent == Some(parent) && e.name@ == name ==> !stale,
        e.parent is Some && !(e.parent == Some(parent) && e.name@ == name) ==> (stale <==> {
            ||| answer.0 == EntryLookup::Missing
            ||| answer.0 matches EntryLookup::Found(other) && other != object
            ||| answer.0 == EntryLookup::Found(object) && answer.1 == Some(false)
        }),
{
}

/// A path out of scope and one without an identity are counted, once each, and
/// change nothing.
pub proof fn law_what_is_left_out_is_counted(m: PathTranslationModel)
    requires
        m.stats.has_room(1),
    ensures
        skipped(m).stats.out_of_scope == m.stats.out_of_scope + 1,
        skipped(m).stats.io_errors == m.stats.io_errors,
        unidentified(m).stats.io_errors == m.stats.io_errors + 1,
        unidentified(m).stats.out_of_scope == m.stats.out_of_scope,
        skipped(m).events == m.events && unidentified(m).events == m.events,
        skipped(m).relinked == m.relinked && unidentified(m).relinked == m.relinked,
        skipped(m).batch_dirs == m.batch_dirs && unidentified(m).batch_dirs == m.batch_dirs,
        !skipped(m).stats.needs_rescan <==> !m.stats.needs_rescan,
{
}

/// Exactly the entries found stale are unlinked, in order, each by its own
/// directory and name.
pub proof fn law_stale_entries_are_unlinked(entries: Seq<CatalogEntry>, flags: Seq<bool>)
    requires
        entries.len() == flags.len(),
    ensures
        exists|pick: Seq<int>|
            {
                &&& #[trigger] rising(pick)
                &&& picks(pick, entries.len() as int, |i: int| flags[i])
                &&& stale_events(entries, flags).len() == pick.len()
                &&& forall|a: int|
                    0 <= a < pick.len() ==> #[trigger] stale_events(entries, flags)[a] == (
                    EventModel::Unlink {
                        parent: entries[pick[a]].parent->0,
                        name: entries[pick[a]].name@,
                    })
            },
    decreases entries.len(),
{
    let stale = |i: int| flags[i];
    if entries.len() == 0 {
        lemma_picks_none(stale);
        assert(rising(Seq::<int>::empty()));
    } else {
        let fewer = flags.drop_last();
        let init = entries.drop_last();
        let n = init.len() as int;
        law_stale_entries_are_unlinked(init, fewer);
        let before = choose|pick: Seq<int>|
            {
                &&& #[trigger] rising(pick)
                &&& picks(pick, init.len() as int, |i: int| fewer[i])
                &&& stale_events(init, fewer).len() == pick.len()
                &&& forall|a: int|
                    0 <= a < pick.len() ==> #[trigger] stale_events(init, fewer)[a] == (
                    EventModel::Unlink {
                        parent: init[pick[a]].parent->0,
                        name: init[pick[a]].name@,
                    })
            };
        let old = |i: int| fewer[i];
        assert(picks(before, n, old));
        assert(picks(before, n, stale)) by {
            assert forall|a: int| 0 <= a < before.len() implies 0 <= #[trigger] before[a] < n
                && stale(before[a]) by {
                assert(old(before[a]));
            }
            assert forall|i: int| 0 <= i < n && #[trigger] stale(i) implies before.contains(i) by {
                assert(old(i));
            }
        }
        lemma_picks_next(before, n, stale);
        let pick = if stale(n) {
            before.push(n)
        } else {
            before
        };
        assert(rising(pick));
    }
}

proof fn lemma_names_stale(
    names: Names,
    entries: Seq<CatalogEntry>,
    flags: Seq<bool>,
    at: (NativeKey, Seq<char>),
)
    requires
        entries.len() == flags.len(),
        forall|i: int| 0 <= i < flags.len() && #[trigger] flags[i] ==> entries[i].parent is Some,
    ensures
        ({
            let after = names_after_all(names, stale_events(entries, flags));
            let gone = exists|i: int|
                0 <= i < entries.len() && (#[trigger] entries[i]).parent == Some(at.0)
                    && entries[i].name@ == at.1 && flags[i];
            &&& after.dom().contains(at) == (names.dom().contains(at) && !gone)
            &&& after.dom().contains(at) ==> after[at] == names[at]
        }),
    decreases entries.len(),
{
    if entries.len() > 0 {
        let init = entries.drop_last();
        let fewer = flags.drop_last();
        let n = init.len() as int;
        assert forall|i: int| 0 <= i < fewer.len() && #[trigger] fewer[i] implies init[i].parent
            is Some by {
            assert(flags[i]);
        }
        lemma_names_stale(names, init, fewer, at);
        let events = stale_events(entries, flags);
        let last = entries[n].parent == Some(at.0) && entries[n].name@ == at.1 && flags[n];
        if flags[n] {
            assert(entries[n].parent is Some);
            assert(events.drop_last() =~= stale_events(init, fewer));
            assert((at == (entries[n].parent->0, entries[n].name@)) == last);
        }
        if exists|i: int|
            0 <= i < init.len() && (#[trigger] init[i]).parent == Some(at.0) && init[i].name@ == at.1
                && fewer[i] {
            let i = choose|i: int|
                0 <= i < init.len() && (#[trigger] init[i]).parent == Some(at.0) && init[i].name@
                    == at.1 && fewer[i];
            assert(entries[i] == init[i] && flags[i]);
        }
        if !last && exists|i: int|
            0 <= i < entries.len() && (#[trigger] entries[i]).parent == Some(at.0)
                && entries[i].name@ == at.1 && flags[i] {
            let i = choose|i: int|
                0 <= i < entries.len() && (#[trigger] entries[i]).parent == Some(at.0)
                    && entries[i].name@ == at.1 && flags[i];
            assert(init[i] == entries[i] && fewer[i]);
        }
    }
}

/// A moved object stands, once its change is applied, where it was found, and
/// under none of the names that proved stale; every other name stays, another
/// hard link of it among them.
pub proof fn law_a_move_keeps_what_is_not_stale(
    m: PathTranslationModel,
    parent: NativeKey,
    entry: RawEntry,
    object: ObjectSnapshot,
    entries: Seq<CatalogEntry>,
    flags: Seq<bool>,
    names: Names,
    at: (NativeKey, Seq<char>),
)
    requires
        entries.len() == flags.len(),
        forall|i: int| 0 <= i < flags.len() && #[trigger] flags[i] ==> entries[i].parent is Some,
    ensures
        ({
            let r = placed(m, parent, entry, object, stale_events(entries, flags));
            let after = names_after_all(names, r.events.skip(m.events.len() as int));
            let here = at.0 == parent && at.1 == entry.name@;
            let stale = exists|i: int|
                0 <= i < entries.len() && (#[trigger] entries[i]).parent == Some(at.0)
                    && entries[i].name@ == at.1 && flags[i];
            &&& r.events.take(m.events.len() as int) == m.events
            &&& here ==> after.dom().contains(at) && after[at] == object.native
            &&& !here && stale ==> !after.dom().contains(at)
            &&& !here && !stale ==> after.dom().contains(at) == names.dom().contains(at) && (
            names.dom().contains(at) ==> after[at] == names[at])
            &&& r.relinked == m.relinked.insert(object.native)
            &&& r.batch_dirs.contains(object.native) <==> m.batch_dirs.contains(object.native)
                || entry.kind == ObjectKind::Directory
        }),
{
    let events = stale_events(entries, flags);
    let r = placed(m, parent, entry, object, events);
    let added = r.events.skip(m.events.len() as int);
    assert(r.events.take(m.events.len() as int) =~= m.events);
    assert(added.drop_last() =~= events);
    assert(added.last() == (EventModel::Link { parent, name: entry.name@, snapshot: object }));
    lemma_names_stale(names, entries, flags, at);
    assert((at == (parent, entry.name@)) == (at.0 == parent && at.1 == entry.name@));
}

proof fn lemma_expansion_grows(m: PathTranslationModel, x: Expansion, listing: Listing)
    ensures
        expanded(m, x, listing).0.events.len() >= m.events.len(),
        expanded(m, x, listing).0.events.take(m.events.len() as int) == m.events,
        x.overflowed ==> expanded(m, x, listing).1.overflowed,
{
    let r = expanded(m, x, listing).0;
    assert(r.events.take(m.events.len() as int) =~= m.events);
}

/// A subtree that is not too large is linked as a whole: every child with an
/// identity of every directory that was listed is linked under that directory;
/// one that is too large asks for a rescan, and only that does.
pub proof fn law_a_whole_subtree_is_linked(
    m: PathTranslationModel,
    listings: Seq<Listing>,
    k: int,
    parent: NativeKey,
    children: Vec<RawEntry>,
    i: int,
)
    requires
        0 <= k < listings.len(),
        listings[k] == (Listing::Entries { parent: Some(parent), children }),
        0 <= i < children@.len(),
        children@[i].native_id is Some,
        !m.stats.needs_rescan,
    ensures
        ({
            let r = subtree_linked(m, listings);
            &&& r.stats.needs_rescan <==> all_expanded(m, listings).1.overflowed
            &&& !r.stats.needs_rescan ==> exists|j: int|
                {
                    &&& m.events.len() <= j < r.events.len()
                    &&& (#[trigger] r.events[j]) matches EventModel::Link {
                        parent: at,
                        name,
                        snapshot,
                    }
                    &&& at == parent
                    &&& name == children@[i].name@
                    &&& Some(snapshot.native) == children@[i].native_id
                }
        }),
{
    lemma_rescan_kept(m, listings);
    if !all_expanded(m, listings).1.overflowed {
        lemma_whole_subtree(m, listings, k, parent, children, i);
    }
}

proof fn lemma_rescan_kept(m: PathTranslationModel, listings: Seq<Listing>)
    ensures
        all_expanded(m, listings).0.stats.needs_rescan == m.stats.needs_rescan,
        all_expanded(m, listings).0.events.len() >= m.events.len(),
        all_expanded(m, listings).0.events.take(m.events.len() as int) == m.events,
    decreases listings.len(),
{
    if listings.len() > 0 {
        lemma_rescan_kept(m, listings.drop_last());
        let (before, x) = all_expanded(m, listings.drop_last());
        lemma_expansion_grows(before, x, listings.last());
        let after = expanded(before, x, listings.last()).0;
        assert(after.events.take(m.events.len() as int) =~= before.events.take(
            m.events.len() as int,
        )) by {
            assert forall|j: int| 0 <= j < m.events.len() implies after.events[j]
                == before.events[j] by {
                assert(after.events.take(before.events.len() as int)[j] == before.events[j]);
            }
        }
    } else {
        assert(m.events.take(m.events.len() as int) =~= m.events);
    }
}

proof fn lemma_whole_subtree(
    m: PathTranslationModel,
    listings: Seq<Listing>,
    k: int,
    parent: NativeKey,
    children: Vec<RawEntry>,
    i: int,
)
    requires
        0 <= k < listings.len(),
        listings[k] == (Listing::Entries { parent: Some(parent), children }),
        0 <= i < children@.len(),
        children@[i].native_id is Some,
        !all_expanded(m, listings).1.overflowed,
    ensures
        ({
            let r = all_expanded(m, listings).0;
            exists|j: int|
                {
                    &&& m.events.len() <= j < r.events.len()
                    &&& (#[trigger] r.events[j]) matches EventModel::Link {
                        parent: at,
                        name,
                        snapshot,
                    }
                    &&& at == parent
                    &&& name == children@[i].name@
                    &&& Some(snapshot.native) == children@[i].native_id
                }
        }),
    decreases listings.len(),
{
    let init = listings.drop_last();
    let (before, x) = all_expanded(m, init);
    let r = all_expanded(m, listings).0;
    lemma_rescan_kept(m, init);
    lemma_expansion_grows(before, x, listings.last());
    if k < init.len() {
        assert(init[k] == listings[k]);
        lemma_whole_subtree(m, init, k, parent, children, i);
        let j = choose|j: int|
            {
                &&& m.events.len() <= j < before.events.len()
                &&& (#[trigger] before.events[j]) matches EventModel::Link {
                    parent: at,
                    name,
                    snapshot,
                }
                &&& at == parent
                &&& name == children@[i].name@
                &&& Some(snapshot.native) == children@[i].native_id
            };
        assert(r.events.take(before.events.len() as int)[j] == before.events[j]);
        assert(r.events[j] == before.events[j]);
    } else {
        let taken = children@.take(children@.len() as int);
        assert(taken =~= children@);
        let pick = lemma_child_links(parent, children@);
        let named = |a: int| children@[a].native_id is Some;
        assert(picks(pick, children@.len() as int, named));
        assert(named(i));
        let a = pick.index_of(i);
        assert(child_links(parent, children@)[a] == r.events[before.events.len() + a]);
    }
}

/// A path that exists, whose directory is linked by this batch, and that has an
/// identity, is linked under its directory, its own name and its identity.
pub proof fn law_an_existing_path_is_linked<
    T: Fn(&PathParts) -> Result<RawEntry, ReadFailure>,
    K: Fn(NativeKey) -> bool,
    N: Fn(NativeKey) -> Vec<CatalogEntry>,
    D: Fn(&CatalogEntry) -> (EntryLookup, Option<bool>),
    W: Fn(&PathParts) -> Vec<Listing>,
    G,
>(
    ask: PathLookups<T, K, N, D, W, G>,
    m: PathTranslationModel,
    p: Seq<Seq<char>>,
    gone: bool,
    after: PathTranslationModel,
    e: RawEntry,
    parent: NativeKey,
)
    requires
        path_settled(ask, m, p, gone, after),
        forall|r: Result<RawEntry, ReadFailure>| #[trigger]
            stat_is(ask.stat, p, r) ==> r == Ok::<RawEntry, ReadFailure>(e),
        e.native_id is Some,
        forall|key: Option<NativeKey>| #[trigger]
            key_is(ask.stat, p.drop_last(), key) ==> key == Some(parent),
        m.batch_dirs.contains(parent),
    ensures
        !gone,
        exists|j: int|
            {
                &&& m.events.len() <= j < after.events.len()
                &&& (#[trigger] after.events[j]) matches EventModel::Link {
                    parent: at,
                    name,
                    snapshot,
                }
                &&& at == parent
                &&& name == e.name@
                &&& Some(snapshot.native) == e.native_id
            },
{
    let object = entry_object(e)->0;
    let (known, entries, flags) = choose|
        known: bool,
        entries: Vec<CatalogEntry>,
        flags: Seq<bool>,
    |
        {
            &&& #[trigger] call_ensures(ask.known, (object.native,), known)
            &&& #[trigger] call_ensures(ask.entries, (object.native,), entries)
            &&& #[trigger] stale_flags(
                ask.disk,
                entries@,
                object.native,
                parent,
                e.name@,
                flags,
            )
            &&& ({
                let now = placed(m, parent, e, object, stale_events(entries@, flags));
                if e.kind == ObjectKind::Directory && !known {
                    subtree_settled(ask.subtree, now, p, after)
                } else {
                    after == now
                }
            })
        };
    let now = placed(m, parent, e, object, stale_events(entries@, flags));
    let j = now.events.len() - 1;
    assert(now.events[j] == (EventModel::Link { parent, name: e.name@, snapshot: object }));
    if e.kind == ObjectKind::Directory && !known {
        let (q, listings) = choose|q: &PathParts, listings: Vec<Listing>| #[trigger]
            call_ensures(ask.subtree, (q,), listings) && q@ == p && after == subtree_linked(
                now,
                listings@,
            );
        lemma_rescan_kept(now, listings@);
        assert(after.events.take(now.events.len() as int)[j] == now.events[j]);
        assert(after.events[j] == now.events[j]);
    }
}

/// A path that may be readable later is not gone, changes nothing, and holds
/// the batch back.
pub proof fn law_a_doubtful_path_is_retried<
    T: Fn(&PathParts) -> Result<RawEntry, ReadFailure>,
    K: Fn(NativeKey) -> bool,
    N: Fn(NativeKey) -> Vec<CatalogEntry>,
    D: Fn(&CatalogEntry) -> (EntryLookup, Option<bool>),
    W: Fn(&PathParts) -> Vec<Listing>,
    G,
>(
    ask: PathLookups<T, K, N, D, W, G>,
    m: PathTranslationModel,
    p: Seq<Seq<char>>,
    gone: bool,
    after: PathTranslationModel,
    f: ReadFailure,
)
    requires
        path_settled(ask, m, p, gone, after),
        forall|r: Result<RawEntry, ReadFailure>| #[trigger]
            stat_is(ask.stat, p, r) ==> r == Err::<RawEntry, ReadFailure>(f),
        m.stats.has_room(1),
    ensures
        gone <==> f.kind == ScanErrorKind::NotFound,
        after.events == m.events,
        f.retryable && !gone ==> after.stats.retryable_errors == m.stats.retryable_errors + 1,
        !f.retryable && !gone ==> after.stats.io_errors == m.stats.io_errors + 1,
        gone ==> after == m,
{
}

/// A path that is gone: a file is unlinked where it was, a directory is
/// deleted, and what this batch found living elsewhere is left alone.
pub proof fn law_a_gone_path_is_taken_away<
    T: Fn(&PathParts) -> Result<RawEntry, ReadFailure>,
    K,
    N,
    D,
    W,
    G: Fn(&PathParts) -> Option<(NativeKey, bool)>,
>(
    ask: PathLookups<T, K, N, D, W, G>,
    m: PathTranslationModel,
    p: Seq<Seq<char>>,
    after: PathTranslationModel,
    native: NativeKey,
    directory: bool,
    parent: NativeKey,
)
    requires
        p.len() > 0,
        absent_settled(ask, m, p, after),
        forall|q: &PathParts, object: Option<(NativeKey, bool)>| #[trigger]
            call_ensures(ask.resolve, (q,), object) && q@ == p ==> object == Some(
                (native, directory),
            ),
        forall|key: Option<NativeKey>| #[trigger]
            key_is(ask.stat, p.drop_last(), key) ==> key == Some(parent),
    ensures
        m.relinked.contains(native) ==> after == m,
        !m.relinked.contains(native) && directory ==> after.events == m.events.push(
            EventModel::Delete { object: native },
        ),
        !m.relinked.contains(native) && !directory ==> after.events == m.events.push(
            EventModel::Unlink { parent, name: p[p.len() - 1] },
        ),
{
}

// ----- a batch --------------------------------------------------------------

/// The first pass: each path leads from one state to the next, until one asks
/// for a rescan.
pub open spec fn first_pass<
    T: Fn(&PathParts) -> Result<RawEntry, ReadFailure>,
    K: Fn(NativeKey) -> bool,
    N: Fn(NativeKey) -> Vec<CatalogEntry>,
    D: Fn(&CatalogEntry) -> (EntryLookup, Option<bool>),
    W: Fn(&PathParts) -> Vec<Listing>,
    G,
>(
    ask: PathLookups<T, K, N, D, W, G>,
    start: PathTranslationModel,
    paths: Seq<Seq<Seq<char>>>,
    states: Seq<PathTranslationModel>,
    gone: Seq<bool>,
) -> bool {
    &&& 1 <= states.len() <= paths.len() + 1
    &&& gone.len() == states.len() - 1
    &&& states[0] == start
    &&& forall|i: int|
        0 <= i < gone.len() ==> path_settled(
            ask,
            states[i],
            paths[i],
            #[trigger] gone[i],
            states[i + 1],
        )
    &&& forall|i: int|
        0 <= i < states.len() - 1 ==> !(#[trigger] states[i]).stats.needs_rescan
    &&& states.len() < paths.len() + 1 ==> states.last().stats.needs_rescan
}

/// The paths that were gone, in order.
pub open spec fn gone_paths(paths: Seq<Seq<Seq<char>>>, gone: Seq<bool>) -> Seq<Seq<Seq<char>>>
    decreases gone.len(),
{
    if gone.len() == 0 {
        Seq::empty()
    } else {
        let init = gone_paths(paths, gone.drop_last());
        if gone.last() {
            init.push(paths[gone.len() - 1])
        } else {
            init
        }
    }
}

/// Exactly the paths that were gone come to the second pass, in order.
pub proof fn law_gone_paths_are_looked_at_last(paths: Seq<Seq<Seq<char>>>, gone: Seq<bool>)
    requires
        gone.len() <= paths.len(),
    ensures
        exists|pick: Seq<int>|
            {
                &&& #[trigger] rising(pick)
                &&& picks(pick, gone.len() as int, |i: int| gone[i])
                &&& gone_paths(paths, gone).len() == pick.len()
                &&& forall|a: int|
                    0 <= a < pick.len() ==> #[trigger] gone_paths(paths, gone)[a] == paths[pick[a]]
            },
    decreases gone.len(),
{
    let lost = |i: int| gone[i];
    if gone.len() == 0 {
        lemma_picks_none(lost);
        assert(rising(Seq::<int>::empty()));
    } else {
        let fewer = gone.drop_last();
        let n = fewer.len() as int;
        law_gone_paths_are_looked_at_last(paths, fewer);
        let before = choose|pick: Seq<int>|
            {
                &&& #[trigger] rising(pick)
                &&& picks(pick, fewer.len() as int, |i: int| fewer[i])
                &&& gone_paths(paths, fewer).len() == pick.len()
                &&& forall|a: int|
                    0 <= a < pick.len() ==> #[trigger] gone_paths(paths, fewer)[a] == paths[pick[a]]
            };
        let old = |i: int| fewer[i];
        assert(picks(before, n, old));
        assert(picks(before, n, lost)) by {
            assert forall|a: int| 0 <= a < before.len() implies 0 <= #[trigger] before[a] < n
                && lost(before[a]) by {
                assert(old(before[a]));
            }
            assert forall|i: int| 0 <= i < n && #[trigger] lost(i) implies before.contains(i) by {
                assert(old(i));
            }
        }
        lemma_picks_next(before, n, lost);
        let pick = if lost(n) {
            before.push(n)
        } else {
            before
        };
        assert(rising(pick));
    }
}

/// The second pass, over the paths that are gone.
pub open spec fn second_pass<
    T: Fn(&PathParts) -> Result<RawEntry, ReadFailure>,
    K,
    N,
    D,
    W,
    G: Fn(&PathParts) -> Option<(NativeKey, bool)>,
>(
    ask: PathLookups<T, K, N, D, W, G>,
    start: PathTranslationModel,
    paths: Seq<Seq<Seq<char>>>,
    states: Seq<PathTranslationModel>,
) -> bool {
    &&& states.len() == paths.len() + 1
    &&& states[0] == start
    &&& forall|i: int|
        0 <= i < paths.len() ==> absent_settled(ask, states[i], #[trigger] paths[i], states[i + 1])
}

/// The notifications of a batch in processing order: those below the root,
/// each once, shallowest first.
pub open spec fn batch_paths(
    root: Seq<Seq<char>>,
    changes: Seq<Seq<Seq<char>>>,
    paths: Seq<Seq<Seq<char>>>,
) -> bool {
    &&& in_order(paths)
    &&& forall|p: Seq<Seq<char>>| #[trigger]
        paths.contains(p) <==> changes.contains(p) && below(root, p) && p != root
}

/// What a batch is translated into.
pub open spec fn batch_settled<
    T: Fn(&PathParts) -> Result<RawEntry, ReadFailure>,
    K: Fn(NativeKey) -> bool,
    N: Fn(NativeKey) -> Vec<CatalogEntry>,
    D: Fn(&CatalogEntry) -> (EntryLookup, Option<bool>),
    W: Fn(&PathParts) -> Vec<Listing>,
    G: Fn(&PathParts) -> Option<(NativeKey, bool)>,
>(
    ask: PathLookups<T, K, N, D, W, G>,
    out_of_scope: nat,
    paths: Seq<Seq<Seq<char>>>,
    after: PathTranslationModel,
) -> bool {
    let start = PathTranslationModel {
        events: Seq::empty(),
        batch_dirs: Set::empty(),
        relinked: Set::empty(),
        stats: TranslateStats {
            paths: paths.len() as u64,
            out_of_scope: out_of_scope as u64,
            ..TranslateStats::zero()
        },
    };
    exists|states: Seq<PathTranslationModel>, gone: Seq<bool>|
        {
            &&& #[trigger] first_pass(ask, start, paths, states, gone)
            &&& if states.last().stats.needs_rescan {
                after == states.last()
            } else {
                second_settled(ask, states.last(), gone_paths(paths, gone), after)
            }
        }
}

pub open spec fn second_settled<
    T: Fn(&PathParts) -> Result<RawEntry, ReadFailure>,
    K,
    N,
    D,
    W,
    G: Fn(&PathParts) -> Option<(NativeKey, bool)>,
>(
    ask: PathLookups<T, K, N, D, W, G>,
    start: PathTranslationModel,
    paths: Seq<Seq<Seq<char>>>,
    after: PathTranslationModel,
) -> bool {
    exists|states: Seq<PathTranslationModel>| #[trigger]
        second_pass(ask, start, paths, states) && after == states.last()
}

/// What a translation deletes is not among what it found living, and it found
/// no less living than before.
spec fn spares_the_living(m: PathTranslationModel) -> bool {
    forall|j: int|
        0 <= j < m.events.len() ==> ((#[trigger] m.events[j]) matches EventModel::Delete { object }
            ==> !m.relinked.contains(object))
}

/// Nothing is deleted at all.
spec fn deletes_nothing(m: PathTranslationModel) -> bool {
    forall|j: int| 0 <= j < m.events.len() ==> !((#[trigger] m.events[j]) is Delete)
}

proof fn lemma_stale_deletes_nothing(entries: Seq<CatalogEntry>, flags: Seq<bool>)
    ensures
        forall|j: int|
            0 <= j < stale_events(entries, flags).len() ==> !((#[trigger] stale_events(
                entries,
                flags,
            )[j]) is Delete),
    decreases entries.len(),
{
    if entries.len() > 0 {
        lemma_stale_deletes_nothing(entries.drop_last(), flags.drop_last());
    }
}

proof fn lemma_expansion_deletes_nothing(m: PathTranslationModel, listings: Seq<Listing>)
    requires
        deletes_nothing(m),
    ensures
        deletes_nothing(all_expanded(m, listings).0),
    decreases listings.len(),
{
    if listings.len() > 0 {
        let (before, x) = all_expanded(m, listings.drop_last());
        lemma_expansion_deletes_nothing(m, listings.drop_last());
        let after = all_expanded(m, listings).0;
        if let Listing::Entries { parent: Some(p), children } = listings.last() {
            let n = if children@.len() <= x.budget {
                children@.len() as int
            } else {
                x.budget as int
            };
            let taken = children@.take(n);
            let pick = lemma_child_links(p, taken);
            assert forall|j: int| 0 <= j < after.events.len() implies !((#[trigger] after.events[j])
                is Delete) by {
                if j < before.events.len() {
                    assert(after.events[j] == before.events[j]);
                } else if !x.overflowed {
                    assert(after.events[j] == child_links(p, taken)[j - before.events.len()]);
                }
            }
        }
    }
}

proof fn lemma_path_deletes_nothing<
    T: Fn(&PathParts) -> Result<RawEntry, ReadFailure>,
    K: Fn(NativeKey) -> bool,
    N: Fn(NativeKey) -> Vec<CatalogEntry>,
    D: Fn(&CatalogEntry) -> (EntryLookup, Option<bool>),
    W: Fn(&PathParts) -> Vec<Listing>,
    G,
>(
    ask: PathLookups<T, K, N, D, W, G>,
    m: PathTranslationModel,
    p: Seq<Seq<char>>,
    gone: bool,
    after: PathTranslationModel,
)
    requires
        path_settled(ask, m, p, gone, after),
        deletes_nothing(m),
    ensures
        deletes_nothing(after),
{
    let r = choose|r: Result<RawEntry, ReadFailure>| #[trigger]
        stat_is(ask.stat, p, r) && match r {
            Ok(entry) => !gone && present_settled(ask, m, p, entry, after),
            Err(failure) => gone == (failure.kind == ScanErrorKind::NotFound) && after == (
            if gone {
                m
            } else if failure.retryable {
                m.with_stats(
                    TranslateStats {
                        retryable_errors: (m.stats.retryable_errors + 1) as u64,
                        ..m.stats
                    },
                )
            } else {
                unidentified(m)
            }),
        };
    if let Ok(entry) = r {
        let key = choose|key: Option<NativeKey>| #[trigger]
            key_is(ask.stat, parent_path(p), key) && match key {
                None => after == skipped(m),
                Some(parent) => exists|yes: bool| #[trigger]
                    scope_is(ask.known, m, parent, yes) && if yes {
                        object_settled(ask, m, p, entry, parent, after)
                    } else {
                        after == skipped(m)
                    },
            };
        if let Some(parent) = key {
            if object_settled(ask, m, p, entry, parent, after) {
                lemma_object_deletes_nothing(ask, m, p, entry, parent, after);
            }
        }
    }
}

proof fn lemma_object_deletes_nothing<
    T: Fn(&PathParts) -> Result<RawEntry, ReadFailure>,
    K: Fn(NativeKey) -> bool,
    N: Fn(NativeKey) -> Vec<CatalogEntry>,
    D: Fn(&CatalogEntry) -> (EntryLookup, Option<bool>),
    W: Fn(&PathParts) -> Vec<Listing>,
    G,
>(
    ask: PathLookups<T, K, N, D, W, G>,
    m: PathTranslationModel,
    p: Seq<Seq<char>>,
    entry: RawEntry,
    parent: NativeKey,
    after: PathTranslationModel,
)
    requires
        object_settled(ask, m, p, entry, parent, after),
        deletes_nothing(m),
    ensures
        deletes_nothing(after),
{
    if let Some(object) = entry_object(entry) {
        let (known, entries, flags) = choose|
            known: bool,
            entries: Vec<CatalogEntry>,
            flags: Seq<bool>,
        |
            {
                &&& #[trigger] call_ensures(ask.known, (object.native,), known)
                &&& #[trigger] call_ensures(ask.entries, (object.native,), entries)
                &&& #[trigger] stale_flags(
                    ask.disk,
                    entries@,
                    object.native,
                    parent,
                    entry.name@,
                    flags,
                )
                &&& ({
                    let now = placed(m, parent, entry, object, stale_events(entries@, flags));
                    if entry.kind == ObjectKind::Directory && !known {
                        subtree_settled(ask.subtree, now, p, after)
                    } else {
                        after == now
                    }
                })
            };
        let now = placed(m, parent, entry, object, stale_events(entries@, flags));
        lemma_stale_deletes_nothing(entries@, flags);
        assert(deletes_nothing(now)) by {
            assert forall|j: int| 0 <= j < now.events.len() implies !((#[trigger] now.events[j])
                is Delete) by {
                if j < m.events.len() {
                    assert(now.events[j] == m.events[j]);
                } else if j < now.events.len() - 1 {
                    assert(now.events[j] == stale_events(entries@, flags)[j - m.events.len()]);
                }
            }
        }
        if entry.kind == ObjectKind::Directory && !known {
            let (q, listings) = choose|q: &PathParts, listings: Vec<Listing>| #[trigger]
                call_ensures(ask.subtree, (q,), listings) && q@ == p && after == subtree_linked(
                    now,
                    listings@,
                );
            lemma_expansion_deletes_nothing(now, listings@);
            let read = all_expanded(now, listings@).0;
            assert(after.events == read.events);
            assert forall|j: int| 0 <= j < after.events.len() implies !((#[trigger] after.events[j])
                is Delete) by {
                assert(!(read.events[j] is Delete));
            }
        }
    }
}

proof fn lemma_second_pass_spares<
    T: Fn(&PathParts) -> Result<RawEntry, ReadFailure>,
    K,
    N,
    D,
    W,
    G: Fn(&PathParts) -> Option<(NativeKey, bool)>,
>(
    ask: PathLookups<T, K, N, D, W, G>,
    start: PathTranslationModel,
    paths: Seq<Seq<Seq<char>>>,
    states: Seq<PathTranslationModel>,
    k: int,
)
    requires
        second_pass(ask, start, paths, states),
        spares_the_living(start),
        0 <= k < states.len(),
    ensures
        spares_the_living(states[k]),
        states[k].relinked == start.relinked,
    decreases k,
{
    if k > 0 {
        lemma_second_pass_spares(ask, start, paths, states, k - 1);
        let m = states[k - 1];
        let after = states[k];
        let p = paths[k - 1];
        assert(absent_settled(ask, m, p, after));
        let (q, object) = choose|q: &PathParts, object: Option<(NativeKey, bool)>| #[trigger]
            call_ensures(ask.resolve, (q,), object) && q@ == p && {
                let left = removed(m, object);
                if object matches Some((native, directory)) && !m.relinked.contains(native)
                    && !directory {
                    exists|key: Option<NativeKey>| #[trigger]
                        key_is(ask.stat, parent_path(p), key) && after == (match key {
                            Some(parent) => left.with_event(
                                EventModel::Unlink { parent, name: p.last() },
                            ),
                            None => left,
                        })
                } else {
                    after == left
                }
            };
        let left = removed(m, object);
        assert(spares_the_living(left)) by {
            assert forall|j: int| 0 <= j < left.events.len() implies ((
            #[trigger] left.events[j]) matches EventModel::Delete { object }
                ==> !left.relinked.contains(object)) by {
                if j < m.events.len() {
                    assert(left.events[j] == m.events[j]);
                }
            }
        }
        assert forall|j: int| 0 <= j < after.events.len() implies ((
        #[trigger] after.events[j]) matches EventModel::Delete { object }
            ==> !after.relinked.contains(object)) by {
            if j < left.events.len() {
                assert(after.events[j] == left.events[j]);
            }
        }
    }
}

/// However paths moved within a batch, nothing that it found living somewhere is
/// deleted by it: a move is never taken for a removal, in whichever order its
/// notifications came.
pub proof fn law_a_batch_deletes_nothing_it_found<
    T: Fn(&PathParts) -> Result<RawEntry, ReadFailure>,
    K: Fn(NativeKey) -> bool,
    N: Fn(NativeKey) -> Vec<CatalogEntry>,
    D: Fn(&CatalogEntry) -> (EntryLookup, Option<bool>),
    W: Fn(&PathParts) -> Vec<Listing>,
    G: Fn(&PathParts) -> Option<(NativeKey, bool)>,
>(
    ask: PathLookups<T, K, N, D, W, G>,
    out_of_scope: nat,
    paths: Seq<Seq<Seq<char>>>,
    after: PathTranslationModel,
    j: int,
    object: NativeKey,
)
    requires
        batch_settled(ask, out_of_scope, paths, after),
        0 <= j < after.events.len(),
        after.events[j] == (EventModel::Delete { object }),
    ensures
        !after.relinked.contains(object),
{
    let start = PathTranslationModel {
        events: Seq::empty(),
        batch_dirs: Set::empty(),
        relinked: Set::empty(),
        stats: TranslateStats {
            paths: paths.len() as u64,
            out_of_scope: out_of_scope as u64,
            ..TranslateStats::zero()
        },
    };
    let (states, gone) = choose|states: Seq<PathTranslationModel>, gone: Seq<bool>|
        {
            &&& #[trigger] first_pass(ask, start, paths, states, gone)
            &&& if states.last().stats.needs_rescan {
                after == states.last()
            } else {
                second_settled(ask, states.last(), gone_paths(paths, gone), after)
            }
        };
    lemma_first_pass_deletes_nothing(ask, start, paths, states, gone, states.len() - 1);
    let last = states.last();
    assert(spares_the_living(last));
    if !last.stats.needs_rescan {
        let second = choose|second: Seq<PathTranslationModel>| #[trigger]
            second_pass(ask, last, gone_paths(paths, gone), second) && after == second.last();
        lemma_second_pass_spares(
            ask,
            last,
            gone_paths(paths, gone),
            second,
            second.len() - 1,
        );
    }
    assert(spares_the_living(after));
}

proof fn lemma_first_pass_deletes_nothing<
    T: Fn(&PathParts) -> Result<RawEntry, ReadFailure>,
    K: Fn(NativeKey) -> bool,
    N: Fn(NativeKey) -> Vec<CatalogEntry>,
    D: Fn(&CatalogEntry) -> (EntryLookup, Option<bool>),
    W: Fn(&PathParts) -> Vec<Listing>,
    G,
>(
    ask: PathLookups<T, K, N, D, W, G>,
    start: PathTranslationModel,
    paths: Seq<Seq<Seq<char>>>,
    states: Seq<PathTranslationModel>,
    gone: Seq<bool>,
    k: int,
)
    requires
        first_pass(ask, start, paths, states, gone),
        deletes_nothing(start),
        0 <= k < states.len(),
    ensures
        deletes_nothing(states[k]),
    decreases k,
{
    if k > 0 {
        lemma_first_pass_deletes_nothing(ask, start, paths, states, gone, k - 1);
        assert(path_settled(ask, states[k - 1], paths[k - 1], gone[k - 1], states[k]));
        lemma_path_deletes_nothing(ask, states[k - 1], paths[k - 1], gone[k - 1], states[k]);
    }
}

/// Translate one batch of notifications.
///
/// Existing paths first: they establish where each object lives now, which is
/// what tells a rename apart from a deletion.
pub fn translate<
    T: Fn(&PathParts) -> Result<RawEntry, ReadFailure>,
    K: Fn(NativeKey) -> bool,
    N: Fn(NativeKey) -> Vec<CatalogEntry>,
    D: Fn(&CatalogEntry) -> (EntryLookup, Option<bool>),
    W: Fn(&PathParts) -> Vec<Listing>,
    G: Fn(&PathParts) -> Option<(NativeKey, bool)>,
>(ask: &PathLookups<T, K, N, D, W, G>, root: &PathParts, changes: &Vec<PathParts>) -> (r: (
    Vec<ChangeEvent>,
    TranslateStats,
))
    requires
        answerable(*ask),
        changes.len() <= MAX_PATHS,
    ensures
        exists|paths: Seq<Seq<Seq<char>>>, after: PathTranslationModel|
            {
                &&& #[trigger] batch_paths(root@, path_models(changes@), paths)
                &&& #[trigger] batch_settled(
                    *ask,
                    outside_count(root@, path_models(changes@)),
                    paths,
                    after,
                )
                &&& event_models(r.0@) == after.events
                &&& r.1 == after.stats
            },
{
    let (ordered, outside) = ordered_changes(root, changes);
    let ghost paths = path_models(ordered@);
    proof {
        lemma_outside_count(root@, path_models(changes@));
        lemma_ordered_len(paths, path_models(changes@));
        assert(batch_paths(root@, path_models(changes@), paths));
        assert forall|j: int| 0 <= j < ordered.len() implies (#[trigger] ordered@[j]).parts.len()
            > 0 by {
            let p = paths[j];
            assert(p == ordered@[j]@);
            assert(paths.contains(p));
            if p.len() == root@.len() {
                assert(p.take(root@.len() as int) =~= p);
            }
        }
    }
    let mut t = PathTranslation::new(ordered.len() as u64, outside);
    let ghost start = t@;
    let ghost mut states: Seq<PathTranslationModel> = seq![start];
    let ghost mut gone: Seq<bool> = Seq::empty();
    let mut absences: Vec<usize> = Vec::new();
    let mut i: usize = 0;
    assert(gone_paths(paths, gone) =~= Seq::empty());
    while i < ordered.len() && !t.stats().needs_rescan
        invariant
            0 <= i <= ordered.len() <= MAX_PATHS,
            answerable(*ask),
            paths == path_models(ordered@),
            forall|j: int| 0 <= j < ordered.len() ==> (#[trigger] ordered@[j]).parts.len() > 0,
            states.len() == i + 1,
            gone.len() == i,
            states[0] == start,
            states.last() == t@,
            forall|j: int|
                0 <= j < i ==> path_settled(
                    *ask,
                    states[j],
                    paths[j],
                    #[trigger] gone[j],
                    states[j + 1],
                ),
            forall|j: int| 0 <= j < i ==> !(#[trigger] states[j]).stats.needs_rescan,
            absences.len() <= i,
            forall|j: int| 0 <= j < absences.len() ==> #[trigger] absences@[j] < ordered.len(),
            indexed(paths, absences@) == gone_paths(paths, gone),
            start.stats.out_of_scope <= MAX_PATHS,
            start.stats == (TranslateStats {
                paths: start.stats.paths,
                out_of_scope: start.stats.out_of_scope,
                ..TranslateStats::zero()
            }),
            grown(
                start.stats,
                t@.stats,
                i * (MAX_EXPANDED_ENTRIES + 1),
                i * (MAX_LISTINGS + 1),
            ),
        decreases ordered.len() - i,
    {
        let ghost before = t@;
        let ghost old_states = states;
        let ghost old_gone = gone;
        let p = &ordered[i];
        proof {
            assert(i * (MAX_EXPANDED_ENTRIES + 1) <= MAX_PATHS * (MAX_EXPANDED_ENTRIES + 1))
                by (nonlinear_arith)
                requires
                    0 <= i <= MAX_PATHS,
            ;
            assert(i * (MAX_LISTINGS + 1) <= MAX_PATHS * (MAX_LISTINGS + 1)) by (nonlinear_arith)
                requires
                    0 <= i <= MAX_PATHS,
            ;
            assert((i + 1) * (MAX_EXPANDED_ENTRIES + 1) == i * (MAX_EXPANDED_ENTRIES + 1) + (
            MAX_EXPANDED_ENTRIES + 1)) by (nonlinear_arith);
            assert((i + 1) * (MAX_LISTINGS + 1) == i * (MAX_LISTINGS + 1) + (MAX_LISTINGS + 1))
                by (nonlinear_arith);
            assert(before.stats.has_room((MAX_LISTINGS + MAX_EXPANDED_ENTRIES + 2) as nat));
        }
        let found = (ask.stat)(p);
        assert(stat_is(ask.stat, p@, found));
        let mut missing: bool = false;
        match found {
            Ok(entry) => {
                present(&mut t, ask, p, entry);
            },
            Err(failure) => {
                if t.unread(failure) {
                    missing = true;
                    absences.push(i);
                }
            },
        }
        proof {
            assert(path_settled(*ask, before, p@, missing, t@));
            assert(paths[i as int] == p@);
            gone = gone.push(missing);
            states = states.push(t@);
            assert(gone.drop_last() =~= old_gone);
            assert forall|j: int| 0 <= j < i + 1 implies path_settled(
                *ask,
                states[j],
                paths[j],
                #[trigger] gone[j],
                states[j + 1],
            ) by {
                if j < i {
                    assert(gone[j] == old_gone[j]);
                    assert(states[j] == old_states[j] && states[j + 1] == old_states[j + 1]);
                }
            }
            assert forall|j: int| 0 <= j < i + 1 implies !(#[trigger] states[j]).stats.needs_rescan by {
                if j < i {
                    assert(states[j] == old_states[j]);
                } else {
                    assert(states[j] == before);
                }
            }
            assert(indexed(paths, absences@) =~= gone_paths(paths, gone));
        }
        i += 1;
    }
    let ghost middle = t@;
    proof {
        assert(first_pass(*ask, start, paths, states, gone));
        assert(start == (PathTranslationModel {
            events: Seq::empty(),
            batch_dirs: Set::empty(),
            relinked: Set::empty(),
            stats: TranslateStats {
                paths: paths.len() as u64,
                out_of_scope: outside_count(root@, path_models(changes@)) as u64,
                ..TranslateStats::zero()
            },
        }));
    }
    if t.stats().needs_rescan {
        assert(batch_settled(*ask, outside_count(root@, path_models(changes@)), paths, t@));
        return t.finish();
    }
    let ghost lost = gone_paths(paths, gone);
    let ghost mut later: Seq<PathTranslationModel> = seq![middle];
    let mut k: usize = 0;
    while k < absences.len()
        invariant
            0 <= k <= absences.len() <= i <= ordered.len() <= MAX_PATHS,
            answerable(*ask),
            paths == path_models(ordered@),
            forall|j: int| 0 <= j < ordered.len() ==> (#[trigger] ordered@[j]).parts.len() > 0,
            forall|j: int| 0 <= j < absences.len() ==> #[trigger] absences@[j] < ordered.len(),
            indexed(paths, absences@) == lost,
            later.len() == k + 1,
            later[0] == middle,
            later.last() == t@,
            forall|j: int|
                0 <= j < k ==> absent_settled(
                    *ask,
                    later[j],
                    #[trigger] lost[j],
                    later[j + 1],
                ),
            middle.stats.has_room(MAX_PATHS as nat),
            grown(middle.stats, t@.stats, 0, k as int),
        decreases absences.len() - k,
    {
        let ghost before = later;
        let p = &ordered[absences[k]];
        absent(&mut t, ask, p);
        proof {
            assert(lost[k as int] == p@);
            later = later.push(t@);
            assert forall|j: int| 0 <= j < k + 1 implies absent_settled(
                *ask,
                later[j],
                #[trigger] lost[j],
                later[j + 1],
            ) by {
                if j < k {
                    assert(later[j] == before[j] && later[j + 1] == before[j + 1]);
                }
            }
        }
        k += 1;
    }
    proof {
        assert(lost.len() == absences.len());
        assert(second_pass(*ask, middle, lost, later));
        assert(second_settled(*ask, middle, lost, t@));
        assert(batch_settled(*ask, outside_count(root@, path_models(changes@)), paths, t@));
    }
    t.finish()
}

/// The paths at some positions.
spec fn indexed(paths: Seq<Seq<Seq<char>>>, at: Seq<usize>) -> Seq<Seq<Seq<char>>> {
    at.map_values(|i: usize| paths[i as int])
}

proof fn lemma_outside_count(root: Seq<Seq<char>>, s: Seq<Seq<Seq<char>>>)
    ensures
        outside_count(root, s) <= s.len(),
    decreases s.len(),
{
    if s.len() > 0 {
        lemma_outside_count(root, s.drop_last());
    }
}

/// Paths that are in order are distinct, so there are no more of them than of
/// the notifications that they come from.
proof fn lemma_ordered_len(paths: Seq<Seq<Seq<char>>>, changes: Seq<Seq<Seq<char>>>)
    requires
        in_order(paths),
        forall|p: Seq<Seq<char>>| #[trigger] paths.contains(p) ==> changes.contains(p),
    ensures
        paths.len() <= changes.len(),
{
    assert(paths.no_duplicates()) by {
        assert forall|i: int, j: int| 0 <= i < j < paths.len() implies paths[i] != paths[j] by {
            lemma_shallower_order(paths[i], paths[j], paths[j]);
        }
    }
    paths.unique_seq_to_set();
    let a = paths.to_set();
    let b = changes.to_set();
    assert(a.subset_of(b)) by {
        assert forall|p: Seq<Seq<char>>| a.contains(p) implies b.contains(p) by {
            assert(paths.contains(p));
            assert(changes.contains(p));
        }
    }
    vstd::seq_lib::seq_to_set_is_finite(changes);
    vstd::set_lib::lemma_len_subset(a, b);
    changes.lemma_cardinality_of_set();
}

} // verus!
