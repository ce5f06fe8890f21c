//! Translating a whole batch of journal records.
//!
//! The order of the decisions is fixed here; what the volume and the catalog
//! say is asked through [`Lookups`] as it is needed.

use crate::changes::{
    event_models, names_after_all, ChangeEvent, EventModel, Names, NativeKey, ScanErrorKind,
};
use crate::picks::{lemma_picks_next, lemma_picks_none, picks, rising};
use crate::usn_apply::{
    coalesce, coalesced, file_models, incomplete_text, links_resynced, object_of, permanent,
    record_models, to_snapshot, unlinks_of, AfterSnapshot, FileChange, FileModel,
    FileSnapshot, KnownEntry, LiveLink, TranslateStats, Translation, TranslationModel, UsnRecord,
    USN_REASON_HARD_LINK_CHANGE,
};
use vstd::prelude::*;
use vstd::string::*;

verus! {

/// What reading a file by its id came back with.
#[derive(Debug)]
pub enum SnapshotRead {
    Found(FileSnapshot),
    /// Gone between the record and the snapshot.
    Gone,
    Failed(ScanErrorKind),
}

/// What a translation asks.
pub struct Lookups<S, K, R, L, N, P> {
    /// Whether the catalog has a directory, and does not protect it.
    pub scope: S,
    /// Whether the catalog knows an identity.
    pub known: K,
    /// Read a file by its id.
    pub read: R,
    /// Every current name of a hard-linked file, unless they cannot be listed.
    pub links: L,
    /// The names under which the catalog has an identity.
    pub entries: N,
    /// Whether the catalog protects a path.
    pub protected: P,
}

/// Why a batch is not translated.
#[derive(Debug)]
pub enum TranslateError<E> {
    Lookup(E),
    /// Part of the batch could not be read; the position is kept for a retry.
    Incomplete(String),
}

// ----- one file -------------------------------------------------------------

/// A directory is in scope if this batch links it, and else if the catalog
/// says so.
pub open spec fn scope_is<E, S: Fn(u128) -> Result<bool, E>>(
    scope: S,
    m: TranslationModel,
    dir: u128,
    yes: bool,
) -> bool {
    if m.batch_dirs.contains(dir) {
        yes
    } else {
        call_ensures(scope, (dir,), Ok::<bool, E>(yes))
    }
}

/// A file whose last place is not known is not in scope.
pub open spec fn latest_is<E, S: Fn(u128) -> Result<bool, E>>(
    scope: S,
    m: TranslationModel,
    f: FileModel,
    yes: bool,
) -> bool {
    match f.latest {
        Some((parent, _)) => scope_is(scope, m, parent, yes),
        None => !yes,
    }
}

pub open spec fn old_places_are<E, S: Fn(u128) -> Result<bool, E>>(
    scope: S,
    m: TranslationModel,
    f: FileModel,
    flags: Seq<bool>,
) -> bool {
    &&& flags.len() == f.old_names.len()
    &&& forall|i: int|
        0 <= i < flags.len() ==> scope_is(scope, m, f.old_names[i].0, #[trigger] flags[i])
}

pub open spec fn links_are<E, S: Fn(u128) -> Result<bool, E>>(
    scope: S,
    m: TranslationModel,
    links: Seq<LiveLink>,
    flags: Seq<bool>,
) -> bool {
    &&& flags.len() == links.len()
    &&& forall|i: int|
        0 <= i < flags.len() ==> scope_is(scope, m, links[i].parent.id, #[trigger] flags[i])
}

/// The links that are in scope.
pub open spec fn links_in_scope(links: Seq<LiveLink>, flags: Seq<bool>) -> Seq<LiveLink>
    decreases links.len(),
{
    if links.len() == 0 {
        Seq::empty()
    } else {
        let init = links_in_scope(links.drop_last(), flags.drop_last());
        if flags.last() {
            init.push(links.last())
        } else {
            init
        }
    }
}

pub open spec fn changes_links(f: FileModel) -> bool {
    f.reasons & USN_REASON_HARD_LINK_CHANGE != 0
}

pub open spec fn unlinked(m: TranslationModel, f: FileModel, flags: Seq<bool>) -> TranslationModel {
    TranslationModel { events: m.events + unlinks_of(m, f.old_names, flags), ..m }
}

pub open spec fn deleted(m: TranslationModel, f: FileModel, known: bool) -> TranslationModel {
    if known {
        m.with_event(EventModel::Delete { object: m.key(f.frn) })
    } else {
        m.skipped()
    }
}

pub open spec fn vanished(m: TranslationModel, f: FileModel, known: bool) -> TranslationModel {
    let counted = m.with_stats(
        TranslateStats { vanished: (m.stats.vanished + 1) as u64, ..m.stats },
    );
    if known {
        counted.with_event(EventModel::Delete { object: m.key(f.frn) })
    } else {
        counted
    }
}

pub open spec fn unread(m: TranslationModel, kind: ScanErrorKind) -> TranslationModel {
    m.with_stats(
        if permanent(kind) {
            TranslateStats { unreadable: (m.stats.unreadable + 1) as u64, ..m.stats }
        } else {
            TranslateStats { io_errors: (m.stats.io_errors + 1) as u64, ..m.stats }
        },
    )
}

pub open spec fn read(m: TranslationModel) -> TranslationModel {
    m.with_stats(TranslateStats { snapshots: (m.stats.snapshots + 1) as u64, ..m.stats })
}

pub open spec fn resynced(
    m: TranslationModel,
    snap: FileSnapshot,
    links: Seq<LiveLink>,
    entries: Seq<KnownEntry>,
) -> TranslationModel {
    links_resynced(m, object_of(snap), links, entries)
}

pub open spec fn placed(
    m: TranslationModel,
    f: FileModel,
    snap: FileSnapshot,
    in_scope: bool,
    protected: bool,
) -> TranslationModel {
    match f.latest {
        Some((parent, name)) => if in_scope {
            TranslationModel {
                batch_dirs: if (f.is_dir || snap.directory_like) && !protected {
                    m.batch_dirs.insert(f.frn)
                } else {
                    m.batch_dirs
                },
                ..m.with_event(
                    EventModel::Link { parent: m.key(parent), name, snapshot: object_of(snap) },
                )
            }
        } else {
            m
        },
        None => m,
    }
}

/// The file was linked at its last place, if that is in scope.
pub open spec fn latest_placed<
    E,
    S: Fn(u128) -> Result<bool, E>,
    K,
    R,
    L,
    N,
    P: Fn(&str) -> Result<bool, E>,
>(
    ask: Lookups<S, K, R, L, N, P>,
    m: TranslationModel,
    f: FileModel,
    snap: FileSnapshot,
    after: TranslationModel,
) -> bool {
    exists|in_scope: bool, protected: bool|
        {
            &&& #[trigger] latest_is::<E, S>(ask.scope, m, f, in_scope)
            &&& #[trigger] protected_is::<E, P>(ask.protected, snap, in_scope, protected)
            &&& after == placed(m, f, snap, in_scope, protected)
        }
}

/// Only a file that is linked and has a path is looked up.
pub open spec fn protected_is<E, P: Fn(&str) -> Result<bool, E>>(
    protected: P,
    snap: FileSnapshot,
    in_scope: bool,
    yes: bool,
) -> bool {
    if in_scope && snap.path is Some {
        exists|t: &str| #[trigger]
            call_ensures(protected, (t,), Ok::<bool, E>(yes)) && t@ == snap.path->0@
    } else {
        !yes
    }
}

/// The names of a hard-linked file, as they were listed.
pub open spec fn links_listed<L: Fn(&str) -> Option<Vec<LiveLink>>>(
    links: L,
    snap: FileSnapshot,
    names: Option<Vec<LiveLink>>,
) -> bool {
    exists|t: &str| #[trigger] call_ensures(links, (t,), names) && t@ == snap.path->0@
}

/// Every name of the file was resynchronised.
pub open spec fn names_resynced<
    E,
    S: Fn(u128) -> Result<bool, E>,
    K,
    R,
    L,
    N: Fn(NativeKey) -> Vec<KnownEntry>,
    P,
>(
    ask: Lookups<S, K, R, L, N, P>,
    m: TranslationModel,
    snap: FileSnapshot,
    names: Seq<LiveLink>,
    after: TranslationModel,
) -> bool {
    exists|flags: Seq<bool>, entries: Vec<KnownEntry>|
        {
            &&& #[trigger] links_are::<E, S>(ask.scope, m, names, flags)
            &&& #[trigger] call_ensures(ask.entries, (snap.native,), entries)
            &&& after == resynced(m, snap, links_in_scope(names, flags), entries@)
        }
}

/// What became of a file that was read, or could not be.
pub open spec fn read_settled<
    E,
    S: Fn(u128) -> Result<bool, E>,
    K: Fn(NativeKey) -> Result<bool, E>,
    R: Fn(u128) -> SnapshotRead,
    L: Fn(&str) -> Option<Vec<LiveLink>>,
    N: Fn(NativeKey) -> Vec<KnownEntry>,
    P: Fn(&str) -> Result<bool, E>,
>(
    ask: Lookups<S, K, R, L, N, P>,
    m: TranslationModel,
    f: FileModel,
    outcome: SnapshotRead,
    after: TranslationModel,
) -> bool {
    match outcome {
        SnapshotRead::Gone => exists|known: bool| #[trigger]
            call_ensures(ask.known, (m.key(f.frn),), Ok::<bool, E>(known)) && after == vanished(
                m,
                f,
                known,
            ),
        SnapshotRead::Failed(kind) => after == unread(m, kind),
        SnapshotRead::Found(snap) => if changes_links(f) && !snap.directory_like
            && snap.path is Some {
            exists|names: Option<Vec<LiveLink>>| #[trigger]
                links_listed(ask.links, snap, names) && match names {
                    Some(v) => names_resynced::<E, S, K, R, L, N, P>(ask, read(m), snap, v@, after),
                    None => latest_placed::<E, S, K, R, L, N, P>(ask, read(m), f, snap, after),
                }
        } else {
            latest_placed::<E, S, K, R, L, N, P>(ask, read(m), f, snap, after)
        },
    }
}

/// What became of a file after the places that it left were unlinked.
pub open spec fn rest_settled<
    E,
    S: Fn(u128) -> Result<bool, E>,
    K: Fn(NativeKey) -> Result<bool, E>,
    R: Fn(u128) -> SnapshotRead,
    L: Fn(&str) -> Option<Vec<LiveLink>>,
    N: Fn(NativeKey) -> Vec<KnownEntry>,
    P: Fn(&str) -> Result<bool, E>,
>(
    ask: Lookups<S, K, R, L, N, P>,
    m: TranslationModel,
    f: FileModel,
    any_in_scope: bool,
    after: TranslationModel,
) -> bool {
    if f.deleted {
        exists|known: bool| #[trigger]
            call_ensures(ask.known, (m.key(f.frn),), Ok::<bool, E>(known)) && after == deleted(
                m,
                f,
                known,
            )
    } else {
        exists|latest: bool| #[trigger]
            latest_is::<E, S>(ask.scope, m, f, latest) && if !latest && !any_in_scope
                && !changes_links(f) {
                after == m.skipped()
            } else {
                exists|outcome: SnapshotRead| #[trigger]
                    call_ensures(ask.read, (f.frn,), outcome) && read_settled::<E, S, K, R, L, N, P>(
                        ask,
                        m,
                        f,
                        outcome,
                        after,
                    )
            }
    }
}

/// What became of one file: the places that it left are unlinked where they
/// are in scope, and then the file is deleted, skipped, or linked where it is.
pub open spec fn file_settled<
    E,
    S: Fn(u128) -> Result<bool, E>,
    K: Fn(NativeKey) -> Result<bool, E>,
    R: Fn(u128) -> SnapshotRead,
    L: Fn(&str) -> Option<Vec<LiveLink>>,
    N: Fn(NativeKey) -> Vec<KnownEntry>,
    P: Fn(&str) -> Result<bool, E>,
>(
    ask: Lookups<S, K, R, L, N, P>,
    m: TranslationModel,
    f: FileModel,
    after: TranslationModel,
) -> bool {
    exists|flags: Seq<bool>| #[trigger]
        old_places_are::<E, S>(ask.scope, m, f, flags) && rest_settled::<E, S, K, R, L, N, P>(
            ask,
            unlinked(m, f, flags),
            f,
            flags.contains(true),
            after,
        )
}

/// Every question may be asked.
pub open spec fn answerable<
    E,
    S: Fn(u128) -> Result<bool, E>,
    K: Fn(NativeKey) -> Result<bool, E>,
    R: Fn(u128) -> SnapshotRead,
    L: Fn(&str) -> Option<Vec<LiveLink>>,
    N: Fn(NativeKey) -> Vec<KnownEntry>,
    P: Fn(&str) -> Result<bool, E>,
>(ask: Lookups<S, K, R, L, N, P>) -> bool {
    &&& forall|d: u128| call_requires(ask.scope, (d,))
    &&& forall|k: NativeKey| call_requires(ask.known, (k,))
    &&& forall|f: u128| call_requires(ask.read, (f,))
    &&& forall|t: &str| call_requires(ask.links, (t,))
    &&& forall|k: NativeKey| call_requires(ask.entries, (k,))
    &&& forall|t: &str| call_requires(ask.protected, (t,))
}

// ----- laws of one file -----------------------------------------------------

/// The names of a file that are in scope are kept, in order, and no others.
pub proof fn law_names_in_scope_are_kept(links: Seq<LiveLink>, flags: Seq<bool>)
    requires
        links.len() == flags.len(),
    ensures
        exists|pick: Seq<int>|
            {
                &&& #[trigger] rising(pick)
                &&& picks(pick, links.len() as int, |i: int| flags[i])
                &&& links_in_scope(links, flags).len() == pick.len()
                &&& forall|a: int|
                    0 <= a < pick.len() ==> #[trigger] links_in_scope(links, flags)[a]
                        == links[pick[a]]
            },
{
    let pick = lemma_links_in_scope(links, flags);
    assert(rising(pick));
}

proof fn lemma_links_in_scope(links: Seq<LiveLink>, flags: Seq<bool>) -> (pick: Seq<int>)
    requires
        links.len() == flags.len(),
    ensures
        picks(pick, links.len() as int, |i: int| flags[i]),
        links_in_scope(links, flags).len() == pick.len(),
        forall|a: int|
            0 <= a < pick.len() ==> #[trigger] links_in_scope(links, flags)[a] == links[pick[a]],
    decreases links.len(),
{
    let scoped = |i: int| flags[i];
    if links.len() == 0 {
        lemma_picks_none(scoped);
        Seq::empty()
    } else {
        let fewer = flags.drop_last();
        let n = links.len() - 1;
        let before = lemma_links_in_scope(links.drop_last(), fewer);
        let old = |i: int| fewer[i];
        assert(picks(before, n, old));
        assert(picks(before, n, scoped)) by {
            assert forall|a: int| 0 <= a < before.len() implies 0 <= #[trigger] before[a] < n
                && scoped(before[a]) by {
                assert(old(before[a]));
            }
            assert forall|i: int| 0 <= i < n && #[trigger] scoped(i) implies before.contains(i) by {
                assert(old(i));
            }
        }
        lemma_picks_next(before, n, scoped);
        if scoped(n) {
            before.push(n)
        } else {
            before
        }
    }
}

/// Unlinking the places that a file left takes exactly the places in scope away.
proof fn lemma_names_unlinked(
    m: TranslationModel,
    old_names: Seq<(u128, Seq<char>)>,
    flags: Seq<bool>,
    names: Names,
    at: (NativeKey, Seq<char>),
)
    requires
        old_names.len() <= flags.len(),
    ensures
        ({
            let after = names_after_all(names, unlinks_of(m, old_names, flags));
            let gone = exists|i: int|
                #![trigger old_names[i]]
                0 <= i < old_names.len() && flags[i] && m.key(old_names[i].0) == at.0
                    && old_names[i].1 == at.1;
            &&& after.dom().contains(at) == (names.dom().contains(at) && !gone)
            &&& after.dom().contains(at) ==> after[at] == names[at]
        }),
    decreases old_names.len(),
{
    if old_names.len() > 0 {
        let init = old_names.drop_last();
        let n = init.len() as int;
        lemma_names_unlinked(m, init, flags, names, at);
        let events = unlinks_of(m, old_names, flags);
        let before = names_after_all(names, unlinks_of(m, init, flags));
        let after = names_after_all(names, events);
        let last = flags[n] && m.key(old_names[n].0) == at.0 && old_names[n].1 == at.1;
        if flags[n] {
            assert(events.drop_last() =~= unlinks_of(m, init, flags));
            assert(after == before.remove((m.key(old_names[n].0), old_names[n].1)));
        }
        if exists|i: int|
            #![trigger init[i]]
            0 <= i < init.len() && flags[i] && m.key(init[i].0) == at.0 && init[i].1 == at.1 {
            let i = choose|i: int|
                #![trigger init[i]]
                0 <= i < init.len() && flags[i] && m.key(init[i].0) == at.0 && init[i].1 == at.1;
            assert(old_names[i] == init[i]);
        }
        if !last && exists|i: int|
            #![trigger old_names[i]]
            0 <= i < old_names.len() && flags[i] && m.key(old_names[i].0) == at.0 && old_names[i].1
                == at.1 {
            let i = choose|i: int|
                #![trigger old_names[i]]
                0 <= i < old_names.len() && flags[i] && m.key(old_names[i].0) == at.0
                    && old_names[i].1 == at.1;
            assert(init[i] == old_names[i]);
        }
        if last {
            assert(old_names[n].1 == at.1);
        }
    }
}

/// A file that is in scope stands, once its change is applied, under its last
/// place as it was read, and under none of the places in scope that it left;
/// every other name stays as it was. A file out of scope only leaves.
pub proof fn law_a_file_is_found_where_it_went(
    m: TranslationModel,
    f: FileModel,
    flags: Seq<bool>,
    snap: FileSnapshot,
    in_scope: bool,
    protected: bool,
    names: Names,
    at: (NativeKey, Seq<char>),
)
    requires
        flags.len() == f.old_names.len(),
    ensures
        ({
            let r = placed(read(unlinked(m, f, flags)), f, snap, in_scope, protected);
            let added = r.events.skip(m.events.len() as int);
            let after = names_after_all(names, added);
            let serial = m.volume_serial;
            let here = in_scope && (f.latest matches Some(p) && at.0 == (NativeKey {
                volume_serial: serial,
                id: p.0,
            }) && at.1 == p.1);
            let left = exists|i: int|
                #![trigger f.old_names[i]]
                0 <= i < f.old_names.len() && flags[i] && at.0 == (NativeKey {
                    volume_serial: serial,
                    id: f.old_names[i].0,
                }) && at.1 == f.old_names[i].1;
            &&& r.events.take(m.events.len() as int) == m.events
            &&& here ==> after.dom().contains(at) && after[at] == snap.native
            &&& !here && left ==> !after.dom().contains(at)
            &&& !here && !left ==> after.dom().contains(at) == names.dom().contains(at) && (
            names.dom().contains(at) ==> after[at] == names[at])
            &&& here ==> added.len() > 0 && added.last() == (EventModel::Link {
                parent: at.0,
                name: at.1,
                snapshot: object_of(snap),
            })
        }),
{
    let u = unlinked(m, f, flags);
    let r = placed(read(u), f, snap, in_scope, protected);
    let added = r.events.skip(m.events.len() as int);
    let unlinks = unlinks_of(m, f.old_names, flags);
    assert(r.events.take(m.events.len() as int) =~= m.events);
    lemma_names_unlinked(m, f.old_names, flags, names, at);
    let gone = exists|i: int|
        #![trigger f.old_names[i]]
        0 <= i < f.old_names.len() && flags[i] && m.key(f.old_names[i].0) == at.0 && f.old_names[i].1
            == at.1;
    let left = exists|i: int|
        #![trigger f.old_names[i]]
        0 <= i < f.old_names.len() && flags[i] && at.0 == (NativeKey {
            volume_serial: m.volume_serial,
            id: f.old_names[i].0,
        }) && at.1 == f.old_names[i].1;
    if gone {
        let i = choose|i: int|
            #![trigger f.old_names[i]]
            0 <= i < f.old_names.len() && flags[i] && m.key(f.old_names[i].0) == at.0
                && f.old_names[i].1 == at.1;
        assert(at.1 == f.old_names[i].1);
    }
    if left {
        let i = choose|i: int|
            #![trigger f.old_names[i]]
            0 <= i < f.old_names.len() && flags[i] && at.0 == (NativeKey {
                volume_serial: m.volume_serial,
                id: f.old_names[i].0,
            }) && at.1 == f.old_names[i].1;
        assert(at.1 == f.old_names[i].1);
    }
    if in_scope && f.latest is Some {
        let place = f.latest->0;
        let link = EventModel::Link {
            parent: m.key(place.0),
            name: place.1,
            snapshot: object_of(snap),
        };
        assert(added =~= unlinks.push(link));
        assert(added.drop_last() =~= unlinks);
    } else {
        assert(added =~= unlinks);
    }
}

/// A directory that a batch links, and that is not protected, puts what lies in
/// it in scope for the rest of the batch; nothing else does.
pub proof fn law_a_linked_directory_opens_its_scope(
    m: TranslationModel,
    f: FileModel,
    snap: FileSnapshot,
    in_scope: bool,
    protected: bool,
    dir: u128,
)
    ensures
        ({
            let r = placed(m, f, snap, in_scope, protected);
            r.batch_dirs.contains(dir) <==> m.batch_dirs.contains(dir) || (dir == f.frn && in_scope
                && f.latest is Some && (f.is_dir || snap.directory_like) && !protected)
        }),
{
}

/// A deletion is told to the catalog exactly if the catalog knows the object,
/// whether the journal reports it or the file is gone when it is read: the
/// object then stands under no name any more, and no other name changes.
pub proof fn law_known_deletions_take_every_name(
    m: TranslationModel,
    f: FileModel,
    known: bool,
    names: Names,
    at: (NativeKey, Seq<char>),
)
    ensures
        ({
            let object = NativeKey { volume_serial: m.volume_serial, id: f.frn };
            let d = deleted(m, f, known).events;
            let v = vanished(m, f, known).events;
            let after = names_after_all(names, d.skip(m.events.len() as int));
            &&& d == v
            &&& d.take(m.events.len() as int) == m.events
            &&& after.dom().contains(at) <==> names.dom().contains(at) && !(known && names[at]
                == object)
            &&& after.dom().contains(at) ==> after[at] == names[at]
        }),
{
    let object = NativeKey { volume_serial: m.volume_serial, id: f.frn };
    let d = deleted(m, f, known).events;
    let added = d.skip(m.events.len() as int);
    assert(d.take(m.events.len() as int) =~= m.events);
    if known {
        assert(added =~= seq![EventModel::Delete { object }]);
        assert(added.drop_last() =~= Seq::empty());
        assert(names_after_all(names, added.drop_last()) == names);
    } else {
        assert(added =~= Seq::empty());
    }
}

/// What is counted of a file: it was read, was gone, could not be read for
/// good, or could not be read yet, and only the last holds the batch back.
pub proof fn law_each_outcome_is_counted(m: TranslationModel, f: FileModel, kind: ScanErrorKind, known: bool)
    requires
        m.stats.has_room(),
    ensures
        read(m).stats.snapshots == m.stats.snapshots + 1 && read(m).events == m.events,
        vanished(m, f, known).stats.vanished == m.stats.vanished + 1,
        !known ==> deleted(m, f, known).stats.out_of_scope == m.stats.out_of_scope + 1,
        unread(m, kind).events == m.events,
        unread(m, kind).stats.io_errors == m.stats.io_errors + (if kind == ScanErrorKind::Transient
            || kind == ScanErrorKind::Other {
            1int
        } else {
            0int
        }),
        unread(m, kind).stats.unreadable + unread(m, kind).stats.io_errors == m.stats.unreadable
            + m.stats.io_errors + 1,
        read(m).stats.io_errors == m.stats.io_errors,
        vanished(m, f, known).stats.io_errors == m.stats.io_errors,
        deleted(m, f, known).stats.io_errors == m.stats.io_errors,
{
}

/// A directory is certainly in scope: this batch links it, or the catalog only
/// ever says so.
pub open spec fn surely_in_scope<E, S: Fn(u128) -> Result<bool, E>>(
    scope: S,
    m: TranslationModel,
    dir: u128,
) -> bool {
    m.batch_dirs.contains(dir) || forall|yes: bool| #[trigger]
        call_ensures(scope, (dir,), Ok::<bool, E>(yes)) ==> yes
}

/// A file that survives its batch is read if its last place is in scope, if a
/// place that it left is, or if its hard links changed.
pub proof fn law_a_surviving_file_of_interest_is_read<
    E,
    S: Fn(u128) -> Result<bool, E>,
    K: Fn(NativeKey) -> Result<bool, E>,
    R: Fn(u128) -> SnapshotRead,
    L: Fn(&str) -> Option<Vec<LiveLink>>,
    N: Fn(NativeKey) -> Vec<KnownEntry>,
    P: Fn(&str) -> Result<bool, E>,
>(ask: Lookups<S, K, R, L, N, P>, m: TranslationModel, f: FileModel, after: TranslationModel)
    requires
        file_settled::<E, S, K, R, L, N, P>(ask, m, f, after),
        !f.deleted,
        ({
            ||| f.reasons & USN_REASON_HARD_LINK_CHANGE != 0
            ||| f.latest matches Some(p) && surely_in_scope::<E, S>(ask.scope, m, p.0)
            ||| exists|i: int|
                0 <= i < f.old_names.len() && surely_in_scope::<E, S>(
                    ask.scope,
                    m,
                    (#[trigger] f.old_names[i]).0,
                )
        }),
    ensures
        exists|outcome: SnapshotRead| #[trigger] call_ensures(ask.read, (f.frn,), outcome),
{
    let flags = choose|flags: Seq<bool>| #[trigger]
        old_places_are::<E, S>(ask.scope, m, f, flags) && rest_settled::<E, S, K, R, L, N, P>(
            ask,
            unlinked(m, f, flags),
            f,
            flags.contains(true),
            after,
        );
    if exists|i: int|
        0 <= i < f.old_names.len() && surely_in_scope::<E, S>(
            ask.scope,
            m,
            (#[trigger] f.old_names[i]).0,
        ) {
        let i = choose|i: int|
            0 <= i < f.old_names.len() && surely_in_scope::<E, S>(
                ask.scope,
                m,
                (#[trigger] f.old_names[i]).0,
            );
        assert(flags[i]);
        assert(flags.contains(true));
    }
}

/// A file that is gone when it is read is deleted if the catalog knows it; one
/// that cannot be read changes nothing, and holds the batch back unless reading
/// again cannot help.
pub proof fn law_an_unread_file_is_deleted_or_counted<
    E,
    S: Fn(u128) -> Result<bool, E>,
    K: Fn(NativeKey) -> Result<bool, E>,
    R: Fn(u128) -> SnapshotRead,
    L: Fn(&str) -> Option<Vec<LiveLink>>,
    N: Fn(NativeKey) -> Vec<KnownEntry>,
    P: Fn(&str) -> Result<bool, E>,
>(
    ask: Lookups<S, K, R, L, N, P>,
    m: TranslationModel,
    f: FileModel,
    kind: ScanErrorKind,
    gone: TranslationModel,
    failed: TranslationModel,
    known: bool,
)
    requires
        m.stats.has_room(),
        read_settled::<E, S, K, R, L, N, P>(ask, m, f, SnapshotRead::Gone, gone),
        read_settled::<E, S, K, R, L, N, P>(ask, m, f, SnapshotRead::Failed(kind), failed),
        forall|yes: bool| #[trigger]
            call_ensures(ask.known, (m.key(f.frn),), Ok::<bool, E>(yes)) ==> yes == known,
    ensures
        known ==> gone.events == m.events.push(
            EventModel::Delete {
                object: NativeKey { volume_serial: m.volume_serial, id: f.frn },
            },
        ),
        !known ==> gone.events == m.events,
        gone.stats.vanished == m.stats.vanished + 1,
        failed.events == m.events && failed.batch_dirs == m.batch_dirs,
        failed.stats.io_errors == m.stats.io_errors + (if kind == ScanErrorKind::Transient || kind
            == ScanErrorKind::Other {
            1int
        } else {
            0int
        }),
{
}

/// A file that was read, whose links did not change or that has none to list,
/// is linked at its last place if that is in scope, with what was read of it; if
/// it is a directory, what lies in it is in scope from then on unless its path
/// is protected. Out of scope nothing is linked.
pub proof fn law_a_read_file_is_linked_at_its_last_place<
    E,
    S: Fn(u128) -> Result<bool, E>,
    K: Fn(NativeKey) -> Result<bool, E>,
    R: Fn(u128) -> SnapshotRead,
    L: Fn(&str) -> Option<Vec<LiveLink>>,
    N: Fn(NativeKey) -> Vec<KnownEntry>,
    P: Fn(&str) -> Result<bool, E>,
>(
    ask: Lookups<S, K, R, L, N, P>,
    m: TranslationModel,
    f: FileModel,
    snap: FileSnapshot,
    after: TranslationModel,
    parent: u128,
    name: Seq<char>,
    in_scope: bool,
    protected: bool,
)
    requires
        m.stats.has_room(),
        read_settled::<E, S, K, R, L, N, P>(ask, m, f, SnapshotRead::Found(snap), after),
        f.reasons & USN_REASON_HARD_LINK_CHANGE == 0 || snap.directory_like || snap.path is None,
        f.latest == Some((parent, name)),
        m.batch_dirs.contains(parent) ==> in_scope,
        !m.batch_dirs.contains(parent) ==> forall|yes: bool| #[trigger]
            call_ensures(ask.scope, (parent,), Ok::<bool, E>(yes)) ==> yes == in_scope,
        snap.path is Some ==> forall|t: &str, yes: bool| #[trigger]
            call_ensures(ask.protected, (t,), Ok::<bool, E>(yes)) && t@ == snap.path->0@ ==> yes
                == protected,
        snap.path is None ==> !protected,
    ensures
        after.stats.snapshots == m.stats.snapshots + 1,
        in_scope ==> after.events == m.events.push(
            EventModel::Link {
                parent: NativeKey { volume_serial: m.volume_serial, id: parent },
                name,
                snapshot: object_of(snap),
            },
        ),
        !in_scope ==> after.events == m.events,
        after.batch_dirs.contains(f.frn) <==> m.batch_dirs.contains(f.frn) || (in_scope && (f.is_dir
            || snap.directory_like) && !protected),
{
}

/// A file whose links changed is resynchronised: each of its names that is in
/// scope is linked, and what the catalog has beyond them is unlinked.
pub proof fn law_changed_links_are_resynchronised<
    E,
    S: Fn(u128) -> Result<bool, E>,
    K: Fn(NativeKey) -> Result<bool, E>,
    R: Fn(u128) -> SnapshotRead,
    L: Fn(&str) -> Option<Vec<LiveLink>>,
    N: Fn(NativeKey) -> Vec<KnownEntry>,
    P: Fn(&str) -> Result<bool, E>,
>(
    ask: Lookups<S, K, R, L, N, P>,
    m: TranslationModel,
    f: FileModel,
    snap: FileSnapshot,
    after: TranslationModel,
    names: Vec<LiveLink>,
    entries: Vec<KnownEntry>,
)
    requires
        read_settled::<E, S, K, R, L, N, P>(ask, m, f, SnapshotRead::Found(snap), after),
        f.reasons & USN_REASON_HARD_LINK_CHANGE != 0,
        !snap.directory_like,
        snap.path is Some,
        forall|found: Option<Vec<LiveLink>>| #[trigger]
            links_listed(ask.links, snap, found) ==> found == Some(names),
        forall|i: int|
            0 <= i < names@.len() ==> surely_in_scope::<E, S>(
                ask.scope,
                m,
                (#[trigger] names@[i]).parent.id,
            ),
        forall|found: Vec<KnownEntry>| #[trigger]
            call_ensures(ask.entries, (snap.native,), found) ==> found == entries,
    ensures
        after == links_resynced(read(m), object_of(snap), names@, entries@),
{
    let (flags, found) = choose|flags: Seq<bool>, found: Vec<KnownEntry>|
        {
            &&& #[trigger] links_are::<E, S>(ask.scope, read(m), names@, flags)
            &&& #[trigger] call_ensures(ask.entries, (snap.native,), found)
            &&& after == resynced(read(m), snap, links_in_scope(names@, flags), found@)
        };
    assert forall|i: int| 0 <= i < flags.len() implies #[trigger] flags[i] by {
        assert(surely_in_scope::<E, S>(ask.scope, m, names@[i].parent.id));
    }
    lemma_all_links_kept(names@, flags);
}

proof fn lemma_all_links_kept(links: Seq<LiveLink>, flags: Seq<bool>)
    requires
        links.len() == flags.len(),
        forall|i: int| 0 <= i < flags.len() ==> #[trigger] flags[i],
    ensures
        links_in_scope(links, flags) == links,
    decreases links.len(),
{
    if links.len() > 0 {
        let fewer = flags.drop_last();
        assert forall|i: int| 0 <= i < fewer.len() implies #[trigger] fewer[i] by {
            assert(flags[i]);
        }
        assert(flags[flags.len() - 1]);
        lemma_all_links_kept(links.drop_last(), fewer);
        assert(links.drop_last().push(links.last()) =~= links);
    } else {
        assert(links_in_scope(links, flags) =~= links);
    }
}

/// A file that its batch deletes is never linked by it, is not read, and is
/// deleted from the catalog unless the catalog says that it does not know it.
pub proof fn law_a_deleted_file_is_never_linked<
    E,
    S: Fn(u128) -> Result<bool, E>,
    K: Fn(NativeKey) -> Result<bool, E>,
    R: Fn(u128) -> SnapshotRead,
    L: Fn(&str) -> Option<Vec<LiveLink>>,
    N: Fn(NativeKey) -> Vec<KnownEntry>,
    P: Fn(&str) -> Result<bool, E>,
>(ask: Lookups<S, K, R, L, N, P>, m: TranslationModel, f: FileModel, after: TranslationModel)
    requires
        file_settled::<E, S, K, R, L, N, P>(ask, m, f, after),
        f.deleted,
    ensures
        after.events.len() >= m.events.len(),
        after.events.take(m.events.len() as int) == m.events,
        forall|j: int|
            m.events.len() <= j < after.events.len() ==> !((#[trigger] after.events[j]) is Link),
        after.batch_dirs == m.batch_dirs,
        (forall|known: bool| #[trigger]
            call_ensures(ask.known, (m.key(f.frn),), Ok::<bool, E>(known)) ==> known)
            ==> after.events.len() > 0 && after.events.last() == (EventModel::Delete {
            object: NativeKey { volume_serial: m.volume_serial, id: f.frn },
        }),
{
    let flags = choose|flags: Seq<bool>| #[trigger]
        old_places_are::<E, S>(ask.scope, m, f, flags) && rest_settled::<E, S, K, R, L, N, P>(
            ask,
            unlinked(m, f, flags),
            f,
            flags.contains(true),
            after,
        );
    let u = unlinked(m, f, flags);
    lemma_unlinks_are_unlinks(m, f.old_names, flags);
    let known = choose|known: bool| #[trigger]
        call_ensures(ask.known, (u.key(f.frn),), Ok::<bool, E>(known)) && after == deleted(
            u,
            f,
            known,
        );
    assert(call_ensures(ask.known, (m.key(f.frn),), Ok::<bool, E>(known)));
    assert(after.events.take(m.events.len() as int) =~= m.events);
}

proof fn lemma_unlinks_are_unlinks(
    m: TranslationModel,
    old_names: Seq<(u128, Seq<char>)>,
    flags: Seq<bool>,
)
    ensures
        forall|j: int|
            0 <= j < unlinks_of(m, old_names, flags).len() ==> (#[trigger] unlinks_of(
                m,
                old_names,
                flags,
            )[j]) is Unlink,
    decreases old_names.len(),
{
    if old_names.len() > 0 {
        lemma_unlinks_are_unlinks(m, old_names.drop_last(), flags);
    }
}

// ----- questions without an answer ------------------------------------------

/// The catalog was asked about a directory, which this batch does not link, and
/// could not say whether it is in scope.
pub open spec fn scope_fails<E, S: Fn(u128) -> Result<bool, E>>(
    scope: S,
    m: TranslationModel,
    dir: u128,
    e: E,
) -> bool {
    !m.batch_dirs.contains(dir) && call_ensures(scope, (dir,), Err::<bool, E>(e))
}

/// The scope of a file's last place could not be told.
pub open spec fn latest_fails<E, S: Fn(u128) -> Result<bool, E>>(
    scope: S,
    m: TranslationModel,
    f: FileModel,
    e: E,
) -> bool {
    f.latest matches Some((parent, _)) && scope_fails(scope, m, parent, e)
}

/// The scope of the places that a file left is known up to some place.
pub open spec fn old_places_before<E, S: Fn(u128) -> Result<bool, E>>(
    scope: S,
    m: TranslationModel,
    f: FileModel,
    flags: Seq<bool>,
) -> bool {
    &&& flags.len() < f.old_names.len()
    &&& forall|i: int|
        0 <= i < flags.len() ==> scope_is(scope, m, f.old_names[i].0, #[trigger] flags[i])
}

/// The scope of a place that a file left could not be told.
pub open spec fn old_places_fail<E, S: Fn(u128) -> Result<bool, E>>(
    scope: S,
    m: TranslationModel,
    f: FileModel,
    e: E,
) -> bool {
    exists|flags: Seq<bool>| #[trigger]
        old_places_before::<E, S>(scope, m, f, flags) && scope_fails(
            scope,
            m,
            f.old_names[flags.len() as int].0,
            e,
        )
}

/// The scope of a file's names is known up to some name.
pub open spec fn links_before<E, S: Fn(u128) -> Result<bool, E>>(
    scope: S,
    m: TranslationModel,
    links: Seq<LiveLink>,
    flags: Seq<bool>,
) -> bool {
    &&& flags.len() < links.len()
    &&& forall|i: int|
        0 <= i < flags.len() ==> scope_is(scope, m, links[i].parent.id, #[trigger] flags[i])
}

/// The scope of one of a file's names could not be told.
pub open spec fn links_fail<E, S: Fn(u128) -> Result<bool, E>>(
    scope: S,
    m: TranslationModel,
    links: Seq<LiveLink>,
    e: E,
) -> bool {
    exists|flags: Seq<bool>| #[trigger]
        links_before::<E, S>(scope, m, links, flags) && scope_fails(
            scope,
            m,
            links[flags.len() as int].parent.id,
            e,
        )
}

/// Whether a file's path is protected could not be told.
pub open spec fn protected_fails<E, P: Fn(&str) -> Result<bool, E>>(
    protected: P,
    snap: FileSnapshot,
    e: E,
) -> bool {
    &&& snap.path is Some
    &&& exists|t: &str| #[trigger]
        call_ensures(protected, (t,), Err::<bool, E>(e)) && t@ == snap.path->0@
}

/// A file that was read could not be linked at its last place.
pub open spec fn placing_fails<
    E,
    S: Fn(u128) -> Result<bool, E>,
    K,
    R,
    L,
    N,
    P: Fn(&str) -> Result<bool, E>,
>(
    ask: Lookups<S, K, R, L, N, P>,
    m: TranslationModel,
    f: FileModel,
    snap: FileSnapshot,
    e: E,
) -> bool {
    ||| latest_fails::<E, S>(ask.scope, m, f, e)
    ||| latest_is::<E, S>(ask.scope, m, f, true) && protected_fails::<E, P>(
        ask.protected,
        snap,
        e,
    )
}

/// A question about a file that was read, or could not be, had no answer.
pub open spec fn reading_fails<
    E,
    S: Fn(u128) -> Result<bool, E>,
    K: Fn(NativeKey) -> Result<bool, E>,
    R: Fn(u128) -> SnapshotRead,
    L: Fn(&str) -> Option<Vec<LiveLink>>,
    N: Fn(NativeKey) -> Vec<KnownEntry>,
    P: Fn(&str) -> Result<bool, E>,
>(
    ask: Lookups<S, K, R, L, N, P>,
    m: TranslationModel,
    f: FileModel,
    outcome: SnapshotRead,
    e: E,
) -> bool {
    match outcome {
        SnapshotRead::Gone => call_ensures(ask.known, (m.key(f.frn),), Err::<bool, E>(e)),
        SnapshotRead::Failed(_) => false,
        SnapshotRead::Found(snap) => if changes_links(f) && !snap.directory_like
            && snap.path is Some {
            exists|names: Option<Vec<LiveLink>>| #[trigger]
                links_listed(ask.links, snap, names) && match names {
                    Some(v) => links_fail::<E, S>(ask.scope, read(m), v@, e),
                    None => placing_fails::<E, S, K, R, L, N, P>(ask, read(m), f, snap, e),
                }
        } else {
            placing_fails::<E, S, K, R, L, N, P>(ask, read(m), f, snap, e)
        },
    }
}

/// A question had no answer after the places that a file left were unlinked.
pub open spec fn rest_fails<
    E,
    S: Fn(u128) -> Result<bool, E>,
    K: Fn(NativeKey) -> Result<bool, E>,
    R: Fn(u128) -> SnapshotRead,
    L: Fn(&str) -> Option<Vec<LiveLink>>,
    N: Fn(NativeKey) -> Vec<KnownEntry>,
    P: Fn(&str) -> Result<bool, E>,
>(
    ask: Lookups<S, K, R, L, N, P>,
    m: TranslationModel,
    f: FileModel,
    any_in_scope: bool,
    e: E,
) -> bool {
    if f.deleted {
        call_ensures(ask.known, (m.key(f.frn),), Err::<bool, E>(e))
    } else {
        ||| latest_fails::<E, S>(ask.scope, m, f, e)
        ||| exists|latest: bool| #[trigger]
            latest_is::<E, S>(ask.scope, m, f, latest) && (latest || any_in_scope || changes_links(
                f,
            )) && exists|outcome: SnapshotRead| #[trigger]
                call_ensures(ask.read, (f.frn,), outcome) && reading_fails::<E, S, K, R, L, N, P>(
                    ask,
                    m,
                    f,
                    outcome,
                    e,
                )
    }
}

/// The first question about a file that had no answer was answered with this
/// error: those before it, in the order in which [`file_settled`] asks them,
/// had one.
pub open spec fn file_fails<
    E,
    S: Fn(u128) -> Result<bool, E>,
    K: Fn(NativeKey) -> Result<bool, E>,
    R: Fn(u128) -> SnapshotRead,
    L: Fn(&str) -> Option<Vec<LiveLink>>,
    N: Fn(NativeKey) -> Vec<KnownEntry>,
    P: Fn(&str) -> Result<bool, E>,
>(ask: Lookups<S, K, R, L, N, P>, m: TranslationModel, f: FileModel, e: E) -> bool {
    ||| old_places_fail::<E, S>(ask.scope, m, f, e)
    ||| exists|flags: Seq<bool>| #[trigger]
        old_places_are::<E, S>(ask.scope, m, f, flags) && rest_fails::<E, S, K, R, L, N, P>(
            ask,
            unlinked(m, f, flags),
            f,
            flags.contains(true),
            e,
        )
}

// ----- settling a file ------------------------------------------------------

fn in_scope<E, S: Fn(u128) -> Result<bool, E>>(t: &Translation, scope: &S, dir: u128) -> (r: Result<
    bool,
    E,
>)
    requires
        forall|d: u128| call_requires(*scope, (d,)),
    ensures
        r matches Ok(yes) ==> scope_is::<E, S>(*scope, t@, dir, yes),
        r matches Err(e) ==> scope_fails::<E, S>(*scope, t@, dir, e),
{
    if t.creates(dir) {
        return Ok(true);
    }
    scope(dir)
}

fn latest_in_scope<E, S: Fn(u128) -> Result<bool, E>>(t: &Translation, scope: &S, f: &FileChange) -> (r:
    Result<bool, E>)
    requires
        forall|d: u128| call_requires(*scope, (d,)),
    ensures
        r matches Ok(yes) ==> latest_is::<E, S>(*scope, t@, f@, yes),
        r matches Err(e) ==> latest_fails::<E, S>(*scope, t@, f@, e),
{
    match &f.latest {
        None => Ok(false),
        Some((parent, _)) => in_scope(t, scope, *parent),
    }
}

/// Keep the links that are in scope.
fn keep_in_scope<E, S: Fn(u128) -> Result<bool, E>>(
    t: &Translation,
    scope: &S,
    names: Vec<LiveLink>,
) -> (r: Result<Vec<LiveLink>, E>)
    requires
        forall|d: u128| call_requires(*scope, (d,)),
    ensures
        r matches Ok(kept) ==> exists|flags: Seq<bool>| #[trigger]
            links_are::<E, S>(*scope, t@, names@, flags) && kept@ == links_in_scope(names@, flags),
        r matches Err(e) ==> links_fail::<E, S>(*scope, t@, names@, e),
{
    let ghost all = names@;
    let mut kept = names;
    let mut i: usize = 0;
    let ghost mut flags: Seq<bool> = Seq::empty();
    assert(all.take(0) =~= Seq::<LiveLink>::empty());
    assert(kept@ =~= links_in_scope(all.take(0), flags) + all.skip(0));
    while i < kept.len()
        invariant
            forall|d: u128| call_requires(*scope, (d,)),
            all == names@,
            flags.len() <= all.len(),
            i == links_in_scope(all.take(flags.len() as int), flags).len(),
            kept@ == links_in_scope(all.take(flags.len() as int), flags) + all.skip(
                flags.len() as int,
            ),
            forall|j: int|
                0 <= j < flags.len() ==> scope_is::<E, S>(
                    *scope,
                    t@,
                    all[j].parent.id,
                    #[trigger] flags[j],
                ),
        decreases all.len() - flags.len(),
    {
        let ghost k = flags.len() as int;
        assert(k < all.len());
        assert(kept@[i as int] == all[k]);
        let yes = match in_scope(t, scope, kept[i].parent.id) {
            Ok(y) => y,
            Err(e) => {
                assert(links_before::<E, S>(*scope, t@, all, flags));
                return Err(e);
            },
        };
        let ghost before = links_in_scope(all.take(k), flags);
        proof {
            let next = flags.push(yes);
            assert(all.take(k + 1).drop_last() =~= all.take(k));
            assert(next.drop_last() =~= flags);
            flags = next;
        }
        if yes {
            i += 1;
            assert(kept@ =~= before.push(all[k]) + all.skip(k + 1));
        } else {
            let _dropped = kept.remove(i);
            assert(kept@ =~= before + all.skip(k + 1));
        }
    }
    proof {
        assert(flags.len() == all.len());
        assert(all.take(flags.len() as int) =~= all);
        assert(kept@ =~= links_in_scope(all, flags));
        assert(links_are::<E, S>(*scope, t@, all, flags));
    }
    Ok(kept)
}

/// Link a file at its last place, if that is in scope.
fn place_latest<
    E,
    S: Fn(u128) -> Result<bool, E>,
    K: Fn(NativeKey) -> Result<bool, E>,
    R: Fn(u128) -> SnapshotRead,
    L: Fn(&str) -> Option<Vec<LiveLink>>,
    N: Fn(NativeKey) -> Vec<KnownEntry>,
    P: Fn(&str) -> Result<bool, E>,
>(t: &mut Translation, ask: &Lookups<S, K, R, L, N, P>, f: &FileChange, snap: &FileSnapshot) -> (r:
    Result<(), E>)
    requires
        answerable::<E, S, K, R, L, N, P>(*ask),
    ensures
        r is Ok ==> latest_placed::<E, S, K, R, L, N, P>(*ask, old(t)@, f@, *snap, final(t)@),
        r matches Err(e) ==> placing_fails::<E, S, K, R, L, N, P>(*ask, old(t)@, f@, *snap, e),
        final(t)@.stats == old(t)@.stats,
{
    let yes = match latest_in_scope(t, &ask.scope, f) {
        Ok(y) => y,
        Err(e) => {
            return Err(e);
        },
    };
    let protected: bool = match &snap.path {
        None => false,
        Some(path) => if !yes {
            false
        } else {
            match (ask.protected)(path.as_str()) {
                Ok(p) => p,
                Err(e) => {
                    return Err(e);
                },
            }
        },
    };
    assert(latest_is::<E, S>(ask.scope, old(t)@, f@, yes));
    assert(protected_is::<E, P>(ask.protected, *snap, yes, protected));
    t.link_latest(f, snap, yes, protected);
    Ok(())
}

/// Settle a file that was read.
fn settle_found<
    E,
    S: Fn(u128) -> Result<bool, E>,
    K: Fn(NativeKey) -> Result<bool, E>,
    R: Fn(u128) -> SnapshotRead,
    L: Fn(&str) -> Option<Vec<LiveLink>>,
    N: Fn(NativeKey) -> Vec<KnownEntry>,
    P: Fn(&str) -> Result<bool, E>,
>(t: &mut Translation, ask: &Lookups<S, K, R, L, N, P>, f: &FileChange, snap: FileSnapshot) -> (r:
    Result<(), E>)
    requires
        answerable::<E, S, K, R, L, N, P>(*ask),
        old(t)@.stats.has_room(),
    ensures
        r is Ok ==> read_settled::<E, S, K, R, L, N, P>(
            *ask,
            old(t)@,
            f@,
            SnapshotRead::Found(snap),
            final(t)@,
        ),
        r matches Err(e) ==> reading_fails::<E, S, K, R, L, N, P>(
            *ask,
            old(t)@,
            f@,
            SnapshotRead::Found(snap),
            e,
        ),
        r is Ok ==> counted_at_most_once(old(t)@.stats, final(t)@.stats),
{
    let ghost m = t@;
    let path = match t.snapshot_taken(f, &snap) {
        AfterSnapshot::LinkLatest => {
            return place_latest(t, ask, f, &snap);
        },
        AfterSnapshot::ResyncLinks { path } => path,
    };
    assert(t@ == read(m));
    let names = (ask.links)(path.as_str());
    let ghost listed = names;
    assert(links_listed(ask.links, snap, listed));
    match names {
        None => place_latest(t, ask, f, &snap),
        Some(v) => {
            let kept = match keep_in_scope(t, &ask.scope, v) {
                Ok(k) => k,
                Err(e) => {
                    return Err(e);
                },
            };
            let entries = (ask.entries)(snap.native);
            t.resync_links(to_snapshot(&snap), &kept, &entries);
            proof {
                let flags = choose|flags: Seq<bool>| #[trigger]
                    links_are::<E, S>(ask.scope, read(m), v@, flags) && kept@ == links_in_scope(
                        v@,
                        flags,
                    );
                assert(links_are::<E, S>(ask.scope, read(m), v@, flags));
                assert(call_ensures(ask.entries, (snap.native,), entries));
                assert(t@ == resynced(read(m), snap, links_in_scope(v@, flags), entries@));
                assert(names_resynced::<E, S, K, R, L, N, P>(*ask, read(m), snap, v@, t@));
            }
            Ok(())
        },
    }
}

/// Every counter grew by at most one.
spec fn counted_at_most_once(a: TranslateStats, b: TranslateStats) -> bool {
    &&& b.records == a.records
    &&& b.files == a.files
    &&& b.snapshots <= a.snapshots + 1
    &&& b.vanished <= a.vanished + 1
    &&& b.out_of_scope <= a.out_of_scope + 1
    &&& b.link_resyncs <= a.link_resyncs + 1
    &&& b.io_errors <= a.io_errors + 1
    &&& b.unreadable <= a.unreadable + 1
}

fn settle_file<
    E,
    S: Fn(u128) -> Result<bool, E>,
    K: Fn(NativeKey) -> Result<bool, E>,
    R: Fn(u128) -> SnapshotRead,
    L: Fn(&str) -> Option<Vec<LiveLink>>,
    N: Fn(NativeKey) -> Vec<KnownEntry>,
    P: Fn(&str) -> Result<bool, E>,
>(t: &mut Translation, ask: &Lookups<S, K, R, L, N, P>, f: &FileChange) -> (r: Result<(), E>)
    requires
        answerable::<E, S, K, R, L, N, P>(*ask),
        old(t)@.stats.has_room(),
    ensures
        r is Ok ==> file_settled::<E, S, K, R, L, N, P>(*ask, old(t)@, f@, final(t)@),
        r matches Err(e) ==> file_fails::<E, S, K, R, L, N, P>(*ask, old(t)@, f@, e),
        r is Ok ==> counted_at_most_once(old(t)@.stats, final(t)@.stats),
{
    let ghost m0 = t@;
    let mut flags: Vec<bool> = Vec::new();
    let mut i: usize = 0;
    while i < f.old_names.len()
        invariant
            0 <= i <= f.old_names.len(),
            t@ == m0,
            answerable::<E, S, K, R, L, N, P>(*ask),
            flags.len() == i,
            forall|j: int|
                0 <= j < i ==> scope_is::<E, S>(
                    ask.scope,
                    m0,
                    f@.old_names[j].0,
                    #[trigger] flags@[j],
                ),
        decreases f.old_names.len() - i,
    {
        assert(f@.old_names[i as int].0 == f.old_names@[i as int].0);
        match in_scope(t, &ask.scope, f.old_names[i].0) {
            Ok(y) => {
                flags.push(y);
            },
            Err(e) => {
                assert(old_places_before::<E, S>(ask.scope, m0, f@, flags@));
                return Err(e);
            },
        }
        i += 1;
    }
    assert(old_places_are::<E, S>(ask.scope, m0, f@, flags@));
    let any = t.unlink_old_names(f, &flags);
    let ghost m = t@;
    assert(m == unlinked(m0, f@, flags@));
    if f.deleted {
        let lookup = (ask.known)(t.key(f.frn));
        let ghost answer = lookup;
        return match t.delete(f, lookup) {
            Err(e) => {
                assert(rest_fails::<E, S, K, R, L, N, P>(*ask, m, f@, flags@.contains(true), e));
                Err(e)
            },
            Ok(()) => {
                proof {
                    let known = answer->Ok_0;
                    assert(call_ensures(ask.known, (m.key(f@.frn),), Ok::<bool, E>(known)));
                    assert(t@ == deleted(m, f@, known));
                    assert(rest_settled::<E, S, K, R, L, N, P>(
                        *ask,
                        m,
                        f@,
                        flags@.contains(true),
                        t@,
                    ));
                }
                Ok(())
            },
        };
    }
    let latest = match latest_in_scope(t, &ask.scope, f) {
        Ok(y) => y,
        Err(e) => {
            assert(rest_fails::<E, S, K, R, L, N, P>(*ask, m, f@, flags@.contains(true), e));
            return Err(e);
        },
    };
    assert(latest_is::<E, S>(ask.scope, m, f@, latest));
    if !t.wants_snapshot(f, latest, any) {
        assert(rest_settled::<E, S, K, R, L, N, P>(*ask, m, f@, flags@.contains(true), t@));
        return Ok(());
    }
    let outcome = (ask.read)(f.frn);
    let ghost answer = outcome;
    assert(call_ensures(ask.read, (f@.frn,), answer));
    match outcome {
        SnapshotRead::Gone => {
            let lookup = (ask.known)(t.key(f.frn));
            let ghost said = lookup;
            match t.vanish(f, lookup) {
                Err(e) => {
                    assert(reading_fails::<E, S, K, R, L, N, P>(*ask, m, f@, answer, e));
                    assert(rest_fails::<E, S, K, R, L, N, P>(*ask, m, f@, flags@.contains(true), e));
                    return Err(e);
                },
                Ok(()) => {},
            }
            proof {
                let known = said->Ok_0;
                assert(call_ensures(ask.known, (m.key(f@.frn),), Ok::<bool, E>(known)));
                assert(t@ == vanished(m, f@, known));
            }
        },
        SnapshotRead::Failed(kind) => {
            t.snapshot_failed(kind);
        },
        SnapshotRead::Found(snap) => {
            match settle_found(t, ask, f, snap) {
                Err(e) => {
                    assert(reading_fails::<E, S, K, R, L, N, P>(*ask, m, f@, answer, e));
                    assert(rest_fails::<E, S, K, R, L, N, P>(*ask, m, f@, flags@.contains(true), e));
                    return Err(e);
                },
                Ok(()) => {},
            }
        },
    }
    assert(read_settled::<E, S, K, R, L, N, P>(*ask, m, f@, answer, t@));
    assert(rest_settled::<E, S, K, R, L, N, P>(*ask, m, f@, flags@.contains(true), t@));
    Ok(())
}

// ----- a batch --------------------------------------------------------------

/// A translation before its first file.
pub open spec fn batch_start(volume_serial: u64, records: nat, files: nat) -> TranslationModel {
    TranslationModel {
        volume_serial,
        events: Seq::empty(),
        batch_dirs: Set::empty(),
        stats: TranslateStats {
            records: records as u64,
            files: files as u64,
            ..TranslateStats::zero()
        },
    }
}

/// The states of a translation: it starts empty, and each file takes it from
/// one to the next.
pub open spec fn batch_settled<
    E,
    S: Fn(u128) -> Result<bool, E>,
    K: Fn(NativeKey) -> Result<bool, E>,
    R: Fn(u128) -> SnapshotRead,
    L: Fn(&str) -> Option<Vec<LiveLink>>,
    N: Fn(NativeKey) -> Vec<KnownEntry>,
    P: Fn(&str) -> Result<bool, E>,
>(
    ask: Lookups<S, K, R, L, N, P>,
    volume_serial: u64,
    records: nat,
    files: Seq<FileModel>,
    states: Seq<TranslationModel>,
) -> bool {
    &&& states.len() == files.len() + 1
    &&& states[0] == batch_start(volume_serial, records, files.len())
    &&& forall|i: int|
        0 <= i < files.len() ==> file_settled::<E, S, K, R, L, N, P>(
            ask,
            states[i],
            #[trigger] files[i],
            states[i + 1],
        )
}

/// The states of a translation up to a file of which a question had no answer:
/// every file before it was settled.
pub open spec fn batch_fails<
    E,
    S: Fn(u128) -> Result<bool, E>,
    K: Fn(NativeKey) -> Result<bool, E>,
    R: Fn(u128) -> SnapshotRead,
    L: Fn(&str) -> Option<Vec<LiveLink>>,
    N: Fn(NativeKey) -> Vec<KnownEntry>,
    P: Fn(&str) -> Result<bool, E>,
>(
    ask: Lookups<S, K, R, L, N, P>,
    volume_serial: u64,
    records: nat,
    files: Seq<FileModel>,
    states: Seq<TranslationModel>,
    e: E,
) -> bool {
    &&& 0 < states.len() <= files.len()
    &&& states[0] == batch_start(volume_serial, records, files.len())
    &&& forall|i: int|
        0 <= i < states.len() - 1 ==> file_settled::<E, S, K, R, L, N, P>(
            ask,
            states[i],
            #[trigger] files[i],
            states[i + 1],
        )
    &&& file_fails::<E, S, K, R, L, N, P>(ask, states.last(), files[states.len() - 1], e)
}

/// A batch starts with nothing but what it is given: its records and its files
/// are counted, and nothing was done yet.
pub proof fn law_a_batch_starts_empty(volume_serial: u64, records: nat, files: nat)
    requires
        records <= u64::MAX,
        files <= u64::MAX,
    ensures
        ({
            let m = batch_start(volume_serial, records, files);
            &&& m.events.len() == 0 && m.volume_serial == volume_serial
            &&& m.stats.records == records && m.stats.files == files
            &&& m.stats.snapshots == 0 && m.stats.vanished == 0 && m.stats.out_of_scope == 0
            &&& m.stats.link_resyncs == 0 && m.stats.io_errors == 0 && m.stats.unreadable == 0
            &&& forall|d: u128| !(#[trigger] m.batch_dirs.contains(d))
        }),
{
}

/// A question that was answered with this error.
pub open spec fn some_question_fails<
    E,
    S: Fn(u128) -> Result<bool, E>,
    K: Fn(NativeKey) -> Result<bool, E>,
    R: Fn(u128) -> SnapshotRead,
    L: Fn(&str) -> Option<Vec<LiveLink>>,
    N: Fn(NativeKey) -> Vec<KnownEntry>,
    P: Fn(&str) -> Result<bool, E>,
>(ask: Lookups<S, K, R, L, N, P>, e: E) -> bool {
    ||| exists|dir: u128| #[trigger] call_ensures(ask.scope, (dir,), Err::<bool, E>(e))
    ||| exists|key: NativeKey| #[trigger] call_ensures(ask.known, (key,), Err::<bool, E>(e))
    ||| exists|t: &str| #[trigger] call_ensures(ask.protected, (t,), Err::<bool, E>(e))
}

/// A batch fails with the error of a question that failed, and for no other
/// reason.
pub proof fn law_only_a_failed_question_fails_a_batch<
    E,
    S: Fn(u128) -> Result<bool, E>,
    K: Fn(NativeKey) -> Result<bool, E>,
    R: Fn(u128) -> SnapshotRead,
    L: Fn(&str) -> Option<Vec<LiveLink>>,
    N: Fn(NativeKey) -> Vec<KnownEntry>,
    P: Fn(&str) -> Result<bool, E>,
>(
    ask: Lookups<S, K, R, L, N, P>,
    volume_serial: u64,
    records: nat,
    files: Seq<FileModel>,
    states: Seq<TranslationModel>,
    e: E,
)
    requires
        batch_fails::<E, S, K, R, L, N, P>(ask, volume_serial, records, files, states, e),
    ensures
        some_question_fails::<E, S, K, R, L, N, P>(ask, e),
{
    let m = states.last();
    let f = files[states.len() - 1];
    if old_places_fail::<E, S>(ask.scope, m, f, e) {
        let flags = choose|flags: Seq<bool>| #[trigger]
            old_places_before::<E, S>(ask.scope, m, f, flags) && scope_fails(
                ask.scope,
                m,
                f.old_names[flags.len() as int].0,
                e,
            );
        assert(call_ensures(
            ask.scope,
            (f.old_names[flags.len() as int].0,),
            Err::<bool, E>(e),
        ));
    } else {
        let flags = choose|flags: Seq<bool>| #[trigger]
            old_places_are::<E, S>(ask.scope, m, f, flags) && rest_fails::<E, S, K, R, L, N, P>(
                ask,
                unlinked(m, f, flags),
                f,
                flags.contains(true),
                e,
            );
        lemma_rest_fails(ask, unlinked(m, f, flags), f, flags.contains(true), e);
    }
}

proof fn lemma_rest_fails<
    E,
    S: Fn(u128) -> Result<bool, E>,
    K: Fn(NativeKey) -> Result<bool, E>,
    R: Fn(u128) -> SnapshotRead,
    L: Fn(&str) -> Option<Vec<LiveLink>>,
    N: Fn(NativeKey) -> Vec<KnownEntry>,
    P: Fn(&str) -> Result<bool, E>,
>(ask: Lookups<S, K, R, L, N, P>, m: TranslationModel, f: FileModel, any_in_scope: bool, e: E)
    requires
        rest_fails::<E, S, K, R, L, N, P>(ask, m, f, any_in_scope, e),
    ensures
        some_question_fails::<E, S, K, R, L, N, P>(ask, e),
{
    if f.deleted {
        assert(call_ensures(ask.known, (m.key(f.frn),), Err::<bool, E>(e)));
    } else if latest_fails::<E, S>(ask.scope, m, f, e) {
        let place = f.latest->0;
        assert(call_ensures(ask.scope, (place.0,), Err::<bool, E>(e)));
    } else {
        let latest = choose|latest: bool| #[trigger]
            latest_is::<E, S>(ask.scope, m, f, latest) && (latest || any_in_scope || changes_links(
                f,
            )) && exists|outcome: SnapshotRead| #[trigger]
                call_ensures(ask.read, (f.frn,), outcome) && reading_fails::<E, S, K, R, L, N, P>(
                    ask,
                    m,
                    f,
                    outcome,
                    e,
                );
        let outcome = choose|outcome: SnapshotRead| #[trigger]
            call_ensures(ask.read, (f.frn,), outcome) && reading_fails::<E, S, K, R, L, N, P>(
                ask,
                m,
                f,
                outcome,
                e,
            );
        lemma_reading_fails(ask, m, f, outcome, e);
    }
}

proof fn lemma_reading_fails<
    E,
    S: Fn(u128) -> Result<bool, E>,
    K: Fn(NativeKey) -> Result<bool, E>,
    R: Fn(u128) -> SnapshotRead,
    L: Fn(&str) -> Option<Vec<LiveLink>>,
    N: Fn(NativeKey) -> Vec<KnownEntry>,
    P: Fn(&str) -> Result<bool, E>,
>(ask: Lookups<S, K, R, L, N, P>, m: TranslationModel, f: FileModel, outcome: SnapshotRead, e: E)
    requires
        reading_fails::<E, S, K, R, L, N, P>(ask, m, f, outcome, e),
    ensures
        some_question_fails::<E, S, K, R, L, N, P>(ask, e),
{
    match outcome {
        SnapshotRead::Gone => {
            assert(call_ensures(ask.known, (m.key(f.frn),), Err::<bool, E>(e)));
        },
        SnapshotRead::Failed(_) => {},
        SnapshotRead::Found(snap) => {
            if placing_fails::<E, S, K, R, L, N, P>(ask, read(m), f, snap, e) {
                lemma_placing_fails(ask, read(m), f, snap, e);
            } else {
                let names = choose|names: Option<Vec<LiveLink>>| #[trigger]
                    links_listed(ask.links, snap, names) && match names {
                        Some(v) => links_fail::<E, S>(ask.scope, read(m), v@, e),
                        None => placing_fails::<E, S, K, R, L, N, P>(ask, read(m), f, snap, e),
                    };
                let v = names->0;
                let flags = choose|flags: Seq<bool>| #[trigger]
                    links_before::<E, S>(ask.scope, read(m), v@, flags) && scope_fails(
                        ask.scope,
                        read(m),
                        v@[flags.len() as int].parent.id,
                        e,
                    );
                assert(call_ensures(
                    ask.scope,
                    (v@[flags.len() as int].parent.id,),
                    Err::<bool, E>(e),
                ));
            }
        },
    }
}

proof fn lemma_placing_fails<
    E,
    S: Fn(u128) -> Result<bool, E>,
    K: Fn(NativeKey) -> Result<bool, E>,
    R: Fn(u128) -> SnapshotRead,
    L: Fn(&str) -> Option<Vec<LiveLink>>,
    N: Fn(NativeKey) -> Vec<KnownEntry>,
    P: Fn(&str) -> Result<bool, E>,
>(ask: Lookups<S, K, R, L, N, P>, m: TranslationModel, f: FileModel, snap: FileSnapshot, e: E)
    requires
        placing_fails::<E, S, K, R, L, N, P>(ask, m, f, snap, e),
    ensures
        some_question_fails::<E, S, K, R, L, N, P>(ask, e),
{
    if latest_fails::<E, S>(ask.scope, m, f, e) {
        let place = f.latest->0;
        assert(call_ensures(ask.scope, (place.0,), Err::<bool, E>(e)));
    } else {
        let t = choose|t: &str| #[trigger]
            call_ensures(ask.protected, (t,), Err::<bool, E>(e)) && t@ == snap.path->0@;
        assert(call_ensures(ask.protected, (t,), Err::<bool, E>(e)));
    }
}

/// Translate a batch of journal records into change events.
///
/// Both live watching and overlap replay must reject partial snapshots: an
/// empty event list is not proof that an unread file is irrelevant.
pub fn translate<
    E,
    S: Fn(u128) -> Result<bool, E>,
    K: Fn(NativeKey) -> Result<bool, E>,
    R: Fn(u128) -> SnapshotRead,
    L: Fn(&str) -> Option<Vec<LiveLink>>,
    N: Fn(NativeKey) -> Vec<KnownEntry>,
    P: Fn(&str) -> Result<bool, E>,
>(ask: &Lookups<S, K, R, L, N, P>, volume_serial: u64, records: &Vec<UsnRecord>) -> (r: Result<
    (Vec<ChangeEvent>, TranslateStats),
    TranslateError<E>,
>)
    requires
        answerable::<E, S, K, R, L, N, P>(*ask),
    ensures
        match r {
            Ok((events, stats)) => exists|states: Seq<TranslationModel>|
                {
                    &&& #[trigger] batch_settled::<E, S, K, R, L, N, P>(
                        *ask,
                        volume_serial,
                        records@.len(),
                        coalesced(record_models(records@)),
                        states,
                    )
                    &&& event_models(events@) == states.last().events
                    &&& stats == states.last().stats
                    &&& stats.io_errors == 0
                },
            Err(TranslateError::Incomplete(text)) => exists|states: Seq<TranslationModel>|
                {
                    &&& #[trigger] batch_settled::<E, S, K, R, L, N, P>(
                        *ask,
                        volume_serial,
                        records@.len(),
                        coalesced(record_models(records@)),
                        states,
                    )
                    &&& states.last().stats.io_errors > 0
                    &&& text@ == incomplete_text(states.last().stats.io_errors)
                },
            Err(TranslateError::Lookup(e)) => exists|states: Seq<TranslationModel>| #[trigger]
                batch_fails::<E, S, K, R, L, N, P>(
                    *ask,
                    volume_serial,
                    records@.len(),
                    coalesced(record_models(records@)),
                    states,
                    e,
                ),
        },
{
    let files = coalesce(records);
    let ghost models = file_models(files@);
    let mut t = Translation::new(volume_serial, records.len() as u64, files.len() as u64);
    let ghost mut states: Seq<TranslationModel> = seq![t@];
    let mut i: usize = 0;
    assert(models.len() == files.len());
    while i < files.len()
        invariant
            0 <= i <= files.len(),
            answerable::<E, S, K, R, L, N, P>(*ask),
            models == file_models(files@),
            models == coalesced(record_models(records@)),
            models.len() == files.len(),
            states.len() == i + 1,
            states.last() == t@,
            states[0] == batch_start(volume_serial, records@.len(), models.len()),
            forall|j: int|
                0 <= j < i ==> file_settled::<E, S, K, R, L, N, P>(
                    *ask,
                    states[j],
                    #[trigger] models[j],
                    states[j + 1],
                ),
            t@.stats.snapshots <= i,
            t@.stats.vanished <= i,
            t@.stats.out_of_scope <= i,
            t@.stats.link_resyncs <= i,
            t@.stats.io_errors <= i,
            t@.stats.unreadable <= i,
        decreases files.len() - i,
    {
        match settle_file(&mut t, ask, &files[i]) {
            Err(e) => {
                assert(models[i as int] == files@[i as int]@);
                let failure = TranslateError::Lookup(e);
                assert(failure matches TranslateError::Lookup(x) && batch_fails::<
                    E,
                    S,
                    K,
                    R,
                    L,
                    N,
                    P,
                >(*ask, volume_serial, records@.len(), models, states, x));
                return Err(failure);
            },
            Ok(()) => {},
        }
        proof {
            let before = states;
            states = states.push(t@);
            assert(models[i as int] == files@[i as int]@);
            assert forall|j: int| 0 <= j < i + 1 implies file_settled::<E, S, K, R, L, N, P>(
                *ask,
                states[j],
                #[trigger] models[j],
                states[j + 1],
            ) by {
                if j < i {
                    assert(states[j] == before[j] && states[j + 1] == before[j + 1]);
                }
            }
        }
        i += 1;
    }
    assert(batch_settled::<E, S, K, R, L, N, P>(
        *ask,
        volume_serial,
        records@.len(),
        models,
        states,
    ));
    match t.finish() {
        Ok(x) => Ok(x),
        Err(e) => Err(TranslateError::Incomplete(e)),
    }
}

} // verus!
