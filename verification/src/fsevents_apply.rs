//! FSEvents path notification → [`ChangeEvent`] translation.
//!
//! A USN record describes a change; an FSEvents notification only names a path
//! that changed at least once. Translation therefore re-reads the filesystem
//! and lets it, not the notification, say what is true now:
//!
//! - a path that still exists becomes a `Link` under its parent's identity,
//!   plus `Unlink`s for any catalog entry that used to name the same object
//!   somewhere else, which is how a rename or a move is recognised without a
//!   paired "old name" record;
//! - a path that is gone is resolved against the catalog and becomes an
//!   `Unlink` (a file may still have other links) or a `Delete` (a directory
//!   takes its subtree with it);
//! - a directory that the catalog has never seen is enumerated, because a
//!   subtree *moved into* the tree generates one notification for its new root
//!   and none for the children that came with it.
//!
//! Notifications are processed shallowest-first so a parent is linked before
//! the children that need its identity.

use crate::changes::{
    add_native, event_models, holds_native, lemma_event_push, names_after_all, ChangeEvent,
    EventModel, Names, NativeKey, ObjectKind, ObjectSnapshot, ScanErrorKind,
};
use crate::domain::UnixNanos;
use crate::key_list::{
    copy_keys, lemma_text_lt_irreflexive, lemma_text_lt_total, lemma_text_lt_transitive, rank,
    same_keys, text_lt, texts, Rank,
};
use crate::picks::{lemma_picks_next, lemma_picks_none, lemma_picks_short, picks, rising};
use crate::text::same;
use vstd::prelude::*;

verus! {

/// Entries a single batch may enumerate on behalf of moved-in subtrees before
/// the batch is abandoned in favour of a reconciliation scan. A move of an
/// entire home directory should become one scan, not one enormous batch.
pub const MAX_EXPANDED_ENTRIES: usize = 50_000;

#[derive(Debug, Clone, Copy, PartialEq, Eq, Structural)]
pub struct TranslateStats {
    pub paths: u64,
    pub snapshots: u64,
    pub removed: u64,
    pub relinked: u64,
    pub expanded_directories: u64,
    pub out_of_scope: u64,
    /// Failures that will not resolve by trying again (denied, malformed).
    pub io_errors: u64,
    /// Failures worth retrying. The cursor must not advance past a batch that
    /// hit one, or a change would be durably acknowledged without ever having
    /// been applied.
    pub retryable_errors: u64,
    /// The batch touched more than one translation can safely describe; the
    /// caller must reconcile by enumeration instead of applying it.
    pub needs_rescan: bool,
}

impl TranslateStats {
    pub open spec fn zero() -> TranslateStats {
        TranslateStats {
            paths: 0,
            snapshots: 0,
            removed: 0,
            relinked: 0,
            expanded_directories: 0,
            out_of_scope: 0,
            io_errors: 0,
            retryable_errors: 0,
            needs_rescan: false,
        }
    }

    /// Whether every counter can still be raised by `n`.
    pub open spec fn has_room(self, n: nat) -> bool {
        &&& self.snapshots + n <= u64::MAX
        &&& self.removed + n <= u64::MAX
        &&& self.relinked + n <= u64::MAX
        &&& self.expanded_directories + n <= u64::MAX
        &&& self.out_of_scope + n <= u64::MAX
        &&& self.io_errors + n <= u64::MAX
        &&& self.retryable_errors + n <= u64::MAX
    }
}

impl Default for TranslateStats {
    fn default() -> (r: TranslateStats)
        ensures
            r == TranslateStats::zero(),
    {
        TranslateStats {
            paths: 0,
            snapshots: 0,
            removed: 0,
            relinked: 0,
            expanded_directories: 0,
            out_of_scope: 0,
            io_errors: 0,
            retryable_errors: 0,
            needs_rescan: false,
        }
    }
}

// ----- paths ----------------------------------------------------------------

/// A path as its components.
#[derive(Debug)]
pub struct PathParts {
    pub parts: Vec<String>,
}

impl View for PathParts {
    type V = Seq<Seq<char>>;

    open spec fn view(&self) -> Seq<Seq<char>> {
        texts(self.parts@)
    }
}

/// Component by component order.
pub open spec fn parts_lt(a: Seq<Seq<char>>, b: Seq<Seq<char>>) -> bool
    decreases a.len(),
{
    if b.len() == 0 {
        false
    } else if a.len() == 0 {
        true
    } else if a[0] != b[0] {
        text_lt(a[0], b[0])
    } else {
        parts_lt(a.skip(1), b.skip(1))
    }
}

/// Shallowest first, then component by component.
pub open spec fn shallower(a: Seq<Seq<char>>, b: Seq<Seq<char>>) -> bool {
    a.len() < b.len() || (a.len() == b.len() && parts_lt(a, b))
}

/// Whether `p` is `root` or lies below it.
pub open spec fn below(root: Seq<Seq<char>>, p: Seq<Seq<char>>) -> bool {
    root.len() <= p.len() && p.take(root.len() as int) == root
}

proof fn lemma_parts_lt_irreflexive(a: Seq<Seq<char>>)
    ensures
        !parts_lt(a, a),
    decreases a.len(),
{
    if a.len() > 0 {
        lemma_parts_lt_irreflexive(a.skip(1));
    }
}

proof fn lemma_parts_lt_transitive(a: Seq<Seq<char>>, b: Seq<Seq<char>>, c: Seq<Seq<char>>)
    requires
        parts_lt(a, b),
        parts_lt(b, c),
    ensures
        parts_lt(a, c),
    decreases a.len(),
{
    if a.len() > 0 && b.len() > 0 && c.len() > 0 {
        if a[0] == b[0] && b[0] == c[0] {
            lemma_parts_lt_transitive(a.skip(1), b.skip(1), c.skip(1));
        } else if a[0] != b[0] && b[0] != c[0] {
            lemma_text_lt_transitive(a[0], b[0], c[0]);
            lemma_text_lt_irreflexive(a[0]);
        }
    }
}

proof fn lemma_parts_lt_total(a: Seq<Seq<char>>, b: Seq<Seq<char>>)
    ensures
        a == b || parts_lt(a, b) || parts_lt(b, a),
    decreases a.len(),
{
    if a.len() > 0 && b.len() > 0 {
        if a[0] == b[0] {
            lemma_parts_lt_total(a.skip(1), b.skip(1));
            if a.skip(1) == b.skip(1) {
                assert(a =~= seq![a[0]] + a.skip(1));
                assert(b =~= seq![b[0]] + b.skip(1));
            }
        } else {
            lemma_text_lt_total(a[0], b[0]);
        }
    } else if a.len() == 0 && b.len() == 0 {
        assert(a =~= b);
    }
}

pub proof fn lemma_shallower_order(a: Seq<Seq<char>>, b: Seq<Seq<char>>, c: Seq<Seq<char>>)
    ensures
        !shallower(a, a),
        shallower(a, b) && shallower(b, c) ==> shallower(a, c),
        a == b || shallower(a, b) || shallower(b, a),
{
    lemma_parts_lt_irreflexive(a);
    lemma_parts_lt_total(a, b);
    if parts_lt(a, b) && parts_lt(b, c) {
        lemma_parts_lt_transitive(a, b, c);
    }
}

/// How two paths stand in processing order.
pub open spec fn path_rank_of(a: Seq<Seq<char>>, b: Seq<Seq<char>>) -> Rank {
    if a == b {
        Rank::Same
    } else if shallower(a, b) {
        Rank::Before
    } else {
        Rank::After
    }
}

/// Of two paths one is looked at before the other exactly if the other is looked
/// at after it; a path is looked at before all that lie below it.
pub proof fn law_paths_have_one_order(a: Seq<Seq<char>>, b: Seq<Seq<char>>)
    ensures
        path_rank_of(a, b) == Rank::Same <==> a == b,
        path_rank_of(a, b) == Rank::Before <==> path_rank_of(b, a) == Rank::After,
        a.len() < b.len() ==> path_rank_of(a, b) == Rank::Before,
{
    lemma_shallower_order(a, b, a);
    lemma_shallower_order(b, a, b);
}

fn path_rank(a: &PathParts, b: &PathParts) -> (r: Rank)
    ensures
        r == path_rank_of(a@, b@),
{
    if a.parts.len() < b.parts.len() {
        assert(a@.len() != b@.len());
        return Rank::Before;
    }
    if a.parts.len() > b.parts.len() {
        assert(a@.len() != b@.len());
        return Rank::After;
    }
    let mut i: usize = 0;
    assert(a@.skip(0) =~= a@);
    assert(b@.skip(0) =~= b@);
    while i < a.parts.len()
        invariant
            0 <= i <= a.parts.len() == b.parts.len(),
            parts_lt(a@, b@) == parts_lt(a@.skip(i as int), b@.skip(i as int)),
            (a@ == b@) == (a@.skip(i as int) == b@.skip(i as int)),
        decreases a.parts.len() - i,
    {
        let ghost p = a@.skip(i as int);
        let ghost q = b@.skip(i as int);
        assert(p[0] == a.parts@[i as int]@ && q[0] == b.parts@[i as int]@);
        match rank(&a.parts[i], &b.parts[i]) {
            Rank::Before => {
                proof {
                    lemma_text_lt_irreflexive(p[0]);
                }
                return Rank::Before;
            },
            Rank::After => {
                proof {
                    lemma_text_lt_total(p[0], q[0]);
                }
                return Rank::After;
            },
            Rank::Same => {},
        }
        assert(p.skip(1) =~= a@.skip(i + 1));
        assert(q.skip(1) =~= b@.skip(i + 1));
        assert((p == q) == (p.skip(1) == q.skip(1))) by {
            assert(p =~= seq![p[0]] + p.skip(1));
            assert(q =~= seq![q[0]] + q.skip(1));
        }
        i += 1;
    }
    assert(a@.skip(i as int) =~= b@.skip(i as int));
    Rank::Same
}

/// Whether a path is the root or lies below it.
pub fn is_below(root: &PathParts, p: &PathParts) -> (r: bool)
    ensures
        r == below(root@, p@),
{
    if p.parts.len() < root.parts.len() {
        return false;
    }
    let mut i: usize = 0;
    while i < root.parts.len()
        invariant
            0 <= i <= root.parts.len() <= p.parts.len(),
            forall|j: int| 0 <= j < i ==> root@[j] == p@[j],
        decreases root.parts.len() - i,
    {
        if !same(&root.parts[i], &p.parts[i]) {
            assert(p@.take(root@.len() as int)[i as int] != root@[i as int]);
            return false;
        }
        assert(root@[i as int] == p@[i as int]);
        i += 1;
    }
    assert(p@.take(root@.len() as int) =~= root@);
    true
}

/// A path lies below a root exactly if it is the root's components and then
/// any others; a sibling whose name merely begins alike does not.
pub proof fn law_below_goes_by_whole_components(root: Seq<Seq<char>>, p: Seq<Seq<char>>)
    ensures
        below(root, p) <==> exists|rest: Seq<Seq<char>>| p == #[trigger] (root + rest),
{
    if below(root, p) {
        let rest = p.skip(root.len() as int);
        assert(p =~= root + rest);
    }
    if exists|rest: Seq<Seq<char>>| p == #[trigger] (root + rest) {
        let rest = choose|rest: Seq<Seq<char>>| p == #[trigger] (root + rest);
        assert(p.take(root.len() as int) =~= root);
    }
}

/// The paths that a list holds.
pub open spec fn path_models(s: Seq<PathParts>) -> Seq<Seq<Seq<char>>> {
    Seq::new(s.len(), |i: int| s[i]@)
}

/// How many paths lie outside the root.
pub open spec fn outside_count(root: Seq<Seq<char>>, s: Seq<Seq<Seq<char>>>) -> nat
    decreases s.len(),
{
    if s.len() == 0 {
        0
    } else {
        outside_count(root, s.drop_last()) + (if below(root, s.last()) {
            0nat
        } else {
            1nat
        })
    }
}

/// Exactly the paths that are not below the root are counted as outside.
pub proof fn law_each_path_outside_is_counted(root: Seq<Seq<char>>, s: Seq<Seq<Seq<char>>>)
    ensures
        exists|pick: Seq<int>|
            {
                &&& #[trigger] rising(pick)
                &&& picks(pick, s.len() as int, |i: int| !below(root, s[i]))
                &&& outside_count(root, s) == pick.len()
            },
    decreases s.len(),
{
    let outside = |i: int| !below(root, s[i]);
    if s.len() == 0 {
        lemma_picks_none(outside);
        assert(rising(Seq::<int>::empty()));
    } else {
        let init = s.drop_last();
        let n = init.len() as int;
        law_each_path_outside_is_counted(root, init);
        let before = choose|pick: Seq<int>|
            {
                &&& #[trigger] rising(pick)
                &&& picks(pick, init.len() as int, |i: int| !below(root, init[i]))
                &&& outside_count(root, init) == pick.len()
            };
        let old = |i: int| !below(root, init[i]);
        assert(picks(before, n, old));
        assert(picks(before, n, outside)) by {
            assert forall|a: int| 0 <= a < before.len() implies 0 <= #[trigger] before[a] < n
                && outside(before[a]) by {
                assert(old(before[a]));
            }
            assert forall|i: int| 0 <= i < n && #[trigger] outside(i) implies before.contains(i) by {
                assert(old(i));
            }
        }
        lemma_picks_next(before, n, outside);
        let pick = if outside(n) {
            before.push(n)
        } else {
            before
        };
        assert(rising(pick));
    }
}

pub open spec fn in_order(s: Seq<Seq<Seq<char>>>) -> bool {
    forall|i: int, j: int| 0 <= i < j < s.len() ==> shallower(#[trigger] s[i], #[trigger] s[j])
}

/// The paths of a batch that are to be looked at: those below the root, each
/// once, shallowest first. The root's own entry belongs to the source, not to
/// a parent inside it. The second part counts the paths outside the root.
pub fn ordered_changes(root: &PathParts, changes: &Vec<PathParts>) -> (r: (Vec<PathParts>, u64))
    ensures
        in_order(path_models(r.0@)),
        forall|p: Seq<Seq<char>>| #[trigger]
            path_models(r.0@).contains(p) <==> path_models(changes@).contains(p) && below(
                root@,
                p,
            ) && p != root@,
        r.1 == outside_count(root@, path_models(changes@)),
{
    let mut out: Vec<PathParts> = Vec::new();
    let mut outside: u64 = 0;
    let ghost all = path_models(changes@);
    let mut i: usize = 0;
    while i < changes.len()
        invariant
            0 <= i <= changes.len(),
            all == path_models(changes@),
            in_order(path_models(out@)),
            outside <= i,
            outside == outside_count(root@, all.take(i as int)),
            forall|p: Seq<Seq<char>>| #[trigger]
                path_models(out@).contains(p) <==> all.take(i as int).contains(p) && below(
                    root@,
                    p,
                ) && p != root@,
        decreases changes.len() - i,
    {
        let ghost prior = all.take(i as int);
        let ghost now = all.take(i + 1);
        let ghost before = path_models(out@);
        let c = &changes[i];
        proof {
            assert(now =~= prior.push(c@));
            assert(now.drop_last() =~= prior);
            assert forall|p: Seq<Seq<char>>| now.contains(p) == (prior.contains(p) || p == c@) by {
                if now.contains(p) {
                    let k = now.index_of(p);
                    if k < prior.len() {
                        assert(prior[k] == p);
                    }
                }
                if prior.contains(p) {
                    let k = prior.index_of(p);
                    assert(now[k] == p);
                }
                assert(now[prior.len() as int] == c@);
            }
        }
        if !is_below(root, c) {
            outside = outside + 1;
        } else if same_keys(&c.parts, &root.parts) {
        } else {
            insert_path(&mut out, c);
        }
        i += 1;
    }
    assert(all.take(i as int) =~= all);
    (out, outside)
}

/// Add a path to a list in processing order, unless it is there already.
fn insert_path(list: &mut Vec<PathParts>, path: &PathParts)
    requires
        in_order(path_models(old(list)@)),
    ensures
        in_order(path_models(final(list)@)),
        forall|p: Seq<Seq<char>>| #[trigger]
            path_models(final(list)@).contains(p) <==> path_models(old(list)@).contains(p) || p
                == path@,
{
    let ghost before = path_models(list@);
    let mut i: usize = 0;
    while i < list.len()
        invariant
            0 <= i <= list.len(),
            list@ == old(list)@,
            before == path_models(list@),
            in_order(before),
            forall|j: int| 0 <= j < i ==> shallower(#[trigger] before[j], path@),
        decreases list.len() - i,
    {
        match path_rank(&list[i], path) {
            Rank::Before => {
                assert(before[i as int] == list@[i as int]@);
                i += 1;
            },
            Rank::Same => {
                assert(before[i as int] == path@);
                return ;
            },
            Rank::After => {
                assert(before[i as int] == list@[i as int]@);
                proof {
                    lemma_shallower_order(before[i as int], path@, path@);
                    lemma_insert_in_order(before, i as int, path@);
                }
                list.insert(i, PathParts { parts: copy_keys(&path.parts) });
                assert(path_models(list@) =~= before.insert(i as int, path@));
                return ;
            },
        }
    }
    proof {
        lemma_insert_in_order(before, i as int, path@);
    }
    list.push(PathParts { parts: copy_keys(&path.parts) });
    assert(path_models(list@) =~= before.insert(i as int, path@));
}

proof fn lemma_insert_in_order(s: Seq<Seq<Seq<char>>>, i: int, k: Seq<Seq<char>>)
    requires
        in_order(s),
        0 <= i <= s.len(),
        forall|j: int| 0 <= j < i ==> shallower(#[trigger] s[j], k),
        i < s.len() ==> shallower(k, s[i]),
    ensures
        in_order(s.insert(i, k)),
        forall|p: Seq<Seq<char>>| #[trigger] s.insert(i, k).contains(p) <==> s.contains(p) || p == k,
{
    let t = s.insert(i, k);
    assert forall|a: int, b: int| 0 <= a < b < t.len() implies shallower(
        #[trigger] t[a],
        #[trigger] t[b],
    ) by {
        if a == i {
            if b - 1 > i {
                assert(shallower(s[i], s[b - 1]));
                lemma_shallower_order(k, s[i], s[b - 1]);
            }
        } else if b == i {
            assert(shallower(s[a], k));
        } else {
            let p = if a < i {
                a
            } else {
                a - 1
            };
            let q = if b < i {
                b
            } else {
                b - 1
            };
            assert(shallower(s[p], s[q]));
        }
    }
    assert forall|x: Seq<Seq<char>>| #[trigger] t.contains(x) <==> s.contains(x) || x == k by {
        if t.contains(x) {
            let p = t.index_of(x);
            if p < i {
                assert(s[p] == x);
            } else if p > i {
                assert(s[p - 1] == x);
            }
        }
        if s.contains(x) {
            let p = s.index_of(x);
            if p < i {
                assert(t[p] == x);
            } else {
                assert(t[p + 1] == x);
            }
        }
        assert(t[i] == k);
    }
}

/// A directory is looked at before everything that lies inside it.
pub proof fn law_parents_come_first(s: Seq<Seq<Seq<char>>>, i: int, j: int)
    requires
        in_order(s),
        0 <= i < s.len(),
        0 <= j < s.len(),
        below(s[i], s[j]),
        s[i] != s[j],
    ensures
        i < j,
{
    assert(s[i].len() < s[j].len()) by {
        if s[i].len() == s[j].len() {
            assert(s[j].take(s[i].len() as int) =~= s[j]);
        }
    }
    if j < i {
        assert(shallower(s[j], s[i]));
    }
}

// ----- entries --------------------------------------------------------------

/// A directory entry as the file system reports it now.
#[derive(Debug)]
pub struct RawEntry {
    pub name: String,
    pub native_id: Option<NativeKey>,
    pub kind: ObjectKind,
    pub attributes: u32,
    pub size: u64,
    pub allocated: Option<u64>,
    pub created: Option<UnixNanos>,
    pub modified: Option<UnixNanos>,
    pub changed: Option<UnixNanos>,
    pub accessed: Option<UnixNanos>,
    pub reparse_tag: Option<u32>,
}

/// The catalog's part of an entry, if it has an identity. The catalog
/// recomputes link counts from its own entries after every batch; one is only
/// the initial value for a new object.
pub open spec fn entry_object(e: RawEntry) -> Option<ObjectSnapshot> {
    match e.native_id {
        None => None,
        Some(native) => Some(
            ObjectSnapshot {
                native,
                kind: e.kind,
                attributes: e.attributes,
                size: e.size,
                allocated: match e.allocated {
                    Some(a) => a,
                    None => e.size,
                },
                link_count: 1,
                created: e.created,
                modified: e.modified,
                changed: e.changed,
                accessed: e.accessed,
                reparse_tag: e.reparse_tag,
            },
        ),
    }
}

/// What the catalog is told of an entry is what was read of it, field by
/// field; an entry without an identity cannot be told, and an allocated size
/// that is not known is the size.
pub proof fn law_the_catalog_sees_the_entry_as_read(e: RawEntry)
    ensures
        entry_object(e) is Some <==> e.native_id is Some,
        entry_object(e) matches Some(o) ==> {
            &&& Some(o.native) == e.native_id
            &&& o.kind == e.kind
            &&& o.attributes == e.attributes
            &&& o.size == e.size
            &&& e.allocated is Some ==> Some(o.allocated) == e.allocated
            &&& e.allocated is None ==> o.allocated == e.size
            &&& o.created == e.created
            &&& o.modified == e.modified
            &&& o.changed == e.changed
            &&& o.accessed == e.accessed
            &&& o.reparse_tag == e.reparse_tag
        },
{
}

pub fn snapshot(e: &RawEntry) -> (r: Option<ObjectSnapshot>)
    ensures
        r == entry_object(*e),
{
    match e.native_id {
        None => None,
        Some(native) => Some(
            ObjectSnapshot {
                native,
                kind: e.kind,
                attributes: e.attributes,
                size: e.size,
                allocated: match e.allocated {
                    Some(a) => a,
                    None => e.size,
                },
                link_count: 1,
                created: e.created,
                modified: e.modified,
                changed: e.changed,
                accessed: e.accessed,
                reparse_tag: e.reparse_tag,
            },
        ),
    }
}

/// A catalog entry of an object: the identity of its directory, if the catalog
/// has one, and the name.
#[derive(Debug)]
pub struct CatalogEntry {
    pub parent: Option<NativeKey>,
    pub name: String,
}

/// Whether an entry names the object somewhere other than where it now lives.
pub open spec fn elsewhere(e: CatalogEntry, parent: NativeKey, name: Seq<char>) -> bool {
    e.parent is Some && !(e.parent->0 == parent && e.name@ == name)
}

/// An entry stands elsewhere exactly if it has a place and that place differs
/// from the one given, in its directory or in its name.
pub proof fn law_a_place_differs_in_its_directory_or_name(
    e: CatalogEntry,
    at: NativeKey,
    parent: NativeKey,
    name: Seq<char>,
)
    ensures
        e.parent is None ==> !elsewhere(e, parent, name),
        e.parent == Some(at) ==> (elsewhere(e, parent, name) <==> at != parent || e.name@ != name),
{
}

pub fn is_elsewhere(e: &CatalogEntry, parent: NativeKey, name: &str) -> (r: bool)
    ensures
        r == elsewhere(*e, parent, name@),
{
    match e.parent {
        None => false,
        Some(p) => !(p == parent && same(&e.name, name)),
    }
}

/// What looking an entry up on disk found.
#[derive(Debug, Clone, Copy, PartialEq, Eq, Structural)]
pub enum EntryLookup {
    /// The catalog cannot render the directory's path.
    NoPath,
    /// Nothing answers to the name.
    Missing,
    /// Something without an identity answers to the name.
    Anonymous,
    /// This object answers to the name.
    Found(NativeKey),
}

/// Whether what was found keeps an entry of an object.
pub open spec fn still_names(found: EntryLookup, object: NativeKey, spelled: Option<bool>) -> bool {
    match found {
        EntryLookup::NoPath => true,
        EntryLookup::Missing => false,
        EntryLookup::Anonymous => true,
        EntryLookup::Found(k) => k == object && (spelled matches Some(s) ==> s),
    }
}

/// An entry is given up only on proof: nothing answers to its name, another
/// object does, or its directory was read and does not list that spelling.
pub proof fn law_an_entry_is_given_up_only_on_proof(
    found: EntryLookup,
    object: NativeKey,
    spelled: Option<bool>,
)
    ensures
        !still_names(found, object, spelled) <==> {
            ||| found == EntryLookup::Missing
            ||| found matches EntryLookup::Found(other) && other != object
            ||| found == EntryLookup::Found(object) && spelled == Some(false)
        },
{
}

/// Whether the catalog's entry still names this object on disk. This is what
/// separates a stale entry from a live hard link, so it has to be exact about
/// the name rather than about the path.
///
/// A path lookup alone is not exact enough on a case-insensitive volume: after
/// a rename that only changes case the old path still resolves to the very same
/// file. Where the path resolves to this object, `spelled` says whether the
/// directory really lists that spelling, or `None` if it could not be read.
/// Every doubt keeps the entry: a spurious unlink loses data, while a missed
/// one is repaired by the next reconciliation.
pub fn entry_names_object(found: EntryLookup, object: NativeKey, spelled: Option<bool>) -> (r: bool)
    ensures
        r == still_names(found, object, spelled),
{
    match found {
        EntryLookup::NoPath => true,
        EntryLookup::Missing => false,
        EntryLookup::Anonymous => true,
        EntryLookup::Found(k) => {
            if k != object {
                return false;
            }
            match spelled {
                Some(s) => s,
                None => true,
            }
        },
    }
}

// ----- translation ----------------------------------------------------------

/// A stale name: the directory it is in, and the name itself.
#[derive(Debug)]
pub struct StaleName {
    pub parent: NativeKey,
    pub name: String,
}

pub open spec fn unlink_events(s: Seq<StaleName>) -> Seq<EventModel> {
    Seq::new(s.len(), |i: int| EventModel::Unlink { parent: s[i].parent, name: s[i].name@ })
}

/// A batch while it is translated.
pub struct PathTranslation {
    events: Vec<ChangeEvent>,
    /// Directories that this batch links.
    batch_dirs: Vec<NativeKey>,
    /// Objects that this batch found living somewhere.
    relinked: Vec<NativeKey>,
    stats: TranslateStats,
}

pub struct PathTranslationModel {
    pub events: Seq<EventModel>,
    pub batch_dirs: Set<NativeKey>,
    pub relinked: Set<NativeKey>,
    pub stats: TranslateStats,
}

impl View for PathTranslation {
    type V = PathTranslationModel;

    closed spec fn view(&self) -> PathTranslationModel {
        PathTranslationModel {
            events: event_models(self.events@),
            batch_dirs: self.batch_dirs@.to_set(),
            relinked: self.relinked@.to_set(),
            stats: self.stats,
        }
    }
}

impl PathTranslationModel {
    pub open spec fn with_event(self, e: EventModel) -> PathTranslationModel {
        PathTranslationModel { events: self.events.push(e), ..self }
    }

    pub open spec fn with_stats(self, stats: TranslateStats) -> PathTranslationModel {
        PathTranslationModel { stats, ..self }
    }
}

/// How a changed path could not be read.
#[derive(Debug, Clone, Copy, PartialEq, Eq, Structural)]
pub struct ReadFailure {
    pub kind: ScanErrorKind,
    /// Trying again may succeed.
    pub retryable: bool,
}

/// What a listed directory of a moved-in subtree holds.
#[derive(Debug)]
pub enum Listing {
    /// Its own identity, if it has one, and its children.
    Entries { parent: Option<NativeKey>, children: Vec<RawEntry> },
    Failed { retryable: bool },
}

/// How far a moved-in subtree was enumerated.
#[derive(Debug, Clone, Copy, PartialEq, Eq, Structural)]
pub struct Expansion {
    pub budget: usize,
    pub overflowed: bool,
}

/// The children of a directory that are linked: those with an identity.
pub open spec fn child_links(parent: NativeKey, children: Seq<RawEntry>) -> Seq<EventModel>
    decreases children.len(),
{
    if children.len() == 0 {
        Seq::empty()
    } else {
        let init = child_links(parent, children.drop_last());
        match entry_object(children.last()) {
            Some(o) => init.push(
                EventModel::Link { parent, name: children.last().name@, snapshot: o },
            ),
            None => init,
        }
    }
}

/// The directories among the children of a directory.
pub open spec fn child_dirs(children: Seq<RawEntry>) -> Set<NativeKey>
    decreases children.len(),
{
    if children.len() == 0 {
        Set::empty()
    } else {
        let init = child_dirs(children.drop_last());
        match entry_object(children.last()) {
            Some(o) => if children.last().kind == ObjectKind::Directory {
                init.insert(o.native)
            } else {
                init
            },
            None => init,
        }
    }
}

/// A subtree once one more of its directories was listed.
pub open spec fn expanded(m: PathTranslationModel, x: Expansion, listing: Listing) -> (
    Expansion,
    PathTranslationModel,
) {
    let s = m.stats;
    match listing {
        _ if x.overflowed => (x, m),
        Listing::Failed { retryable } => (
            x,
            m.with_stats(
                if retryable {
                    TranslateStats { retryable_errors: (s.retryable_errors + 1) as u64, ..s }
                } else {
                    TranslateStats { io_errors: (s.io_errors + 1) as u64, ..s }
                },
            ),
        ),
        Listing::Entries { parent: None, .. } => (
            x,
            m.with_stats(TranslateStats { io_errors: (s.io_errors + 1) as u64, ..s }),
        ),
        Listing::Entries { parent: Some(p), children } => {
            let n = if children@.len() <= x.budget {
                children@.len() as int
            } else {
                x.budget as int
            };
            let taken = children@.take(n);
            (
                Expansion {
                    budget: (x.budget - n) as usize,
                    overflowed: children@.len() > x.budget,
                },
                PathTranslationModel {
                    events: m.events + child_links(p, taken),
                    batch_dirs: m.batch_dirs.union(child_dirs(taken)),
                    stats: TranslateStats {
                        expanded_directories: (s.expanded_directories + 1) as u64,
                        snapshots: (s.snapshots + child_links(p, taken).len()) as u64,
                        ..s
                    },
                    ..m
                },
            )
        },
    }
}

/// A directory that cannot be listed changes no name and uses nothing of the
/// budget; it is counted as one to try again if trying again may help, and as an
/// error if not, as is one whose own identity is unknown. After an overflow
/// nothing more is listed.
pub proof fn law_an_unlisted_directory_is_counted(
    m: PathTranslationModel,
    x: Expansion,
    retryable: bool,
    children: Vec<RawEntry>,
)
    requires
        m.stats.has_room(1),
    ensures
        ({
            let failed = expanded(m, x, Listing::Failed { retryable });
            let unknown = expanded(m, x, Listing::Entries { parent: None, children });
            &&& failed.0 == x && unknown.0 == x
            &&& failed.1.events == m.events && failed.1.batch_dirs == m.batch_dirs
            &&& unknown.1.events == m.events && unknown.1.batch_dirs == m.batch_dirs
            &&& x.overflowed ==> failed.1 == m && unknown.1 == m
            &&& !x.overflowed ==> {
                &&& failed.1.stats.retryable_errors == m.stats.retryable_errors + (if retryable {
                    1int
                } else {
                    0int
                })
                &&& failed.1.stats.io_errors == m.stats.io_errors + (if retryable {
                    0int
                } else {
                    1int
                })
                &&& unknown.1.stats.io_errors == m.stats.io_errors + 1
                &&& unknown.1.stats.retryable_errors == m.stats.retryable_errors
            }
        }),
{
}

/// What a list of children comes to: links of those with an identity, and the
/// directories among them.
pub proof fn lemma_child_links(parent: NativeKey, children: Seq<RawEntry>) -> (pick: Seq<int>)
    ensures
        picks(pick, children.len() as int, |i: int| children[i].native_id is Some),
        child_links(parent, children).len() == pick.len(),
        forall|a: int|
            0 <= a < pick.len() ==> #[trigger] child_links(parent, children)[a] == (
            EventModel::Link {
                parent,
                name: children[pick[a]].name@,
                snapshot: entry_object(children[pick[a]])->0,
            }),
        forall|d: NativeKey| #[trigger]
            child_dirs(children).contains(d) <==> exists|i: int|
                0 <= i < children.len() && (#[trigger] children[i]).native_id == Some(d)
                    && children[i].kind == ObjectKind::Directory,
    decreases children.len(),
{
    let named = |i: int| children[i].native_id is Some;
    if children.len() == 0 {
        lemma_picks_none(named);
        Seq::empty()
    } else {
        let init = children.drop_last();
        let n = init.len() as int;
        let before = lemma_child_links(parent, init);
        let old = |i: int| init[i].native_id is Some;
        assert(picks(before, n, old));
        assert(picks(before, n, named)) by {
            assert forall|a: int| 0 <= a < before.len() implies 0 <= #[trigger] before[a] < n
                && named(before[a]) by {
                assert(old(before[a]));
            }
            assert forall|i: int| 0 <= i < n && #[trigger] named(i) implies before.contains(i) by {
                assert(old(i));
            }
        }
        lemma_picks_next(before, n, named);
        assert forall|d: NativeKey| #[trigger]
            child_dirs(children).contains(d) <==> exists|i: int|
                0 <= i < children.len() && (#[trigger] children[i]).native_id == Some(d)
                    && children[i].kind == ObjectKind::Directory by {
            if child_dirs(init).contains(d) {
                let i = choose|i: int|
                    0 <= i < init.len() && (#[trigger] init[i]).native_id == Some(d)
                        && init[i].kind == ObjectKind::Directory;
                assert(children[i] == init[i]);
            }
            if exists|i: int|
                0 <= i < children.len() && (#[trigger] children[i]).native_id == Some(d)
                    && children[i].kind == ObjectKind::Directory {
                let i = choose|i: int|
                    0 <= i < children.len() && (#[trigger] children[i]).native_id == Some(d)
                        && children[i].kind == ObjectKind::Directory;
                if i < n {
                    assert(init[i] == children[i]);
                }
            }
            assert(children[n] == children.last());
        }
        if named(n) {
            before.push(n)
        } else {
            before
        }
    }
}

/// A listed directory links every child within the budget that has an
/// identity, of whatever kind, once and in order, under the directory and the
/// child's own name and identity; nothing else is linked or unlinked, and
/// every link is counted as a snapshot.
pub proof fn law_every_child_is_linked(
    m: PathTranslationModel,
    x: Expansion,
    parent: NativeKey,
    children: Vec<RawEntry>,
)
    requires
        !x.overflowed,
        m.stats.has_room((1 + x.budget) as nat),
    ensures
        ({
            let r = expanded(m, x, Listing::Entries { parent: Some(parent), children }).1;
            let reached = if children@.len() <= x.budget {
                children@.len() as int
            } else {
                x.budget as int
            };
            let old = m.events.len();
            &&& r.events.len() >= old && r.events.take(old as int) == m.events
            &&& r.stats.snapshots == m.stats.snapshots + (r.events.len() - old)
            &&& r.relinked == m.relinked
            &&& exists|pick: Seq<int>|
                {
                    &&& #[trigger] rising(pick)
                    &&& picks(pick, reached, |i: int| children@[i].native_id is Some)
                    &&& r.events.len() == old + pick.len()
                    &&& forall|a: int|
                        #![trigger r.events[old + a]]
                        0 <= a < pick.len() ==> {
                            &&& r.events[old + a] matches EventModel::Link {
                                parent: at,
                                name,
                                snapshot,
                            }
                            &&& at == parent
                            &&& name == children@[pick[a]].name@
                            &&& Some(snapshot.native) == children@[pick[a]].native_id
                            &&& snapshot.kind == children@[pick[a]].kind
                            &&& snapshot.size == children@[pick[a]].size
                        }
                }
        }),
{
    let r = expanded(m, x, Listing::Entries { parent: Some(parent), children }).1;
    let reached = if children@.len() <= x.budget {
        children@.len() as int
    } else {
        x.budget as int
    };
    let old = m.events.len();
    let taken = children@.take(reached);
    let pick = lemma_child_links(parent, taken);
    lemma_picks_short(pick, reached, |i: int| taken[i].native_id is Some);
    assert(r.events.take(old as int) =~= m.events);
    assert(picks(pick, reached, |i: int| children@[i].native_id is Some)) by {
        let p = |i: int| taken[i].native_id is Some;
        let q = |i: int| children@[i].native_id is Some;
        assert(picks(pick, reached, p));
        assert forall|a: int| 0 <= a < pick.len() implies 0 <= #[trigger] pick[a] < reached && q(
            pick[a],
        ) by {
            assert(p(pick[a]));
        }
        assert forall|i: int| 0 <= i < reached && #[trigger] q(i) implies pick.contains(i) by {
            assert(p(i));
        }
    }
    assert(rising(pick));
    assert forall|a: int| #![trigger r.events[old + a]] 0 <= a < pick.len() implies {
        &&& r.events[old + a] matches EventModel::Link { parent: at, name, snapshot }
        &&& at == parent
        &&& name == children@[pick[a]].name@
        &&& Some(snapshot.native) == children@[pick[a]].native_id
        &&& snapshot.kind == children@[pick[a]].kind
        &&& snapshot.size == children@[pick[a]].size
    } by {
        assert(r.events[old + a] == child_links(parent, taken)[a]);
        let named = |i: int| taken[i].native_id is Some;
        assert(named(pick[a]));
    }
}

/// Each directory that an expansion puts in scope is linked by the same
/// listing, so that what lies in it has a parent in the catalog; and each
/// directory that it links is put in scope.
pub proof fn law_a_directory_in_scope_is_linked(
    m: PathTranslationModel,
    x: Expansion,
    parent: NativeKey,
    children: Vec<RawEntry>,
    dir: NativeKey,
)
    requires
        !x.overflowed,
        m.stats.has_room((1 + x.budget) as nat),
        !m.batch_dirs.contains(dir),
    ensures
        ({
            let r = expanded(m, x, Listing::Entries { parent: Some(parent), children }).1;
            r.batch_dirs.contains(dir) <==> exists|j: int|
                {
                    &&& m.events.len() <= j < r.events.len()
                    &&& (#[trigger] r.events[j]) matches EventModel::Link { parent: at, snapshot, .. }
                    &&& at == parent
                    &&& snapshot.native == dir
                    &&& snapshot.kind == ObjectKind::Directory
                }
        }),
        m.batch_dirs.subset_of(
            expanded(m, x, Listing::Entries { parent: Some(parent), children }).1.batch_dirs,
        ),
{
    let r = expanded(m, x, Listing::Entries { parent: Some(parent), children }).1;
    let reached = if children@.len() <= x.budget {
        children@.len() as int
    } else {
        x.budget as int
    };
    let old = m.events.len();
    let taken = children@.take(reached);
    let links = child_links(parent, taken);
    let pick = lemma_child_links(parent, taken);
    let named = |i: int| taken[i].native_id is Some;
    assert(picks(pick, reached, named));
    if child_dirs(taken).contains(dir) {
        let i = choose|i: int|
            0 <= i < taken.len() && (#[trigger] taken[i]).native_id == Some(dir) && taken[i].kind
                == ObjectKind::Directory;
        assert(named(i));
        let a = pick.index_of(i);
        assert(links[a] == r.events[old + a]);
    }
    if exists|j: int|
        {
            &&& m.events.len() <= j < r.events.len()
            &&& (#[trigger] r.events[j]) matches EventModel::Link { parent: at, snapshot, .. }
            &&& at == parent
            &&& snapshot.native == dir
            &&& snapshot.kind == ObjectKind::Directory
        } {
        let j = choose|j: int|
            {
                &&& m.events.len() <= j < r.events.len()
                &&& (#[trigger] r.events[j]) matches EventModel::Link { parent: at, snapshot, .. }
                &&& at == parent
                &&& snapshot.native == dir
                &&& snapshot.kind == ObjectKind::Directory
            };
        let a = j - old;
        assert(links[a] == r.events[j]);
        assert(named(pick[a]));
        assert(taken[pick[a]].native_id == Some(dir));
    }
}

/// A subtree takes no more entries than its budget: each listing takes what it
/// reaches from the budget, a child past it overflows the expansion, and an
/// overflowed expansion takes nothing any more.
pub proof fn law_an_expansion_stays_within_its_budget(
    m: PathTranslationModel,
    x: Expansion,
    parent: NativeKey,
    children: Vec<RawEntry>,
)
    requires
        m.stats.has_room((1 + x.budget) as nat),
    ensures
        ({
            let listing = Listing::Entries { parent: Some(parent), children };
            let (y, r) = expanded(m, x, listing);
            &&& !x.overflowed ==> (y.overflowed <==> children@.len() > x.budget)
            &&& !x.overflowed && !y.overflowed ==> y.budget + children@.len() == x.budget
            &&& !x.overflowed && y.overflowed ==> y.budget == 0
            &&& r.events.len() - m.events.len() <= x.budget - y.budget
            &&& x.overflowed ==> y == x && r == m
        }),
{
    let n = if children@.len() <= x.budget {
        children@.len() as int
    } else {
        x.budget as int
    };
    let taken = children@.take(n);
    let pick = lemma_child_links(parent, taken);
    lemma_picks_short(pick, n, |i: int| taken[i].native_id is Some);
}

impl PathTranslation {
    pub fn new(paths: u64, out_of_scope: u64) -> (r: PathTranslation)
        ensures
            r@.events == Seq::<EventModel>::empty(),
            r@.batch_dirs == Set::<NativeKey>::empty(),
            r@.relinked == Set::<NativeKey>::empty(),
            r@.stats == (TranslateStats { paths, out_of_scope, ..TranslateStats::zero() }),
    {
        let mut stats = TranslateStats::default();
        stats.paths = paths;
        stats.out_of_scope = out_of_scope;
        let r = PathTranslation {
            events: Vec::new(),
            batch_dirs: Vec::new(),
            relinked: Vec::new(),
            stats,
        };
        assert(r@.events =~= Seq::empty());
        assert(r@.batch_dirs =~= Set::empty());
        assert(r@.relinked =~= Set::empty());
        r
    }

    fn emit(&mut self, e: ChangeEvent)
        ensures
            final(self)@ == old(self)@.with_event(e@),
    {
        proof {
            lemma_event_push(self.events@, e);
        }
        self.events.push(e);
    }

    pub fn stats(&self) -> (r: TranslateStats)
        ensures
            r == self@.stats,
    {
        self.stats
    }

    /// Whether this batch itself puts the directory in scope. For any other
    /// directory the catalog is asked.
    pub fn creates(&self, dir: NativeKey) -> (r: bool)
        ensures
            r == self@.batch_dirs.contains(dir),
    {
        holds_native(&self.batch_dirs, dir)
    }

    /// A changed path could not be read. Says whether it is gone, which is
    /// settled after every existing path was looked at.
    pub fn unread(&mut self, failure: ReadFailure) -> (gone: bool)
        requires
            old(self)@.stats.has_room(1),
        ensures
            gone == (failure.kind == ScanErrorKind::NotFound),
            final(self)@ == (if gone {
                old(self)@
            } else if failure.retryable {
                old(self)@.with_stats(
                    TranslateStats {
                        retryable_errors: (old(self)@.stats.retryable_errors + 1) as u64,
                        ..old(self)@.stats
                    },
                )
            } else {
                old(self)@.with_stats(
                    TranslateStats {
                        io_errors: (old(self)@.stats.io_errors + 1) as u64,
                        ..old(self)@.stats
                    },
                )
            }),
    {
        if failure.kind == ScanErrorKind::NotFound {
            return true;
        }
        if failure.retryable {
            self.stats.retryable_errors = self.stats.retryable_errors + 1;
        } else {
            self.stats.io_errors = self.stats.io_errors + 1;
        }
        false
    }

    /// First step for a path that still exists: whether the catalog can attach
    /// it to its directory, because it knows that directory (`known`) or this
    /// batch creates it.
    pub fn attaches(&mut self, parent: Option<NativeKey>, known: bool) -> (r: bool)
        requires
            old(self)@.stats.has_room(1),
        ensures
            r == (parent matches Some(p) && (old(self)@.batch_dirs.contains(p) || known)),
            final(self)@ == (if r {
                old(self)@
            } else {
                old(self)@.with_stats(
                    TranslateStats {
                        out_of_scope: (old(self)@.stats.out_of_scope + 1) as u64,
                        ..old(self)@.stats
                    },
                )
            }),
    {
        let ok: bool = match parent {
            None => false,
            Some(p) => self.creates(p) || known,
        };
        if !ok {
            self.stats.out_of_scope = self.stats.out_of_scope + 1;
        }
        ok
    }

    /// The identity of an existing path, if it has one.
    pub fn identify(&mut self, entry: &RawEntry) -> (r: Option<ObjectSnapshot>)
        requires
            old(self)@.stats.has_room(1),
        ensures
            r == entry_object(*entry),
            final(self)@ == (if r is Some {
                old(self)@
            } else {
                old(self)@.with_stats(
                    TranslateStats {
                        io_errors: (old(self)@.stats.io_errors + 1) as u64,
                        ..old(self)@.stats
                    },
                )
            }),
    {
        let s = snapshot(entry);
        if s.is_none() {
            self.stats.io_errors = self.stats.io_errors + 1;
        }
        s
    }

    /// Last step for a path that still exists: unlink the names that the
    /// object no longer has, and link it where it is. Says whether its subtree
    /// has to be read, because the catalog has never seen this directory.
    pub fn link(
        &mut self,
        parent: NativeKey,
        entry: &RawEntry,
        object: ObjectSnapshot,
        stale: &Vec<StaleName>,
        known: bool,
    ) -> (expand: bool)
        requires
            old(self)@.stats.has_room(1),
        ensures
            expand == (entry.kind == ObjectKind::Directory && !known),
            final(self)@ == linked(old(self)@, parent, *entry, object, stale@),
    {
        let ghost m = self@;
        let mut i: usize = 0;
        assert(m.events + unlink_events(stale@.take(0)) =~= m.events);
        while i < stale.len()
            invariant
                0 <= i <= stale.len(),
                self@ == (PathTranslationModel {
                    events: m.events + unlink_events(stale@.take(i as int)),
                    ..m
                }),
            decreases stale.len() - i,
        {
            let name = stale[i].name.clone();
            let dir = stale[i].parent;
            self.emit(ChangeEvent::Unlink { parent: dir, name });
            i += 1;
            assert(self@.events =~= m.events + unlink_events(stale@.take(i as int)));
        }
        assert(stale@.take(i as int) =~= stale@);
        if stale.len() > 0 {
            self.stats.relinked = self.stats.relinked + 1;
        }
        let is_directory = entry.kind == ObjectKind::Directory;
        if is_directory {
            add_native(&mut self.batch_dirs, object.native);
        }
        add_native(&mut self.relinked, object.native);
        self.stats.snapshots = self.stats.snapshots + 1;
        let name = entry.name.clone();
        self.emit(ChangeEvent::Link { parent, name, snapshot: object });
        is_directory && !known
    }

    /// A subtree is about to be read.
    pub fn begin_expansion() -> (r: Expansion)
        ensures
            r == (Expansion { budget: MAX_EXPANDED_ENTRIES, overflowed: false }),
    {
        Expansion { budget: MAX_EXPANDED_ENTRIES, overflowed: false }
    }

    /// One directory of a subtree was listed. Its children are linked as far
    /// as the budget goes; the child past it overflows the expansion, and
    /// nothing is taken from then on.
    pub fn expand(&mut self, x: Expansion, listing: &Listing) -> (r: Expansion)
        requires
            old(self)@.stats.has_room((1 + x.budget) as nat),
        ensures
            r == expanded(old(self)@, x, *listing).0,
            final(self)@ == expanded(old(self)@, x, *listing).1,
    {
        if x.overflowed {
            return x;
        }
        let (parent, children) = match listing {
            Listing::Failed { retryable } => {
                if *retryable {
                    self.stats.retryable_errors = self.stats.retryable_errors + 1;
                } else {
                    self.stats.io_errors = self.stats.io_errors + 1;
                }
                return x;
            },
            Listing::Entries { parent: None, children } => {
                self.stats.io_errors = self.stats.io_errors + 1;
                return x;
            },
            Listing::Entries { parent: Some(p), children } => (*p, children),
        };
        let ghost m = self@;
        let ghost all = children@;
        self.stats.expanded_directories = self.stats.expanded_directories + 1;
        let mut i: usize = 0;
        let mut left: usize = x.budget;
        proof {
            assert(m.events + child_links(parent, all.take(0)) =~= m.events);
            assert(m.batch_dirs.union(child_dirs(all.take(0))) =~= m.batch_dirs);
        }
        while i < children.len() && left > 0
            invariant
                0 <= i <= children.len(),
                all == children@,
                left == x.budget - i,
                m.stats.has_room((1 + x.budget) as nat),
                child_links(parent, all.take(i as int)).len() <= i,
                self@ == (PathTranslationModel {
                    events: m.events + child_links(parent, all.take(i as int)),
                    batch_dirs: m.batch_dirs.union(child_dirs(all.take(i as int))),
                    stats: TranslateStats {
                        expanded_directories: (m.stats.expanded_directories + 1) as u64,
                        snapshots: (m.stats.snapshots + child_links(
                            parent,
                            all.take(i as int),
                        ).len()) as u64,
                        ..m.stats
                    },
                    ..m
                }),
            decreases children.len() - i,
        {
            left = left - 1;
            assert(all.take(i + 1).drop_last() =~= all.take(i as int));
            let child = &children[i];
            if let Some(object) = snapshot(child) {
                if child.kind == ObjectKind::Directory {
                    add_native(&mut self.batch_dirs, object.native);
                    assert(self@.batch_dirs =~= m.batch_dirs.union(child_dirs(all.take(i + 1))));
                }
                self.stats.snapshots = self.stats.snapshots + 1;
                let name = child.name.clone();
                self.emit(ChangeEvent::Link { parent, name, snapshot: object });
                assert(self@.events =~= m.events + child_links(parent, all.take(i + 1)));
            }
            i += 1;
        }
        Expansion { budget: left, overflowed: i < children.len() }
    }

    /// A subtree is too large to describe as one batch.
    pub fn end_expansion(&mut self, x: Expansion)
        ensures
            final(self)@ == old(self)@.with_stats(
                TranslateStats {
                    needs_rescan: old(self)@.stats.needs_rescan || x.overflowed,
                    ..old(self)@.stats
                },
            ),
    {
        if x.overflowed {
            self.stats.needs_rescan = true;
        }
    }

    /// First step for a path that is gone, given what the catalog knows of it:
    /// its identity and whether it can hold children. An object that this batch
    /// found living somewhere else was moved, not removed; deleting it here
    /// would take a live subtree with it. Says whether an unlink is left to do.
    pub fn remove(&mut self, object: Option<(NativeKey, bool)>) -> (unlink: bool)
        requires
            old(self)@.stats.has_room(1),
        ensures
            final(self)@ == removed(old(self)@, object),
            unlink == (object matches Some((native, directory_like)) && !old(
                self,
            )@.relinked.contains(native) && !directory_like),
    {
        match object {
            None => false,
            Some((native, directory_like)) => {
                if holds_native(&self.relinked, native) {
                    return false;
                }
                self.stats.removed = self.stats.removed + 1;
                if directory_like {
                    self.emit(ChangeEvent::Delete { object: native });
                    return false;
                }
                true
            },
        }
    }

    /// Last step for a file that is gone. If its directory is gone too, that
    /// directory's own notification covers this entry.
    pub fn unlink_gone(&mut self, parent: Option<NativeKey>, name: &str)
        ensures
            final(self)@ == (match parent {
                Some(p) => old(self)@.with_event(EventModel::Unlink { parent: p, name: name@ }),
                None => old(self)@,
            }),
    {
        if let Some(p) = parent {
            self.emit(ChangeEvent::Unlink { parent: p, name: name.to_owned() });
        }
    }

    pub fn finish(self) -> (r: (Vec<ChangeEvent>, TranslateStats))
        ensures
            event_models(r.0@) == self@.events,
            r.1 == self@.stats,
    {
        (self.events, self.stats)
    }
}

/// An existing path linked where it is, and unlinked from where it was.
pub open spec fn linked(
    m: PathTranslationModel,
    parent: NativeKey,
    entry: RawEntry,
    object: ObjectSnapshot,
    stale: Seq<StaleName>,
) -> PathTranslationModel {
    PathTranslationModel {
        events: (m.events + unlink_events(stale)).push(
            EventModel::Link { parent, name: entry.name@, snapshot: object },
        ),
        batch_dirs: if entry.kind == ObjectKind::Directory {
            m.batch_dirs.insert(object.native)
        } else {
            m.batch_dirs
        },
        relinked: m.relinked.insert(object.native),
        stats: TranslateStats {
            relinked: if stale.len() > 0 {
                (m.stats.relinked + 1) as u64
            } else {
                m.stats.relinked
            },
            snapshots: (m.stats.snapshots + 1) as u64,
            ..m.stats
        },
    }
}

/// A path that is gone. The subtree of a directory goes with it; a file keeps
/// whatever other links it has.
pub open spec fn removed(m: PathTranslationModel, object: Option<(NativeKey, bool)>) -> PathTranslationModel {
    match object {
        None => m,
        Some((native, directory_like)) => if m.relinked.contains(native) {
            m
        } else {
            let counted = m.with_stats(
                TranslateStats { removed: (m.stats.removed + 1) as u64, ..m.stats },
            );
            if directory_like {
                counted.with_event(EventModel::Delete { object: native })
            } else {
                counted
            }
        },
    }
}

proof fn lemma_names_unlinked(names: Names, stale: Seq<StaleName>, at: (NativeKey, Seq<char>))
    ensures
        ({
            let after = names_after_all(names, unlink_events(stale));
            let gone = exists|i: int|
                0 <= i < stale.len() && (#[trigger] stale[i]).parent == at.0 && stale[i].name@
                    == at.1;
            &&& after.dom().contains(at) == (names.dom().contains(at) && !gone)
            &&& after.dom().contains(at) ==> after[at] == names[at]
        }),
    decreases stale.len(),
{
    let events = unlink_events(stale);
    if stale.len() == 0 {
        assert(events.len() == 0);
    } else {
        let init = stale.drop_last();
        let n = init.len() as int;
        lemma_names_unlinked(names, init, at);
        assert(events.drop_last() =~= unlink_events(init));
        let last = stale[n].parent == at.0 && stale[n].name@ == at.1;
        if exists|i: int|
            0 <= i < init.len() && (#[trigger] init[i]).parent == at.0 && init[i].name@ == at.1 {
            let i = choose|i: int|
                0 <= i < init.len() && (#[trigger] init[i]).parent == at.0 && init[i].name@ == at.1;
            assert(stale[i] == init[i]);
        }
        if !last && exists|i: int|
            0 <= i < stale.len() && (#[trigger] stale[i]).parent == at.0 && stale[i].name@ == at.1 {
            let i = choose|i: int|
                0 <= i < stale.len() && (#[trigger] stale[i]).parent == at.0 && stale[i].name@
                    == at.1;
            assert(init[i] == stale[i]);
        }
        assert((at == (stale[n].parent, stale[n].name@)) == last);
    }
}

/// An existing path stands, once its change is applied, where it was found,
/// and under none of its stale names; every other name stays as it was. The
/// object counts as living from then on, and a directory as linked.
pub proof fn law_a_path_is_found_where_it_is(
    m: PathTranslationModel,
    parent: NativeKey,
    entry: RawEntry,
    object: ObjectSnapshot,
    stale: Seq<StaleName>,
    names: Names,
    at: (NativeKey, Seq<char>),
    key: NativeKey,
)
    ensures
        ({
            let r = linked(m, parent, entry, object, stale);
            let added = r.events.skip(m.events.len() as int);
            let after = names_after_all(names, added);
            let here = at.0 == parent && at.1 == entry.name@;
            let left = exists|i: int|
                0 <= i < stale.len() && (#[trigger] stale[i]).parent == at.0 && stale[i].name@
                    == at.1;
            &&& r.events.take(m.events.len() as int) == m.events
            &&& added.len() == stale.len() + 1
            &&& added.last() == (EventModel::Link { parent, name: entry.name@, snapshot: object })
            &&& here ==> after.dom().contains(at) && after[at] == object.native
            &&& !here && left ==> !after.dom().contains(at)
            &&& !here && !left ==> after.dom().contains(at) == names.dom().contains(at) && (
            names.dom().contains(at) ==> after[at] == names[at])
            &&& r.relinked.contains(key) <==> m.relinked.contains(key) || key == object.native
            &&& r.batch_dirs.contains(key) <==> m.batch_dirs.contains(key) || (key == object.native
                && entry.kind == ObjectKind::Directory)
        }),
{
    let r = linked(m, parent, entry, object, stale);
    let added = r.events.skip(m.events.len() as int);
    let unlinks = unlink_events(stale);
    assert(r.events.take(m.events.len() as int) =~= m.events);
    assert(added.drop_last() =~= unlinks);
    lemma_names_unlinked(names, stale, at);
    assert((at == (parent, entry.name@)) == (at.0 == parent && at.1 == entry.name@));
}

/// A directory that is gone, and lives nowhere else, is deleted with what it
/// holds; a file keeps its other links, so nothing is deleted; what this batch
/// found living is left alone, and so is what the catalog does not know.
pub proof fn law_only_a_gone_directory_is_deleted(
    m: PathTranslationModel,
    object: Option<(NativeKey, bool)>,
)
    requires
        m.stats.has_room(1),
    ensures
        ({
            let r = removed(m, object);
            let lost = object matches Some(o) && !m.relinked.contains(o.0);
            &&& (object matches Some(o) && o.1 && !m.relinked.contains(o.0)) ==> r.events
                == m.events.push(EventModel::Delete { object: object_key(object) })
            &&& !(object matches Some(o) && o.1 && !m.relinked.contains(o.0)) ==> r.events
                == m.events
            &&& r.stats.removed == m.stats.removed + (if lost {
                1int
            } else {
                0int
            })
            &&& r.batch_dirs == m.batch_dirs && r.relinked == m.relinked
        }),
{
}

/// The identity of a known object.
pub open spec fn object_key(object: Option<(NativeKey, bool)>) -> NativeKey {
    match object {
        Some(o) => o.0,
        None => NativeKey { volume_serial: 0, id: 0 },
    }
}

/// A move within one batch never deletes the moved object: once it is linked
/// at its new place, the notification for its old place changes nothing.
pub proof fn law_a_moved_object_is_not_deleted(
    m: PathTranslationModel,
    parent: NativeKey,
    entry: RawEntry,
    object: ObjectSnapshot,
    stale: Seq<StaleName>,
    directory_like: bool,
)
    ensures
        ({
            let after = linked(m, parent, entry, object, stale);
            removed(after, Some((object.native, directory_like))) == after
        }),
{
}

} // verus!
