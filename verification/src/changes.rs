//! What a change feed tells the catalog: objects by native identity, linked
//! under names, unlinked, or gone.

use crate::domain::UnixNanos;
use vstd::prelude::*;

verus! {

/// A file system's own identity of an object.
#[derive(Debug, Clone, Copy, PartialEq, Eq, Structural, Hash)]
pub struct NativeKey {
    pub volume_serial: u64,
    pub id: u128,
}

#[derive(Debug, Clone, Copy, PartialEq, Eq, Structural, Hash)]
pub enum ObjectKind {
    File,
    Directory,
    Symlink,
    Other,
}

/// Why reading an object failed.
#[derive(Debug, Clone, Copy, PartialEq, Eq, Structural, Hash)]
pub enum ScanErrorKind {
    AccessDenied,
    NotFound,
    Unsupported,
    InvalidName,
    Transient,
    Other,
}

/// The metadata of an object at one moment.
#[derive(Debug, Clone, Copy, PartialEq, Eq, Structural)]
pub struct ObjectSnapshot {
    pub native: NativeKey,
    pub kind: ObjectKind,
    pub attributes: u32,
    pub size: u64,
    pub allocated: u64,
    pub link_count: u32,
    pub created: Option<UnixNanos>,
    pub modified: Option<UnixNanos>,
    pub changed: Option<UnixNanos>,
    pub accessed: Option<UnixNanos>,
    pub reparse_tag: Option<u32>,
}

/// One change to apply to the catalog.
#[derive(Debug)]
pub enum ChangeEvent {
    Link { parent: NativeKey, name: String, snapshot: ObjectSnapshot },
    Unlink { parent: NativeKey, name: String },
    Delete { object: NativeKey },
}

pub enum EventModel {
    Link { parent: NativeKey, name: Seq<char>, snapshot: ObjectSnapshot },
    Unlink { parent: NativeKey, name: Seq<char> },
    Delete { object: NativeKey },
}

impl View for ChangeEvent {
    type V = EventModel;

    open spec fn view(&self) -> EventModel {
        match self {
            ChangeEvent::Link { parent, name, snapshot } => EventModel::Link {
                parent: *parent,
                name: name@,
                snapshot: *snapshot,
            },
            ChangeEvent::Unlink { parent, name } => EventModel::Unlink {
                parent: *parent,
                name: name@,
            },
            ChangeEvent::Delete { object } => EventModel::Delete { object: *object },
        }
    }
}

/// A list of changes.
pub open spec fn event_models(s: Seq<ChangeEvent>) -> Seq<EventModel> {
    Seq::new(s.len(), |i: int| s[i]@)
}

pub proof fn lemma_event_push(s: Seq<ChangeEvent>, e: ChangeEvent)
    ensures
        event_models(s.push(e)) == event_models(s).push(e@),
{
    assert(event_models(s.push(e)) =~= event_models(s).push(e@));
}

/// The names of a catalog: which object stands under a name in a directory.
pub type Names = Map<(NativeKey, Seq<char>), NativeKey>;

/// The names once a change was applied. A link puts an object under a name, an
/// unlink takes a name away, and a deleted object keeps none.
pub open spec fn names_after(names: Names, e: EventModel) -> Names {
    match e {
        EventModel::Link { parent, name, snapshot } => names.insert(
            (parent, name),
            snapshot.native,
        ),
        EventModel::Unlink { parent, name } => names.remove((parent, name)),
        EventModel::Delete { object } => names.remove_keys(
            Set::new(|k: (NativeKey, Seq<char>)| names.dom().contains(k) && names[k] == object),
        ),
    }
}

/// The names once a list of changes was applied, in order.
pub open spec fn names_after_all(names: Names, events: Seq<EventModel>) -> Names
    decreases events.len(),
{
    if events.len() == 0 {
        names
    } else {
        names_after(names_after_all(names, events.drop_last()), events.last())
    }
}

/// Whether an object stands under a name.
pub open spec fn stands(names: Names, object: NativeKey, at: (NativeKey, Seq<char>)) -> bool {
    names.dom().contains(at) && names[at] == object
}

/// Two lists of changes, one after the other.
pub proof fn lemma_names_after_both(names: Names, a: Seq<EventModel>, b: Seq<EventModel>)
    ensures
        names_after_all(names, a + b) == names_after_all(names_after_all(names, a), b),
    decreases b.len(),
{
    if b.len() == 0 {
        assert(a + b =~= a);
    } else {
        assert((a + b).drop_last() =~= a + b.drop_last());
        assert((a + b).last() == b.last());
        lemma_names_after_both(names, a, b.drop_last());
    }
}

/// Whether a list holds a key.
pub fn holds_native(list: &Vec<NativeKey>, key: NativeKey) -> (r: bool)
    ensures
        r == list@.contains(key),
{
    let mut i: usize = 0;
    while i < list.len()
        invariant
            0 <= i <= list.len(),
            forall|j: int| 0 <= j < i ==> list@[j] != key,
        decreases list.len() - i,
    {
        if list[i] == key {
            return true;
        }
        i += 1;
    }
    false
}

/// Add a key to a list that stands for a set.
pub fn add_native(list: &mut Vec<NativeKey>, key: NativeKey)
    ensures
        final(list)@.to_set() == old(list)@.to_set().insert(key),
{
    let ghost before = list@;
    if !holds_native(list, key) {
        list.push(key);
        proof {
            before.lemma_push_to_set_commute(key);
        }
    } else {
        assert(before.to_set().insert(key) =~= before.to_set());
    }
}

} // verus!
