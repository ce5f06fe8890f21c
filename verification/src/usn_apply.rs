//! USN record → [`ChangeEvent`] translation.
//!
//! Records are coalesced per file reference number in USN order so that the
//! *final* state wins, then each affected file is re-read by ID. The record
//! supplies the (parent, name) topology; the snapshot supplies sizes and
//! timestamps. Out-of-scope files (parents unknown to the catalog and not
//! created in this batch) are skipped before any I/O.

use crate::changes::{
    event_models, lemma_event_push, lemma_names_after_both, names_after_all, stands, ChangeEvent,
    EventModel, Names, NativeKey, ObjectKind, ObjectSnapshot, ScanErrorKind,
};
use crate::domain::UnixNanos;
use crate::picks::{lemma_picks_next, lemma_picks_none, picks, rising};
use crate::text::{chars_of, decimal, push_decimal, same, string_of};
use vstd::prelude::*;
use vstd::string::*;

verus! {

pub const USN_REASON_FILE_CREATE: u32 = 0x0000_0100;

pub const USN_REASON_FILE_DELETE: u32 = 0x0000_0200;

pub const USN_REASON_RENAME_OLD_NAME: u32 = 0x0000_1000;

pub const USN_REASON_HARD_LINK_CHANGE: u32 = 0x0001_0000;

/// One journal record.
#[derive(Debug)]
pub struct UsnRecord {
    pub frn: u128,
    pub parent_frn: u128,
    pub reason: u32,
    pub directory: bool,
    pub name: String,
}

pub struct RecordModel {
    pub frn: u128,
    pub parent_frn: u128,
    pub reason: u32,
    pub directory: bool,
    pub name: Seq<char>,
}

impl View for UsnRecord {
    type V = RecordModel;

    open spec fn view(&self) -> RecordModel {
        RecordModel {
            frn: self.frn,
            parent_frn: self.parent_frn,
            reason: self.reason,
            directory: self.directory,
            name: self.name@,
        }
    }
}

impl RecordModel {
    pub open spec fn has(self, reason: u32) -> bool {
        self.reason & reason != 0
    }

    /// The directory and the name that the record speaks of.
    pub open spec fn place(self) -> (u128, Seq<char>) {
        (self.parent_frn, self.name)
    }
}

impl UsnRecord {
    pub fn has(&self, reason: u32) -> (r: bool)
        ensures
            r == self@.has(reason),
    {
        self.reason & reason != 0
    }
}

pub open spec fn record_models(s: Seq<UsnRecord>) -> Seq<RecordModel> {
    Seq::new(s.len(), |i: int| s[i]@)
}

// ----- coalescing -----------------------------------------------------------

/// What a batch says of one file.
#[derive(Debug)]
pub struct FileChange {
    pub frn: u128,
    pub reasons: u32,
    pub old_names: Vec<(u128, String)>,
    pub latest: Option<(u128, String)>,
    pub deleted: bool,
    pub is_dir: bool,
}

pub struct FileModel {
    pub frn: u128,
    pub reasons: u32,
    pub old_names: Seq<(u128, Seq<char>)>,
    pub latest: Option<(u128, Seq<char>)>,
    pub deleted: bool,
    pub is_dir: bool,
}

pub open spec fn places(s: Seq<(u128, String)>) -> Seq<(u128, Seq<char>)> {
    Seq::new(s.len(), |i: int| (s[i].0, s[i].1@))
}

impl View for FileChange {
    type V = FileModel;

    open spec fn view(&self) -> FileModel {
        FileModel {
            frn: self.frn,
            reasons: self.reasons,
            old_names: places(self.old_names@),
            latest: match self.latest {
                Some(p) => Some((p.0, p.1@)),
                None => None,
            },
            deleted: self.deleted,
            is_dir: self.is_dir,
        }
    }
}

/// The files of a batch, in the order in which they first occur.
pub open spec fn first_seen(records: Seq<RecordModel>) -> Seq<u128>
    decreases records.len(),
{
    if records.len() == 0 {
        Seq::empty()
    } else {
        let init = first_seen(records.drop_last());
        if init.contains(records.last().frn) {
            init
        } else {
            init.push(records.last().frn)
        }
    }
}

/// The records of one file, in journal order.
pub open spec fn records_of(records: Seq<RecordModel>, frn: u128) -> Seq<RecordModel>
    decreases records.len(),
{
    if records.len() == 0 {
        Seq::empty()
    } else {
        let init = records_of(records.drop_last(), frn);
        if records.last().frn == frn {
            init.push(records.last())
        } else {
            init
        }
    }
}

/// Every reason that some record of a file gives.
pub open spec fn all_reasons(own: Seq<RecordModel>) -> u32
    decreases own.len(),
{
    if own.len() == 0 {
        0
    } else {
        all_reasons(own.drop_last()) | own.last().reason
    }
}

/// The places that a file was renamed away from.
pub open spec fn left_places(own: Seq<RecordModel>) -> Seq<(u128, Seq<char>)>
    decreases own.len(),
{
    if own.len() == 0 {
        Seq::empty()
    } else if own.last().has(USN_REASON_RENAME_OLD_NAME) {
        left_places(own.drop_last()).push(own.last().place())
    } else {
        left_places(own.drop_last())
    }
}

/// The last place that a file is said to be at.
pub open spec fn last_place(own: Seq<RecordModel>) -> Option<(u128, Seq<char>)>
    decreases own.len(),
{
    if own.len() == 0 {
        None
    } else if own.last().has(USN_REASON_RENAME_OLD_NAME) {
        last_place(own.drop_last())
    } else {
        Some(own.last().place())
    }
}

/// Whether a file ends up deleted: the last record that creates or deletes it
/// decides, and creation wins within one record.
pub open spec fn ends_deleted(own: Seq<RecordModel>) -> bool
    decreases own.len(),
{
    if own.len() == 0 {
        false
    } else if own.last().has(USN_REASON_FILE_CREATE) {
        false
    } else if own.last().has(USN_REASON_FILE_DELETE) {
        true
    } else {
        ends_deleted(own.drop_last())
    }
}

/// What a file's own records come to.
pub open spec fn coalesced_file(frn: u128, own: Seq<RecordModel>) -> FileModel {
    FileModel {
        frn,
        reasons: all_reasons(own),
        old_names: left_places(own),
        latest: last_place(own),
        deleted: ends_deleted(own),
        is_dir: own.len() > 0 && own.last().directory,
    }
}

/// What a batch comes to: one change per file, in first-seen order.
pub open spec fn coalesced(records: Seq<RecordModel>) -> Seq<FileModel> {
    first_seen(records).map_values(
        |frn: u128| coalesced_file(frn, records_of(records, frn)),
    )
}

pub open spec fn file_models(s: Seq<FileChange>) -> Seq<FileModel> {
    Seq::new(s.len(), |i: int| s[i]@)
}

proof fn lemma_first_seen_distinct(records: Seq<RecordModel>)
    ensures
        first_seen(records).no_duplicates(),
    decreases records.len(),
{
    if records.len() > 0 {
        lemma_first_seen_distinct(records.drop_last());
    }
}

proof fn lemma_unseen_has_no_records(records: Seq<RecordModel>, frn: u128)
    requires
        !first_seen(records).contains(frn),
    ensures
        records_of(records, frn).len() == 0,
    decreases records.len(),
{
    if records.len() > 0 {
        let init = records.drop_last();
        let seen = first_seen(init);
        if seen.contains(frn) {
            let i = seen.index_of(frn);
            assert(first_seen(records)[i] == frn);
        }
        lemma_unseen_has_no_records(init, frn);
        if records.last().frn == frn {
            assert(first_seen(records).last() == frn);
            assert(first_seen(records).contains(frn));
        }
    }
}

impl FileChange {
    fn fresh(frn: u128) -> (r: FileChange)
        ensures
            r@ == coalesced_file(frn, Seq::empty()),
    {
        let r = FileChange {
            frn,
            reasons: 0,
            old_names: Vec::new(),
            latest: None,
            deleted: false,
            is_dir: false,
        };
        assert(r@.old_names =~= Seq::empty());
        r
    }

    /// Take one more record of this file into account.
    fn absorb(&mut self, r: &UsnRecord, Ghost(own): Ghost<Seq<RecordModel>>)
        requires
            old(self)@ == coalesced_file(r.frn, own),
        ensures
            final(self)@ == coalesced_file(r.frn, own.push(r@)),
    {
        assert(own.push(r@).drop_last() =~= own);
        self.reasons = self.reasons | r.reason;
        self.is_dir = r.directory;
        if r.has(USN_REASON_RENAME_OLD_NAME) {
            let ghost before = places(self.old_names@);
            self.old_names.push((r.parent_frn, r.name.clone()));
            assert(places(self.old_names@) =~= before.push(r@.place()));
        } else {
            self.latest = Some((r.parent_frn, r.name.clone()));
        }
        if r.has(USN_REASON_FILE_DELETE) {
            self.deleted = true;
        }
        if r.has(USN_REASON_FILE_CREATE) {
            self.deleted = false;
        }
    }
}

/// Coalesce a batch of records per file.
pub fn coalesce(records: &Vec<UsnRecord>) -> (r: Vec<FileChange>)
    ensures
        file_models(r@) == coalesced(record_models(records@)),
{
    let mut files: Vec<FileChange> = Vec::new();
    let mut i: usize = 0;
    let ghost all = record_models(records@);
    assert(file_models(files@) =~= coalesced(all.take(0)));
    while i < records.len()
        invariant
            0 <= i <= records.len(),
            all == record_models(records@),
            file_models(files@) == coalesced(all.take(i as int)),
        decreases records.len() - i,
    {
        let ghost before = all.take(i as int);
        let ghost now = all.take(i + 1);
        let ghost seen = first_seen(before);
        let ghost models = file_models(files@);
        let r = &records[i];
        proof {
            assert(now.drop_last() =~= before);
            assert(now.last() == r@);
            lemma_first_seen_distinct(before);
            assert(models.len() == seen.len());
            assert forall|k: int| 0 <= k < seen.len() implies (#[trigger] files@[k])@
                == coalesced_file(seen[k], records_of(before, seen[k])) by {
                assert(models[k] == files@[k]@);
            }
        }
        let mut at: usize = 0;
        while at < files.len() && files[at].frn != r.frn
            invariant
                0 <= at <= files.len(),
                files.len() == seen.len(),
                forall|k: int|
                    0 <= k < seen.len() ==> (#[trigger] files@[k])@ == coalesced_file(
                        seen[k],
                        records_of(before, seen[k]),
                    ),
                forall|k: int| 0 <= k < at ==> seen[k] != r.frn,
            decreases files.len() - at,
        {
            assert(files@[at as int]@.frn == seen[at as int]);
            at += 1;
        }
        if at == files.len() {
            proof {
                assert(!seen.contains(r.frn));
                lemma_unseen_has_no_records(before, r.frn);
                assert(records_of(before, r.frn) =~= Seq::empty());
            }
            let mut f = FileChange::fresh(r.frn);
            f.absorb(r, Ghost(Seq::empty()));
            files.push(f);
            proof {
                assert(first_seen(now) == seen.push(r.frn));
            }
        } else {
            assert(files@[at as int]@.frn == seen[at as int]);
            assert(seen.contains(r.frn));
            files[at].absorb(r, Ghost(records_of(before, r.frn)));
            proof {
                assert(first_seen(now) == seen);
            }
        }
        proof {
            let goal = coalesced(now);
            assert(files@.len() == goal.len());
            assert forall|k: int| 0 <= k < goal.len() implies file_models(files@)[k] == goal[k] by {
                let frn = first_seen(now)[k];
                if frn == r.frn {
                    assert(records_of(now, frn) == records_of(before, frn).push(r@));
                    if at < seen.len() {
                        assert(seen[k] == seen[at as int]);
                        assert(k == at);
                    } else {
                        assert(k == seen.len());
                    }
                } else {
                    assert(k < seen.len());
                    assert(records_of(now, frn) == records_of(before, frn));
                    assert(k != at);
                    assert(files@[k]@ == models[k]);
                }
            }
            assert(file_models(files@) =~= goal);
        }
        i += 1;
    }
    assert(all.take(i as int) =~= all);
    files
}

/// Every file that a batch mentions is coalesced exactly once.
pub proof fn law_each_file_once(records: Seq<RecordModel>)
    ensures
        first_seen(records).no_duplicates(),
        forall|i: int|
            0 <= i < records.len() ==> first_seen(records).contains((#[trigger] records[i]).frn),
    decreases records.len(),
{
    lemma_first_seen_distinct(records);
    if records.len() > 0 {
        let init = records.drop_last();
        law_each_file_once(init);
        assert forall|i: int| 0 <= i < records.len() implies first_seen(records).contains(
            (#[trigger] records[i]).frn,
        ) by {
            if i < init.len() {
                assert(first_seen(init).contains(init[i].frn));
                let p = first_seen(init).index_of(init[i].frn);
                assert(first_seen(records)[p] == records[i].frn);
            } else if first_seen(init).contains(records.last().frn) {
            } else {
                assert(first_seen(records).last() == records.last().frn);
            }
        }
    }
}

/// What a file's records come to: the last record that is not a rename away
/// says where the file is, the last that creates or deletes it says whether it
/// is there (creation wins within one record), every rename away leaves a
/// place, in journal order, and no reason is lost.
pub proof fn law_the_last_record_decides(frn: u128, own: Seq<RecordModel>)
    ensures
        ({
            let f = coalesced_file(frn, own);
            &&& f.frn == frn
            &&& forall|i: int|
                #![trigger own[i]]
                0 <= i < own.len() && own[i].reason & USN_REASON_RENAME_OLD_NAME == 0 && (forall|
                    j: int,
                |
                    i < j < own.len() ==> (#[trigger] own[j]).reason & USN_REASON_RENAME_OLD_NAME
                        != 0) ==> f.latest == Some((own[i].parent_frn, own[i].name))
            &&& (forall|j: int|
                0 <= j < own.len() ==> (#[trigger] own[j]).reason & USN_REASON_RENAME_OLD_NAME
                    != 0) ==> f.latest is None
            &&& f.deleted <==> exists|i: int|
                #![trigger own[i]]
                0 <= i < own.len() && own[i].reason & USN_REASON_FILE_DELETE != 0 && own[i].reason
                    & USN_REASON_FILE_CREATE == 0 && forall|j: int|
                    i < j < own.len() ==> (#[trigger] own[j]).reason & USN_REASON_FILE_DELETE == 0
                        && own[j].reason & USN_REASON_FILE_CREATE == 0
            &&& own.len() > 0 ==> f.is_dir == own[own.len() - 1].directory
            &&& exists|pick: Seq<int>|
                {
                    &&& #[trigger] rising(pick)
                    &&& picks(
                        pick,
                        own.len() as int,
                        |i: int| own[i].reason & USN_REASON_RENAME_OLD_NAME != 0,
                    )
                    &&& f.old_names.len() == pick.len()
                    &&& forall|a: int|
                        0 <= a < pick.len() ==> #[trigger] f.old_names[a] == (
                            own[pick[a]].parent_frn,
                            own[pick[a]].name,
                        )
                }
            &&& forall|mask: u32|
                #![trigger f.reasons & mask]
                f.reasons & mask != 0 <==> exists|i: int|
                    0 <= i < own.len() && (#[trigger] own[i]).reason & mask != 0
        }),
    decreases own.len(),
{
    let f = coalesced_file(frn, own);
    let renames = |i: int| own[i].reason & USN_REASON_RENAME_OLD_NAME != 0;
    lemma_last_place(own);
    lemma_ends_deleted(own);
    let pick = lemma_left_places(own);
    assert(picks(pick, own.len() as int, renames));
    assert forall|mask: u32| #![trigger f.reasons & mask] f.reasons & mask != 0 <==> exists|i: int|
        0 <= i < own.len() && (#[trigger] own[i]).reason & mask != 0 by {
        lemma_all_reasons(own, mask);
    }
}

proof fn lemma_last_place(own: Seq<RecordModel>)
    ensures
        forall|i: int|
            #![trigger own[i]]
            0 <= i < own.len() && !own[i].has(USN_REASON_RENAME_OLD_NAME) && (forall|j: int|
                i < j < own.len() ==> (#[trigger] own[j]).has(USN_REASON_RENAME_OLD_NAME))
                ==> last_place(own) == Some(own[i].place()),
        (forall|j: int| 0 <= j < own.len() ==> (#[trigger] own[j]).has(USN_REASON_RENAME_OLD_NAME))
            ==> last_place(own) is None,
    decreases own.len(),
{
    if own.len() > 0 {
        let init = own.drop_last();
        lemma_last_place(init);
        assert(own[own.len() - 1] == own.last());
        assert forall|i: int|
            #![trigger own[i]]
            0 <= i < own.len() && !own[i].has(USN_REASON_RENAME_OLD_NAME) && (forall|j: int|
                i < j < own.len() ==> (#[trigger] own[j]).has(USN_REASON_RENAME_OLD_NAME)) implies
            last_place(own) == Some(own[i].place()) by {
            if i < init.len() {
                assert(init[i] == own[i]);
                assert forall|j: int| i < j < init.len() implies (#[trigger] init[j]).has(
                    USN_REASON_RENAME_OLD_NAME,
                ) by {
                    assert(own[j].has(USN_REASON_RENAME_OLD_NAME));
                }
            }
        }
        if forall|j: int| 0 <= j < own.len() ==> (#[trigger] own[j]).has(USN_REASON_RENAME_OLD_NAME) {
            assert forall|j: int| 0 <= j < init.len() implies (#[trigger] init[j]).has(
                USN_REASON_RENAME_OLD_NAME,
            ) by {
                assert(own[j].has(USN_REASON_RENAME_OLD_NAME));
            }
        }
    }
}

/// Whether this record settles that a file is deleted.
spec fn deletes_last(own: Seq<RecordModel>, i: int) -> bool {
    0 <= i < own.len() && own[i].has(USN_REASON_FILE_DELETE) && !own[i].has(USN_REASON_FILE_CREATE)
        && forall|j: int|
        i < j < own.len() ==> !(#[trigger] own[j]).has(USN_REASON_FILE_DELETE) && !own[j].has(
            USN_REASON_FILE_CREATE,
        )
}

proof fn lemma_ends_deleted(own: Seq<RecordModel>)
    ensures
        ends_deleted(own) <==> exists|i: int| #[trigger] deletes_last(own, i),
        ends_deleted(own) <==> exists|i: int|
            #![trigger own[i]]
            0 <= i < own.len() && own[i].reason & USN_REASON_FILE_DELETE != 0 && own[i].reason
                & USN_REASON_FILE_CREATE == 0 && forall|j: int|
                i < j < own.len() ==> (#[trigger] own[j]).reason & USN_REASON_FILE_DELETE == 0
                    && own[j].reason & USN_REASON_FILE_CREATE == 0,
    decreases own.len(),
{
    if own.len() > 0 {
        let init = own.drop_last();
        let n = own.len() - 1;
        lemma_ends_deleted(init);
        assert(own[n] == own.last());
        if ends_deleted(own) {
            if own.last().has(USN_REASON_FILE_DELETE) {
                assert(deletes_last(own, n));
            } else {
                let i = choose|i: int| #[trigger] deletes_last(init, i);
                assert forall|j: int| i < j < own.len() implies !(#[trigger] own[j]).has(
                    USN_REASON_FILE_DELETE,
                ) && !own[j].has(USN_REASON_FILE_CREATE) by {
                    if j < n {
                        assert(init[j] == own[j]);
                    }
                }
                assert(init[i] == own[i]);
                assert(deletes_last(own, i));
            }
        }
        if exists|i: int| #[trigger] deletes_last(own, i) {
            let i = choose|i: int| #[trigger] deletes_last(own, i);
            if i < n {
                assert(!own[n].has(USN_REASON_FILE_CREATE));
                assert(init[i] == own[i]);
                assert forall|j: int| i < j < init.len() implies !(#[trigger] init[j]).has(
                    USN_REASON_FILE_DELETE,
                ) && !init[j].has(USN_REASON_FILE_CREATE) by {
                    assert(init[j] == own[j]);
                }
                assert(deletes_last(init, i));
            }
        }
    }
    if ends_deleted(own) {
        let i = choose|i: int| #[trigger] deletes_last(own, i);
        assert(own[i].reason & USN_REASON_FILE_DELETE != 0);
        assert forall|j: int| i < j < own.len() implies (#[trigger] own[j]).reason
            & USN_REASON_FILE_DELETE == 0 && own[j].reason & USN_REASON_FILE_CREATE == 0 by {
            assert(!own[j].has(USN_REASON_FILE_DELETE));
        }
    }
    if exists|i: int|
        #![trigger own[i]]
        0 <= i < own.len() && own[i].reason & USN_REASON_FILE_DELETE != 0 && own[i].reason
            & USN_REASON_FILE_CREATE == 0 && forall|j: int|
            i < j < own.len() ==> (#[trigger] own[j]).reason & USN_REASON_FILE_DELETE == 0
                && own[j].reason & USN_REASON_FILE_CREATE == 0 {
        let i = choose|i: int|
            #![trigger own[i]]
            0 <= i < own.len() && own[i].reason & USN_REASON_FILE_DELETE != 0 && own[i].reason
                & USN_REASON_FILE_CREATE == 0 && forall|j: int|
                i < j < own.len() ==> (#[trigger] own[j]).reason & USN_REASON_FILE_DELETE == 0
                    && own[j].reason & USN_REASON_FILE_CREATE == 0;
        assert(deletes_last(own, i));
    }
}

proof fn lemma_left_places(own: Seq<RecordModel>) -> (pick: Seq<int>)
    ensures
        picks(
            pick,
            own.len() as int,
            |i: int| own[i].reason & USN_REASON_RENAME_OLD_NAME != 0,
        ),
        left_places(own).len() == pick.len(),
        forall|a: int|
            0 <= a < pick.len() ==> #[trigger] left_places(own)[a] == own[pick[a]].place(),
    decreases own.len(),
{
    let renames = |i: int| own[i].reason & USN_REASON_RENAME_OLD_NAME != 0;
    if own.len() == 0 {
        lemma_picks_none(renames);
        Seq::empty()
    } else {
        let init = own.drop_last();
        let n = init.len() as int;
        let before = lemma_left_places(init);
        let old = |i: int| init[i].reason & USN_REASON_RENAME_OLD_NAME != 0;
        assert(picks(before, n, old));
        assert(picks(before, n, renames)) by {
            assert forall|a: int| 0 <= a < before.len() implies 0 <= #[trigger] before[a] < n
                && renames(before[a]) by {
                assert(old(before[a]));
            }
            assert forall|i: int| 0 <= i < n && #[trigger] renames(i) implies before.contains(i) by {
                assert(old(i));
            }
        }
        lemma_picks_next(before, n, renames);
        if renames(n) {
            before.push(n)
        } else {
            before
        }
    }
}

proof fn lemma_all_reasons(own: Seq<RecordModel>, mask: u32)
    ensures
        all_reasons(own) & mask != 0 <==> exists|i: int|
            0 <= i < own.len() && (#[trigger] own[i]).reason & mask != 0,
    decreases own.len(),
{
    if own.len() == 0 {
        assert(0u32 & mask == 0) by (bit_vector);
    } else {
        let init = own.drop_last();
        let n = own.len() - 1;
        lemma_all_reasons(init, mask);
        let a = all_reasons(init);
        let b = own.last().reason;
        assert((a | b) & mask != 0 <==> (a & mask != 0 || b & mask != 0)) by (bit_vector);
        if a & mask != 0 {
            let i = choose|i: int|
                0 <= i < init.len() && (#[trigger] init[i]).reason & mask != 0;
            assert(own[i].reason & mask != 0);
        }
        if b & mask != 0 {
            assert(own[n].reason & mask != 0);
        }
        if exists|i: int| 0 <= i < own.len() && (#[trigger] own[i]).reason & mask != 0 {
            let i = choose|i: int| 0 <= i < own.len() && (#[trigger] own[i]).reason & mask != 0;
            if i < n {
                assert(init[i].reason & mask != 0);
            }
        }
    }
}

/// A batch comes to one change per file, in the order in which the files first
/// occur, and each change is made of all the file's records, in journal order,
/// and of no other's.
pub proof fn law_a_change_is_made_of_its_own_records(records: Seq<RecordModel>, k: int, l: int)
    requires
        0 <= k < coalesced(records).len(),
    ensures
        k < l < coalesced(records).len() ==> coalesced(records)[k].frn != coalesced(records)[l].frn
            && exists|i: int|
            {
                &&& 0 <= i < records.len()
                &&& (#[trigger] records[i]).frn == coalesced(records)[k].frn
                &&& forall|j: int|
                    0 <= j <= i ==> (#[trigger] records[j]).frn != coalesced(records)[l].frn
            },
        exists|own: Seq<RecordModel>, pick: Seq<int>|
            {
                &&& #[trigger] rising(pick)
                    &&& picks(
                    pick,
                    records.len() as int,
                    |i: int| records[i].frn == coalesced(records)[k].frn,
                )
                &&& #[trigger] coalesced_file(coalesced(records)[k].frn, own) == coalesced(
                    records,
                )[k]
                &&& own.len() == pick.len()
                &&& forall|a: int| 0 <= a < pick.len() ==> #[trigger] own[a] == records[pick[a]]
            },
{
    let frn = first_seen(records)[k];
    lemma_first_seen_distinct(records);
    if k < l < coalesced(records).len() {
        lemma_first_seen_order(records, k, l);
    }
    let own = records_of(records, frn);
    let pick = lemma_records_of(records, frn);
    assert(coalesced(records)[k] == coalesced_file(frn, own));
    assert(picks(pick, records.len() as int, |i: int| records[i].frn == coalesced(records)[k].frn)) by {
        let p = |i: int| records[i].frn == frn;
        let q = |i: int| records[i].frn == coalesced(records)[k].frn;
        assert(p =~= q);
    }
}

proof fn lemma_first_seen_order(records: Seq<RecordModel>, k: int, l: int)
    requires
        0 <= k < l < first_seen(records).len(),
    ensures
        exists|i: int|
            {
                &&& 0 <= i < records.len()
                &&& (#[trigger] records[i]).frn == first_seen(records)[k]
                &&& forall|j: int|
                    0 <= j <= i ==> (#[trigger] records[j]).frn != first_seen(records)[l]
            },
    decreases records.len(),
{
    if records.len() > 0 {
        let init = records.drop_last();
        let seen = first_seen(init);
        if l < seen.len() {
            lemma_first_seen_order(init, k, l);
            let i = choose|i: int|
                {
                    &&& 0 <= i < init.len()
                    &&& (#[trigger] init[i]).frn == seen[k]
                    &&& forall|j: int| 0 <= j <= i ==> (#[trigger] init[j]).frn != seen[l]
                };
            assert(records[i] == init[i]);
            assert forall|j: int| 0 <= j <= i implies (#[trigger] records[j]).frn
                != first_seen(records)[l] by {
                assert(init[j] == records[j]);
            }
        } else {
            lemma_seen_occurs(init, k);
            let i = choose|i: int| 0 <= i < init.len() && (#[trigger] init[i]).frn == seen[k];
            assert(records[i] == init[i]);
            law_each_file_once(init);
            assert forall|j: int| 0 <= j <= i implies (#[trigger] records[j]).frn
                != first_seen(records)[l] by {
                assert(seen.contains(init[j].frn));
            }
        }
    }
}

proof fn lemma_seen_occurs(records: Seq<RecordModel>, k: int)
    requires
        0 <= k < first_seen(records).len(),
    ensures
        exists|i: int| 0 <= i < records.len() && (#[trigger] records[i]).frn == first_seen(records)[k],
    decreases records.len(),
{
    if records.len() > 0 {
        let init = records.drop_last();
        if k < first_seen(init).len() {
            lemma_seen_occurs(init, k);
            let i = choose|i: int|
                0 <= i < init.len() && (#[trigger] init[i]).frn == first_seen(init)[k];
            assert(records[i].frn == first_seen(records)[k]);
        } else {
            assert(records[records.len() - 1].frn == first_seen(records)[k]);
        }
    }
}

proof fn lemma_records_of(records: Seq<RecordModel>, frn: u128) -> (pick: Seq<int>)
    ensures
        picks(pick, records.len() as int, |i: int| records[i].frn == frn),
        records_of(records, frn).len() == pick.len(),
        forall|a: int|
            0 <= a < pick.len() ==> #[trigger] records_of(records, frn)[a] == records[pick[a]],
    decreases records.len(),
{
    let own = |i: int| records[i].frn == frn;
    if records.len() == 0 {
        lemma_picks_none(own);
        Seq::empty()
    } else {
        let init = records.drop_last();
        let n = init.len() as int;
        let before = lemma_records_of(init, frn);
        let old = |i: int| init[i].frn == frn;
        assert(picks(before, n, old));
        assert(picks(before, n, own)) by {
            assert forall|a: int| 0 <= a < before.len() implies 0 <= #[trigger] before[a] < n && own(
                before[a],
            ) by {
                assert(old(before[a]));
            }
            assert forall|i: int| 0 <= i < n && #[trigger] own(i) implies before.contains(i) by {
                assert(old(i));
            }
        }
        lemma_picks_next(before, n, own);
        if own(n) {
            before.push(n)
        } else {
            before
        }
    }
}

// ----- statistics -----------------------------------------------------------

#[derive(Debug, Clone, Copy, PartialEq, Eq, Structural)]
pub struct TranslateStats {
    pub records: u64,
    pub files: u64,
    pub snapshots: u64,
    pub vanished: u64,
    pub out_of_scope: u64,
    pub link_resyncs: u64,
    /// Snapshots that failed transiently. The batch is retried from the same
    /// position rather than acknowledged.
    pub io_errors: u64,
    /// Snapshots that cannot succeed by replaying the record (denied,
    /// unsupported). Skipped like an unlistable file in a scan.
    pub unreadable: u64,
}

/// Whether replaying the same record cannot fix this failure.
pub open spec fn permanent(kind: ScanErrorKind) -> bool {
    kind == ScanErrorKind::AccessDenied || kind == ScanErrorKind::NotFound || kind
        == ScanErrorKind::Unsupported || kind == ScanErrorKind::InvalidName
}

/// Why an incomplete batch is not acknowledged.
pub open spec fn incomplete_text(io_errors: u64) -> Seq<char> {
    "USN batch has "@ + decimal(io_errors as nat)
        + " unread snapshots; retaining checkpoint for retry"@
}

/// Only a failure that reading again cannot mend lets a batch be acknowledged
/// without the file: one that may be transient, or that is not understood,
/// holds the batch back.
pub proof fn law_a_doubtful_failure_holds_the_batch(kind: ScanErrorKind)
    ensures
        permanent(kind) <==> kind != ScanErrorKind::Transient && kind != ScanErrorKind::Other,
{
}

impl Default for TranslateStats {
    fn default() -> (r: TranslateStats)
        ensures
            r == TranslateStats::zero(),
    {
        TranslateStats {
            records: 0,
            files: 0,
            snapshots: 0,
            vanished: 0,
            out_of_scope: 0,
            link_resyncs: 0,
            io_errors: 0,
            unreadable: 0,
        }
    }
}

impl TranslateStats {
    pub open spec fn zero() -> TranslateStats {
        TranslateStats {
            records: 0,
            files: 0,
            snapshots: 0,
            vanished: 0,
            out_of_scope: 0,
            link_resyncs: 0,
            io_errors: 0,
            unreadable: 0,
        }
    }

    /// Whether every counter can still be raised.
    pub open spec fn has_room(self) -> bool {
        &&& self.snapshots < u64::MAX
        &&& self.vanished < u64::MAX
        &&& self.out_of_scope < u64::MAX
        &&& self.link_resyncs < u64::MAX
        &&& self.io_errors < u64::MAX
        &&& self.unreadable < u64::MAX
    }

    /// Record one failed snapshot. Only a failure that replaying the same
    /// record cannot fix may be skipped: a single protected file inside an
    /// indexed root would otherwise stall the live feed until the journal
    /// wrapped. Everything else keeps the checkpoint, because acknowledging it
    /// would drop a change that a retry could still have read.
    pub fn record_snapshot_failure(&mut self, kind: ScanErrorKind)
        requires
            old(self).unreadable < u64::MAX,
            old(self).io_errors < u64::MAX,
        ensures
            *final(self) == (if permanent(kind) {
                TranslateStats { unreadable: (old(self).unreadable + 1) as u64, ..*old(self) }
            } else {
                TranslateStats { io_errors: (old(self).io_errors + 1) as u64, ..*old(self) }
            }),
    {
        let skip: bool = match kind {
            ScanErrorKind::AccessDenied => true,
            ScanErrorKind::NotFound => true,
            ScanErrorKind::Unsupported => true,
            ScanErrorKind::InvalidName => true,
            ScanErrorKind::Transient => false,
            ScanErrorKind::Other => false,
        };
        if skip {
            self.unreadable = self.unreadable + 1;
        } else {
            self.io_errors = self.io_errors + 1;
        }
    }

    /// Both live watching and overlap replay must reject partial snapshots. An
    /// empty event list is not proof that an unread file is irrelevant.
    pub fn ensure_complete(&self) -> (r: Result<(), String>)
        ensures
            r is Ok <==> self.io_errors == 0,
            r matches Err(e) ==> e@ == incomplete_text(self.io_errors),
    {
        if self.io_errors > 0 {
            let mut m = "USN batch has ".to_owned();
            push_decimal(&mut m, self.io_errors);
            m.append(" unread snapshots; retaining checkpoint for retry");
            return Err(m);
        }
        Ok(())
    }
}

// ----- translation ----------------------------------------------------------

/// A file as read by its id.
#[derive(Debug)]
pub struct FileSnapshot {
    pub native: NativeKey,
    pub kind: ObjectKind,
    /// The object can hold children.
    pub directory_like: bool,
    pub attributes: u32,
    pub size: u64,
    pub allocated: u64,
    pub link_count: u32,
    pub created: Option<UnixNanos>,
    pub modified: Option<UnixNanos>,
    pub changed: Option<UnixNanos>,
    pub accessed: Option<UnixNanos>,
    pub reparse_tag: Option<u32>,
    pub path: Option<String>,
}

/// The catalog's part of a file snapshot.
pub open spec fn object_of(s: FileSnapshot) -> ObjectSnapshot {
    ObjectSnapshot {
        native: s.native,
        kind: s.kind,
        attributes: s.attributes,
        size: s.size,
        allocated: s.allocated,
        link_count: s.link_count,
        created: s.created,
        modified: s.modified,
        changed: s.changed,
        accessed: s.accessed,
        reparse_tag: s.reparse_tag,
    }
}

/// What the catalog is told of a file is what was read of it, field by field.
pub proof fn law_the_catalog_sees_the_file_as_read(s: FileSnapshot)
    ensures
        object_of(s).native == s.native,
        object_of(s).kind == s.kind,
        object_of(s).attributes == s.attributes,
        object_of(s).size == s.size,
        object_of(s).allocated == s.allocated,
        object_of(s).link_count == s.link_count,
        object_of(s).created == s.created,
        object_of(s).modified == s.modified,
        object_of(s).changed == s.changed,
        object_of(s).accessed == s.accessed,
        object_of(s).reparse_tag == s.reparse_tag,
{
}

pub fn to_snapshot(s: &FileSnapshot) -> (r: ObjectSnapshot)
    ensures
        r == object_of(*s),
{
    ObjectSnapshot {
        native: s.native,
        kind: s.kind,
        attributes: s.attributes,
        size: s.size,
        allocated: s.allocated,
        link_count: s.link_count,
        created: s.created,
        modified: s.modified,
        changed: s.changed,
        accessed: s.accessed,
        reparse_tag: s.reparse_tag,
    }
}

/// The deletion of an identity, if the source knows it. A volume journal
/// includes other roots and the service's own stores; unknown deletes are not
/// source events. A lookup that fails is neither.
pub fn known_deletion<E>(lookup: Result<bool, E>, key: NativeKey) -> (r: Result<
    Option<ChangeEvent>,
    E,
>)
    ensures
        match lookup {
            Err(e) => r == Err::<Option<ChangeEvent>, E>(e),
            Ok(false) => r matches Ok(None),
            Ok(true) => r matches Ok(Some(d)) && d@ == (EventModel::Delete { object: key }),
        },
{
    match lookup {
        Err(e) => Err(e),
        Ok(known) => if known {
            Ok(Some(ChangeEvent::Delete { object: key }))
        } else {
            Ok(None)
        },
    }
}

/// What follows a snapshot.
#[derive(Debug)]
pub enum AfterSnapshot {
    /// Enumerate the hard links of this path first.
    ResyncLinks { path: String },
    /// Link the file at its last place.
    LinkLatest,
}

/// One current name of a hard-linked file.
#[derive(Debug)]
pub struct LiveLink {
    pub parent: NativeKey,
    pub name: String,
}

/// A catalog entry that names the object.
#[derive(Debug)]
pub struct KnownEntry {
    /// The identity of the directory it is in, if the catalog has one.
    pub parent: Option<NativeKey>,
    pub name: String,
}

pub open spec fn link_events(links: Seq<LiveLink>, object: ObjectSnapshot) -> Seq<EventModel> {
    Seq::new(
        links.len(),
        |i: int|
            EventModel::Link { parent: links[i].parent, name: links[i].name@, snapshot: object },
    )
}

/// Whether an entry is still among the live names.
pub open spec fn still_linked(links: Seq<LiveLink>, parent: NativeKey, name: Seq<char>) -> bool {
    exists|i: int|
        0 <= i < links.len() && (#[trigger] links[i]).parent == parent && links[i].name@ == name
}

/// The entries that no live name stands for any more.
pub open spec fn stale_unlinks(links: Seq<LiveLink>, entries: Seq<KnownEntry>) -> Seq<EventModel>
    decreases entries.len(),
{
    if entries.len() == 0 {
        Seq::empty()
    } else {
        let init = stale_unlinks(links, entries.drop_last());
        let e = entries.last();
        match e.parent {
            Some(p) => if still_linked(links, p, e.name@) {
                init
            } else {
                init.push(EventModel::Unlink { parent: p, name: e.name@ })
            },
            None => init,
        }
    }
}

/// Every live name linked, and every entry unlinked that none of them stands
/// for.
pub open spec fn links_resynced(
    m: TranslationModel,
    object: ObjectSnapshot,
    links: Seq<LiveLink>,
    entries: Seq<KnownEntry>,
) -> TranslationModel {
    TranslationModel {
        events: m.events + link_events(links, object) + stale_unlinks(links, entries),
        stats: TranslateStats { link_resyncs: (m.stats.link_resyncs + 1) as u64, ..m.stats },
        ..m
    }
}

proof fn lemma_names_after_links(
    names: Names,
    links: Seq<LiveLink>,
    object: ObjectSnapshot,
    at: (NativeKey, Seq<char>),
)
    ensures
        ({
            let after = names_after_all(names, link_events(links, object));
            if still_linked(links, at.0, at.1) {
                stands(after, object.native, at)
            } else {
                &&& after.dom().contains(at) == names.dom().contains(at)
                &&& names.dom().contains(at) ==> after[at] == names[at]
            }
        }),
    decreases links.len(),
{
    let events = link_events(links, object);
    if links.len() == 0 {
        assert(events.len() == 0);
    } else {
        let init = links.drop_last();
        let last = (links.last().parent, links.last().name@);
        assert(events.drop_last() =~= link_events(init, object));
        lemma_names_after_links(names, init, object, at);
        if still_linked(init, at.0, at.1) {
            let i = choose|i: int|
                0 <= i < init.len() && (#[trigger] init[i]).parent == at.0 && init[i].name@ == at.1;
            assert(links[i] == init[i]);
        }
        if at == last {
            assert(links[links.len() - 1].parent == at.0);
        } else if still_linked(links, at.0, at.1) {
            let i = choose|i: int|
                0 <= i < links.len() && (#[trigger] links[i]).parent == at.0 && links[i].name@
                    == at.1;
            assert(i < init.len()) by {
                if i == init.len() {
                    assert(at == last);
                }
            }
            assert(init[i] == links[i]);
        }
    }
}

/// Whether the catalog lists a name among some entries.
pub open spec fn listed(entries: Seq<KnownEntry>, at: (NativeKey, Seq<char>)) -> bool {
    exists|k: int|
        0 <= k < entries.len() && (#[trigger] entries[k]).parent == Some(at.0) && entries[k].name@
            == at.1
}

proof fn lemma_names_after_unlinks(
    names: Names,
    links: Seq<LiveLink>,
    entries: Seq<KnownEntry>,
    at: (NativeKey, Seq<char>),
)
    ensures
        ({
            let after = names_after_all(names, stale_unlinks(links, entries));
            let gone = !still_linked(links, at.0, at.1) && listed(entries, at);
            &&& after.dom().contains(at) == (names.dom().contains(at) && !gone)
            &&& after.dom().contains(at) ==> after[at] == names[at]
        }),
    decreases entries.len(),
{
    if entries.len() > 0 {
        let init = entries.drop_last();
        let e = entries.last();
        lemma_names_after_unlinks(names, links, init, at);
        let before = names_after_all(names, stale_unlinks(links, init));
        let events = stale_unlinks(links, entries);
        let after = names_after_all(names, events);
        if listed(init, at) {
            let k = choose|k: int|
                0 <= k < init.len() && (#[trigger] init[k]).parent == Some(at.0) && init[k].name@
                    == at.1;
            assert(entries[k] == init[k]);
        }
        let last = e.parent == Some(at.0) && e.name@ == at.1;
        if last {
            assert(entries[entries.len() - 1].parent == Some(at.0));
        } else if listed(entries, at) {
            let k = choose|k: int|
                0 <= k < entries.len() && (#[trigger] entries[k]).parent == Some(at.0)
                    && entries[k].name@ == at.1;
            assert(init[k] == entries[k]);
        }
        if e.parent is Some && !still_linked(links, e.parent->0, e.name@) {
            assert(events.drop_last() =~= stale_unlinks(links, init));
            assert(after == before.remove((e.parent->0, e.name@)));
            assert((at == (e.parent->0, e.name@)) == last);
        }
    }
}

/// After a resynchronisation the catalog has an object under exactly its live
/// names, whatever it had before: where `entries` are all the names that the
/// catalog has of it, each name that lives is there, each that does not is
/// gone, and nothing else in the catalog changes.
pub proof fn law_a_resync_leaves_exactly_the_live_names(
    m: TranslationModel,
    object: ObjectSnapshot,
    links: Seq<LiveLink>,
    entries: Seq<KnownEntry>,
    names: Names,
    at: (NativeKey, Seq<char>),
)
    requires
        forall|x: (NativeKey, Seq<char>)| #[trigger]
            names.dom().contains(x) && names[x] == object.native ==> exists|k: int|
                0 <= k < entries.len() && #[trigger] entries[k].parent == Some(x.0)
                    && entries[k].name@ == x.1,
    ensures
        ({
            let r = links_resynced(m, object, links, entries);
            let added = r.events.skip(m.events.len() as int);
            let after = names_after_all(names, added);
            let lives = exists|i: int|
                0 <= i < links.len() && #[trigger] links[i].parent == at.0 && links[i].name@ == at.1;
            let listed = exists|k: int|
                0 <= k < entries.len() && #[trigger] entries[k].parent == Some(at.0)
                    && entries[k].name@ == at.1;
            &&& r.events.take(m.events.len() as int) == m.events
            &&& (after.dom().contains(at) && after[at] == object.native) <==> lives
            &&& !lives && !listed ==> after.dom().contains(at) == names.dom().contains(at) && (
            names.dom().contains(at) ==> after[at] == names[at])
        }),
{
    let r = links_resynced(m, object, links, entries);
    let added = r.events.skip(m.events.len() as int);
    assert(r.events.take(m.events.len() as int) =~= m.events);
    assert(added =~= link_events(links, object) + stale_unlinks(links, entries));
    let linked = names_after_all(names, link_events(links, object));
    let after = names_after_all(names, added);
    lemma_names_after_both(names, link_events(links, object), stale_unlinks(links, entries));
    lemma_names_after_links(names, links, object, at);
    lemma_names_after_unlinks(linked, links, entries, at);
    let lives = exists|i: int|
        0 <= i < links.len() && #[trigger] links[i].parent == at.0 && links[i].name@ == at.1;
    if lives {
        let i = choose|i: int|
            0 <= i < links.len() && #[trigger] links[i].parent == at.0 && links[i].name@ == at.1;
        assert(links[i].parent == at.0);
        assert(still_linked(links, at.0, at.1));
        assert(stands(linked, object.native, at));
    } else {
        assert(!still_linked(links, at.0, at.1));
    }
}

/// A resynchronisation links each live name, once and in order, and then
/// unlinks: no unlink names a live name, each names an entry, every entry with
/// a known directory that no live name stands for is unlinked, and none twice
/// where no entry is listed twice. Nothing else happens but that the
/// resynchronisation is counted.
pub proof fn law_a_resync_unlinks_only_what_is_gone(
    m: TranslationModel,
    object: ObjectSnapshot,
    links: Seq<LiveLink>,
    entries: Seq<KnownEntry>,
)
    requires
        m.stats.link_resyncs < u64::MAX,
    ensures
        ({
            let r = links_resynced(m, object, links, entries);
            let n = (m.events.len() + links.len()) as int;
            &&& r.events.len() >= n
            &&& forall|i: int|
                0 <= i < links.len() ==> r.events[m.events.len() + i] == (EventModel::Link {
                    parent: (#[trigger] links[i]).parent,
                    name: links[i].name@,
                    snapshot: object,
                })
            &&& forall|j: int|
                n <= j < r.events.len() ==> {
                    &&& (#[trigger] r.events[j]) matches EventModel::Unlink { parent, name }
                    &&& forall|i: int|
                        0 <= i < links.len() ==> (#[trigger] links[i]).parent != parent
                            || links[i].name@ != name
                    &&& exists|k: int|
                        0 <= k < entries.len() && #[trigger] entries[k].parent == Some(parent)
                            && entries[k].name@ == name
                }
            &&& forall|k: int|
                #![trigger entries[k]]
                0 <= k < entries.len() && entries[k].parent is Some && (forall|i: int|
                    0 <= i < links.len() ==> (#[trigger] links[i]).parent != entries[k].parent->0
                        || links[i].name@ != entries[k].name@) ==> exists|j: int|
                    n <= j < r.events.len() && #[trigger] r.events[j] == (EventModel::Unlink {
                        parent: entries[k].parent->0,
                        name: entries[k].name@,
                    })
            &&& (forall|a: int, b: int|
                0 <= a < b < entries.len() ==> (#[trigger] entries[a]).parent != (
                #[trigger] entries[b]).parent || entries[a].name@ != entries[b].name@) ==> forall|
                a: int,
                b: int,
            |
                n <= a < b < r.events.len() ==> #[trigger] r.events[a] != #[trigger] r.events[b]
            &&& r.batch_dirs == m.batch_dirs && r.volume_serial == m.volume_serial
            &&& r.stats.link_resyncs == m.stats.link_resyncs + 1
            &&& r.stats.snapshots == m.stats.snapshots && r.stats.io_errors == m.stats.io_errors
        }),
{
    let r = links_resynced(m, object, links, entries);
    let n = (m.events.len() + links.len()) as int;
    let tail = stale_unlinks(links, entries);
    lemma_stale_unlinks(links, entries);
    assert forall|i: int| 0 <= i < links.len() implies r.events[m.events.len() + i] == (
    EventModel::Link { parent: (#[trigger] links[i]).parent, name: links[i].name@, snapshot: object }) by {
        assert(link_events(links, object)[i] == r.events[m.events.len() + i]);
    }
    assert forall|j: int| n <= j < r.events.len() implies #[trigger] r.events[j] == tail[j - n] by {}
    assert forall|k: int|
        #![trigger entries[k]]
        0 <= k < entries.len() && entries[k].parent is Some && (forall|i: int|
            0 <= i < links.len() ==> (#[trigger] links[i]).parent != entries[k].parent->0
                || links[i].name@ != entries[k].name@) implies exists|j: int|
        n <= j < r.events.len() && #[trigger] r.events[j] == (EventModel::Unlink {
            parent: entries[k].parent->0,
            name: entries[k].name@,
        }) by {
        let u = EventModel::Unlink { parent: entries[k].parent->0, name: entries[k].name@ };
        assert(!still_linked(links, entries[k].parent->0, entries[k].name@));
        assert(tail.contains(u));
        let p = tail.index_of(u);
        assert(r.events[n + p] == u);
    }
}

proof fn lemma_stale_unlinks(links: Seq<LiveLink>, entries: Seq<KnownEntry>)
    ensures
        ({
            let tail = stale_unlinks(links, entries);
            &&& forall|j: int|
                0 <= j < tail.len() ==> {
                    &&& (#[trigger] tail[j]) matches EventModel::Unlink { parent, name }
                    &&& !still_linked(links, parent, name)
                    &&& exists|k: int|
                        0 <= k < entries.len() && #[trigger] entries[k].parent == Some(parent)
                            && entries[k].name@ == name
                }
            &&& forall|k: int|
                #![trigger entries[k]]
                0 <= k < entries.len() && entries[k].parent is Some && !still_linked(
                    links,
                    entries[k].parent->0,
                    entries[k].name@,
                ) ==> tail.contains(
                    EventModel::Unlink { parent: entries[k].parent->0, name: entries[k].name@ },
                )
            &&& (forall|a: int, b: int|
                0 <= a < b < entries.len() ==> (#[trigger] entries[a]).parent != (
                #[trigger] entries[b]).parent || entries[a].name@ != entries[b].name@)
                ==> tail.no_duplicates()
        }),
    decreases entries.len(),
{
    if entries.len() > 0 {
        let init = entries.drop_last();
        let e = entries.last();
        let before = stale_unlinks(links, init);
        let tail = stale_unlinks(links, entries);
        lemma_stale_unlinks(links, init);
        assert forall|j: int| 0 <= j < tail.len() implies {
            &&& (#[trigger] tail[j]) matches EventModel::Unlink { parent, name }
            &&& !still_linked(links, parent, name)
            &&& exists|k: int|
                0 <= k < entries.len() && #[trigger] entries[k].parent == Some(parent)
                    && entries[k].name@ == name
        } by {
            if j < before.len() {
                assert(tail[j] == before[j]);
                if let EventModel::Unlink { parent, name } = before[j] {
                    let k = choose|k: int|
                        0 <= k < init.len() && #[trigger] init[k].parent == Some(parent)
                            && init[k].name@ == name;
                    assert(entries[k].parent == Some(parent) && entries[k].name@ == name);
                }
            } else {
                assert(entries[entries.len() - 1].parent == Some(e.parent->0));
            }
        }
        assert forall|k: int|
            #![trigger entries[k]]
            0 <= k < entries.len() && entries[k].parent is Some && !still_linked(
                links,
                entries[k].parent->0,
                entries[k].name@,
            ) implies tail.contains(
            EventModel::Unlink { parent: entries[k].parent->0, name: entries[k].name@ },
        ) by {
            let u = EventModel::Unlink { parent: entries[k].parent->0, name: entries[k].name@ };
            if k < init.len() {
                assert(init[k] == entries[k]);
                assert(before.contains(u));
                assert(tail[before.index_of(u)] == u);
            } else {
                assert(tail[before.len() as int] == u);
            }
        }
        if forall|a: int, b: int|
            0 <= a < b < entries.len() ==> (#[trigger] entries[a]).parent != (
            #[trigger] entries[b]).parent || entries[a].name@ != entries[b].name@ {
            assert forall|a: int, b: int| 0 <= a < b < init.len() implies (
            #[trigger] init[a]).parent != (#[trigger] init[b]).parent || init[a].name@
                != init[b].name@ by {
                assert(entries[a].parent != entries[b].parent || entries[a].name@
                    != entries[b].name@);
            }
            if tail.len() > before.len() {
                let u = tail.last();
                if before.contains(u) {
                    let j = before.index_of(u);
                    assert(before[j] == u);
                    if let EventModel::Unlink { parent, name } = before[j] {
                        let k = choose|k: int|
                            0 <= k < init.len() && #[trigger] init[k].parent == Some(parent)
                                && init[k].name@ == name;
                        assert(entries[k].parent == Some(parent));
                        assert(entries[k].parent != entries[entries.len() - 1].parent
                            || entries[k].name@ != entries[entries.len() - 1].name@);
                        assert(false);
                    }
                }
                assert forall|a: int, b: int| 0 <= a < b < tail.len() implies tail[a] != tail[b] by {
                    assert(tail[a] == before[a]);
                    if b < before.len() {
                        assert(tail[b] == before[b]);
                    } else {
                        assert(before.contains(before[a]));
                    }
                }
            }
        }
    }
}

/// `s` without trailing backslashes.
pub open spec fn without_backslashes(s: Seq<char>) -> Seq<char>
    decreases s.len(),
{
    if s.len() > 0 && s.last() == '\\' {
        without_backslashes(s.drop_last())
    } else {
        s
    }
}

/// A volume root is joined with exactly one separator to a link name: none of
/// its own is left at its end, and nothing else of it is lost.
pub proof fn law_only_trailing_separators_are_dropped(root: Seq<char>)
    ensures
        ({
            let r = without_backslashes(root);
            &&& r.len() == 0 || r.last() != '\\'
            &&& r.len() <= root.len() && root.take(r.len() as int) == r
            &&& forall|i: int| r.len() <= i < root.len() ==> #[trigger] root[i] == '\\'
        }),
    decreases root.len(),
{
    if root.len() > 0 && root.last() == '\\' {
        law_only_trailing_separators_are_dropped(root.drop_last());
        let r = without_backslashes(root);
        assert(root.take(r.len() as int) =~= root.drop_last().take(r.len() as int));
        assert forall|i: int| r.len() <= i < root.len() implies #[trigger] root[i] == '\\' by {
            if i < root.len() - 1 {
                assert(root.drop_last()[i] == root[i]);
            }
        }
    } else {
        assert(root.take(root.len() as int) =~= root);
    }
}

/// The full path of a hard link: link names are relative to the volume root
/// and start with a separator of their own.
pub fn link_path(volume_root: &str, link: &str) -> (r: String)
    ensures
        r@ == without_backslashes(volume_root@) + link@,
{
    let v = chars_of(volume_root);
    let mut n: usize = v.len();
    assert(v@.take(n as int) =~= v@);
    while n > 0 && v[n - 1] == '\\'
        invariant
            0 <= n <= v.len(),
            without_backslashes(v@.take(n as int)) == without_backslashes(v@),
        decreases n,
    {
        assert(v@.take(n as int).drop_last() =~= v@.take(n - 1));
        n -= 1;
    }
    let root = string_of(&v, 0, n);
    assert(v@.subrange(0, n as int) =~= v@.take(n as int));
    root.concat(link)
}

/// A batch while it is translated.
pub struct Translation {
    volume_serial: u64,
    events: Vec<ChangeEvent>,
    /// Directories that this batch links.
    batch_dirs: Vec<u128>,
    stats: TranslateStats,
}

pub struct TranslationModel {
    pub volume_serial: u64,
    pub events: Seq<EventModel>,
    pub batch_dirs: Set<u128>,
    pub stats: TranslateStats,
}

impl TranslationModel {
    pub open spec fn key(self, frn: u128) -> NativeKey {
        NativeKey { volume_serial: self.volume_serial, id: frn }
    }

    pub open spec fn with_event(self, e: EventModel) -> TranslationModel {
        TranslationModel { events: self.events.push(e), ..self }
    }

    pub open spec fn with_stats(self, stats: TranslateStats) -> TranslationModel {
        TranslationModel { stats, ..self }
    }

    pub open spec fn skipped(self) -> TranslationModel {
        self.with_stats(
            TranslateStats { out_of_scope: (self.stats.out_of_scope + 1) as u64, ..self.stats },
        )
    }
}

impl View for Translation {
    type V = TranslationModel;

    closed spec fn view(&self) -> TranslationModel {
        TranslationModel {
            volume_serial: self.volume_serial,
            events: event_models(self.events@),
            batch_dirs: self.batch_dirs@.to_set(),
            stats: self.stats,
        }
    }
}

/// The unlinks of the places that a file left, as far as they are in scope.
pub open spec fn unlinks_of(
    m: TranslationModel,
    old_names: Seq<(u128, Seq<char>)>,
    in_scope: Seq<bool>,
) -> Seq<EventModel>
    decreases old_names.len(),
{
    if old_names.len() == 0 {
        Seq::empty()
    } else {
        let init = unlinks_of(m, old_names.drop_last(), in_scope);
        if in_scope[old_names.len() - 1] {
            init.push(
                EventModel::Unlink {
                    parent: m.key(old_names.last().0),
                    name: old_names.last().1,
                },
            )
        } else {
            init
        }
    }
}

/// Each place that a file left and that is in scope is unlinked, in order, and
/// no other place is; the identity of a directory is its number on this volume.
pub proof fn law_left_places_in_scope_are_unlinked(
    m: TranslationModel,
    old_names: Seq<(u128, Seq<char>)>,
    in_scope: Seq<bool>,
)
    requires
        in_scope.len() == old_names.len(),
    ensures
        exists|pick: Seq<int>|
            {
                &&& #[trigger] rising(pick)
                    &&& picks(pick, old_names.len() as int, |i: int| in_scope[i])
                &&& unlinks_of(m, old_names, in_scope).len() == pick.len()
                &&& forall|a: int|
                    0 <= a < pick.len() ==> #[trigger] unlinks_of(m, old_names, in_scope)[a] == (
                    EventModel::Unlink {
                        parent: NativeKey {
                            volume_serial: m.volume_serial,
                            id: old_names[pick[a]].0,
                        },
                        name: old_names[pick[a]].1,
                    })
            },
{
    let pick = lemma_unlinks_of(m, old_names, in_scope);
    assert(picks(pick, old_names.len() as int, |i: int| in_scope[i]));
}

proof fn lemma_unlinks_of(
    m: TranslationModel,
    old_names: Seq<(u128, Seq<char>)>,
    in_scope: Seq<bool>,
) -> (pick: Seq<int>)
    requires
        old_names.len() <= in_scope.len(),
    ensures
        picks(pick, old_names.len() as int, |i: int| in_scope[i]),
        unlinks_of(m, old_names, in_scope).len() == pick.len(),
        forall|a: int|
            0 <= a < pick.len() ==> #[trigger] unlinks_of(m, old_names, in_scope)[a] == (
            EventModel::Unlink { parent: m.key(old_names[pick[a]].0), name: old_names[pick[a]].1 }),
    decreases old_names.len(),
{
    let scoped = |i: int| in_scope[i];
    if old_names.len() == 0 {
        lemma_picks_none(scoped);
        Seq::empty()
    } else {
        let init = old_names.drop_last();
        let n = init.len() as int;
        let before = lemma_unlinks_of(m, init, in_scope);
        lemma_picks_next(before, n, scoped);
        if scoped(n) {
            before.push(n)
        } else {
            before
        }
    }
}

impl Translation {
    pub fn new(volume_serial: u64, records: u64, files: u64) -> (r: Translation)
        ensures
            r@.volume_serial == volume_serial,
            r@.events == Seq::<EventModel>::empty(),
            r@.batch_dirs == Set::<u128>::empty(),
            r@.stats == (TranslateStats { records, files, ..TranslateStats::zero() }),
    {
        let mut stats = TranslateStats::default();
        stats.records = records;
        stats.files = files;
        let r = Translation { volume_serial, events: Vec::new(), batch_dirs: Vec::new(), stats };
        assert(r@.events =~= Seq::empty());
        assert(r@.batch_dirs =~= Set::empty());
        r
    }

    pub fn key(&self, frn: u128) -> (r: NativeKey)
        ensures
            r == self@.key(frn),
    {
        NativeKey { volume_serial: self.volume_serial, id: frn }
    }

    /// Whether this batch itself puts the directory in scope. For any other
    /// directory the catalog is asked.
    pub fn creates(&self, dir: u128) -> (r: bool)
        ensures
            r == self@.batch_dirs.contains(dir),
    {
        let mut i: usize = 0;
        while i < self.batch_dirs.len()
            invariant
                0 <= i <= self.batch_dirs.len(),
                forall|j: int| 0 <= j < i ==> self.batch_dirs@[j] != dir,
            decreases self.batch_dirs.len() - i,
        {
            if self.batch_dirs[i] == dir {
                assert(self.batch_dirs@.contains(dir));
                return true;
            }
            i += 1;
        }
        false
    }

    fn emit(&mut self, e: ChangeEvent)
        ensures
            final(self)@ == old(self)@.with_event(e@),
    {
        proof {
            lemma_event_push(self.events@, e);
        }
        self.events.push(e);
    }

    /// Unlink the places that a file left, where they are in scope. Says
    /// whether any was.
    pub fn unlink_old_names(&mut self, f: &FileChange, in_scope: &Vec<bool>) -> (any: bool)
        requires
            in_scope.len() == f.old_names.len(),
        ensures
            any == in_scope@.contains(true),
            final(self)@ == (TranslationModel {
                events: old(self)@.events + unlinks_of(
                    old(self)@,
                    f@.old_names,
                    in_scope@,
                ),
                ..old(self)@
            }),
    {
        let ghost m = self@;
        let ghost names = f@.old_names;
        let mut any = false;
        let mut i: usize = 0;
        assert(m.events + unlinks_of(m, names.take(0), in_scope@) =~= m.events);
        while i < f.old_names.len()
            invariant
                0 <= i <= f.old_names.len() == in_scope.len(),
                names == places(f.old_names@),
                m.volume_serial == self@.volume_serial,
                self@ == (TranslationModel {
                    events: m.events + unlinks_of(m, names.take(i as int), in_scope@),
                    ..m
                }),
                any == in_scope@.take(i as int).contains(true),
            decreases f.old_names.len() - i,
        {
            proof {
                assert(names.take(i + 1).drop_last() =~= names.take(i as int));
                assert(in_scope@.take(i + 1) =~= in_scope@.take(i as int).push(
                    in_scope@[i as int],
                ));
                lemma_push_contains(in_scope@.take(i as int), in_scope@[i as int]);
            }
            if in_scope[i] {
                any = true;
                let parent = self.key(f.old_names[i].0);
                let name = f.old_names[i].1.clone();
                let ghost before = self@;
                self.emit(ChangeEvent::Unlink { parent, name });
                assert(self@.events =~= m.events + unlinks_of(m, names.take(i + 1), in_scope@));
            }
            i += 1;
        }
        assert(names.take(i as int) =~= names);
        assert(in_scope@.take(i as int) =~= in_scope@);
        any
    }

    /// A file that the batch deletes: an event if the source knows it.
    pub fn delete<E>(&mut self, f: &FileChange, lookup: Result<bool, E>) -> (r: Result<(), E>)
        requires
            old(self)@.stats.has_room(),
        ensures
            match lookup {
                Err(e) => r == Err::<(), E>(e) && final(self)@ == old(self)@,
                Ok(known) => r is Ok && final(self)@ == (if known {
                    old(self)@.with_event(EventModel::Delete { object: old(self)@.key(f.frn) })
                } else {
                    old(self)@.skipped()
                }),
            },
    {
        let key = self.key(f.frn);
        match known_deletion(lookup, key) {
            Err(e) => Err(e),
            Ok(Some(e)) => {
                self.emit(e);
                Ok(())
            },
            Ok(None) => {
                self.stats.out_of_scope = self.stats.out_of_scope + 1;
                Ok(())
            },
        }
    }

    /// Whether a surviving file has to be read: it is in scope now, was in
    /// scope before, or its hard links changed. Otherwise it is skipped.
    pub fn wants_snapshot(&mut self, f: &FileChange, latest_in_scope: bool, any_in_scope: bool) -> (r:
        bool)
        requires
            old(self)@.stats.has_room(),
        ensures
            r == (latest_in_scope || any_in_scope || f.reasons & USN_REASON_HARD_LINK_CHANGE != 0),
            final(self)@ == (if r {
                old(self)@
            } else {
                old(self)@.skipped()
            }),
    {
        if !latest_in_scope && !any_in_scope && f.reasons & USN_REASON_HARD_LINK_CHANGE == 0 {
            self.stats.out_of_scope = self.stats.out_of_scope + 1;
            return false;
        }
        true
    }

    /// The file was gone between the record and the snapshot. Only an identity
    /// that the source knows is a change event.
    pub fn vanish<E>(&mut self, f: &FileChange, lookup: Result<bool, E>) -> (r: Result<(), E>)
        requires
            old(self)@.stats.has_room(),
        ensures
            ({
                let counted = old(self)@.with_stats(
                    TranslateStats {
                        vanished: (old(self)@.stats.vanished + 1) as u64,
                        ..old(self)@.stats
                    },
                );
                match lookup {
                    Err(e) => r == Err::<(), E>(e) && final(self)@ == counted,
                    Ok(known) => r is Ok && final(self)@ == (if known {
                        counted.with_event(EventModel::Delete { object: old(self)@.key(f.frn) })
                    } else {
                        counted
                    }),
                }
            }),
    {
        self.stats.vanished = self.stats.vanished + 1;
        let key = self.key(f.frn);
        match known_deletion(lookup, key) {
            Err(e) => Err(e),
            Ok(Some(e)) => {
                self.emit(e);
                Ok(())
            },
            Ok(None) => Ok(()),
        }
    }

    /// The file could not be read.
    pub fn snapshot_failed(&mut self, kind: ScanErrorKind)
        requires
            old(self)@.stats.has_room(),
        ensures
            final(self)@ == old(self)@.with_stats(
                if permanent(kind) {
                    TranslateStats {
                        unreadable: (old(self)@.stats.unreadable + 1) as u64,
                        ..old(self)@.stats
                    }
                } else {
                    TranslateStats {
                        io_errors: (old(self)@.stats.io_errors + 1) as u64,
                        ..old(self)@.stats
                    }
                },
            ),
    {
        self.stats.record_snapshot_failure(kind);
    }

    /// The file was read. If its hard links changed and its path is known, all
    /// its names are resynchronised first.
    pub fn snapshot_taken(&mut self, f: &FileChange, snap: &FileSnapshot) -> (r: AfterSnapshot)
        requires
            old(self)@.stats.has_room(),
        ensures
            final(self)@ == old(self)@.with_stats(
                TranslateStats {
                    snapshots: (old(self)@.stats.snapshots + 1) as u64,
                    ..old(self)@.stats
                },
            ),
            if f.reasons & USN_REASON_HARD_LINK_CHANGE != 0 && !snap.directory_like
                && snap.path is Some {
                r matches AfterSnapshot::ResyncLinks { path } && path@ == snap.path->0@
            } else {
                r is LinkLatest
            },
    {
        self.stats.snapshots = self.stats.snapshots + 1;
        if f.reasons & USN_REASON_HARD_LINK_CHANGE != 0 && !snap.directory_like {
            if let Some(path) = &snap.path {
                return AfterSnapshot::ResyncLinks { path: path.clone() };
            }
        }
        AfterSnapshot::LinkLatest
    }

    /// The hard links of a file were enumerated: link every current name that
    /// is in scope, and unlink the catalog entries that are no longer among
    /// them. `links` holds the names in scope, `entries` what the catalog has.
    pub fn resync_links(
        &mut self,
        object: ObjectSnapshot,
        links: &Vec<LiveLink>,
        entries: &Vec<KnownEntry>,
    )
        requires
            old(self)@.stats.link_resyncs < u64::MAX,
        ensures
            final(self)@ == links_resynced(old(self)@, object, links@, entries@),
    {
        let ghost m = self@;
        let mut i: usize = 0;
        assert(m.events + link_events(links@.take(0), object) =~= m.events);
        while i < links.len()
            invariant
                0 <= i <= links.len(),
                self@ == (TranslationModel {
                    events: m.events + link_events(links@.take(i as int), object),
                    ..m
                }),
            decreases links.len() - i,
        {
            let name = links[i].name.clone();
            let parent = links[i].parent;
            self.emit(ChangeEvent::Link { parent, name, snapshot: object });
            i += 1;
            assert(self@.events =~= m.events + link_events(links@.take(i as int), object));
        }
        assert(links@.take(i as int) =~= links@);
        let ghost linked = self@;
        let mut k: usize = 0;
        assert(linked.events + stale_unlinks(links@, entries@.take(0)) =~= linked.events);
        while k < entries.len()
            invariant
                0 <= k <= entries.len(),
                self@ == (TranslationModel {
                    events: linked.events + stale_unlinks(links@, entries@.take(k as int)),
                    ..linked
                }),
            decreases entries.len() - k,
        {
            assert(entries@.take(k + 1).drop_last() =~= entries@.take(k as int));
            if let Some(parent) = entries[k].parent {
                if !is_linked(links, parent, &entries[k].name) {
                    let name = entries[k].name.clone();
                    self.emit(ChangeEvent::Unlink { parent, name });
                    assert(self@.events =~= linked.events + stale_unlinks(
                        links@,
                        entries@.take(k + 1),
                    ));
                }
            }
            k += 1;
        }
        assert(entries@.take(k as int) =~= entries@);
        self.stats.link_resyncs = self.stats.link_resyncs + 1;
    }

    /// Link a file at its last place, if that is in scope. A directory that is
    /// linked, and not protected, puts its own children in scope.
    pub fn link_latest(
        &mut self,
        f: &FileChange,
        snap: &FileSnapshot,
        in_scope: bool,
        protected_path: bool,
    )
        ensures
            final(self)@ == (match f@.latest {
                Some((parent, name)) => if in_scope {
                    TranslationModel {
                        batch_dirs: if (f.is_dir || snap.directory_like) && !protected_path {
                            old(self)@.batch_dirs.insert(f.frn)
                        } else {
                            old(self)@.batch_dirs
                        },
                        ..old(self)@.with_event(
                            EventModel::Link {
                                parent: old(self)@.key(parent),
                                name,
                                snapshot: object_of(*snap),
                            },
                        )
                    }
                } else {
                    old(self)@
                },
                None => old(self)@,
            }),
    {
        if let Some((p, n)) = &f.latest {
            if in_scope {
                let parent = self.key(*p);
                let name = n.clone();
                if (f.is_dir || snap.directory_like) && !protected_path {
                    let ghost before = self.batch_dirs@;
                    self.batch_dirs.push(f.frn);
                    proof {
                        before.lemma_push_to_set_commute(f.frn);
                    }
                }
                self.emit(ChangeEvent::Link { parent, name, snapshot: to_snapshot(snap) });
            }
        }
    }

    /// The translated batch, unless part of it could not be read.
    pub fn finish(self) -> (r: Result<(Vec<ChangeEvent>, TranslateStats), String>)
        ensures
            r is Ok <==> self@.stats.io_errors == 0,
            r matches Ok((events, stats)) ==> event_models(events@) == self@.events && stats
                == self@.stats,
            r matches Err(e) ==> e@ == incomplete_text(self@.stats.io_errors),
    {
        match self.stats.ensure_complete() {
            Ok(()) => Ok((self.events, self.stats)),
            Err(e) => Err(e),
        }
    }
}

fn is_linked(links: &Vec<LiveLink>, parent: NativeKey, name: &String) -> (r: bool)
    ensures
        r == still_linked(links@, parent, name@),
{
    let mut i: usize = 0;
    while i < links.len()
        invariant
            0 <= i <= links.len(),
            forall|j: int|
                0 <= j < i ==> !((#[trigger] links@[j]).parent == parent && links@[j].name@
                    == name@),
        decreases links.len() - i,
    {
        if links[i].parent == parent && same(&links[i].name, name) {
            return true;
        }
        i += 1;
    }
    false
}

proof fn lemma_push_contains(s: Seq<bool>, b: bool)
    ensures
        s.push(b).contains(true) == (s.contains(true) || b),
{
    let t = s.push(b);
    if t.contains(true) {
        let p = t.index_of(true);
        if p < s.len() {
            assert(s[p]);
        }
    }
    if s.contains(true) {
        let p = s.index_of(true);
        assert(t[p]);
    }
    if b {
        assert(t[s.len() as int]);
    }
}

} // verus!
