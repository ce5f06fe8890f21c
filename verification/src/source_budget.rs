//! Per-source content concurrency budgets and atomic reservations.
//!
//! A source's `content_concurrency` bounds how many workers may read from
//! that source at once. This is not a shared-device cap: multiple roots or
//! partitions on the same disk can still contend. Capacity is taken through
//! [`SourceBudgets::try_reserve`] **before** any job is claimed: the check and
//! the increment are one operation, so two workers can never both take the
//! same free slot.
//!
//! A claim passes more than one gate. [`SourceReservation::confirm`] marks the
//! unit as kept once they all grant, so the reported high-water mark describes
//! work this source was admitted for rather than attempts another ceiling
//! refused. Admission itself is unaffected: an unconfirmed unit still occupies
//! the budget for as long as it is held.

use crate::domain::SourceId;
use crate::source_map::{ascending, has_key, key_index, lemma_entry, SourceMap};
use vstd::prelude::*;

verus! {

/// Budget *reported* for a source whose policy has not been read yet. It is a
/// display value only: an unknown source admits no work at all, so a failed
/// policy load can never oversubscribe a slow volume.
pub const DEFAULT_BUDGET: u32 = 2;

/// The accounting of one source.
#[derive(Debug, Clone, Copy, PartialEq, Eq, Structural)]
pub struct Slot {
    /// `None` until this source's policy has been read.
    pub budget: Option<u32>,
    pub reserved: u32,
    /// Reservations whose caller went on to use them. A claim is admitted by
    /// more than this budget, so a unit taken here and released because a
    /// *different* gate refused the same claim is never work this source did.
    pub confirmed: u32,
    /// High-water mark of `confirmed` since process start.
    pub peak: u32,
}

impl Slot {
    pub open spec fn empty() -> Slot {
        Slot { budget: None, reserved: 0, confirmed: 0, peak: 0 }
    }

    pub open spec fn shown_budget(self) -> u32 {
        match self.budget {
            Some(b) => b,
            None => DEFAULT_BUDGET,
        }
    }

    pub fn budget(&self) -> (r: u32)
        ensures
            r == self.shown_budget(),
    {
        match self.budget {
            Some(b) => b,
            None => DEFAULT_BUDGET,
        }
    }

    /// Whether one more unit may be handed out.
    pub open spec fn admits(self) -> bool {
        self.budget matches Some(b) && self.reserved < b
    }
}

/// One unit that is out: whose it is, and whether it was confirmed.
pub struct ReservationModel {
    pub source: i64,
    pub confirmed: bool,
}

pub struct SourceBudgetsModel {
    pub slots: Map<i64, Slot>,
    /// The units handed out and not yet given back.
    pub live: Seq<ReservationModel>,
}

impl SourceBudgetsModel {
    /// The accounting of a source, which starts empty.
    pub open spec fn slot(self, id: SourceId) -> Slot {
        if self.slots.dom().contains(id.0) {
            self.slots[id.0]
        } else {
            Slot::empty()
        }
    }

    pub open spec fn with_slot(self, id: SourceId, slot: Slot) -> SourceBudgetsModel {
        SourceBudgetsModel { slots: self.slots.insert(id.0, slot), ..self }
    }
}

/// Units of a source that are out.
pub open spec fn held_units(live: Seq<ReservationModel>, source: i64) -> nat
    decreases live.len(),
{
    if live.len() == 0 {
        0
    } else {
        held_units(live.drop_last(), source) + (if live.last().source == source {
            1nat
        } else {
            0nat
        })
    }
}

/// Confirmed units of a source that are out.
pub open spec fn confirmed_units(live: Seq<ReservationModel>, source: i64) -> nat
    decreases live.len(),
{
    if live.len() == 0 {
        0
    } else {
        confirmed_units(live.drop_last(), source) + (if live.last().source == source
            && live.last().confirmed {
            1nat
        } else {
            0nat
        })
    }
}

/// The invariant of the accounting: every counter is exactly what the units
/// that are out add up to.
pub open spec fn consistent(m: SourceBudgetsModel) -> bool {
    &&& forall|s: i64| #[trigger]
        m.slots.dom().contains(s) ==> {
            &&& m.slots[s].reserved == held_units(m.live, s)
            &&& m.slots[s].confirmed == confirmed_units(m.live, s)
            &&& m.slots[s].confirmed <= m.slots[s].peak
        }
    &&& forall|i: int|
        0 <= i < m.live.len() ==> m.slots.dom().contains((#[trigger] m.live[i]).source)
}

proof fn lemma_units_push(live: Seq<ReservationModel>, r: ReservationModel, s: i64)
    ensures
        held_units(live.push(r), s) == held_units(live, s) + (if r.source == s {
            1nat
        } else {
            0nat
        }),
        confirmed_units(live.push(r), s) == confirmed_units(live, s) + (if r.source == s
            && r.confirmed {
            1nat
        } else {
            0nat
        }),
{
    assert(live.push(r).drop_last() =~= live);
}

proof fn lemma_units_remove(live: Seq<ReservationModel>, i: int, s: i64)
    requires
        0 <= i < live.len(),
    ensures
        held_units(live, s) == held_units(live.remove(i), s) + (if live[i].source == s {
            1nat
        } else {
            0nat
        }),
        confirmed_units(live, s) == confirmed_units(live.remove(i), s) + (if live[i].source == s
            && live[i].confirmed {
            1nat
        } else {
            0nat
        }),
    decreases live.len(),
{
    if i == live.len() - 1 {
        assert(live.remove(i) =~= live.drop_last());
    } else {
        lemma_units_remove(live.drop_last(), i, s);
        assert(live.remove(i).drop_last() =~= live.drop_last().remove(i));
        assert(live.remove(i).last() == live.last());
    }
}

proof fn lemma_confirmed_bounded(live: Seq<ReservationModel>, s: i64)
    ensures
        confirmed_units(live, s) <= held_units(live, s) <= live.len(),
    decreases live.len(),
{
    if live.len() > 0 {
        lemma_confirmed_bounded(live.drop_last(), s);
    }
}

proof fn lemma_no_units(live: Seq<ReservationModel>, s: i64)
    requires
        forall|i: int| 0 <= i < live.len() ==> (#[trigger] live[i]).source != s,
    ensures
        held_units(live, s) == 0,
        confirmed_units(live, s) == 0,
    decreases live.len(),
{
    if live.len() > 0 {
        assert(live[live.len() - 1].source != s);
        lemma_no_units(live.drop_last(), s);
    }
}

// ----- laws -----------------------------------------------------------------

/// A unit handed out.
pub open spec fn taken(m: SourceBudgetsModel, id: SourceId) -> SourceBudgetsModel {
    let s = m.slot(id);
    SourceBudgetsModel {
        live: m.live.push(ReservationModel { source: id.0, confirmed: false }),
        ..m.with_slot(id, Slot { reserved: (s.reserved + 1) as u32, ..s })
    }
}

/// A unit confirmed.
pub open spec fn kept(m: SourceBudgetsModel, r: ReservationModel) -> SourceBudgetsModel {
    if r.confirmed {
        m
    } else {
        let id = SourceId(r.source);
        let s = m.slot(id);
        let n = (s.confirmed + 1) as u32;
        SourceBudgetsModel {
            live: m.live.update(
                m.live.index_of(r),
                ReservationModel { source: r.source, confirmed: true },
            ),
            ..m.with_slot(
                id,
                Slot {
                    confirmed: n,
                    peak: if n > s.peak {
                        n
                    } else {
                        s.peak
                    },
                    ..s
                },
            )
        }
    }
}

/// A unit given back.
pub open spec fn given_back(m: SourceBudgetsModel, r: ReservationModel) -> SourceBudgetsModel {
    let id = SourceId(r.source);
    let s = m.slot(id);
    SourceBudgetsModel {
        live: m.live.remove(m.live.index_of(r)),
        ..m.with_slot(
            id,
            Slot {
                reserved: (s.reserved - 1) as u32,
                confirmed: if r.confirmed {
                    (s.confirmed - 1) as u32
                } else {
                    s.confirmed
                },
                ..s
            },
        )
    }
}

/// Every source's policy replaced. Units that are out survive; a source that
/// is missing becomes unknown again and admits nothing.
pub open spec fn with_policies(m: SourceBudgetsModel, budgets: Map<i64, u32>) -> SourceBudgetsModel {
    SourceBudgetsModel {
        slots: Map::new(
            |s: i64| m.slots.dom().contains(s) || budgets.dom().contains(s),
            |s: i64|
                Slot {
                    budget: if budgets.dom().contains(s) {
                        Some(budgets[s])
                    } else {
                        None
                    },
                    ..m.slot(SourceId(s))
                },
        ),
        ..m
    }
}

/// A unit that another gate refused leaves no trace: taking it and giving it
/// back without confirming restores the source's accounting, peak included.
pub proof fn law_refused_unit_leaves_no_trace(m: SourceBudgetsModel, id: SourceId)
    requires
        m.slot(id).admits(),
    ensures
        given_back(
            taken(m, id),
            ReservationModel { source: id.0, confirmed: false },
        ).slot(id) == m.slot(id),
{
}

/// A refresh of the policies loses no unit that is out, and no peak.
pub proof fn law_refresh_keeps_reservations(m: SourceBudgetsModel, budgets: Map<i64, u32>, id: SourceId)
    ensures
        with_policies(m, budgets).live == m.live,
        with_policies(m, budgets).slot(id).reserved == m.slot(id).reserved,
        with_policies(m, budgets).slot(id).confirmed == m.slot(id).confirmed,
        with_policies(m, budgets).slot(id).peak == m.slot(id).peak,
{
}

/// A source whose policy is not among those last read admits nothing.
pub proof fn law_unknown_source_admits_nothing(
    m: SourceBudgetsModel,
    budgets: Map<i64, u32>,
    id: SourceId,
)
    requires
        !budgets.dom().contains(id.0),
    ensures
        !with_policies(m, budgets).slot(id).admits(),
{
}

/// A unit is handed out exactly while a source's policy is known and its budget
/// is not used up, so no source ever holds more than its budget; the others are
/// not touched, and the unit is out until it comes back.
pub proof fn law_no_source_exceeds_its_budget(m: SourceBudgetsModel, id: SourceId, other: SourceId)
    ensures
        m.slot(id).admits() <==> m.slot(id).budget is Some && m.slot(id).reserved < m.slot(
            id,
        ).budget->0,
        m.slot(id).admits() ==> {
            let t = taken(m, id);
            &&& t.slot(id).reserved == m.slot(id).reserved + 1
            &&& t.slot(id).reserved <= m.slot(id).budget->0
            &&& t.slot(id).budget == m.slot(id).budget
            &&& t.slot(id).confirmed == m.slot(id).confirmed && t.slot(id).peak == m.slot(id).peak
            &&& other != id ==> t.slot(other) == m.slot(other)
            &&& t.live.len() == m.live.len() + 1
        },
{
}

/// The high-water mark is the most units that were ever kept at once: it rises
/// with what is confirmed and never falls.
pub proof fn law_the_peak_is_the_most_ever_kept(m: SourceBudgetsModel, r: ReservationModel)
    requires
        m.slot(SourceId(r.source)).confirmed <= m.slot(SourceId(r.source)).peak,
        m.slot(SourceId(r.source)).confirmed < u32::MAX,
        r.confirmed ==> m.slot(SourceId(r.source)).confirmed > 0,
        m.slot(SourceId(r.source)).reserved > 0,
    ensures
        ({
            let id = SourceId(r.source);
            let before = m.slot(id);
            let after = kept(m, r).slot(id);
            let back = given_back(m, r).slot(id);
            &&& r.confirmed ==> after == before
            &&& !r.confirmed ==> after.confirmed == before.confirmed + 1
            &&& after.peak >= before.peak && after.peak >= after.confirmed
            &&& after.peak == before.peak || after.peak == after.confirmed
            &&& after.reserved == before.reserved && after.budget == before.budget
            &&& back.peak == before.peak && back.budget == before.budget
            &&& back.reserved == before.reserved - 1
            &&& back.confirmed == before.confirmed - (if r.confirmed {
                1int
            } else {
                0int
            })
        }),
{
}

/// What is shown of a source that was not read yet is a budget of two, and it
/// still admits nothing.
pub proof fn law_an_unread_policy_is_only_shown(s: Slot)
    ensures
        s.budget is None ==> s.shown_budget() == 2 && !s.admits(),
        s.budget matches Some(b) ==> s.shown_budget() == b,
{
}

/// A policy that was read is in force for its source, and only for it.
pub proof fn law_a_read_policy_is_in_force(
    m: SourceBudgetsModel,
    budgets: Map<i64, u32>,
    id: SourceId,
)
    ensures
        with_policies(m, budgets).slot(id).budget == (if budgets.dom().contains(id.0) {
            Some(budgets[id.0])
        } else {
            None
        }),
{
}

/// What is out is counted source by source: a unit that goes out counts for its
/// own source, as confirmed if it is, and for no other.
pub proof fn law_units_count_for_their_own_source(
    live: Seq<ReservationModel>,
    r: ReservationModel,
    source: i64,
)
    ensures
        held_units(live.push(r), source) == held_units(live, source) + (if r.source == source {
            1int
        } else {
            0int
        }),
        confirmed_units(live.push(r), source) == confirmed_units(live, source) + (if r.source
            == source && r.confirmed {
            1int
        } else {
            0int
        }),
        held_units(Seq::empty(), source) == 0 && confirmed_units(Seq::empty(), source) == 0,
{
    assert(live.push(r).drop_last() =~= live);
}

// ----- budgets --------------------------------------------------------------

/// Per-source concurrency budgets plus the reservations currently held
/// against them.
pub struct SourceBudgets {
    slots: SourceMap<Slot>,
    live: Ghost<Seq<ReservationModel>>,
}

/// One unit of a source's concurrency budget. It goes back through
/// [`SourceBudgets::release`].
#[derive(Debug)]
pub struct SourceReservation {
    source: SourceId,
    confirmed: bool,
}

impl View for SourceReservation {
    type V = ReservationModel;

    closed spec fn view(&self) -> ReservationModel {
        ReservationModel { source: self.source.0, confirmed: self.confirmed }
    }
}

impl SourceReservation {
    /// Count this unit towards the reported high-water mark. Call it once the
    /// claim's other admission gates have also granted, so the diagnostic
    /// describes reservations this source kept rather than attempts a shared
    /// ceiling refused. Releasing without confirming leaves the peak alone.
    pub fn confirm(&mut self, budgets: &mut SourceBudgets)
        requires
            old(budgets).wf(),
            old(budgets)@.live.contains(old(self)@),
        ensures
            final(budgets).wf(),
            final(budgets)@ == kept(old(budgets)@, old(self)@),
            final(self)@ == (ReservationModel { confirmed: true, ..old(self)@ }),
            final(budgets)@.live.contains(final(self)@),
    {
        if !self.confirmed {
            let ghost m = budgets@;
            let ghost r = self@;
            let ghost at = m.live.index_of(r);
            let ghost now = ReservationModel { source: r.source, confirmed: true };
            self.confirmed = true;
            let id = self.source;
            proof {
                assert(m.live[at] == r);
                assert(m.slots.dom().contains(r.source));
                lemma_units_remove(m.live, at, r.source);
                lemma_confirmed_bounded(m.live.remove(at), r.source);
            }
            let mut slot = budgets.slot(id);
            slot.confirmed = slot.confirmed + 1;
            if slot.confirmed > slot.peak {
                slot.peak = slot.confirmed;
            }
            budgets.slots.insert(id.0, slot);
            proof {
                budgets.live@ = budgets.live@.update(at, now);
                let after = budgets@;
                assert(after.live[at] == now);
                assert(after.live.remove(at) =~= m.live.remove(at));
                assert forall|s: i64| #[trigger] after.slots.dom().contains(s) implies {
                    &&& after.slots[s].reserved == held_units(after.live, s)
                    &&& after.slots[s].confirmed == confirmed_units(after.live, s)
                    &&& after.slots[s].confirmed <= after.slots[s].peak
                } by {
                    lemma_units_remove(m.live, at, s);
                    lemma_units_remove(after.live, at, s);
                    assert(m.slots.dom().contains(s));
                }
                assert forall|i: int| 0 <= i < after.live.len() implies after.slots.dom().contains(
                    (#[trigger] after.live[i]).source,
                ) by {
                    assert(m.slots.dom().contains(m.live[i].source));
                }
                assert(budgets@.slots =~= kept(m, r).slots);
                assert(budgets@ =~= kept(m, r));
                assert(self@ =~= now);
            }
        }
    }

    pub fn source(&self) -> (r: SourceId)
        ensures
            r.0 == self@.source,
    {
        self.source
    }
}

/// Diagnostic view of one source's budget and live reservations.
#[derive(Debug, Clone, Copy, PartialEq, Eq, Structural)]
pub struct SourceConcurrencyView {
    pub source_id: SourceId,
    pub budget: u32,
    pub reserved: u32,
    /// High-water mark of reservations this source actually kept. A unit
    /// released because another admission gate refused the same claim is
    /// excluded, so this does not climb while a shared ceiling holds the work.
    pub peak_reserved: u32,
}

impl View for SourceBudgets {
    type V = SourceBudgetsModel;

    closed spec fn view(&self) -> SourceBudgetsModel {
        SourceBudgetsModel { slots: self.slots@, live: self.live@ }
    }
}

/// The units that belong to the first `n` sources of a table.
spec fn owned_units(s: Seq<(i64, Slot)>, live: Seq<ReservationModel>) -> nat
    decreases live.len(),
{
    if live.len() == 0 {
        0
    } else {
        owned_units(s, live.drop_last()) + (if has_key(s, live.last().source) {
            1nat
        } else {
            0nat
        })
    }
}

proof fn lemma_owned_all(s: Seq<(i64, Slot)>, live: Seq<ReservationModel>)
    requires
        forall|i: int| 0 <= i < live.len() ==> has_key(s, (#[trigger] live[i]).source),
    ensures
        owned_units(s, live) == live.len(),
    decreases live.len(),
{
    if live.len() > 0 {
        assert(has_key(s, live[live.len() - 1].source));
        assert forall|i: int| 0 <= i < live.drop_last().len() implies has_key(
            s,
            (#[trigger] live.drop_last()[i]).source,
        ) by {
            assert(has_key(s, live[i].source));
        }
        lemma_owned_all(s, live.drop_last());
    }
}

proof fn lemma_owned_grow(s: Seq<(i64, Slot)>, live: Seq<ReservationModel>)
    requires
        s.len() > 0,
        ascending(s),
    ensures
        owned_units(s, live) == owned_units(s.drop_last(), live) + held_units(
            live,
            s.last().0,
        ),
    decreases live.len(),
{
    if live.len() > 0 {
        lemma_owned_grow(s, live.drop_last());
        let x = live.last().source;
        let t = s.drop_last();
        assert(has_key(s, x) == (has_key(t, x) || x == s.last().0)) by {
            if has_key(s, x) {
                let i = key_index(s, x);
                if i < t.len() {
                    assert(t[i].0 == x);
                }
            }
            if has_key(t, x) {
                let i = key_index(t, x);
                assert(s[i].0 == x);
            }
            if x == s.last().0 {
                assert(s[s.len() - 1].0 == x);
            }
        }
        if has_key(t, x) && x == s.last().0 {
            let i = key_index(t, x);
            assert(s[i].0 < s[s.len() - 1].0);
        }
    }
}

proof fn lemma_owned_none(s: Seq<(i64, Slot)>, live: Seq<ReservationModel>)
    requires
        s.len() == 0,
    ensures
        owned_units(s, live) == 0,
    decreases live.len(),
{
    if live.len() > 0 {
        lemma_owned_none(s, live.drop_last());
        assert(!has_key(s, live.last().source));
    }
}

impl SourceBudgets {
    pub closed spec fn wf(&self) -> bool {
        self.slots.wf() && consistent(self@)
    }

    /// The accounting invariant, which every operation keeps.
    pub proof fn lemma_consistent(&self)
        requires
            self.wf(),
        ensures
            consistent(self@),
    {
    }

    pub fn new() -> (r: SourceBudgets)
        ensures
            r.wf(),
            r@.slots == Map::<i64, Slot>::empty(),
            r@.live == Seq::<ReservationModel>::empty(),
    {
        SourceBudgets { slots: SourceMap::new(), live: Ghost(Seq::empty()) }
    }

    fn slot(&self, id: SourceId) -> (r: Slot)
        requires
            self.wf(),
        ensures
            r == self@.slot(id),
    {
        match self.slots.get(id.0) {
            Some(s) => *s,
            None => Slot { budget: None, reserved: 0, confirmed: 0, peak: 0 },
        }
    }

    /// Replace the known budgets (the coordinator refreshes these from
    /// source policy every enqueue interval, and startup does it once
    /// before the pool starts). Live reservations survive; a source missing
    /// from `budgets` becomes unknown again and admits nothing.
    pub fn set_all(&mut self, budgets: &SourceMap<u32>)
        requires
            old(self).wf(),
            budgets.wf(),
        ensures
            final(self).wf(),
            final(self)@ == with_policies(old(self)@, budgets@),
    {
        let ghost m = self@;
        let ghost table = self.slots.entries@;
        let mut i: usize = 0;
        while i < self.slots.entries.len()
            invariant
                0 <= i <= self.slots.entries.len() == table.len(),
                ascending(table),
                budgets.wf(),
                self.live == old(self).live,
                forall|j: int|
                    0 <= j < table.len() ==> (#[trigger] self.slots.entries@[j]) == (if j < i {
                        (
                            table[j].0,
                            Slot {
                                budget: if budgets@.dom().contains(table[j].0) {
                                    Some(budgets@[table[j].0])
                                } else {
                                    None
                                },
                                ..table[j].1
                            },
                        )
                    } else {
                        table[j]
                    }),
            decreases self.slots.entries.len() - i,
        {
            let id = self.slots.entries[i].0;
            let mut slot = self.slots.entries[i].1;
            slot.budget = match budgets.get(id) {
                Some(b) => Some(*b),
                None => None,
            };
            self.slots.entries.set(i, (id, slot));
            i += 1;
        }
        let ghost goal = with_policies(m, budgets@);
        proof {
            let now = self.slots.entries@;
            assert forall|a: int, b: int| 0 <= a < b < now.len() implies (#[trigger] now[a]).0 < (
            #[trigger] now[b]).0 by {
                assert(table[a].0 < table[b].0);
            }
            assert forall|s: i64| self.slots@.dom().contains(s) == m.slots.dom().contains(s) by {
                if has_key(now, s) {
                    let j = key_index(now, s);
                    assert(table[j].0 == s);
                }
                if has_key(table, s) {
                    let j = key_index(table, s);
                    assert(now[j].0 == s);
                }
            }
            assert forall|s: i64| #[trigger] self.slots@.dom().contains(s) implies self.slots@[s]
                == goal.slots[s] by {
                let j = key_index(now, s);
                lemma_entry(now, j);
                lemma_entry(table, j);
            }
        }
        let mut k: usize = 0;
        while k < budgets.entries.len()
            invariant
                0 <= k <= budgets.entries.len(),
                budgets.wf(),
                self.slots.wf(),
                self.live == old(self).live,
                m == old(self)@,
                goal == with_policies(m, budgets@),
                forall|s: i64| #[trigger]
                    self.slots@.dom().contains(s) <==> m.slots.dom().contains(s) || has_key(
                        budgets.entries@.take(k as int),
                        s,
                    ),
                forall|s: i64| #[trigger]
                    self.slots@.dom().contains(s) ==> self.slots@[s] == goal.slots[s],
            decreases budgets.entries.len() - k,
        {
            let (id, budget) = budgets.entries[k];
            let mut slot: Slot = match self.slots.get(id) {
                Some(s) => *s,
                None => Slot { budget: None, reserved: 0, confirmed: 0, peak: 0 },
            };
            slot.budget = Some(budget);
            proof {
                lemma_entry(budgets.entries@, k as int);
                assert(budgets@.dom().contains(id));
                assert(slot == goal.slots[id]);
            }
            self.slots.insert(id, slot);
            k += 1;
            proof {
                let a = budgets.entries@.take(k - 1);
                let b = budgets.entries@.take(k as int);
                assert forall|s: i64| has_key(b, s) == (has_key(a, s) || s == id) by {
                    if has_key(b, s) {
                        let j = key_index(b, s);
                        if j < a.len() {
                            assert(a[j].0 == s);
                        }
                    }
                    if has_key(a, s) {
                        let j = key_index(a, s);
                        assert(b[j].0 == s);
                    }
                    assert(b[a.len() as int].0 == id);
                }
            }
        }
        proof {
            assert(budgets.entries@.take(k as int) =~= budgets.entries@);
            assert(self@.slots =~= goal.slots);
            assert(self@ =~= goal);
            assert forall|s: i64| #[trigger] goal.slots.dom().contains(s) implies {
                &&& goal.slots[s].reserved == held_units(goal.live, s)
                &&& goal.slots[s].confirmed == confirmed_units(goal.live, s)
                &&& goal.slots[s].confirmed <= goal.slots[s].peak
            } by {
                if !m.slots.dom().contains(s) {
                    assert forall|i: int| 0 <= i < m.live.len() implies (#[trigger] m.live[i]).source
                        != s by {
                        assert(m.slots.dom().contains(m.live[i].source));
                    }
                    lemma_no_units(m.live, s);
                }
            }
        }
    }

    /// Set one source's budget (an API policy change takes effect at once).
    /// Lowering it below the live reservation count does not revoke work
    /// already in flight; no further unit is handed out until it drains.
    pub fn set(&mut self, id: SourceId, budget: u32)
        requires
            old(self).wf(),
        ensures
            final(self).wf(),
            final(self)@ == old(self)@.with_slot(
                id,
                Slot { budget: Some(budget), ..old(self)@.slot(id) },
            ),
    {
        let ghost m = self@;
        let mut slot = self.slot(id);
        slot.budget = Some(budget);
        self.slots.insert(id.0, slot);
        proof {
            self.lemma_slot_stays_consistent(m, id);
        }
    }

    /// Replacing a slot without touching its counters keeps the invariant.
    proof fn lemma_slot_stays_consistent(&self, m: SourceBudgetsModel, id: SourceId)
        requires
            consistent(m),
            self@.live == m.live,
            self@.slots.dom() == m.slots.dom().insert(id.0),
            forall|s: i64| #[trigger]
                m.slots.dom().contains(s) && s != id.0 ==> self@.slots[s] == m.slots[s],
            self@.slots[id.0].reserved == m.slot(id).reserved,
            self@.slots[id.0].confirmed == m.slot(id).confirmed,
            self@.slots[id.0].peak == m.slot(id).peak,
        ensures
            consistent(self@),
    {
        assert forall|s: i64| #[trigger] self@.slots.dom().contains(s) implies {
            &&& self@.slots[s].reserved == held_units(m.live, s)
            &&& self@.slots[s].confirmed == confirmed_units(m.live, s)
            &&& self@.slots[s].confirmed <= self@.slots[s].peak
        } by {
            if !m.slots.dom().contains(s) {
                assert forall|i: int| 0 <= i < m.live.len() implies (#[trigger] m.live[i]).source
                    != s by {
                    assert(m.slots.dom().contains(m.live[i].source));
                }
                lemma_no_units(m.live, s);
            }
        }
    }

    pub fn budget(&self, id: SourceId) -> (r: u32)
        requires
            self.wf(),
        ensures
            r == self@.slot(id).shown_budget(),
    {
        self.slot(id).budget()
    }

    pub fn reserved(&self, id: SourceId) -> (r: u32)
        requires
            self.wf(),
        ensures
            r == self@.slot(id).reserved,
    {
        self.slot(id).reserved
    }

    pub fn peak_reserved(&self, id: SourceId) -> (r: u32)
        requires
            self.wf(),
        ensures
            r == self@.slot(id).peak,
    {
        self.slot(id).peak
    }

    /// Units held across every source: one per batch being extracted, and so
    /// the count of workers that are mid-batch.
    pub fn reserved_total(&self) -> (r: u32)
        requires
            self.wf(),
            self@.live.len() <= u32::MAX,
        ensures
            r == self@.live.len(),
    {
        let ghost s = self.slots.entries@;
        let ghost live = self@.live;
        let mut total: u32 = 0;
        let mut i: usize = 0;
        proof {
            lemma_owned_none(s.take(0), live);
            assert forall|j: int| 0 <= j < live.len() implies has_key(
                s,
                (#[trigger] live[j]).source,
            ) by {
                assert(self@.slots.dom().contains(live[j].source));
            }
            lemma_owned_all(s, live);
        }
        while i < self.slots.entries.len()
            invariant
                0 <= i <= self.slots.entries.len(),
                self.wf(),
                s == self.slots.entries@,
                live == self@.live,
                live.len() <= u32::MAX,
                total == owned_units(s.take(i as int), live),
            decreases self.slots.entries.len() - i,
        {
            proof {
                let t = s.take(i + 1);
                assert(ascending(t));
                assert(t.drop_last() =~= s.take(i as int));
                lemma_owned_grow(t, live);
                lemma_entry(s, i as int);
                lemma_owned_bounded(t, live);
            }
            total = total + self.slots.entries[i].1.reserved;
            i += 1;
        }
        assert(s.take(i as int) =~= s);
        total
    }

    /// Take one unit of `id`'s budget, or `None` when it is exhausted.
    ///
    /// A source whose policy has not been read yet admits nothing, so a
    /// catalog read that fails at startup makes workers idle rather than
    /// fall back to a budget larger than the source is configured for. The
    /// next successful refresh unblocks them. A budget of zero likewise
    /// never admits work.
    pub fn try_reserve(&mut self, id: SourceId) -> (r: Option<SourceReservation>)
        requires
            old(self).wf(),
        ensures
            final(self).wf(),
            r is Some <==> old(self)@.slot(id).admits(),
            r matches Some(u) ==> {
                &&& u@ == (ReservationModel { source: id.0, confirmed: false })
                &&& final(self)@ == taken(old(self)@, id)
                &&& final(self)@.live.contains(u@)
            },
            r is None ==> final(self)@ == old(self)@.with_slot(id, old(self)@.slot(id)),
    {
        let ghost m = self@;
        let mut slot = self.slot(id);
        let refused: bool = match slot.budget {
            None => true,
            Some(b) => slot.reserved >= b,
        };
        if refused {
            self.slots.insert(id.0, slot);
            proof {
                self.lemma_slot_stays_consistent(m, id);
            }
            return None;
        }
        let ghost unit = ReservationModel { source: id.0, confirmed: false };
        slot.reserved = slot.reserved + 1;
        self.slots.insert(id.0, slot);
        proof {
            self.live@ = self.live@.push(unit);
            let after = self@;
            assert(after.live[m.live.len() as int] == unit);
            assert forall|s: i64| #[trigger] after.slots.dom().contains(s) implies {
                &&& after.slots[s].reserved == held_units(after.live, s)
                &&& after.slots[s].confirmed == confirmed_units(after.live, s)
                &&& after.slots[s].confirmed <= after.slots[s].peak
            } by {
                lemma_units_push(m.live, unit, s);
                if !m.slots.dom().contains(s) {
                    assert forall|i: int| 0 <= i < m.live.len() implies (#[trigger] m.live[i]).source
                        != s by {
                        assert(m.slots.dom().contains(m.live[i].source));
                    }
                    lemma_no_units(m.live, s);
                }
            }
            assert forall|i: int| 0 <= i < after.live.len() implies after.slots.dom().contains(
                (#[trigger] after.live[i]).source,
            ) by {
                if i < m.live.len() {
                    assert(m.slots.dom().contains(m.live[i].source));
                }
            }
            assert(self@ =~= taken(m, id));
        }
        Some(SourceReservation { source: id, confirmed: false })
    }

    /// Give a unit back. It must have been handed out by these budgets; owning
    /// it shows that it was not given back before.
    pub fn release(&mut self, unit: SourceReservation)
        requires
            old(self).wf(),
            old(self)@.live.contains(unit@),
        ensures
            final(self).wf(),
            final(self)@ == given_back(old(self)@, unit@),
    {
        let ghost m = self@;
        let ghost at = m.live.index_of(unit@);
        let id = unit.source;
        let mut slot = self.slot(id);
        proof {
            assert(m.live[at] == unit@);
            assert(m.slots.dom().contains(id.0));
            lemma_units_remove(m.live, at, id.0);
        }
        slot.reserved = slot.reserved - 1;
        if unit.confirmed {
            slot.confirmed = slot.confirmed - 1;
        }
        self.slots.insert(id.0, slot);
        proof {
            self.live@ = self.live@.remove(at);
            let after = self@;
            assert forall|s: i64| #[trigger] after.slots.dom().contains(s) implies {
                &&& after.slots[s].reserved == held_units(after.live, s)
                &&& after.slots[s].confirmed == confirmed_units(after.live, s)
                &&& after.slots[s].confirmed <= after.slots[s].peak
            } by {
                lemma_units_remove(m.live, at, s);
                assert(m.slots.dom().contains(s));
            }
            assert forall|i: int| 0 <= i < after.live.len() implies after.slots.dom().contains(
                (#[trigger] after.live[i]).source,
            ) by {
                let p = if i < at {
                    i
                } else {
                    i + 1
                };
                assert(m.slots.dom().contains(m.live[p].source));
            }
            assert(self@ =~= given_back(m, unit@));
        }
    }

    /// Diagnostics for the activity page, ordered by source id.
    pub fn snapshot(&self) -> (r: Vec<SourceConcurrencyView>)
        requires
            self.wf(),
        ensures
            forall|i: int, j: int|
                0 <= i < j < r.len() ==> (#[trigger] r@[i]).source_id.0 < (
                #[trigger] r@[j]).source_id.0,
            forall|s: i64| #[trigger]
                self@.slots.dom().contains(s) ==> exists|i: int|
                    0 <= i < r.len() && (#[trigger] r@[i]).source_id.0 == s,
            forall|i: int|
                0 <= i < r.len() ==> {
                    let slot = self@.slots[(#[trigger] r@[i]).source_id.0];
                    &&& self@.slots.dom().contains(r@[i].source_id.0)
                    &&& r@[i].budget == slot.shown_budget()
                    &&& r@[i].reserved == slot.reserved
                    &&& r@[i].peak_reserved == slot.peak
                },
    {
        let mut r: Vec<SourceConcurrencyView> = Vec::new();
        let mut i: usize = 0;
        let ghost s = self.slots.entries@;
        while i < self.slots.entries.len()
            invariant
                0 <= i <= self.slots.entries.len(),
                self.wf(),
                s == self.slots.entries@,
                r.len() == i,
                forall|j: int|
                    0 <= j < i ==> {
                        &&& (#[trigger] r@[j]).source_id.0 == s[j].0
                        &&& r@[j].budget == s[j].1.shown_budget()
                        &&& r@[j].reserved == s[j].1.reserved
                        &&& r@[j].peak_reserved == s[j].1.peak
                    },
            decreases self.slots.entries.len() - i,
        {
            let (id, slot) = self.slots.entries[i];
            r.push(
                SourceConcurrencyView {
                    source_id: SourceId(id),
                    budget: slot.budget(),
                    reserved: slot.reserved,
                    peak_reserved: slot.peak,
                },
            );
            i += 1;
        }
        proof {
            assert forall|a: int, b: int| 0 <= a < b < r.len() implies (#[trigger] r@[a]).source_id.0
                < (#[trigger] r@[b]).source_id.0 by {
                assert(s[a].0 < s[b].0);
            }
            assert forall|k: i64| #[trigger] self@.slots.dom().contains(k) implies exists|i: int|
                0 <= i < r.len() && (#[trigger] r@[i]).source_id.0 == k by {
                let j = key_index(s, k);
                assert(r@[j].source_id.0 == k);
            }
            assert forall|j: int| 0 <= j < r.len() implies {
                let slot = self@.slots[(#[trigger] r@[j]).source_id.0];
                &&& self@.slots.dom().contains(r@[j].source_id.0)
                &&& r@[j].budget == slot.shown_budget()
                &&& r@[j].reserved == slot.reserved
                &&& r@[j].peak_reserved == slot.peak
            } by {
                lemma_entry(s, j);
            }
        }
        r
    }
}

proof fn lemma_owned_bounded(s: Seq<(i64, Slot)>, live: Seq<ReservationModel>)
    ensures
        owned_units(s, live) <= live.len(),
    decreases live.len(),
{
    if live.len() > 0 {
        lemma_owned_bounded(s, live.drop_last());
    }
}

} // verus!
