//! In-memory admission accounting; never probes a source or takes a catalog lock.
//! Topology changes drain old leases before replacing their accounting keys.
//! An unresolved source makes all sources share one conservative budget until
//! topology is known. This fallback is explicit, not guessed disk independence.

use crate::key_list::{
    copy_keys, holds_key, insert_key, lemma_sorted_distinct, lemma_sorted_unique, same_keys,
    sorted_keys, strictly_sorted, texts,
};
use crate::source_map::{
    ascending, entry_map, has_key, key_index, lemma_entry, lemma_same_map, SourceMap,
};
use vstd::prelude::*;

verus! {

pub type SourceKey = i64;

/// The backing devices of each source; `None` where they are not known.
pub type Topology = SourceMap<Option<Vec<String>>>;

/// The budget that every source shares while some topology is unresolved.
pub const FALLBACK: &'static str = "unresolved-shared-budget";

#[derive(Debug, Clone, Copy, PartialEq, Eq, Structural)]
pub enum WorkKind {
    Content,
    Scan,
}

#[derive(Debug, Clone, Copy, PartialEq, Eq, Structural)]
pub enum WaitReason {
    UnknownSource,
    TopologyDraining,
    DeviceAtCapacity,
    InvalidWidth,
}

// ----- model ----------------------------------------------------------------

/// A set of device keys.
pub type Devices = Set<Seq<char>>;

/// Which devices back each source.
pub type TopologyModel = Map<i64, Option<Devices>>;

/// What is reserved on one device, and the most that ever was.
pub struct Usage {
    pub content: nat,
    pub scan: nat,
    pub peak: nat,
}

impl Usage {
    pub open spec fn total(self) -> nat {
        self.content + self.scan
    }

    pub open spec fn idle() -> Usage {
        Usage { content: 0, scan: 0, peak: 0 }
    }

    pub open spec fn charged(self, kind: WorkKind, units: nat) -> Usage {
        let total = self.total() + units;
        let peak = if total > self.peak {
            total
        } else {
            self.peak
        };
        match kind {
            WorkKind::Content => Usage { content: self.content + units, scan: self.scan, peak },
            WorkKind::Scan => Usage { content: self.content, scan: self.scan + units, peak },
        }
    }

    pub open spec fn released(self, kind: WorkKind, units: nat) -> Usage {
        match kind {
            WorkKind::Content => Usage { content: (self.content - units) as nat, ..self },
            WorkKind::Scan => Usage { scan: (self.scan - units) as nat, ..self },
        }
    }

    pub open spec fn of(self, kind: WorkKind) -> nat {
        match kind {
            WorkKind::Content => self.content,
            WorkKind::Scan => self.scan,
        }
    }
}

/// One reservation: the devices it charges, and how much.
pub struct LeaseModel {
    pub devices: Devices,
    pub kind: WorkKind,
    pub units: nat,
}

impl LeaseModel {
    /// What this lease charges to one device for one kind of work.
    pub open spec fn share(self, device: Seq<char>, kind: WorkKind) -> nat {
        if self.devices.contains(device) && self.kind == kind {
            self.units
        } else {
            0
        }
    }
}

pub struct BudgetModel {
    pub limit: nat,
    pub topology: TopologyModel,
    /// A topology that waits for the leases of the current one to drain.
    pub pending: Option<TopologyModel>,
    pub usage: Map<Seq<char>, Usage>,
    /// The leases handed out and not yet given back.
    pub live: Seq<LeaseModel>,
}

/// Whether some source's devices are unknown.
pub open spec fn unresolved(t: TopologyModel) -> bool {
    exists|s: i64| #[trigger] t.dom().contains(s) && t[s] is None
}

/// The devices that work on `source` is charged to.
pub open spec fn charged_devices(t: TopologyModel, source: i64) -> Devices {
    if unresolved(t) {
        set![FALLBACK@]
    } else {
        t[source]->0
    }
}

/// Every device that some source is charged to.
pub open spec fn all_devices(t: TopologyModel) -> Devices {
    Set::new(
        |k: Seq<char>| exists|s: i64| #[trigger]
            t.dom().contains(s) && charged_devices(t, s).contains(k),
    )
}

/// A reported device list, with the reports that name no usable device set
/// turned into "unknown".
pub open spec fn resolved(devices: Option<Vec<String>>) -> Option<Devices> {
    match devices {
        None => None,
        Some(list) => {
            let d = texts(list@).to_set();
            if 1 <= d.len() <= 64 && !d.contains(Seq::empty()) && !d.contains(FALLBACK@) {
                Some(d)
            } else {
                None
            }
        },
    }
}

/// A reported topology, normalised.
pub open spec fn resolved_topology(t: Map<i64, Option<Vec<String>>>) -> TopologyModel {
    t.map_values(|d: Option<Vec<String>>| resolved(d))
}

/// Room left on a device.
pub open spec fn room(m: BudgetModel, device: Seq<char>) -> nat {
    if m.usage[device].total() < m.limit {
        (m.limit - m.usage[device].total()) as nat
    } else {
        0
    }
}

pub open spec fn valid_width(kind: WorkKind, requested: u32) -> bool {
    1 <= requested <= 64 && (kind == WorkKind::Content ==> requested == 1)
}

/// The admission decision. A grant is the widest that every charged device
/// has room for, up to what was asked.
pub open spec fn decides(
    m: BudgetModel,
    source: i64,
    kind: WorkKind,
    requested: u32,
    r: Result<u32, WaitReason>,
) -> bool {
    if !valid_width(kind, requested) {
        r == Err::<u32, WaitReason>(WaitReason::InvalidWidth)
    } else if m.pending is Some {
        r == Err::<u32, WaitReason>(WaitReason::TopologyDraining)
    } else if !m.topology.dom().contains(source) {
        r == Err::<u32, WaitReason>(WaitReason::UnknownSource)
    } else {
        let devices = charged_devices(m.topology, source);
        match r {
            Ok(units) => {
                &&& 1 <= units <= requested
                &&& forall|k: Seq<char>| #[trigger] devices.contains(k) ==> units <= room(m, k)
                &&& units == requested || exists|k: Seq<char>| #[trigger]
                    devices.contains(k) && units == room(m, k)
            },
            Err(reason) => {
                &&& reason == WaitReason::DeviceAtCapacity
                &&& exists|k: Seq<char>| #[trigger] devices.contains(k) && room(m, k) == 0
            },
        }
    }
}

/// A lease taken out: all its devices charged together.
pub open spec fn granted(m: BudgetModel, lease: LeaseModel) -> BudgetModel {
    BudgetModel {
        usage: m.usage.map_entries(
            |k: Seq<char>, u: Usage|
                if lease.devices.contains(k) {
                    u.charged(lease.kind, lease.units)
                } else {
                    u
                },
        ),
        live: m.live.push(lease),
        ..m
    }
}

/// A lease given back.
pub open spec fn returned(m: BudgetModel, lease: LeaseModel) -> BudgetModel {
    BudgetModel {
        usage: m.usage.map_entries(
            |k: Seq<char>, u: Usage|
                if lease.devices.contains(k) {
                    u.released(lease.kind, lease.units)
                } else {
                    u
                },
        ),
        live: m.live.remove(m.live.index_of(lease)),
        ..m
    }
}

/// A new topology in force. Devices that stay keep their high-water mark;
/// devices that no source uses any more are forgotten.
pub open spec fn installed(m: BudgetModel, t: TopologyModel) -> BudgetModel {
    BudgetModel {
        topology: t,
        pending: None,
        usage: Map::new(
            |k: Seq<char>| all_devices(t).contains(k),
            |k: Seq<char>|
                if m.usage.dom().contains(k) {
                    m.usage[k]
                } else {
                    Usage::idle()
                },
        ),
        ..m
    }
}

/// A waiting topology comes into force once the last lease is back.
pub open spec fn settled(m: BudgetModel) -> BudgetModel {
    if m.live.len() == 0 && m.pending is Some {
        installed(m, m.pending->0)
    } else {
        m
    }
}

/// The effect of a new topology report.
pub open spec fn retargeted(m: BudgetModel, t: TopologyModel) -> BudgetModel {
    if t == m.topology {
        BudgetModel { pending: None, ..m }
    } else if m.live.len() == 0 {
        installed(m, t)
    } else {
        BudgetModel { pending: Some(t), ..m }
    }
}

/// What the live leases charge to one device for one kind of work.
pub open spec fn charged_by(live: Seq<LeaseModel>, device: Seq<char>, kind: WorkKind) -> nat
    decreases live.len(),
{
    if live.len() == 0 {
        0
    } else {
        charged_by(live.drop_last(), device, kind) + live.last().share(device, kind)
    }
}

/// The invariant of the accounting: what each device reports is exactly what
/// the live leases charge to it, and never more than the largest limit.
pub open spec fn consistent(m: BudgetModel) -> bool {
    &&& 1 <= m.limit <= 64
    &&& m.usage.dom() == all_devices(m.topology)
    &&& forall|s: i64| #[trigger]
        m.topology.dom().contains(s) && m.topology[s] is Some ==> usable(m.topology[s]->0)
    &&& forall|k: Seq<char>| #[trigger]
        m.usage.dom().contains(k) ==> {
            &&& m.usage[k].content == charged_by(m.live, k, WorkKind::Content)
            &&& m.usage[k].scan == charged_by(m.live, k, WorkKind::Scan)
            &&& m.usage[k].total() <= m.usage[k].peak <= 64
        }
    &&& forall|i: int|
        0 <= i < m.live.len() ==> {
            &&& (#[trigger] m.live[i]).units >= 1
            &&& m.live[i].devices.subset_of(m.usage.dom())
            &&& exists|k: Seq<char>| #[trigger] m.live[i].devices.contains(k)
        }
    &&& m.pending is Some ==> m.live.len() > 0
}

/// A device set that a resolved topology may hold.
pub open spec fn usable(d: Devices) -> bool {
    exists|k: Seq<char>| #[trigger] d.contains(k)
}

// ----- laws -----------------------------------------------------------------

/// A check can never disagree with the reservation that it precedes: the
/// decision depends on the state and the request alone.
pub proof fn law_check_agrees_with_reservation(
    m: BudgetModel,
    source: i64,
    kind: WorkKind,
    requested: u32,
    a: Result<u32, WaitReason>,
    b: Result<u32, WaitReason>,
)
    requires
        decides(m, source, kind, requested, a),
        decides(m, source, kind, requested, b),
    ensures
        a == b,
{
    if valid_width(kind, requested) && m.pending is None && m.topology.dom().contains(source) {
        let devices = charged_devices(m.topology, source);
        match (a, b) {
            (Ok(x), Ok(y)) => {
                if x != requested {
                    let k = choose|k: Seq<char>| #[trigger] devices.contains(k) && x == room(m, k);
                    assert(y <= room(m, k));
                }
                if y != requested {
                    let k = choose|k: Seq<char>| #[trigger] devices.contains(k) && y == room(m, k);
                    assert(x <= room(m, k));
                }
            },
            (Ok(x), Err(_)) => {
                let k = choose|k: Seq<char>| #[trigger] devices.contains(k) && room(m, k) == 0;
                assert(x <= room(m, k));
            },
            (Err(_), Ok(y)) => {
                let k = choose|k: Seq<char>| #[trigger] devices.contains(k) && room(m, k) == 0;
                assert(y <= room(m, k));
            },
            (Err(_), Err(_)) => {},
        }
    }
}

/// No grant takes a device past the limit.
pub proof fn law_grant_stays_within_limit(
    m: BudgetModel,
    source: i64,
    kind: WorkKind,
    requested: u32,
    units: u32,
    device: Seq<char>,
)
    requires
        consistent(m),
        decides(m, source, kind, requested, Ok(units)),
        charged_devices(m.topology, source).contains(device),
    ensures
        granted(
            m,
            LeaseModel {
                devices: charged_devices(m.topology, source),
                kind,
                units: units as nat,
            },
        ).usage[device].total() <= m.limit,
{
    assert(units <= room(m, device));
    assert(all_devices(m.topology).contains(device));
}

/// Giving a lease back restores the readings of every device; only the
/// high-water marks remember it.
pub proof fn law_return_undoes_grant(m: BudgetModel, lease: LeaseModel, device: Seq<char>)
    requires
        m.usage.dom().contains(device),
    ensures
        ({
            let after = returned(granted(m, lease), lease);
            &&& after.usage.dom() == m.usage.dom()
            &&& after.usage[device].content == m.usage[device].content
            &&& after.usage[device].scan == m.usage[device].scan
            &&& after.usage[device].peak >= m.usage[device].peak
            &&& after.live.to_multiset() == m.live.to_multiset()
            &&& after.topology == m.topology
            &&& after.pending == m.pending
        }),
{
    let g = granted(m, lease);
    let after = returned(g, lease);
    assert(after.usage.dom() =~= m.usage.dom());
    assert(g.live[m.live.len() as int] == lease);
    assert(g.live.contains(lease));
    let i = g.live.index_of(lease);
    broadcast use vstd::seq_lib::group_to_multiset_ensures;
    assert(g.live.to_multiset() =~= m.live.to_multiset().insert(lease));
    assert(after.live.to_multiset() =~= g.live.to_multiset().remove(g.live[i]));
    assert(after.live.to_multiset() =~= m.live.to_multiset());
}

/// While a topology change drains, nothing new is admitted.
pub proof fn law_nothing_is_admitted_while_draining(
    m: BudgetModel,
    source: i64,
    kind: WorkKind,
    requested: u32,
    r: Result<u32, WaitReason>,
)
    requires
        m.pending is Some,
        decides(m, source, kind, requested, r),
    ensures
        r is Err,
{
}

/// Reporting the topology in force again cancels a change that still drains,
/// and touches nothing else.
pub proof fn law_returning_to_the_original_cancels_the_drain(m: BudgetModel, t: TopologyModel)
    requires
        m.live.len() > 0,
    ensures
        retargeted(retargeted(m, t), m.topology) == (BudgetModel { pending: None, ..m }),
{
}

/// A lease goes on charging exactly the devices it was taken out for, however
/// often the topology is reported anew before it is given back.
pub proof fn law_live_leases_survive_a_new_report(m: BudgetModel, t: TopologyModel)
    requires
        consistent(m),
        m.live.len() > 0,
    ensures
        retargeted(m, t).live == m.live,
        retargeted(m, t).usage == m.usage,
        retargeted(m, t).topology == m.topology,
        consistent(retargeted(m, t)),
{
}

/// A request that every charged device has room for is granted in full; one
/// that a device has no room for at all waits; and in between it gets as much
/// as the fullest device allows.
pub proof fn law_room_is_granted(
    m: BudgetModel,
    source: i64,
    kind: WorkKind,
    requested: u32,
    r: Result<u32, WaitReason>,
    device: Seq<char>,
)
    requires
        decides(m, source, kind, requested, r),
        m.pending is None,
        m.topology.dom().contains(source),
        1 <= requested <= 64,
        kind == WorkKind::Content ==> requested == 1,
        charged_devices(m.topology, source).contains(device),
    ensures
        (forall|k: Seq<char>| #[trigger]
            charged_devices(m.topology, source).contains(k) ==> m.usage[k].content
                + m.usage[k].scan + requested <= m.limit) ==> r == Ok::<u32, WaitReason>(requested),
        m.usage[device].content + m.usage[device].scan >= m.limit ==> r == Err::<u32, WaitReason>(
            WaitReason::DeviceAtCapacity,
        ),
        r matches Ok(units) ==> m.usage[device].content + m.usage[device].scan + units <= m.limit,
{
}

/// Each refusal has its own reason: a width that no work has, a topology that
/// still drains, a source that is not there, or a device that is full.
pub proof fn law_a_refusal_says_why(
    m: BudgetModel,
    source: i64,
    kind: WorkKind,
    requested: u32,
    reason: WaitReason,
)
    requires
        decides(m, source, kind, requested, Err(reason)),
    ensures
        reason == WaitReason::InvalidWidth <==> requested < 1 || requested > 64 || (kind
            == WorkKind::Content && requested != 1),
        reason == WaitReason::TopologyDraining ==> m.pending is Some,
        reason == WaitReason::UnknownSource ==> !m.topology.dom().contains(source),
        reason == WaitReason::DeviceAtCapacity ==> m.pending is None && m.topology.dom().contains(
            source,
        ) && exists|k: Seq<char>| #[trigger]
            charged_devices(m.topology, source).contains(k) && m.usage[k].content + m.usage[k].scan
                >= m.limit,
{
    if reason == WaitReason::DeviceAtCapacity {
        let k = choose|k: Seq<char>| #[trigger]
            charged_devices(m.topology, source).contains(k) && room(m, k) == 0;
        assert(m.usage[k].content + m.usage[k].scan >= m.limit);
    }
}

/// Work is charged to the devices of its own source where all are known; while
/// those of any source are not, every source shares one budget.
pub proof fn law_an_unknown_device_makes_all_share(t: TopologyModel, source: i64, unknown: i64)
    requires
        t.dom().contains(source),
        t.dom().contains(unknown),
    ensures
        t[unknown] is None ==> charged_devices(t, source) == Set::empty().insert(FALLBACK@),
        (forall|s: i64| #[trigger] t.dom().contains(s) ==> t[s] is Some) ==> Some(
            charged_devices(t, source),
        ) == t[source],
        forall|k: Seq<char>| #[trigger]
            charged_devices(t, source).contains(k) ==> all_devices(t).contains(k),
{
    if t[unknown] is None {
        assert(unresolved(t));
    }
    assert forall|k: Seq<char>| #[trigger] charged_devices(t, source).contains(k) implies all_devices(
        t,
    ).contains(k) by {
        assert(t.dom().contains(source));
    }
}

/// A report is taken as it is if it names one to sixty-four devices, none of
/// them nameless and none the shared budget itself; any other names nothing.
pub proof fn law_only_usable_reports_count(devices: Option<Vec<String>>)
    ensures
        resolved(devices) matches Some(d) ==> devices is Some && d == texts(
            devices->0@,
        ).to_set() && 1 <= d.len() <= 64 && !d.contains(Seq::empty()) && !d.contains(FALLBACK@),
        resolved(devices) is None ==> devices is None || ({
            let d = texts(devices->0@).to_set();
            d.len() == 0 || d.len() > 64 || d.contains(Seq::empty()) || d.contains(FALLBACK@)
        }),
{
}

/// A lease charges its units to its kind of work on each of its devices, and
/// nothing else; the high-water mark of a device is the most that was ever
/// reserved on it at once.
pub proof fn law_a_lease_charges_its_own_devices(m: BudgetModel, lease: LeaseModel, device: Seq<char>)
    requires
        m.usage.dom().contains(device),
    ensures
        ({
            let before = m.usage[device];
            let after = granted(m, lease).usage[device];
            &&& granted(m, lease).usage.dom() == m.usage.dom()
            &&& !lease.devices.contains(device) ==> after == before
            &&& lease.devices.contains(device) ==> {
                &&& lease.kind == WorkKind::Content ==> after.content == before.content
                    + lease.units && after.scan == before.scan
                &&& lease.kind == WorkKind::Scan ==> after.scan == before.scan + lease.units
                    && after.content == before.content
                &&& after.peak >= before.peak && after.peak >= after.content + after.scan
                &&& after.peak == before.peak || after.peak == after.content + after.scan
            }
            &&& granted(m, lease).live == m.live.push(lease)
        }),
{
    assert(granted(m, lease).usage.dom() =~= m.usage.dom());
}

/// A new topology counts exactly the devices that its sources are charged to:
/// one that stays keeps its readings, a new one starts idle. It waits for the
/// last lease, and comes into force with it.
pub proof fn law_a_new_topology_waits_for_the_last_lease(
    m: BudgetModel,
    t: TopologyModel,
    device: Seq<char>,
)
    requires
        t != m.topology,
    ensures
        ({
            let r = retargeted(m, t);
            &&& m.live.len() > 0 ==> r.topology == m.topology && r.pending == Some(t) && r.usage
                == m.usage
            &&& m.live.len() == 0 ==> r.topology == t && r.pending is None
            &&& r.live == m.live && r.limit == m.limit
        }),
        ({
            let waiting = BudgetModel { pending: Some(t), ..m };
            let s = settled(waiting);
            &&& m.live.len() > 0 ==> s == waiting
            &&& m.live.len() == 0 ==> {
                &&& s.topology == t && s.pending is None
                &&& s.usage.dom().contains(device) <==> exists|x: i64| #[trigger]
                    t.dom().contains(x) && charged_devices(t, x).contains(device)
                &&& s.usage.dom().contains(device) && m.usage.dom().contains(device)
                    ==> s.usage[device] == m.usage[device]
                &&& s.usage.dom().contains(device) && !m.usage.dom().contains(device)
                    ==> s.usage[device].content == 0 && s.usage[device].scan == 0
                    && s.usage[device].peak == 0
            }
        }),
{
}

// ----- accounting lemmas ----------------------------------------------------

proof fn lemma_charged_push(live: Seq<LeaseModel>, l: LeaseModel, k: Seq<char>, kind: WorkKind)
    ensures
        charged_by(live.push(l), k, kind) == charged_by(live, k, kind) + l.share(k, kind),
{
    assert(live.push(l).drop_last() =~= live);
}

proof fn lemma_charged_remove(live: Seq<LeaseModel>, i: int, k: Seq<char>, kind: WorkKind)
    requires
        0 <= i < live.len(),
    ensures
        charged_by(live.remove(i), k, kind) + live[i].share(k, kind) == charged_by(live, k, kind),
    decreases live.len(),
{
    if i == live.len() - 1 {
        assert(live.remove(i) =~= live.drop_last());
    } else {
        lemma_charged_remove(live.drop_last(), i, k, kind);
        assert(live.remove(i).drop_last() =~= live.drop_last().remove(i));
        assert(live.remove(i).last() == live.last());
    }
}

proof fn lemma_charged_covers(live: Seq<LeaseModel>, i: int, k: Seq<char>, kind: WorkKind)
    requires
        0 <= i < live.len(),
    ensures
        charged_by(live, k, kind) >= live[i].share(k, kind),
{
    lemma_charged_remove(live, i, k, kind);
}

/// A new topology keeps the accounting consistent once no lease is left.
pub proof fn lemma_installed_consistent(m: BudgetModel, t: TopologyModel)
    requires
        consistent(m),
        m.live.len() == 0,
        forall|s: i64| #[trigger] t.dom().contains(s) && t[s] is Some ==> usable(t[s]->0),
    ensures
        consistent(installed(m, t)),
{
    let n = installed(m, t);
    assert(n.usage.dom() =~= all_devices(t));
    assert forall|k: Seq<char>| #[trigger] n.usage.dom().contains(k) implies {
        &&& n.usage[k].content == charged_by(n.live, k, WorkKind::Content)
        &&& n.usage[k].scan == charged_by(n.live, k, WorkKind::Scan)
        &&& n.usage[k].total() <= n.usage[k].peak <= 64
    } by {
        if m.usage.dom().contains(k) {
        }
    }
}

// ----- tables ---------------------------------------------------------------

#[derive(Debug)]
struct DeviceCount {
    key: String,
    content: u32,
    scan: u32,
    peak: u32,
}

impl DeviceCount {
    closed spec fn usage(self) -> Usage {
        Usage { content: self.content as nat, scan: self.scan as nat, peak: self.peak as nat }
    }

    fn total(&self) -> (r: u32)
        requires
            self.content + self.scan <= u32::MAX,
        ensures
            r == self.usage().total(),
    {
        self.content + self.scan
    }
}

/// The keys of a table, in table order.
spec fn count_keys(s: Seq<DeviceCount>) -> Seq<Seq<char>> {
    Seq::new(s.len(), |i: int| s[i].key@)
}

/// The map that a table stands for.
spec fn usage_map(s: Seq<DeviceCount>) -> Map<Seq<char>, Usage> {
    Map::new(
        |k: Seq<char>| count_keys(s).contains(k),
        |k: Seq<char>| s[count_keys(s).index_of(k)].usage(),
    )
}

proof fn lemma_count_entry(s: Seq<DeviceCount>, i: int)
    requires
        strictly_sorted(count_keys(s)),
        0 <= i < s.len(),
    ensures
        usage_map(s).dom().contains(s[i].key@),
        usage_map(s)[s[i].key@] == s[i].usage(),
        count_keys(s).index_of(s[i].key@) == i,
{
    lemma_sorted_distinct(count_keys(s));
    assert(count_keys(s)[i] == s[i].key@);
}

/// The devices that a normalised entry names.
spec fn device_set(devices: Option<Vec<String>>) -> Option<Devices> {
    match devices {
        None => None,
        Some(list) => Some(texts(list@).to_set()),
    }
}

spec fn normal(devices: Option<Vec<String>>) -> bool {
    match devices {
        None => true,
        Some(list) => strictly_sorted(texts(list@)) && list@.len() > 0,
    }
}

spec fn normal_topology(t: Topology) -> bool {
    t.wf() && forall|i: int| 0 <= i < t.entries.len() ==> normal((#[trigger] t.entries@[i]).1)
}

spec fn device_entries(s: Seq<(i64, Option<Vec<String>>)>) -> Seq<(i64, Option<Devices>)> {
    s.map_values(|e: (i64, Option<Vec<String>>)| (e.0, device_set(e.1)))
}

spec fn topology_model(t: Topology) -> TopologyModel {
    entry_map(device_entries(t.entries@))
}

proof fn lemma_topology_entry(t: Topology, i: int)
    requires
        t.wf(),
        0 <= i < t.entries.len(),
    ensures
        ascending(device_entries(t.entries@)),
        topology_model(t).dom().contains(t.entries@[i].0),
        topology_model(t)[t.entries@[i].0] == device_set(t.entries@[i].1),
{
    lemma_device_entries_ascending(t.entries@);
    lemma_entry(device_entries(t.entries@), i);
}

proof fn lemma_device_entries_ascending(s: Seq<(i64, Option<Vec<String>>)>)
    requires
        ascending(s),
    ensures
        ascending(device_entries(s)),
{
    let d = device_entries(s);
    assert forall|i: int, j: int| 0 <= i < j < d.len() implies (#[trigger] d[i]).0 < (
    #[trigger] d[j]).0 by {
        assert(s[i].0 < s[j].0);
    }
}

/// Every source of a normalised topology has a usable device set or none.
proof fn lemma_topology_usable(t: Topology)
    requires
        normal_topology(t),
    ensures
        forall|s: i64| #[trigger]
            topology_model(t).dom().contains(s) && topology_model(t)[s] is Some ==> usable(
                topology_model(t)[s]->0,
            ),
{
    assert forall|s: i64| #[trigger]
        topology_model(t).dom().contains(s) && topology_model(t)[s] is Some implies usable(
        topology_model(t)[s]->0,
    ) by {
        let i = key_index(device_entries(t.entries@), s);
        assert(device_entries(t.entries@)[i].0 == s);
        lemma_topology_entry(t, i);
        let list = t.entries@[i].1->0;
        assert(texts(list@)[0] == list@[0]@);
        assert(texts(list@).to_set().contains(list@[0]@));
    }
}

/// A report with its device lists sorted, deduplicated and checked.
fn normalise(report: Topology) -> (r: Topology)
    requires
        report.wf(),
    ensures
        normal_topology(r),
        topology_model(r) == resolved_topology(report@),
{
    let mut r: Topology = SourceMap::new();
    let mut i: usize = 0;
    while i < report.entries.len()
        invariant
            0 <= i <= report.entries.len(),
            report.wf(),
            r.entries.len() == i,
            forall|j: int|
                0 <= j < i ==> {
                    &&& (#[trigger] r.entries@[j]).0 == report.entries@[j].0
                    &&& normal(r.entries@[j].1)
                    &&& device_set(r.entries@[j].1) == resolved(report.entries@[j].1)
                },
        decreases report.entries.len() - i,
    {
        let source = report.entries[i].0;
        let devices: Option<Vec<String>> = match &report.entries[i].1 {
            None => None,
            Some(list) => {
                let keys = sorted_keys(list);
                proof {
                    lemma_sorted_distinct(texts(keys@));
                    assert(texts(keys@).len() == keys.len());
                }
                let empty = holds_key(&keys, "");
                let reserved = holds_key(&keys, FALLBACK);
                proof {
                    reveal_strlit("");
                    assert(""@ =~= Seq::<char>::empty());
                    let d = texts(list@).to_set();
                    assert(d.contains(Seq::<char>::empty()) == texts(keys@).contains(
                        Seq::<char>::empty(),
                    ));
                    assert(d.contains(FALLBACK@) == texts(keys@).contains(FALLBACK@));
                }
                if keys.len() == 0 || keys.len() > 64 || empty || reserved {
                    None
                } else {
                    Some(keys)
                }
            },
        };
        r.entries.push((source, devices));
        i += 1;
    }
    proof {
        assert(ascending(r.entries@)) by {
            assert forall|a: int, b: int| 0 <= a < b < r.entries.len() implies (
            #[trigger] r.entries@[a]).0 < (#[trigger] r.entries@[b]).0 by {
                assert(report.entries@[a].0 < report.entries@[b].0);
            }
        }
        let x = topology_model(r);
        let y = resolved_topology(report@);
        assert forall|s: i64| x.dom().contains(s) == y.dom().contains(s) by {
            if x.dom().contains(s) {
                let j = key_index(device_entries(r.entries@), s);
                assert(r.entries@[j].0 == s);
                assert(report.entries@[j].0 == s);
            }
            if y.dom().contains(s) {
                let j = key_index(report.entries@, s);
                assert(r.entries@[j].0 == s);
                assert(device_entries(r.entries@)[j].0 == s);
            }
        }
        assert forall|s: i64| #[trigger] x.dom().contains(s) implies x[s] == y[s] by {
            let j = key_index(device_entries(r.entries@), s);
            assert(r.entries@[j].0 == s);
            lemma_topology_entry(r, j);
            lemma_entry(report.entries@, j);
        }
        assert(x =~= y);
    }
    r
}

/// Whether two normalised topologies are the same.
fn same_topology(a: &Topology, b: &Topology) -> (r: bool)
    requires
        normal_topology(*a),
        normal_topology(*b),
    ensures
        r == (topology_model(*a) == topology_model(*b)),
{
    let ghost x = device_entries(a.entries@);
    let ghost y = device_entries(b.entries@);
    proof {
        lemma_device_entries_ascending(a.entries@);
        lemma_device_entries_ascending(b.entries@);
        if entry_map(x) == entry_map(y) {
            lemma_same_map(x, y);
        }
    }
    if a.entries.len() != b.entries.len() {
        assert(x.len() != y.len());
        return false;
    }
    let mut i: usize = 0;
    while i < a.entries.len()
        invariant
            0 <= i <= a.entries.len() == b.entries.len(),
            normal_topology(*a),
            normal_topology(*b),
            x == device_entries(a.entries@),
            y == device_entries(b.entries@),
            entry_map(x) == entry_map(y) ==> x == y,
            forall|j: int| 0 <= j < i ==> x[j] == y[j],
        decreases a.entries.len() - i,
    {
        let equal: bool = match (&a.entries[i].1, &b.entries[i].1) {
            (None, None) => true,
            (Some(p), Some(q)) => {
                let same = same_keys(p, q);
                proof {
                    if texts(p@).to_set() == texts(q@).to_set() {
                        lemma_sorted_unique(texts(p@), texts(q@));
                    }
                }
                same
            },
            (None, Some(_)) => false,
            (Some(_), None) => false,
        };
        assert(equal == (device_set(a.entries@[i as int].1) == device_set(
            b.entries@[i as int].1,
        )));
        if a.entries[i].0 != b.entries[i].0 || !equal {
            assert(x[i as int] != y[i as int]);
            return false;
        }
        assert(x[i as int] == y[i as int]);
        i += 1;
    }
    assert(x =~= y);
    true
}

/// Whether some source of the topology is unresolved.
fn has_unknown(t: &Topology) -> (r: bool)
    requires
        normal_topology(*t),
    ensures
        r == unresolved(topology_model(*t)),
{
    let mut i: usize = 0;
    while i < t.entries.len()
        invariant
            0 <= i <= t.entries.len(),
            normal_topology(*t),
            forall|j: int| 0 <= j < i ==> (#[trigger] t.entries@[j]).1 is Some,
        decreases t.entries.len() - i,
    {
        if t.entries[i].1.is_none() {
            proof {
                lemma_topology_entry(*t, i as int);
            }
            return true;
        }
        i += 1;
    }
    proof {
        let m = topology_model(*t);
        assert forall|s: i64| #[trigger] m.dom().contains(s) implies m[s] is Some by {
            let j = key_index(device_entries(t.entries@), s);
            assert(t.entries@[j].0 == s);
            lemma_topology_entry(*t, j);
        }
    }
    false
}

/// Every device that some source of the topology is charged to, ascending.
fn device_keys(t: &Topology, fallback: bool) -> (r: Vec<String>)
    requires
        normal_topology(*t),
        fallback == unresolved(topology_model(*t)),
    ensures
        strictly_sorted(texts(r@)),
        texts(r@).to_set() == all_devices(topology_model(*t)),
{
    let ghost m = topology_model(*t);
    let mut r: Vec<String> = Vec::new();
    if fallback {
        let key: String = FALLBACK.to_owned();
        insert_key(&mut r, &key);
        proof {
            let s = choose|s: i64| #[trigger] m.dom().contains(s) && m[s] is None;
            assert(m.dom().contains(s));
            assert(texts(r@).to_set() =~= all_devices(m)) by {
                assert forall|k: Seq<char>| texts(r@).to_set().contains(k) implies all_devices(
                    m,
                ).contains(k) by {
                    assert(charged_devices(m, s).contains(k));
                }
            }
        }
        return r;
    }
    let mut i: usize = 0;
    assert(texts(r@).to_set() =~= listed(t.entries@, 0));
    while i < t.entries.len()
        invariant
            0 <= i <= t.entries.len(),
            normal_topology(*t),
            m == topology_model(*t),
            !unresolved(m),
            strictly_sorted(texts(r@)),
            texts(r@).to_set() == listed(t.entries@, i as int),
        decreases t.entries.len() - i,
    {
        match &t.entries[i].1 {
            None => {
                proof {
                    lemma_topology_entry(*t, i as int);
                }
            },
            Some(list) => {
                let mut j: usize = 0;
                let ghost before = texts(r@).to_set();
                assert(texts(list@).take(0).to_set() =~= Set::empty());
                assert(before.union(texts(list@).take(0).to_set()) =~= before);
                while j < list.len()
                    invariant
                        0 <= j <= list.len(),
                        strictly_sorted(texts(r@)),
                        texts(r@).to_set() == before.union(
                            texts(list@).take(j as int).to_set(),
                        ),
                    decreases list.len() - j,
                {
                    insert_key(&mut r, &list[j]);
                    proof {
                        let a = texts(list@).take(j as int);
                        let b = texts(list@).take(j + 1);
                        assert(b =~= a.push(list@[j as int]@));
                        a.lemma_push_to_set_commute(list@[j as int]@);
                        assert(before.union(b.to_set()) =~= before.union(a.to_set()).insert(
                            list@[j as int]@,
                        ));
                    }
                    j += 1;
                }
                assert(texts(list@).take(j as int) =~= texts(list@));
                assert(listed(t.entries@, i + 1) =~= before.union(texts(list@).to_set())) by {
                    assert forall|k: Seq<char>| listed(t.entries@, i + 1).contains(k) == (
                    before.contains(k) || texts(list@).to_set().contains(k)) by {
                        if texts(list@).to_set().contains(k) {
                            assert(device_set(t.entries@[i as int].1)->0.contains(k));
                        }
                    }
                }
            },
        }
        i += 1;
    }
    proof {
        assert(listed(t.entries@, t.entries.len() as int) =~= all_devices(m)) by {
            assert forall|k: Seq<char>| listed(t.entries@, t.entries.len() as int).contains(k)
                == all_devices(m).contains(k) by {
                if listed(t.entries@, t.entries.len() as int).contains(k) {
                    let j = choose|j: int|
                        0 <= j < t.entries.len() && device_set(
                            (#[trigger] t.entries@[j]).1,
                        ) is Some && device_set(t.entries@[j].1)->0.contains(k);
                    lemma_topology_entry(*t, j);
                    assert(charged_devices(m, t.entries@[j].0).contains(k));
                }
                if all_devices(m).contains(k) {
                    let s = choose|s: i64| #[trigger]
                        m.dom().contains(s) && charged_devices(m, s).contains(k);
                    let j = key_index(device_entries(t.entries@), s);
                    assert(t.entries@[j].0 == s);
                    lemma_topology_entry(*t, j);
                    assert(device_set(t.entries@[j].1)->0.contains(k));
                }
            }
        }
    }
    r
}

/// The devices that the first `n` entries name.
spec fn listed(s: Seq<(i64, Option<Vec<String>>)>, n: int) -> Devices {
    Set::new(
        |k: Seq<char>|
            exists|j: int|
                0 <= j < n && device_set((#[trigger] s[j]).1) is Some && device_set(
                    s[j].1,
                )->0.contains(k),
    )
}

// ----- budgets --------------------------------------------------------------

/// Reader budgets of every backing device, and the leases charged to them.
pub struct DeviceBudgets {
    limit: u32,
    topology: Topology,
    pending: Option<Topology>,
    fallback: bool,
    counts: Vec<DeviceCount>,
    live: Ghost<Seq<LeaseModel>>,
}

/// Units taken out of the budgets of one source's devices. It goes back
/// through [`DeviceBudgets::release`].
#[derive(Debug)]
pub struct DeviceLease {
    keys: Vec<String>,
    kind: WorkKind,
    units: u32,
}

impl View for DeviceLease {
    type V = LeaseModel;

    closed spec fn view(&self) -> LeaseModel {
        LeaseModel {
            devices: texts(self.keys@).to_set(),
            kind: self.kind,
            units: self.units as nat,
        }
    }
}

impl DeviceLease {
    /// Enumeration must use this granted width, not its unbounded request.
    pub fn units(&self) -> (r: u32)
        ensures
            r == self@.units,
    {
        self.units
    }

    pub fn kind(&self) -> (r: WorkKind)
        ensures
            r == self@.kind,
    {
        self.kind
    }
}

#[derive(Debug)]
pub struct DeviceSnapshot {
    pub key: String,
    pub sources: Vec<SourceKey>,
    pub content_readers: u32,
    pub scan_threads: u32,
    pub peak_readers: u32,
}

#[derive(Debug)]
pub struct BudgetSnapshot {
    pub readers_per_device: u32,
    pub unresolved_shared_fallback: bool,
    pub topology_draining: bool,
    pub devices: Vec<DeviceSnapshot>,
}

/// The keys of a snapshot, in its order.
pub open spec fn snapshot_keys(devices: Seq<DeviceSnapshot>) -> Seq<Seq<char>> {
    Seq::new(devices.len(), |i: int| devices[i].key@)
}

/// A snapshot shows the state as it is: every device once, in key order, with
/// its readings and the sources charged to it.
pub open spec fn shows(s: BudgetSnapshot, m: BudgetModel) -> bool {
    &&& s.readers_per_device == m.limit
    &&& s.unresolved_shared_fallback == unresolved(m.topology)
    &&& s.topology_draining == (m.pending is Some)
    &&& strictly_sorted(snapshot_keys(s.devices@))
    &&& snapshot_keys(s.devices@).to_set() == m.usage.dom()
    &&& forall|i: int| 0 <= i < s.devices.len() ==> shows_device(#[trigger] s.devices@[i], m)
}

pub open spec fn shows_device(d: DeviceSnapshot, m: BudgetModel) -> bool {
    &&& d.content_readers == m.usage[d.key@].content
    &&& d.scan_threads == m.usage[d.key@].scan
    &&& d.peak_readers == m.usage[d.key@].peak
    &&& forall|i: int, j: int|
        0 <= i < j < d.sources.len() ==> (#[trigger] d.sources@[i]) < (#[trigger] d.sources@[j])
    &&& forall|x: i64| #[trigger]
        d.sources@.contains(x) <==> m.topology.dom().contains(x) && charged_devices(
            m.topology,
            x,
        ).contains(d.key@)
}

/// A snapshot shows of each device exactly what the leases that are out charge
/// to it, by kind of work, and names the sources that are charged to it.
pub proof fn law_a_snapshot_shows_what_is_leased(s: BudgetSnapshot, m: BudgetModel, i: int, source: i64)
    requires
        consistent(m),
        shows(s, m),
        0 <= i < s.devices@.len(),
    ensures
        ({
            let d = s.devices@[i];
            &&& d.content_readers == charged_by(m.live, d.key@, WorkKind::Content)
            &&& d.scan_threads == charged_by(m.live, d.key@, WorkKind::Scan)
            &&& d.content_readers + d.scan_threads <= d.peak_readers
            &&& d.sources@.contains(source) ==> m.topology.dom().contains(source)
                && charged_devices(m.topology, source).contains(d.key@)
            &&& m.topology.dom().contains(source) && charged_devices(m.topology, source).contains(
                d.key@,
            ) ==> d.sources@.contains(source)
            &&& s.readers_per_device == m.limit
            &&& s.topology_draining <==> m.pending is Some
        }),
{
    let keys = snapshot_keys(s.devices@);
    assert(keys[i] == s.devices@[i].key@);
    assert(keys.to_set().contains(keys[i]));
}

/// What is charged to a device is what the leases on it come to, each with all
/// its units for its own kind of work.
pub proof fn law_leases_add_up(
    live: Seq<LeaseModel>,
    lease: LeaseModel,
    device: Seq<char>,
    kind: WorkKind,
)
    ensures
        charged_by(Seq::empty(), device, kind) == 0,
        charged_by(live.push(lease), device, kind) == charged_by(live, device, kind) + (
        if lease.devices.contains(device) && lease.kind == kind {
            lease.units as int
        } else {
            0
        }),
{
    assert(live.push(lease).drop_last() =~= live);
}

pub open spec fn valid_limit(limit: u32) -> bool {
    1 <= limit <= 64
}

/// A limit is one that a single scan could use up on an idle device: at least
/// one reader, and no more than any request may ask for.
pub proof fn law_a_limit_is_what_one_scan_may_take(limit: u32)
    ensures
        valid_limit(limit) <==> valid_width(WorkKind::Scan, limit),
        valid_limit(limit) <==> limit != 0 && limit < 65,
{
}

/// Why a limit is refused.
pub const LIMIT_RANGE: &'static str = "device reader limit must be 1..64";

pub fn validate_limit(limit: u32) -> (r: Result<(), &'static str>)
    ensures
        r is Ok <==> valid_limit(limit),
        r matches Err(e) ==> e@ == LIMIT_RANGE@,
{
    if !(1 <= limit && limit <= 64) {
        Err(LIMIT_RANGE)
    } else {
        Ok(())
    }
}

impl View for DeviceBudgets {
    type V = BudgetModel;

    closed spec fn view(&self) -> BudgetModel {
        BudgetModel {
            limit: self.limit as nat,
            topology: topology_model(self.topology),
            pending: match self.pending {
                None => None,
                Some(t) => Some(topology_model(t)),
            },
            usage: usage_map(self.counts@),
            live: self.live@,
        }
    }
}

impl DeviceBudgets {
    pub closed spec fn wf(&self) -> bool {
        &&& consistent(self@)
        &&& normal_topology(self.topology)
        &&& self.pending matches Some(t) ==> normal_topology(t)
        &&& self.fallback == unresolved(self@.topology)
        &&& strictly_sorted(count_keys(self.counts@))
    }

    /// The accounting invariant, which every operation keeps.
    pub proof fn lemma_consistent(&self)
        requires
            self.wf(),
        ensures
            consistent(self@),
    {
    }

    pub fn new(limit: u32) -> (r: Result<DeviceBudgets, &'static str>)
        ensures
            r is Ok <==> valid_limit(limit),
            r matches Err(e) ==> e@ == LIMIT_RANGE@,
            r matches Ok(b) ==> {
                &&& b.wf()
                &&& b@.limit == limit
                &&& b@.topology == Map::<i64, Option<Devices>>::empty()
                &&& b@.pending is None
                &&& b@.usage == Map::<Seq<char>, Usage>::empty()
                &&& b@.live == Seq::<LeaseModel>::empty()
            },
    {
        match validate_limit(limit) {
            Err(e) => Err(e),
            Ok(()) => {
                let b = DeviceBudgets {
                    limit,
                    topology: SourceMap::new(),
                    pending: None,
                    fallback: false,
                    counts: Vec::new(),
                    live: Ghost(Seq::empty()),
                };
                proof {
                    let m = b@;
                    assert(m.topology =~= Map::empty());
                    assert(m.usage =~= Map::empty());
                    assert(all_devices(m.topology) =~= Set::empty());
                    assert(m.usage.dom() =~= all_devices(m.topology));
                }
                Ok(b)
            },
        }
    }

    pub fn set_limit(&mut self, limit: u32) -> (r: Result<(), &'static str>)
        requires
            old(self).wf(),
        ensures
            final(self).wf(),
            r is Ok <==> valid_limit(limit),
            r matches Err(e) ==> e@ == LIMIT_RANGE@ && final(self)@ == old(self)@,
            r is Ok ==> final(self)@ == (BudgetModel { limit: limit as nat, ..old(self)@ }),
    {
        match validate_limit(limit) {
            Err(e) => Err(e),
            Ok(()) => {
                self.limit = limit;
                assert(self@ =~= BudgetModel { limit: limit as nat, ..old(self)@ });
                Ok(())
            },
        }
    }

    /// Put a topology in force. No lease may be out.
    fn install(&mut self, topology: Topology)
        requires
            old(self).wf(),
            old(self)@.live.len() == 0,
            normal_topology(topology),
        ensures
            final(self).wf(),
            final(self)@ == installed(old(self)@, topology_model(topology)),
    {
        let fallback = has_unknown(&topology);
        let keys = device_keys(&topology, fallback);
        let mut counts: Vec<DeviceCount> = Vec::new();
        let mut i: usize = 0;
        while i < keys.len()
            invariant
                0 <= i <= keys.len(),
                counts.len() == i,
                self.wf(),
                *self == *old(self),
                forall|j: int|
                    0 <= j < i ==> {
                        &&& (#[trigger] counts@[j]).key@ == texts(keys@)[j]
                        &&& counts@[j].usage() == (if self@.usage.dom().contains(
                            texts(keys@)[j],
                        ) {
                            self@.usage[texts(keys@)[j]]
                        } else {
                            Usage::idle()
                        })
                    },
            decreases keys.len() - i,
        {
            let key = keys[i].clone();
            let at = self.position(&key);
            let next = match at {
                Some(p) => {
                    proof {
                        lemma_count_entry(self.counts@, p as int);
                    }
                    DeviceCount {
                        key,
                        content: self.counts[p].content,
                        scan: self.counts[p].scan,
                        peak: self.counts[p].peak,
                    }
                },
                None => DeviceCount { key, content: 0, scan: 0, peak: 0 },
            };
            counts.push(next);
            i += 1;
        }
        let ghost before = self@;
        assert(count_keys(counts@) =~= texts(keys@));
        self.fallback = fallback;
        self.topology = topology;
        self.pending = None;
        self.counts = counts;
        proof {
            let t = topology_model(topology);
            lemma_topology_usable(topology);
            lemma_installed_consistent(before, t);
            let n = installed(before, t);
            assert(self@.usage =~= n.usage) by {
                assert forall|k: Seq<char>| self@.usage.dom().contains(k) == n.usage.dom().contains(
                    k,
                ) by {
                    assert(count_keys(self.counts@).contains(k) == texts(keys@).to_set().contains(k));
                }
                assert forall|k: Seq<char>| #[trigger]
                    self@.usage.dom().contains(k) implies self@.usage[k] == n.usage[k] by {
                    let j = count_keys(self.counts@).index_of(k);
                    assert(self.counts@[j].key@ == k);
                }
            }
            assert(self@ =~= n);
        }
    }

    /// Where a device stands in the table.
    fn position(&self, key: &String) -> (r: Option<usize>)
        requires
            self.wf(),
        ensures
            match r {
                Some(i) => i < self.counts.len() && self.counts@[i as int].key@ == key@,
                None => !self@.usage.dom().contains(key@),
            },
    {
        let mut i: usize = 0;
        while i < self.counts.len()
            invariant
                0 <= i <= self.counts.len(),
                forall|j: int| 0 <= j < i ==> (#[trigger] self.counts@[j]).key@ != key@,
            decreases self.counts.len() - i,
        {
            if self.counts[i].key == *key {
                return Some(i);
            }
            i += 1;
        }
        assert(!count_keys(self.counts@).contains(key@)) by {
            if count_keys(self.counts@).contains(key@) {
                let j = count_keys(self.counts@).index_of(key@);
                assert(self.counts@[j].key@ == key@);
            }
        }
        None
    }

    /// Whether no lease is out.
    fn idle(&self) -> (r: bool)
        requires
            self.wf(),
        ensures
            r == (self@.live.len() == 0),
    {
        let mut i: usize = 0;
        while i < self.counts.len()
            invariant
                0 <= i <= self.counts.len(),
                self.wf(),
                forall|j: int| 0 <= j < i ==> (#[trigger] self.counts@[j]).usage().total() == 0,
            decreases self.counts.len() - i,
        {
            if self.counts[i].content != 0 || self.counts[i].scan != 0 {
                proof {
                    lemma_count_entry(self.counts@, i as int);
                    assert(self@.usage.dom().contains(self.counts@[i as int].key@));
                }
                return false;
            }
            i += 1;
        }
        proof {
            if self@.live.len() > 0 {
                let l = self@.live[0];
                let k = choose|k: Seq<char>| #[trigger] l.devices.contains(k);
                assert(self@.usage.dom().contains(k));
                let j = count_keys(self.counts@).index_of(k);
                assert(self.counts@[j].usage().total() == 0);
                lemma_charged_covers(self@.live, 0, k, l.kind);
            }
        }
        true
    }

    /// Replaces the complete topology snapshot. Removed sources cannot claim
    /// again; live leases still release the exact devices they were charged to.
    pub fn set_topology(&mut self, topology: Topology)
        requires
            old(self).wf(),
            topology.wf(),
        ensures
            final(self).wf(),
            final(self)@ == retargeted(old(self)@, resolved_topology(topology@)),
    {
        let next = normalise(topology);
        if same_topology(&next, &self.topology) {
            self.pending = None;
            assert(self@ =~= BudgetModel { pending: None, ..old(self)@ });
        } else if self.idle() {
            self.install(next);
        } else {
            // No new claims while a mapping change drains; otherwise an old
            // unknown lease could disappear from a newly resolved disk's cap.
            self.pending = Some(next);
            assert(self@ =~= BudgetModel { pending: Some(topology_model(next)), ..old(self)@ });
        }
    }

    /// The single admission decision shared by the charging and read-only
    /// paths, with the devices that a grant charges.
    fn plan(&self, source: SourceKey, kind: WorkKind, requested: u32) -> (r: Result<
        (Vec<String>, u32),
        WaitReason,
    >)
        requires
            self.wf(),
        ensures
            r matches Ok((keys, units)) ==> {
                &&& decides(self@, source, kind, requested, Ok(units))
                &&& texts(keys@).to_set() == charged_devices(self@.topology, source)
            },
            r matches Err(e) ==> decides(self@, source, kind, requested, Err(e)),
    {
        if !(1 <= requested && requested <= 64) || (kind == WorkKind::Content && requested != 1) {
            return Err(WaitReason::InvalidWidth);
        }
        if self.pending.is_some() {
            return Err(WaitReason::TopologyDraining);
        }
        let at = self.topology.lower_bound(source);
        if !(at < self.topology.entries.len() && self.topology.entries[at].0 == source) {
            proof {
                if self@.topology.dom().contains(source) {
                    let j = key_index(device_entries(self.topology.entries@), source);
                    assert(device_entries(self.topology.entries@)[j].0 == source);
                    assert(self.topology.entries@[j].0 == source);
                }
            }
            return Err(WaitReason::UnknownSource);
        }
        proof {
            lemma_topology_entry(self.topology, at as int);
        }
        let keys: Vec<String> = if self.fallback {
            let mut keys: Vec<String> = Vec::new();
            keys.push(FALLBACK.to_owned());
            assert(texts(keys@) =~= seq![FALLBACK@]);
            assert(texts(keys@).to_set() =~= set![FALLBACK@]) by {
                assert(texts(keys@)[0] == FALLBACK@);
            }
            keys
        } else {
            match &self.topology.entries[at].1 {
                Some(list) => copy_keys(list),
                None => Vec::new(),
            }
        };
        let ghost devices = charged_devices(self@.topology, source);
        assert(texts(keys@).to_set() == devices);
        let mut units: u32 = requested;
        let mut i: usize = 0;
        while i < keys.len()
            invariant
                0 <= i <= keys.len(),
                self.wf(),
                self@.topology.dom().contains(source),
                devices == charged_devices(self@.topology, source),
                texts(keys@).to_set() == devices,
                units <= requested <= 64,
                forall|j: int| 0 <= j < i ==> units <= room(self@, #[trigger] texts(keys@)[j]),
                units == requested || exists|j: int|
                    0 <= j < i && units == room(self@, #[trigger] texts(keys@)[j]),
            decreases keys.len() - i,
        {
            let ghost k = texts(keys@)[i as int];
            assert(devices.contains(k)) by {
                assert(texts(keys@).to_set().contains(k));
            }
            assert(all_devices(self@.topology).contains(k));
            assert(self@.usage.dom().contains(k));
            match self.position(&keys[i]) {
                Some(p) => {
                    proof {
                        lemma_count_entry(self.counts@, p as int);
                    }
                    let used = self.counts[p].total();
                    let free: u32 = if used < self.limit {
                        self.limit - used
                    } else {
                        0
                    };
                    assert(free == room(self@, k));
                    if free < units {
                        units = free;
                        assert(units == room(self@, texts(keys@)[i as int]));
                    }
                },
                None => {},
            }
            i += 1;
        }
        proof {
            if units != requested {
                let j = choose|j: int|
                    0 <= j < keys.len() && units == room(self@, #[trigger] texts(keys@)[j]);
                assert(texts(keys@).to_set().contains(texts(keys@)[j]));
                assert(devices.contains(texts(keys@)[j]));
            }
            assert forall|k: Seq<char>| #[trigger] devices.contains(k) implies units <= room(
                self@,
                k,
            ) by {
                assert(texts(keys@).to_set().contains(k));
                let j = texts(keys@).index_of(k);
                assert(texts(keys@)[j] == k);
            }
        }
        if units == 0 {
            return Err(WaitReason::DeviceAtCapacity);
        }
        Ok((keys, units))
    }

    /// What [`Self::try_reserve`] would grant, without charging anything.
    ///
    /// A refusal here applies to every source sharing the budget, so callers
    /// check this *before* taking another subsystem's reservation. Taking and
    /// immediately dropping one of those would raise its peak counters for
    /// work this gate is what actually held.
    pub fn would_admit(&self, source: SourceKey, kind: WorkKind, requested: u32) -> (r: Result<
        u32,
        WaitReason,
    >)
        requires
            self.wf(),
        ensures
            decides(self@, source, kind, requested, r),
    {
        match self.plan(source, kind, requested) {
            Ok((_, units)) => Ok(units),
            Err(e) => Err(e),
        }
    }

    /// Atomically charge all backing devices. Scans may receive less than the
    /// requested width. Content always requests one unit before a one-file claim.
    pub fn try_reserve(&mut self, source: SourceKey, kind: WorkKind, requested: u32) -> (r: Result<
        DeviceLease,
        WaitReason,
    >)
        requires
            old(self).wf(),
        ensures
            final(self).wf(),
            r matches Err(e) ==> {
                &&& decides(old(self)@, source, kind, requested, Err(e))
                &&& final(self)@ == old(self)@
            },
            r matches Ok(lease) ==> {
                &&& lease@.units <= 64
                &&& decides(old(self)@, source, kind, requested, Ok(lease@.units as u32))
                &&& lease@.devices == charged_devices(old(self)@.topology, source)
                &&& lease@.kind == kind
                &&& final(self)@ == granted(old(self)@, lease@)
            },
    {
        let (keys, units) = match self.plan(source, kind, requested) {
            Ok(p) => p,
            Err(e) => {
                return Err(e);
            },
        };
        let ghost before = self@;
        let ghost table = self.counts@;
        let ghost devices = charged_devices(before.topology, source);
        let ghost lease = LeaseModel { devices, kind, units: units as nat };
        proof {
            assert(before.topology.dom().contains(source));
            assert forall|k: Seq<char>| #[trigger] devices.contains(k) implies before.usage.dom().contains(
                k,
            ) by {
                assert(all_devices(before.topology).contains(k));
            }
        }
        let mut i: usize = 0;
        while i < self.counts.len()
            invariant
                0 <= i <= self.counts.len() == table.len(),
                self.limit == old(self).limit,
                self.topology == old(self).topology,
                self.pending == old(self).pending,
                self.fallback == old(self).fallback,
                self.live == old(self).live,
                table == old(self).counts@,
                before == old(self)@,
                old(self).wf(),
                texts(keys@).to_set() == devices,
                devices == charged_devices(before.topology, source),
                before.topology.dom().contains(source),
                lease == (LeaseModel { devices, kind, units: units as nat }),
                decides(before, source, kind, requested, Ok(units)),
                forall|j: int|
                    0 <= j < table.len() ==> {
                        &&& (#[trigger] self.counts@[j]).key@ == table[j].key@
                        &&& self.counts@[j].usage() == (if j < i && devices.contains(
                            table[j].key@,
                        ) {
                            table[j].usage().charged(kind, units as nat)
                        } else {
                            table[j].usage()
                        })
                    },
            decreases self.counts.len() - i,
        {
            let ghost k = table[i as int].key@;
            let charged = holds_key(&keys, &self.counts[i].key);
            assert(charged == devices.contains(k)) by {
                assert(texts(keys@).to_set().contains(k) == texts(keys@).contains(k));
            }
            if charged {
                proof {
                    lemma_count_entry(table, i as int);
                    assert(before.usage.dom().contains(k));
                    assert(units <= room(before, k));
                }
                let c = &mut self.counts[i];
                match kind {
                    WorkKind::Content => {
                        c.content = c.content + units;
                    },
                    WorkKind::Scan => {
                        c.scan = c.scan + units;
                    },
                }
                let total: u32 = c.content + c.scan;
                if total > c.peak {
                    c.peak = total;
                }
            }
            i += 1;
        }
        proof {
            self.live@ = self.live@.push(lease);
        }
        proof {
            let after = granted(before, lease);
            assert(count_keys(self.counts@) =~= count_keys(table));
            assert(self@.usage =~= after.usage) by {
                assert forall|k: Seq<char>| #[trigger]
                    self@.usage.dom().contains(k) implies self@.usage[k] == after.usage[k] by {
                    let j = count_keys(table).index_of(k);
                    assert(self.counts@[j].key@ == k);
                }
            }
            assert(self@ =~= after);
            assert forall|k: Seq<char>| #[trigger] after.usage.dom().contains(k) implies {
                &&& after.usage[k].content == charged_by(after.live, k, WorkKind::Content)
                &&& after.usage[k].scan == charged_by(after.live, k, WorkKind::Scan)
                &&& after.usage[k].total() <= after.usage[k].peak <= 64
            } by {
                lemma_charged_push(before.live, lease, k, WorkKind::Content);
                lemma_charged_push(before.live, lease, k, WorkKind::Scan);
                assert(before.usage.dom().contains(k));
                if devices.contains(k) {
                    assert(units <= room(before, k));
                }
            }
            assert(exists|k: Seq<char>| #[trigger] devices.contains(k)) by {
                if unresolved(before.topology) {
                    assert(devices.contains(FALLBACK@));
                } else {
                    assert(before.topology[source] is Some);
                    assert(usable(before.topology[source]->0));
                }
            }
            assert forall|j: int| 0 <= j < after.live.len() implies {
                &&& (#[trigger] after.live[j]).units >= 1
                &&& after.live[j].devices.subset_of(after.usage.dom())
                &&& exists|k: Seq<char>| #[trigger] after.live[j].devices.contains(k)
            } by {
                if j < before.live.len() {
                    assert(after.live[j] == before.live[j]);
                    assert(before.live[j].devices.subset_of(before.usage.dom()));
                } else {
                    assert(after.live[j] == lease);
                }
            }
            assert(after.usage.dom() =~= before.usage.dom());
            assert(consistent(after));
        }
        Ok(DeviceLease { keys, kind, units })
    }

    /// Give a lease back. It must have been handed out by these budgets; owning
    /// it shows that it was not given back before.
    pub fn release(&mut self, lease: DeviceLease)
        requires
            old(self).wf(),
            old(self)@.live.contains(lease@),
        ensures
            final(self).wf(),
            final(self)@ == settled(returned(old(self)@, lease@)),
    {
        let ghost before = self@;
        let ghost table = self.counts@;
        let ghost at = before.live.index_of(lease@);
        let mut i: usize = 0;
        while i < self.counts.len()
            invariant
                0 <= i <= self.counts.len() == table.len(),
                self.limit == old(self).limit,
                self.topology == old(self).topology,
                self.pending == old(self).pending,
                self.fallback == old(self).fallback,
                self.live == old(self).live,
                table == old(self).counts@,
                before == old(self)@,
                old(self).wf(),
                0 <= at < before.live.len(),
                before.live[at] == lease@,
                forall|j: int|
                    0 <= j < table.len() ==> {
                        &&& (#[trigger] self.counts@[j]).key@ == table[j].key@
                        &&& self.counts@[j].usage() == (if j < i && lease@.devices.contains(
                            table[j].key@,
                        ) {
                            table[j].usage().released(lease@.kind, lease@.units)
                        } else {
                            table[j].usage()
                        })
                    },
            decreases self.counts.len() - i,
        {
            let ghost k = table[i as int].key@;
            let charged = holds_key(&lease.keys, &self.counts[i].key);
            assert(charged == lease@.devices.contains(k)) by {
                assert(texts(lease.keys@).to_set().contains(k) == texts(lease.keys@).contains(k));
            }
            if charged {
                proof {
                    lemma_count_entry(table, i as int);
                    assert(before.usage.dom().contains(k));
                    lemma_charged_covers(before.live, at, k, lease@.kind);
                }
                let c = &mut self.counts[i];
                match lease.kind {
                    WorkKind::Content => {
                        c.content = c.content - lease.units;
                    },
                    WorkKind::Scan => {
                        c.scan = c.scan - lease.units;
                    },
                }
            }
            i += 1;
        }
        proof {
            self.live@ = self.live@.remove(at);
        }
        let ghost mid = returned(before, lease@);
        proof {
            assert(count_keys(self.counts@) =~= count_keys(table));
            assert(self@.usage =~= mid.usage) by {
                assert forall|k: Seq<char>| #[trigger]
                    self@.usage.dom().contains(k) implies self@.usage[k] == mid.usage[k] by {
                    let j = count_keys(table).index_of(k);
                    assert(self.counts@[j].key@ == k);
                }
            }
            assert(self@ =~= mid);
            assert forall|k: Seq<char>| #[trigger] mid.usage.dom().contains(k) implies {
                &&& mid.usage[k].content == charged_by(mid.live, k, WorkKind::Content)
                &&& mid.usage[k].scan == charged_by(mid.live, k, WorkKind::Scan)
                &&& mid.usage[k].total() <= mid.usage[k].peak <= 64
            } by {
                lemma_charged_remove(before.live, at, k, WorkKind::Content);
                lemma_charged_remove(before.live, at, k, WorkKind::Scan);
                assert(before.usage.dom().contains(k));
            }
            assert(mid.usage.dom() =~= before.usage.dom());
            assert forall|j: int| 0 <= j < mid.live.len() implies {
                &&& (#[trigger] mid.live[j]).units >= 1
                &&& mid.live[j].devices.subset_of(mid.usage.dom())
                &&& exists|k: Seq<char>| #[trigger] mid.live[j].devices.contains(k)
            } by {
                let p = if j < at {
                    j
                } else {
                    j + 1
                };
                assert(mid.live[j] == before.live[p]);
                assert(before.live[p].units >= 1);
            }
        }
        self.settle(Ghost(mid));
    }

    /// Bring a waiting topology into force if no lease is left.
    fn settle(&mut self, Ghost(mid): Ghost<BudgetModel>)
        requires
            old(self)@ == mid,
            consistent(BudgetModel { pending: None, ..mid }),
            normal_topology(old(self).topology),
            old(self).pending matches Some(t) ==> normal_topology(t),
            old(self).fallback == unresolved(mid.topology),
            strictly_sorted(count_keys(old(self).counts@)),
        ensures
            final(self).wf(),
            final(self)@ == settled(mid),
    {
        let pending = self.pending.take();
        assert(self@ =~= BudgetModel { pending: None, ..mid });
        match pending {
            None => {
                assert(self@ =~= mid);
            },
            Some(t) => {
                if self.idle() {
                    self.install(t);
                    assert(self@ =~= installed(mid, topology_model(t)));
                } else {
                    self.pending = Some(t);
                    assert(self@ =~= mid);
                }
            },
        }
    }

    /// How many devices are accounted for.
    pub fn tracked_devices(&self) -> (n: usize)
        requires
            self.wf(),
        ensures
            n == self@.usage.dom().len(),
    {
        proof {
            lemma_sorted_distinct(count_keys(self.counts@));
            assert(self@.usage.dom() =~= count_keys(self.counts@).to_set());
        }
        self.counts.len()
    }

    pub fn snapshot(&self) -> (r: BudgetSnapshot)
        requires
            self.wf(),
        ensures
            shows(r, self@),
    {
        let mut devices: Vec<DeviceSnapshot> = Vec::new();
        let mut i: usize = 0;
        while i < self.counts.len()
            invariant
                0 <= i <= self.counts.len(),
                self.wf(),
                devices.len() == i,
                forall|j: int|
                    0 <= j < i ==> {
                        &&& (#[trigger] devices@[j]).key@ == self.counts@[j].key@
                        &&& shows_device(devices@[j], self@)
                    },
            decreases self.counts.len() - i,
        {
            let c = &self.counts[i];
            proof {
                lemma_count_entry(self.counts@, i as int);
            }
            let sources = self.sources_of(&c.key);
            let d = DeviceSnapshot {
                key: c.key.clone(),
                sources,
                content_readers: c.content,
                scan_threads: c.scan,
                peak_readers: c.peak,
            };
            devices.push(d);
            i += 1;
        }
        proof {
            assert(snapshot_keys(devices@) =~= count_keys(self.counts@));
            assert(snapshot_keys(devices@).to_set() =~= self@.usage.dom());
        }
        BudgetSnapshot {
            readers_per_device: self.limit,
            unresolved_shared_fallback: self.fallback,
            topology_draining: self.pending.is_some(),
            devices,
        }
    }

    /// The sources charged to a device, ascending.
    fn sources_of(&self, key: &String) -> (r: Vec<SourceKey>)
        requires
            self.wf(),
        ensures
            forall|i: int, j: int|
                0 <= i < j < r.len() ==> (#[trigger] r@[i]) < (#[trigger] r@[j]),
            forall|x: i64| #[trigger]
                r@.contains(x) <==> self@.topology.dom().contains(x) && charged_devices(
                    self@.topology,
                    x,
                ).contains(key@),
    {
        let mut r: Vec<SourceKey> = Vec::new();
        let mut i: usize = 0;
        let ghost t = self@.topology;
        while i < self.topology.entries.len()
            invariant
                0 <= i <= self.topology.entries.len(),
                self.wf(),
                t == self@.topology,
                forall|a: int, b: int|
                    0 <= a < b < r.len() ==> (#[trigger] r@[a]) < (#[trigger] r@[b]),
                forall|a: int|
                    0 <= a < r.len() ==> has_key(
                        self.topology.entries@.take(i as int),
                        #[trigger] r@[a],
                    ),
                forall|x: i64| #[trigger]
                    r@.contains(x) <==> exists|j: int|
                        0 <= j < i && (#[trigger] self.topology.entries@[j]).0 == x
                            && charged_devices(t, x).contains(key@),
            decreases self.topology.entries.len() - i,
        {
            let source = self.topology.entries[i].0;
            proof {
                lemma_topology_entry(self.topology, i as int);
            }
            let charged: bool = if self.fallback {
                crate::text::same(key, FALLBACK)
            } else {
                match &self.topology.entries[i].1 {
                    Some(list) => {
                        let found = holds_key(list, key);
                        assert(texts(list@).to_set().contains(key@) == texts(list@).contains(key@));
                        found
                    },
                    None => false,
                }
            };
            assert(charged == charged_devices(t, source).contains(key@));
            let ghost before = r@;
            if charged {
                proof {
                    assert forall|a: int| 0 <= a < r.len() implies r@[a] < source by {
                        let j = key_index(self.topology.entries@.take(i as int), r@[a]);
                        assert(self.topology.entries@[j].0 == r@[a]);
                        assert(self.topology.entries@[j].0 < self.topology.entries@[i as int].0);
                    }
                }
                r.push(source);
            }
            proof {
                assert forall|x: i64| #[trigger] r@.contains(x) <==> exists|j: int|
                    0 <= j < i + 1 && (#[trigger] self.topology.entries@[j]).0 == x
                        && charged_devices(t, x).contains(key@) by {
                    if r@.contains(x) {
                        let p = r@.index_of(x);
                        if p < before.len() {
                            assert(before[p] == x);
                            assert(before.contains(x));
                        } else {
                            assert(self.topology.entries@[i as int].0 == x);
                        }
                    }
                    if exists|j: int|
                        0 <= j < i + 1 && (#[trigger] self.topology.entries@[j]).0 == x
                            && charged_devices(t, x).contains(key@) {
                        let j = choose|j: int|
                            0 <= j < i + 1 && (#[trigger] self.topology.entries@[j]).0 == x
                                && charged_devices(t, x).contains(key@);
                        if j < i {
                            assert(before.contains(x));
                            let p = before.index_of(x);
                            assert(r@[p] == x);
                        } else {
                            assert(r@[before.len() as int] == x);
                        }
                    }
                }
                assert forall|a: int| 0 <= a < r.len() implies has_key(
                    self.topology.entries@.take(i + 1),
                    #[trigger] r@[a],
                ) by {
                    if a < before.len() {
                        assert(r@[a] == before[a]);
                        let j = key_index(self.topology.entries@.take(i as int), before[a]);
                        assert(self.topology.entries@.take(i + 1)[j].0 == r@[a]);
                    } else {
                        assert(self.topology.entries@.take(i + 1)[i as int].0 == r@[a]);
                    }
                }
            }
            i += 1;
        }
        proof {
            assert forall|x: i64| #[trigger] r@.contains(x) <==> t.dom().contains(x)
                && charged_devices(t, x).contains(key@) by {
                if r@.contains(x) {
                    let j = choose|j: int|
                        0 <= j < self.topology.entries.len() && (
                        #[trigger] self.topology.entries@[j]).0 == x && charged_devices(
                            t,
                            x,
                        ).contains(key@);
                    lemma_topology_entry(self.topology, j);
                }
                if t.dom().contains(x) && charged_devices(t, x).contains(key@) {
                    let j = key_index(device_entries(self.topology.entries@), x);
                    assert(self.topology.entries@[j].0 == x);
                }
            }
        }
        r
    }
}

} // verus!
