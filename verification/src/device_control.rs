//! Cached topology feeds in-memory admission. No OS calls occur in a claim,
//! scan-admission loop or HTTP snapshot; only the one background probe may block.

use crate::background_probe::BackgroundProbe;
use crate::device_budget::{
    charged_devices, decides, granted, resolved, resolved_topology, retargeted, returned, settled,
    shows, valid_limit, BudgetModel, BudgetSnapshot, DeviceBudgets, DeviceLease, Devices, SourceKey,
    Topology, TopologyModel, WaitReason, WorkKind, LIMIT_RANGE,
};
use crate::domain::{Instant, NANOS_PER_SEC};
use crate::key_list::copy_keys;
use crate::source_map::{
    ascending, entry_map, has_key, key_index, lemma_entry, lemma_len, lemma_same_map, SourceMap,
};
use crate::text::same;
use vstd::prelude::*;
use vstd::string::*;

verus! {

pub const REFRESH_NS: u64 = 30 * NANOS_PER_SEC;

pub const MAX_AGE_NS: u64 = 90 * NANOS_PER_SEC;

pub const SETTINGS_FILE: &'static str = "device-limits.json";

/// The roots of the local sources.
pub type SourceRoots = SourceMap<String>;

/// What the probe said of each root.
pub type ProbeResults = SourceMap<Result<Vec<String>, String>>;

#[derive(Debug, Clone, Copy, PartialEq, Eq, Structural)]
pub struct DeviceLimits {
    pub readers_per_device: u32,
}

impl DeviceLimits {
    pub open spec fn valid(self) -> bool {
        valid_limit(self.readers_per_device)
    }

    pub fn validate(&self) -> (r: Result<(), &'static str>)
        ensures
            r is Ok <==> self.valid(),
            r matches Err(e) ==> e@ == LIMIT_RANGE@,
    {
        crate::device_budget::validate_limit(self.readers_per_device)
    }

    /// The limits of a node that has saved none.
    pub fn initial() -> (r: DeviceLimits)
        ensures
            r.readers_per_device == 2,
    {
        DeviceLimits { readers_per_device: 2 }
    }
}

/// One completed run of the probe over every root of one revision.
#[derive(Debug)]
pub struct ProbeBatch {
    pub revision: u64,
    pub started: Instant,
    pub results: ProbeResults,
}

// ----- tables of text -------------------------------------------------------

pub open spec fn text_entries(s: Seq<(i64, String)>) -> Seq<(i64, Seq<char>)> {
    s.map_values(|e: (i64, String)| (e.0, e.1@))
}

/// The texts of a table by source.
pub open spec fn text_map(m: SourceMap<String>) -> Map<i64, Seq<char>> {
    entry_map(text_entries(m.entries@))
}

proof fn lemma_text_ascending(s: Seq<(i64, String)>)
    requires
        ascending(s),
    ensures
        ascending(text_entries(s)),
{
    let t = text_entries(s);
    assert forall|i: int, j: int| 0 <= i < j < t.len() implies (#[trigger] t[i]).0 < (
    #[trigger] t[j]).0 by {
        assert(s[i].0 < s[j].0);
    }
}

/// Whether two tables hold the same texts under the same sources.
fn same_texts(a: &SourceMap<String>, b: &SourceMap<String>) -> (r: bool)
    requires
        a.wf(),
        b.wf(),
    ensures
        r == (text_map(*a) == text_map(*b)),
{
    let ghost x = text_entries(a.entries@);
    let ghost y = text_entries(b.entries@);
    proof {
        lemma_text_ascending(a.entries@);
        lemma_text_ascending(b.entries@);
        if entry_map(x) == entry_map(y) {
            lemma_same_map(x, y);
        }
    }
    if a.entries.len() != b.entries.len() {
        assert(x.len() != y.len());
        return false;
    }
    let mut i: usize = 0;
    while i < a.entries.len()
        invariant
            0 <= i <= a.entries.len() == b.entries.len(),
            x == text_entries(a.entries@),
            y == text_entries(b.entries@),
            entry_map(x) == entry_map(y) ==> x == y,
            forall|j: int| 0 <= j < i ==> x[j] == y[j],
        decreases a.entries.len() - i,
    {
        if a.entries[i].0 != b.entries[i].0 || !same(&a.entries[i].1, &b.entries[i].1) {
            assert(x[i as int] != y[i as int]);
            return false;
        }
        assert(x[i as int] == y[i as int]);
        i += 1;
    }
    assert(x =~= y);
    true
}

/// A copy of a table of texts.
fn copy_texts(a: &SourceMap<String>) -> (r: SourceMap<String>)
    requires
        a.wf(),
    ensures
        r.wf(),
        text_map(r) == text_map(*a),
{
    let mut r: SourceMap<String> = SourceMap { entries: Vec::new() };
    let mut i: usize = 0;
    while i < a.entries.len()
        invariant
            0 <= i <= a.entries.len(),
            r.entries.len() == i,
            forall|j: int|
                0 <= j < i ==> (#[trigger] r.entries@[j]).0 == a.entries@[j].0
                    && r.entries@[j].1@ == a.entries@[j].1@,
        decreases a.entries.len() - i,
    {
        r.entries.push((a.entries[i].0, a.entries[i].1.clone()));
        i += 1;
    }
    proof {
        assert(text_entries(r.entries@) =~= text_entries(a.entries@));
        assert forall|p: int, q: int| 0 <= p < q < r.entries.len() implies (
        #[trigger] r.entries@[p]).0 < (#[trigger] r.entries@[q]).0 by {
            assert(a.entries@[p].0 < a.entries@[q].0);
        }
    }
    r
}

// ----- the model ------------------------------------------------------------

pub struct ControlModel {
    pub budget: BudgetModel,
    pub roots: Map<i64, Seq<char>>,
    /// Changes with every change of the roots.
    pub revision: u64,
    /// When the batch in force was started.
    pub sample_started: Option<Instant>,
    pub stale: bool,
    pub errors: Map<i64, Seq<char>>,
}

/// Nothing is known of any root.
pub open spec fn unknown_topology(roots: Map<i64, Seq<char>>) -> TopologyModel {
    roots.map_values(|r: Seq<char>| None::<Devices>)
}

/// What a batch says of the roots: a root that it has no good answer for is
/// unknown.
pub open spec fn reported_topology(
    roots: Map<i64, Seq<char>>,
    results: Map<i64, Result<Vec<String>, String>>,
) -> TopologyModel {
    Map::new(
        |id: i64| roots.dom().contains(id),
        |id: i64|
            if results.dom().contains(id) && results[id] is Ok {
                resolved(Some(results[id]->Ok_0))
            } else {
                None
            },
    )
}

/// The roots that a batch failed on, with the reasons.
pub open spec fn reported_errors(results: Map<i64, Result<Vec<String>, String>>) -> Map<
    i64,
    Seq<char>,
> {
    Map::new(
        |id: i64| results.dom().contains(id) && results[id] is Err,
        |id: i64| results[id]->Err_0@,
    )
}

/// The topology that is in force, or comes into force once leases drain.
pub open spec fn wanted(b: BudgetModel) -> TopologyModel {
    match b.pending {
        Some(t) => t,
        None => b.topology,
    }
}

impl ControlModel {
    /// New roots invalidate the whole topology until a matching sample
    /// arrives. The same roots change nothing.
    pub open spec fn with_sources(self, roots: Map<i64, Seq<char>>) -> ControlModel {
        if self.roots == roots {
            self
        } else {
            ControlModel {
                budget: retargeted(self.budget, unknown_topology(roots)),
                roots,
                revision: if self.revision == u64::MAX {
                    0
                } else {
                    (self.revision + 1) as u64
                },
                sample_started: None,
                stale: true,
                errors: Map::empty(),
            }
        }
    }

    pub open spec fn ignores(self, batch: ProbeBatch) -> bool {
        batch.revision != self.revision || self.sample_started == Some(batch.started)
    }

    /// A completed batch. One of other roots, and one that is in force
    /// already, change nothing. One that was started too long ago is recorded,
    /// but nothing of it is used.
    pub open spec fn accepted(self, batch: ProbeBatch, now: Instant) -> ControlModel {
        if self.ignores(batch) {
            self
        } else {
            let stale = now.spec_since(batch.started) > MAX_AGE_NS;
            ControlModel {
                budget: retargeted(
                    self.budget,
                    if stale {
                        unknown_topology(self.roots)
                    } else {
                        reported_topology(self.roots, batch.results@)
                    },
                ),
                sample_started: Some(batch.started),
                stale,
                errors: reported_errors(batch.results@),
                ..self
            }
        }
    }

    /// The probe as a whole failed: no root is known.
    pub open spec fn failed(self, error: Seq<char>) -> ControlModel {
        ControlModel {
            budget: retargeted(self.budget, unknown_topology(self.roots)),
            stale: true,
            errors: self.roots.map_values(|r: Seq<char>| error),
            ..self
        }
    }

    /// A sample that has aged out is no longer used.
    pub open spec fn expired(self, now: Instant) -> ControlModel {
        if !self.stale && (self.sample_started matches Some(at) ==> now.spec_since(at)
            > MAX_AGE_NS) {
            ControlModel {
                budget: retargeted(self.budget, unknown_topology(self.roots)),
                stale: true,
                ..self
            }
        } else {
            self
        }
    }

    /// The state in which a refresh decides: with what the probe last said,
    /// and with aged samples dropped.
    pub open spec fn refreshed(
        self,
        cached: Option<(Instant, Result<ProbeBatch, String>)>,
        now: Instant,
    ) -> ControlModel {
        (match cached {
            None => self,
            Some((_, Ok(batch))) => self.accepted(batch, now),
            Some((_, Err(error))) => self.failed(error@),
        }).expired(now)
    }

    /// While no fresh sample is in force, every root counts as unknown.
    pub open spec fn sound(self) -> bool {
        self.stale ==> wanted(self.budget) == unknown_topology(self.roots)
    }
}

/// How old the latest answer of the probe must be before it is asked again. A
/// changed source refreshes immediately once the previous probe finishes.
/// Errors retain the retry interval too: an unavailable root does not turn
/// every admission tick into a new failing probe.
pub open spec fn retry_after(
    cached: Option<(Instant, Result<ProbeBatch, String>)>,
    revision: u64,
) -> u64 {
    match cached {
        Some((_, Ok(batch))) => if batch.revision != revision {
            0
        } else {
            REFRESH_NS
        },
        _ => REFRESH_NS,
    }
}

/// No operation leaves a topology in use while its sample is stale.
pub proof fn law_stale_samples_are_never_used(
    m: ControlModel,
    roots: Map<i64, Seq<char>>,
    batch: ProbeBatch,
    error: Seq<char>,
    now: Instant,
)
    requires
        m.sound(),
    ensures
        m.with_sources(roots).sound(),
        m.accepted(batch, now).sound(),
        m.failed(error).sound(),
        m.expired(now).sound(),
{
}

/// A completed probe of roots that have changed since is rejected.
pub proof fn law_changed_roots_reject_an_old_probe(
    m: ControlModel,
    roots: Map<i64, Seq<char>>,
    batch: ProbeBatch,
    now: Instant,
)
    requires
        m.roots != roots,
        batch.revision == m.revision,
    ensures
        m.with_sources(roots).accepted(batch, now) == m.with_sources(roots),
{
}

/// A batch for the roots in force that is not in force already, and was started
/// at most ninety seconds ago, is used: each root has the devices that the batch
/// names for it, a root that it failed on or does not know is unknown, and the
/// reasons are kept.
pub proof fn law_a_fresh_batch_is_used(m: ControlModel, batch: ProbeBatch, now: Instant, id: i64)
    requires
        batch.revision == m.revision,
        m.sample_started != Some(batch.started),
        now.spec_since(batch.started) <= 90_000_000_000,
    ensures
        ({
            let r = m.accepted(batch, now);
            let t = wanted(r.budget);
            &&& !r.stale && r.sample_started == Some(batch.started)
            &&& r.roots == m.roots && r.revision == m.revision
            &&& t.dom() == m.roots.dom()
            &&& m.roots.dom().contains(id) && batch.results@.dom().contains(id)
                && batch.results@[id] is Ok ==> t[id] == resolved(Some(batch.results@[id]->Ok_0))
            &&& m.roots.dom().contains(id) && !(batch.results@.dom().contains(id)
                && batch.results@[id] is Ok) ==> t[id] is None
            &&& r.errors.dom().contains(id) <==> batch.results@.dom().contains(id)
                && batch.results@[id] is Err
            &&& r.errors.dom().contains(id) ==> r.errors[id] == batch.results@[id]->Err_0@
        }),
{
    let r = m.accepted(batch, now);
    assert(wanted(r.budget) == reported_topology(m.roots, batch.results@));
    assert(wanted(r.budget).dom() =~= m.roots.dom());
}

/// A batch that was started more than ninety seconds ago, a probe that failed,
/// and a sample that has aged out leave every root unknown; a sample that has
/// not aged out stays in force.
pub proof fn law_nothing_old_is_used(
    m: ControlModel,
    batch: ProbeBatch,
    error: Seq<char>,
    now: Instant,
    id: i64,
)
    requires
        m.sound(),
        m.roots.dom().contains(id),
    ensures
        batch.revision == m.revision && m.sample_started != Some(batch.started) && now.spec_since(
            batch.started,
        ) > 90_000_000_000 ==> m.accepted(batch, now).stale && wanted(
            m.accepted(batch, now).budget,
        )[id] is None,
        m.failed(error).stale && wanted(m.failed(error).budget)[id] is None && m.failed(
            error,
        ).errors[id] == error && m.failed(error).errors.dom() == m.roots.dom(),
        m.sample_started matches Some(at) ==> (now.spec_since(at) > 90_000_000_000
            ==> m.expired(now).stale && wanted(m.expired(now).budget)[id] is None) && (
        now.spec_since(at) <= 90_000_000_000 ==> m.expired(now) == m),
        m.stale ==> m.expired(now) == m,
{
    assert(m.failed(error).errors.dom() =~= m.roots.dom());
}

/// Other roots make everything unknown at once and what is under way obsolete;
/// the same roots change nothing.
pub proof fn law_other_roots_start_over(m: ControlModel, roots: Map<i64, Seq<char>>, id: i64)
    ensures
        m.roots == roots ==> m.with_sources(roots) == m,
        m.roots != roots ==> {
            let r = m.with_sources(roots);
            &&& r.roots == roots
            &&& r.revision != m.revision
            &&& r.stale && r.sample_started is None
            &&& r.errors.dom() == Set::<i64>::empty()
            &&& wanted(r.budget).dom() == roots.dom()
            &&& roots.dom().contains(id) ==> wanted(r.budget)[id] is None
        },
{
    if m.roots != roots {
        let r = m.with_sources(roots);
        assert(wanted(r.budget) == unknown_topology(roots));
        assert(wanted(r.budget).dom() =~= roots.dom());
        assert(r.errors.dom() =~= Set::<i64>::empty());
    }
}

/// A refresh goes by the latest answer of the probe: a batch for the roots in
/// force counts while it is fresh, a failure makes every root unknown, and
/// without any answer what is in force only ages.
pub proof fn law_a_refresh_goes_by_the_latest_answer(
    m: ControlModel,
    batch: ProbeBatch,
    error: String,
    at: Instant,
    now: Instant,
    id: i64,
)
    requires
        m.sound(),
        m.roots.dom().contains(id),
        batch.revision == m.revision,
        m.sample_started != Some(batch.started),
    ensures
        ({
            let ok = m.refreshed(Some((at, Ok(batch))), now);
            let failed = m.refreshed(Some((at, Err(error))), now);
            let none = m.refreshed(None, now);
            &&& now.spec_since(batch.started) <= 90_000_000_000 ==> !ok.stale && wanted(ok.budget)
                == reported_topology(m.roots, batch.results@)
            &&& now.spec_since(batch.started) > 90_000_000_000 ==> ok.stale && wanted(
                ok.budget,
            )[id] is None
            &&& failed.stale && wanted(failed.budget)[id] is None && failed.errors[id] == error@
            &&& none.errors == m.errors && none.sample_started == m.sample_started
            &&& m.stale ==> none == m
        }),
{
    lemma_fresh_batch(m, batch, now);
}

proof fn lemma_fresh_batch(m: ControlModel, batch: ProbeBatch, now: Instant)
    requires
        batch.revision == m.revision,
        m.sample_started != Some(batch.started),
    ensures
        now.spec_since(batch.started) <= MAX_AGE_NS ==> wanted(m.accepted(batch, now).budget)
            == reported_topology(m.roots, batch.results@),
{
}

/// The probe is asked again at once only if its latest answer is for other
/// roots; an answer that failed, and none at all, wait like any other.
pub proof fn law_only_other_roots_hurry_the_probe(
    cached: Option<(Instant, Result<ProbeBatch, String>)>,
    revision: u64,
)
    ensures
        retry_after(cached, revision) == 0 <==> (cached matches Some(c) && (c.1 matches Ok(batch)
            && batch.revision != revision)),
        retry_after(cached, revision) != 0 ==> retry_after(cached, revision) == 30_000_000_000,
{
}

// ----- the control ----------------------------------------------------------

/// What the results say of one root.
spec fn answered(results: Option<&ProbeResults>, id: i64) -> Option<Devices> {
    match results {
        Some(b) => if b@.dom().contains(id) && b@[id] is Ok {
            resolved(Some(b@[id]->Ok_0))
        } else {
            None
        },
        None => None,
    }
}

/// The topology to hand to the budgets: what the results say of each root, or
/// nothing without results.
fn topology_for(roots: &SourceRoots, results: Option<&ProbeResults>) -> (r: Topology)
    requires
        roots.wf(),
        results matches Some(b) ==> b.wf(),
    ensures
        r.wf(),
        resolved_topology(r@) == (match results {
            Some(b) => reported_topology(text_map(*roots), b@),
            None => unknown_topology(text_map(*roots)),
        }),
{
    let mut r: Topology = SourceMap { entries: Vec::new() };
    let mut i: usize = 0;
    while i < roots.entries.len()
        invariant
            0 <= i <= roots.entries.len(),
            results matches Some(b) ==> b.wf(),
            r.entries.len() == i,
            forall|j: int|
                0 <= j < i ==> (#[trigger] r.entries@[j]).0 == roots.entries@[j].0 && resolved(
                    r.entries@[j].1,
                ) == answered(results, roots.entries@[j].0),
        decreases roots.entries.len() - i,
    {
        let id: i64 = roots.entries[i].0;
        let devices: Option<Vec<String>> = match results {
            None => None,
            Some(b) => match b.get(id) {
                Some(Ok(list)) => {
                    let copy = copy_keys(list);
                    assert(resolved(Some(copy)) == resolved(Some(*list)));
                    Some(copy)
                },
                _ => None,
            },
        };
        assert(resolved(devices) == answered(results, id));
        r.entries.push((id, devices));
        i += 1;
    }
    proof {
        assert forall|p: int, q: int| 0 <= p < q < r.entries.len() implies (
        #[trigger] r.entries@[p]).0 < (#[trigger] r.entries@[q]).0 by {
            assert(roots.entries@[p].0 < roots.entries@[q].0);
        }
        let t = text_entries(roots.entries@);
        let x = resolved_topology(r@);
        let y = match results {
            Some(b) => reported_topology(text_map(*roots), b@),
            None => unknown_topology(text_map(*roots)),
        };
        assert forall|s: i64| x.dom().contains(s) == y.dom().contains(s) by {
            if x.dom().contains(s) {
                let j = key_index(r.entries@, s);
                assert(r.entries@[j].0 == s);
                assert(t[j].0 == s);
            }
            if y.dom().contains(s) {
                let j = key_index(t, s);
                assert(t[j].0 == s);
                assert(r.entries@[j].0 == s);
            }
        }
        assert forall|s: i64| #[trigger] x.dom().contains(s) implies x[s] == y[s] by {
            let j = key_index(r.entries@, s);
            assert(r.entries@[j].0 == s);
            lemma_entry(r.entries@, j);
            assert(y.dom().contains(s));
        }
        assert(x =~= y);
    }
    r
}

/// Whether a failure is among the first `n` results.
spec fn failed_with(s: Seq<(i64, Result<Vec<String>, String>)>, n: int, e: (i64, String)) -> bool {
    exists|k: int|
        0 <= k < n && (#[trigger] s[k]).0 == e.0 && s[k].1 is Err && s[k].1->Err_0@ == e.1@
}

spec fn failure_index(s: Seq<(i64, Result<Vec<String>, String>)>, n: int, e: (i64, String)) -> int {
    choose|k: int|
        0 <= k < n && (#[trigger] s[k]).0 == e.0 && s[k].1 is Err && s[k].1->Err_0@ == e.1@
}

/// The failures of a batch.
fn errors_of(results: &ProbeResults) -> (r: SourceMap<String>)
    requires
        results.wf(),
    ensures
        r.wf(),
        text_map(r) == reported_errors(results@),
{
    let mut r: SourceMap<String> = SourceMap { entries: Vec::new() };
    let mut i: usize = 0;
    proof {
        assert(text_entries(r.entries@) =~= Seq::empty());
    }
    while i < results.entries.len()
        invariant
            0 <= i <= results.entries.len(),
            results.wf(),
            r.wf(),
            forall|j: int|
                0 <= j < r.entries.len() ==> failed_with(
                    results.entries@,
                    i as int,
                    #[trigger] r.entries@[j],
                ),
            forall|k: int|
                0 <= k < i && (#[trigger] results.entries@[k]).1 is Err ==> has_key(
                    text_entries(r.entries@),
                    results.entries@[k].0,
                ),
        decreases results.entries.len() - i,
    {
        if let Err(error) = &results.entries[i].1 {
            let ghost before = r.entries@;
            r.entries.push((results.entries[i].0, error.clone()));
            proof {
                let id = results.entries@[i as int].0;
                assert(r.entries@ =~= before.push(r.entries@.last()));
                assert(r.wf()) by {
                    assert forall|p: int, q: int| 0 <= p < q < r.entries.len() implies (
                    #[trigger] r.entries@[p]).0 < (#[trigger] r.entries@[q]).0 by {
                        assert(r.entries@[p] == before[p]);
                        if q < before.len() {
                            assert(r.entries@[q] == before[q]);
                            assert(before[p].0 < before[q].0);
                        } else {
                            let k = failure_index(results.entries@, i as int, before[p]);
                            assert(results.entries@[k].0 < results.entries@[i as int].0);
                        }
                    }
                }
                let t = text_entries(r.entries@);
                assert(t[before.len() as int].0 == id);
                assert forall|k: int|
                    0 <= k < i + 1 && (#[trigger] results.entries@[k]).1 is Err implies has_key(
                    t,
                    results.entries@[k].0,
                ) by {
                    if k < i {
                        let u = text_entries(before);
                        let j = key_index(u, results.entries@[k].0);
                        assert(u[j].0 == results.entries@[k].0);
                        assert(t[j].0 == u[j].0);
                    }
                }
                assert forall|j: int| 0 <= j < r.entries.len() implies failed_with(
                    results.entries@,
                    i + 1,
                    #[trigger] r.entries@[j],
                ) by {
                    if j < before.len() {
                        assert(r.entries@[j] == before[j]);
                        let k = failure_index(results.entries@, i as int, before[j]);
                        assert(results.entries@[k].0 == r.entries@[j].0);
                    } else {
                        assert(results.entries@[i as int].0 == r.entries@[j].0);
                    }
                }
            }
        }
        proof {
            assert forall|j: int| 0 <= j < r.entries.len() implies failed_with(
                results.entries@,
                i + 1,
                #[trigger] r.entries@[j],
            ) by {
                if results.entries@[i as int].1 is Ok {
                    let k = failure_index(results.entries@, i as int, r.entries@[j]);
                    assert(results.entries@[k].0 == r.entries@[j].0);
                }
            }
        }
        i += 1;
    }
    proof {
        let t = text_entries(r.entries@);
        lemma_text_ascending(r.entries@);
        let x = text_map(r);
        let y = reported_errors(results@);
        assert forall|s: i64| x.dom().contains(s) implies y.dom().contains(s) && x[s] == y[s] by {
            let j = key_index(t, s);
            assert(t[j].0 == s);
            assert(r.entries@[j].0 == s);
            lemma_entry(t, j);
            let k = failure_index(results.entries@, i as int, r.entries@[j]);
            lemma_entry(results.entries@, k);
        }
        assert forall|s: i64| y.dom().contains(s) implies x.dom().contains(s) by {
            let k = key_index(results.entries@, s);
            assert(results.entries@[k].0 == s);
            lemma_entry(results.entries@, k);
        }
        assert(x =~= y);
    }
    r
}

/// The same failure for every root.
fn errors_everywhere(roots: &SourceRoots, error: &str) -> (r: SourceMap<String>)
    requires
        roots.wf(),
    ensures
        r.wf(),
        text_map(r) == text_map(*roots).map_values(|x: Seq<char>| error@),
{
    let mut r: SourceMap<String> = SourceMap { entries: Vec::new() };
    let mut i: usize = 0;
    while i < roots.entries.len()
        invariant
            0 <= i <= roots.entries.len(),
            r.entries.len() == i,
            forall|j: int|
                0 <= j < i ==> (#[trigger] r.entries@[j]).0 == roots.entries@[j].0
                    && r.entries@[j].1@ == error@,
        decreases roots.entries.len() - i,
    {
        r.entries.push((roots.entries[i].0, error.to_owned()));
        i += 1;
    }
    proof {
        assert forall|p: int, q: int| 0 <= p < q < r.entries.len() implies (
        #[trigger] r.entries@[p]).0 < (#[trigger] r.entries@[q]).0 by {
            assert(roots.entries@[p].0 < roots.entries@[q].0);
        }
        let t = text_entries(roots.entries@);
        let u = text_entries(r.entries@);
        lemma_text_ascending(r.entries@);
        let x = text_map(r);
        let y = text_map(*roots).map_values(|x: Seq<char>| error@);
        assert forall|s: i64| x.dom().contains(s) == y.dom().contains(s) by {
            if x.dom().contains(s) {
                let j = key_index(u, s);
                assert(u[j].0 == s);
                assert(t[j].0 == s);
            }
            if y.dom().contains(s) {
                let j = key_index(t, s);
                assert(t[j].0 == s);
                assert(u[j].0 == s);
            }
        }
        assert forall|s: i64| #[trigger] x.dom().contains(s) implies x[s] == y[s] by {
            let j = key_index(u, s);
            assert(u[j].0 == s);
            lemma_entry(u, j);
            assert(y.dom().contains(s));
        }
        assert(x =~= y);
    }
    r
}

/// The budgets with the roots and the sample that their topology rests on.
struct DeviceState {
    budgets: DeviceBudgets,
    roots: SourceRoots,
    revision: u64,
    sample_started: Option<Instant>,
    stale: bool,
    errors: SourceMap<String>,
}

impl DeviceState {
    spec fn wf(&self) -> bool {
        self.budgets.wf() && self.roots.wf() && self.errors.wf() && self.model().sound()
    }

    spec fn model(&self) -> ControlModel {
        ControlModel {
            budget: self.budgets@,
            roots: text_map(self.roots),
            revision: self.revision,
            sample_started: self.sample_started,
            stale: self.stale,
            errors: text_map(self.errors),
        }
    }

    fn accept(&mut self, batch: &ProbeBatch, now: Instant)
        requires
            old(self).wf(),
            batch.results.wf(),
        ensures
            final(self).wf(),
            final(self).model() == old(self).model().accepted(*batch, now),
    {
        if batch.revision != self.revision {
            return;
        }
        if let Some(at) = self.sample_started {
            if at == batch.started {
                return;
            }
        }
        // Use the start time, not just completion time: a slow batch must not
        // make its early samples look fresh after minutes in another syscall.
        self.sample_started = Some(batch.started);
        self.stale = now.since(batch.started) > MAX_AGE_NS;
        self.errors = errors_of(&batch.results);
        let topology = topology_for(
            &self.roots,
            if self.stale {
                None
            } else {
                Some(&batch.results)
            },
        );
        self.budgets.set_topology(topology);
    }

    fn fail(&mut self, error: &str)
        requires
            old(self).wf(),
        ensures
            final(self).wf(),
            final(self).model() == old(self).model().failed(error@),
    {
        self.errors = errors_everywhere(&self.roots, error);
        self.stale = true;
        let topology = topology_for(&self.roots, None);
        self.budgets.set_topology(topology);
    }

    fn expire(&mut self, now: Instant)
        requires
            old(self).wf(),
        ensures
            final(self).wf(),
            final(self).model() == old(self).model().expired(now),
    {
        let aged: bool = match self.sample_started {
            Some(at) => now.since(at) > MAX_AGE_NS,
            None => true,
        };
        if !self.stale && aged {
            self.stale = true;
            let topology = topology_for(&self.roots, None);
            self.budgets.set_topology(topology);
        }
    }
}

pub struct DeviceControl {
    state: DeviceState,
    probe: BackgroundProbe<ProbeBatch>,
}

/// A run of the probe that is due: these roots, under this revision.
#[derive(Debug)]
pub struct ProbeRequest {
    pub revision: u64,
    pub roots: SourceRoots,
}

#[derive(Debug)]
pub struct DeviceView {
    pub budget: BudgetSnapshot,
    pub sample_age_s: Option<u64>,
    pub stale: bool,
    pub source_errors: SourceMap<String>,
    pub source_roots: SourceMap<String>,
}

/// A view shows the state as it is.
pub open spec fn shows_control(v: DeviceView, m: ControlModel, now: Instant) -> bool {
    &&& shows(v.budget, m.budget)
    &&& v.sample_age_s == (match m.sample_started {
        Some(at) => Some((now.spec_since(at) / NANOS_PER_SEC) as u64),
        None => None,
    })
    &&& v.stale == m.stale
    &&& v.source_errors.wf() && text_map(v.source_errors) == m.errors
    &&& v.source_roots.wf() && text_map(v.source_roots) == m.roots
}

/// A view shows what is in force: the age of its sample in whole seconds, and
/// whether nothing fresh is known.
pub proof fn law_a_view_shows_what_is_in_force(v: DeviceView, m: ControlModel, now: Instant)
    requires
        shows_control(v, m, now),
    ensures
        v.stale == m.stale,
        v.sample_age_s is Some <==> m.sample_started is Some,
        m.sample_started matches Some(at) ==> v.sample_age_s->0 * 1_000_000_000 <= now.spec_since(at)
            < (v.sample_age_s->0 + 1) * 1_000_000_000,
        text_map(v.source_errors) == m.errors && text_map(v.source_roots) == m.roots,
        v.budget.readers_per_device == m.budget.limit,
{
}

/// Why a root of a slow batch was not probed.
pub const BATCH_TOO_SLOW: &'static str =
    "topology batch exceeded its freshness window before this root was probed";

/// Whether a batch may still probe another root.
pub fn probe_allowed(started: Instant, now: Instant) -> (r: Result<(), &'static str>)
    ensures
        r is Ok <==> now.spec_since(started) <= MAX_AGE_NS,
        r matches Err(e) ==> e@ == BATCH_TOO_SLOW@,
{
    if now.since(started) > MAX_AGE_NS {
        Err(BATCH_TOO_SLOW)
    } else {
        Ok(())
    }
}

impl DeviceControl {
    pub closed spec fn wf(&self) -> bool {
        self.state.wf() && (self.probe.result matches Some((_, Ok(batch)))
            ==> batch.results.wf())
    }

    pub closed spec fn model(&self) -> ControlModel {
        self.state.model()
    }

    /// The probe's latest answer, and whether it runs.
    pub closed spec fn spec_probe(&self) -> BackgroundProbe<ProbeBatch> {
        self.probe
    }

    /// What every reachable control keeps.
    pub proof fn lemma_sound(&self)
        requires
            self.wf(),
        ensures
            self.model().sound(),
    {
    }

    pub fn new(limit: u32) -> (r: Result<DeviceControl, &'static str>)
        ensures
            r is Ok <==> valid_limit(limit),
            r matches Err(e) ==> e@ == LIMIT_RANGE@,
            r matches Ok(c) ==> {
                &&& c.wf()
                &&& c.model().budget.limit == limit
                &&& c.model().budget.topology == Map::<i64, Option<Devices>>::empty()
                &&& c.model().budget.pending is None
                &&& c.model().budget.live.len() == 0
                &&& c.model().roots == Map::<i64, Seq<char>>::empty()
                &&& c.model().errors == Map::<i64, Seq<char>>::empty()
                &&& c.model().revision == 0
                &&& c.model().sample_started is None
                &&& c.model().stale
                &&& c.spec_probe().result is None
                &&& !c.spec_probe().running
            },
    {
        match DeviceBudgets::new(limit) {
            Err(e) => Err(e),
            Ok(budgets) => {
                let state = DeviceState {
                    budgets,
                    roots: SourceMap::new(),
                    revision: 0,
                    sample_started: None,
                    stale: true,
                    errors: SourceMap::new(),
                };
                proof {
                    assert(text_map(state.roots) =~= Map::empty());
                    assert(text_map(state.errors) =~= Map::empty());
                    assert(unknown_topology(text_map(state.roots)) =~= Map::empty());
                }
                Ok(DeviceControl { state, probe: BackgroundProbe::cold() })
            },
        }
    }

    /// Call with the authoritative local-source list, never fleet replicas.
    /// A new/root-changed source invalidates the whole topology until a matching
    /// sample arrives. Any old leases drain against their original keys.
    pub fn set_sources(&mut self, roots: SourceRoots)
        requires
            old(self).wf(),
            roots.wf(),
        ensures
            final(self).wf(),
            final(self).model() == old(self).model().with_sources(text_map(roots)),
            final(self).spec_probe() == old(self).spec_probe(),
    {
        if same_texts(&self.state.roots, &roots) {
            return;
        }
        self.state.roots = roots;
        self.state.revision = if self.state.revision == u64::MAX {
            0
        } else {
            self.state.revision + 1
        };
        self.state.sample_started = None;
        self.state.errors = SourceMap::new();
        self.state.stale = true;
        let topology = topology_for(&self.state.roots, None);
        self.state.budgets.set_topology(topology);
        assert(text_map(self.state.errors) =~= Map::empty());
    }

    pub fn set_limit(&mut self, limit: u32) -> (r: Result<(), &'static str>)
        requires
            old(self).wf(),
        ensures
            final(self).wf(),
            final(self).spec_probe() == old(self).spec_probe(),
            r is Ok <==> valid_limit(limit),
            r matches Err(e) ==> e@ == LIMIT_RANGE@ && final(self).model() == old(self).model(),
            r is Ok ==> final(self).model() == (ControlModel {
                budget: BudgetModel { limit: limit as nat, ..old(self).model().budget },
                ..old(self).model()
            }),
    {
        self.state.budgets.set_limit(limit)
    }

    /// New limits come into force after they were persisted.
    pub fn save_limits(&mut self, limits: DeviceLimits, persisted: Result<(), String>) -> (r:
        Result<(), String>)
        requires
            old(self).wf(),
        ensures
            final(self).wf(),
            final(self).spec_probe() == old(self).spec_probe(),
            !limits.valid() ==> (r matches Err(e) && e@ == LIMIT_RANGE@),
            limits.valid() ==> r == persisted,
            r is Err ==> final(self).model() == old(self).model(),
            r is Ok ==> final(self).model() == (ControlModel {
                budget: BudgetModel {
                    limit: limits.readers_per_device as nat,
                    ..old(self).model().budget
                },
                ..old(self).model()
            }),
    {
        match limits.validate() {
            Err(e) => {
                return Err(e.to_owned());
            },
            Ok(()) => {},
        }
        if persisted.is_ok() {
            let _done = self.set_limit(limits.readers_per_device);
        }
        persisted
    }

    /// Demand-driven: call when work needs admission or the operator requests
    /// topology diagnostics, not from an unconditional quiet-idle timer. Takes
    /// in what the probe last said, and returns the run of it that is due. A
    /// run that is still under way, even a stuck one, is never replaced.
    pub fn refresh(&mut self, now: Instant) -> (r: Option<ProbeRequest>)
        requires
            old(self).wf(),
        ensures
            final(self).wf(),
            ({
                let before = old(self).spec_probe();
                let m = old(self).model().refreshed(before.result, now);
                &&& final(self).model() == m
                &&& r is Some <==> m.roots.dom().len() > 0 && before.due(
                    retry_after(before.result, m.revision),
                    now,
                )
                &&& r matches Some(q) ==> q.revision == m.revision && q.roots.wf() && text_map(
                    q.roots,
                ) == m.roots
                &&& final(self).spec_probe() == (BackgroundProbe {
                    running: before.running || r is Some,
                    ..before
                })
            }),
    {
        if let Some((_, result)) = &self.probe.result {
            match result {
                Ok(batch) => {
                    self.state.accept(batch, now);
                },
                Err(error) => {
                    self.state.fail(error);
                },
            }
        }
        self.state.expire(now);
        proof {
            lemma_text_ascending(self.state.roots.entries@);
            lemma_len(text_entries(self.state.roots.entries@));
        }
        if self.state.roots.entries.len() == 0 {
            return None;
        }
        let ttl: u64 = match &self.probe.result {
            Some((_, Ok(batch))) => if batch.revision != self.state.revision {
                0
            } else {
                REFRESH_NS
            },
            _ => REFRESH_NS,
        };
        if !self.probe.begin(ttl, now) {
            return None;
        }
        Some(
            ProbeRequest {
                revision: self.state.revision,
                roots: copy_texts(&self.state.roots),
            },
        )
    }

    /// The run of the probe came back, failed as a whole, or could not start.
    pub fn probe_finished(&mut self, result: Result<ProbeBatch, String>, now: Instant)
        requires
            old(self).wf(),
            result matches Ok(batch) ==> batch.results.wf(),
        ensures
            final(self).wf(),
            final(self).model() == old(self).model(),
            final(self).spec_probe() == (BackgroundProbe {
                result: Some((now, result)),
                running: false,
            }),
    {
        self.probe.finish(result, now);
    }

    pub fn accept(&mut self, batch: &ProbeBatch, now: Instant)
        requires
            old(self).wf(),
            batch.results.wf(),
        ensures
            final(self).wf(),
            final(self).model() == old(self).model().accepted(*batch, now),
            final(self).spec_probe() == old(self).spec_probe(),
    {
        self.state.accept(batch, now);
    }

    /// The revision that a batch must carry to be accepted.
    pub fn revision(&self) -> (r: u64)
        ensures
            r == self.model().revision,
    {
        self.state.revision
    }

    /// Read-only capacity check; see [`DeviceBudgets::would_admit`].
    pub fn would_admit(&mut self, source: SourceKey, kind: WorkKind, width: u32, now: Instant) -> (r:
        Result<u32, WaitReason>)
        requires
            old(self).wf(),
        ensures
            final(self).wf(),
            final(self).model() == old(self).model().expired(now),
            final(self).spec_probe() == old(self).spec_probe(),
            decides(final(self).model().budget, source, kind, width, r),
    {
        self.state.expire(now);
        self.state.budgets.would_admit(source, kind, width)
    }

    pub fn try_reserve(&mut self, source: SourceKey, kind: WorkKind, width: u32, now: Instant) -> (r:
        Result<DeviceLease, WaitReason>)
        requires
            old(self).wf(),
        ensures
            final(self).wf(),
            final(self).spec_probe() == old(self).spec_probe(),
            ({
                let m = old(self).model().expired(now);
                &&& r matches Err(e) ==> decides(m.budget, source, kind, width, Err(e))
                    && final(self).model() == m
                &&& r matches Ok(lease) ==> {
                    &&& lease@.units <= 64
                    &&& decides(m.budget, source, kind, width, Ok(lease@.units as u32))
                    &&& lease@.devices == charged_devices(m.budget.topology, source)
                    &&& lease@.kind == kind
                    &&& final(self).model() == (ControlModel {
                        budget: granted(m.budget, lease@),
                        ..m
                    })
                }
            }),
    {
        self.state.expire(now);
        self.state.budgets.try_reserve(source, kind, width)
    }

    /// Give a lease back; see [`DeviceBudgets::release`].
    pub fn release(&mut self, lease: DeviceLease)
        requires
            old(self).wf(),
            old(self).model().budget.live.contains(lease@),
        ensures
            final(self).wf(),
            final(self).spec_probe() == old(self).spec_probe(),
            final(self).model() == (ControlModel {
                budget: settled(returned(old(self).model().budget, lease@)),
                ..old(self).model()
            }),
    {
        self.state.budgets.release(lease);
    }

    pub fn view(&mut self, now: Instant) -> (r: DeviceView)
        requires
            old(self).wf(),
        ensures
            final(self).wf(),
            final(self).model() == old(self).model().expired(now),
            final(self).spec_probe() == old(self).spec_probe(),
            shows_control(r, final(self).model(), now),
    {
        self.state.expire(now);
        DeviceView {
            budget: self.state.budgets.snapshot(),
            sample_age_s: match self.state.sample_started {
                Some(at) => Some(now.since(at) / NANOS_PER_SEC),
                None => None,
            },
            stale: self.state.stale,
            source_errors: copy_texts(&self.state.errors),
            source_roots: copy_texts(&self.state.roots),
        }
    }
}

} // verus!
