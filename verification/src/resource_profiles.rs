//! Durable coordination for settings that intentionally remain in separate
//! ownership files. A journal makes crashes and partial filesystem failures
//! repairable without pretending three replacements are one atomic rename.

use crate::api::{ApiError, ApiErrorModel};
use crate::content_workers::MAX_WORKERS;
use crate::device_control::DeviceLimits;
use crate::domain::opt_text;
use crate::resource_control::{ResourceLimits, LIMITS_RANGE};
use crate::text::{decimal, push_decimal};
use vstd::prelude::*;
use vstd::string::*;

verus! {

pub const JOURNAL_FILE: &'static str = "resource-settings-operation.json";

pub const JOURNAL_VERSION: u32 = 1;

pub const MAX_JOURNAL_BYTES: u64 = 64 * 1024;

#[derive(Debug, Clone, Copy, PartialEq, Eq, Structural)]
pub struct ResourceSettings {
    pub content_workers: u32,
    pub scan_threads: u32,
    pub concurrent_scans: u32,
    pub minimum_free_mib: u32,
    pub readers_per_device: u32,
}

impl ResourceSettings {
    pub open spec fn limits(self) -> ResourceLimits {
        ResourceLimits {
            scan_threads: self.scan_threads,
            concurrent_scans: self.concurrent_scans,
            minimum_free_mib: self.minimum_free_mib,
        }
    }

    pub open spec fn readers(self) -> DeviceLimits {
        DeviceLimits { readers_per_device: self.readers_per_device }
    }

    /// Why settings are refused.
    pub open spec fn problem(self) -> Option<Seq<char>> {
        if !(1 <= self.content_workers <= MAX_WORKERS) {
            Some("content workers must be 1..64"@)
        } else if !self.limits().valid() {
            Some(LIMITS_RANGE@)
        } else if !self.readers().valid() {
            Some(crate::device_budget::LIMIT_RANGE@)
        } else {
            None
        }
    }

    pub fn validate(&self) -> (r: Result<(), &'static str>)
        ensures
            match self.problem() {
                None => r is Ok,
                Some(p) => r matches Err(e) && e@ == p,
            },
    {
        if !(1 <= self.content_workers && self.content_workers <= MAX_WORKERS as u32) {
            return Err("content workers must be 1..64");
        }
        match self.resource_limits().validate() {
            Err(e) => {
                return Err(e);
            },
            Ok(()) => {},
        }
        self.device_limits().validate()
    }

    pub fn resource_limits(&self) -> (r: ResourceLimits)
        ensures
            r == self.limits(),
    {
        ResourceLimits {
            scan_threads: self.scan_threads,
            concurrent_scans: self.concurrent_scans,
            minimum_free_mib: self.minimum_free_mib,
        }
    }

    pub fn device_limits(&self) -> (r: DeviceLimits)
        ensures
            r == self.readers(),
    {
        DeviceLimits { readers_per_device: self.readers_per_device }
    }
}

#[derive(Debug, Clone, Copy, PartialEq, Eq, Structural)]
pub enum ResourceComponent {
    ContentWorkers,
    MetadataLimits,
    DeviceReaders,
    OperationJournal,
    JournalCleanup,
}

impl ResourceComponent {
    /// A component that an operation plans.
    pub open spec fn is_setting(self) -> bool {
        self == ResourceComponent::ContentWorkers || self == ResourceComponent::MetadataLimits
            || self == ResourceComponent::DeviceReaders
    }

    pub open spec fn title(self) -> Seq<char> {
        match self {
            ResourceComponent::ContentWorkers => "content worker limit"@,
            ResourceComponent::MetadataLimits => "metadata limits"@,
            ResourceComponent::DeviceReaders => "device reader limit"@,
            ResourceComponent::OperationJournal => "operation journal"@,
            ResourceComponent::JournalCleanup => "operation journal cleanup"@,
        }
    }
}

pub fn component_name(component: ResourceComponent) -> (r: &'static str)
    ensures
        r@ == component.title(),
{
    match component {
        ResourceComponent::ContentWorkers => "content worker limit",
        ResourceComponent::MetadataLimits => "metadata limits",
        ResourceComponent::DeviceReaders => "device reader limit",
        ResourceComponent::OperationJournal => "operation journal",
        ResourceComponent::JournalCleanup => "operation journal cleanup",
    }
}

/// The order of components within one direction.
pub fn component_rank(component: ResourceComponent) -> (r: u8)
    ensures
        r == (match component {
            ResourceComponent::ContentWorkers => 0u8,
            ResourceComponent::MetadataLimits => 1u8,
            ResourceComponent::DeviceReaders => 2u8,
            ResourceComponent::OperationJournal => 3u8,
            ResourceComponent::JournalCleanup => 4u8,
        }),
{
    match component {
        ResourceComponent::ContentWorkers => 0,
        ResourceComponent::MetadataLimits => 1,
        ResourceComponent::DeviceReaders => 2,
        ResourceComponent::OperationJournal => 3,
        ResourceComponent::JournalCleanup => 4,
    }
}

// ----- the order of steps ---------------------------------------------------

/// Whether a component differs between two settings.
pub open spec fn changes(current: ResourceSettings, target: ResourceSettings, c: ResourceComponent) -> bool {
    match c {
        ResourceComponent::ContentWorkers => current.content_workers != target.content_workers,
        ResourceComponent::MetadataLimits => current.limits() != target.limits(),
        ResourceComponent::DeviceReaders => current.readers_per_device
            != target.readers_per_device,
        _ => false,
    }
}

/// Whether a change takes capacity away. Metadata limits tighten if any part
/// of them does.
pub open spec fn tightens(current: ResourceSettings, target: ResourceSettings, c: ResourceComponent) -> bool {
    match c {
        ResourceComponent::ContentWorkers => target.content_workers < current.content_workers,
        ResourceComponent::MetadataLimits => target.scan_threads < current.scan_threads
            || target.concurrent_scans < current.concurrent_scans || target.minimum_free_mib
            > current.minimum_free_mib,
        ResourceComponent::DeviceReaders => target.readers_per_device < current.readers_per_device,
        _ => false,
    }
}

/// The components that change in one direction, in rank order.
pub open spec fn steps_of(current: ResourceSettings, target: ResourceSettings, tighten: bool) -> Seq<
    ResourceComponent,
> {
    one_step(current, target, tighten, ResourceComponent::ContentWorkers) + one_step(
        current,
        target,
        tighten,
        ResourceComponent::MetadataLimits,
    ) + one_step(current, target, tighten, ResourceComponent::DeviceReaders)
}

pub open spec fn one_step(
    current: ResourceSettings,
    target: ResourceSettings,
    tighten: bool,
    c: ResourceComponent,
) -> Seq<ResourceComponent> {
    if changes(current, target, c) && tightens(current, target, c) == tighten {
        seq![c]
    } else {
        Seq::empty()
    }
}

/// Everything that tightens, and then everything that relaxes.
pub open spec fn planned(current: ResourceSettings, target: ResourceSettings) -> Seq<
    ResourceComponent,
> {
    steps_of(current, target, true) + steps_of(current, target, false)
}

fn push_step(
    steps: &mut Vec<ResourceComponent>,
    current: ResourceSettings,
    target: ResourceSettings,
    tighten: bool,
    c: ResourceComponent,
)
    requires
        c.is_setting(),
    ensures
        final(steps)@ == old(steps)@ + one_step(current, target, tighten, c),
{
    let changed: bool = match c {
        ResourceComponent::ContentWorkers => current.content_workers != target.content_workers,
        ResourceComponent::MetadataLimits => current.resource_limits() != target.resource_limits(),
        ResourceComponent::DeviceReaders => current.readers_per_device
            != target.readers_per_device,
        _ => false,
    };
    let tightened: bool = match c {
        ResourceComponent::ContentWorkers => target.content_workers < current.content_workers,
        ResourceComponent::MetadataLimits => target.scan_threads < current.scan_threads
            || target.concurrent_scans < current.concurrent_scans || target.minimum_free_mib
            > current.minimum_free_mib,
        ResourceComponent::DeviceReaders => target.readers_per_device < current.readers_per_device,
        _ => false,
    };
    if changed && tightened == tighten {
        steps.push(c);
    }
    assert(steps@ =~= old(steps)@ + one_step(current, target, tighten, c));
}

/// The steps from one setting to another: tightening steps precede relaxing
/// ones, so no intermediate state allows more than both ends do.
pub fn ordered_steps(current: ResourceSettings, target: ResourceSettings) -> (r: Vec<
    ResourceComponent,
>)
    ensures
        r@ == planned(current, target),
{
    let mut steps: Vec<ResourceComponent> = Vec::new();
    push_step(&mut steps, current, target, true, ResourceComponent::ContentWorkers);
    push_step(&mut steps, current, target, true, ResourceComponent::MetadataLimits);
    push_step(&mut steps, current, target, true, ResourceComponent::DeviceReaders);
    push_step(&mut steps, current, target, false, ResourceComponent::ContentWorkers);
    push_step(&mut steps, current, target, false, ResourceComponent::MetadataLimits);
    push_step(&mut steps, current, target, false, ResourceComponent::DeviceReaders);
    assert(steps@ =~= planned(current, target));
    steps
}

/// The settings after one component was applied.
pub open spec fn with_component(
    current: ResourceSettings,
    target: ResourceSettings,
    c: ResourceComponent,
) -> ResourceSettings {
    match c {
        ResourceComponent::ContentWorkers => ResourceSettings {
            content_workers: target.content_workers,
            ..current
        },
        ResourceComponent::MetadataLimits => ResourceSettings {
            scan_threads: target.scan_threads,
            concurrent_scans: target.concurrent_scans,
            minimum_free_mib: target.minimum_free_mib,
            ..current
        },
        ResourceComponent::DeviceReaders => ResourceSettings {
            readers_per_device: target.readers_per_device,
            ..current
        },
        _ => current,
    }
}

/// The settings after a run of components was applied.
pub open spec fn with_steps(
    current: ResourceSettings,
    target: ResourceSettings,
    steps: Seq<ResourceComponent>,
) -> ResourceSettings
    decreases steps.len(),
{
    if steps.len() == 0 {
        current
    } else {
        with_component(with_steps(current, target, steps.drop_last()), target, steps.last())
    }
}

/// No component is planned twice, every planned one changes something, and at
/// most three steps are planned.
pub proof fn law_each_change_is_planned_once(
    current: ResourceSettings,
    target: ResourceSettings,
    c: ResourceComponent,
)
    ensures
        planned(current, target).len() <= 3,
        planned(current, target).no_duplicates(),
        planned(current, target).contains(c) <==> changes(current, target, c),
{
    let t = steps_of(current, target, true);
    let f = steps_of(current, target, false);
    let p = planned(current, target);
    lemma_direction(current, target, true);
    lemma_direction(current, target, false);
    assert forall|i: int, j: int| 0 <= i < j < p.len() implies p[i] != p[j] by {
        if j < t.len() {
            assert(p[i] == t[i] && p[j] == t[j]);
        } else if i >= t.len() {
            assert(p[i] == f[i - t.len()] && p[j] == f[j - t.len()]);
        } else {
            assert(p[i] == t[i] && p[j] == f[j - t.len()]);
            assert(t.contains(t[i]) && f.contains(f[j - t.len()]));
        }
    }
    if p.contains(c) {
        let i = p.index_of(c);
        if i < t.len() {
            assert(t[i] == c);
        } else {
            assert(f[i - t.len()] == c);
        }
    }
    if changes(current, target, c) {
        if tightens(current, target, c) {
            assert(t.contains(c));
            assert(p[t.index_of(c)] == c);
        } else {
            assert(f.contains(c));
            assert(p[t.len() + f.index_of(c)] == c);
        }
    }
}

/// The steps of one direction are exactly the changes in that direction.
proof fn lemma_direction(current: ResourceSettings, target: ResourceSettings, tighten: bool)
    ensures
        steps_of(current, target, tighten).no_duplicates(),
        forall|c: ResourceComponent| #[trigger]
            steps_of(current, target, tighten).contains(c) <==> changes(current, target, c)
                && tightens(current, target, c) == tighten,
        steps_of(current, target, true).len() + steps_of(current, target, false).len() <= 3,
{
    let cw = ResourceComponent::ContentWorkers;
    let ml = ResourceComponent::MetadataLimits;
    let dr = ResourceComponent::DeviceReaders;
    let a = one_step(current, target, tighten, cw);
    let b = one_step(current, target, tighten, ml);
    let d = one_step(current, target, tighten, dr);
    let s = steps_of(current, target, tighten);
    assert forall|c: ResourceComponent| #[trigger] s.contains(c) <==> changes(current, target, c)
        && tightens(current, target, c) == tighten by {
        if changes(current, target, c) && tightens(current, target, c) == tighten {
            if c == cw {
                assert(s[0] == c);
            } else if c == ml {
                assert(s[a.len() as int] == c);
            } else {
                assert(s[(a.len() + b.len()) as int] == c);
            }
        }
    }
}

/// Applying all planned steps reaches the target.
pub proof fn law_the_plan_reaches_the_target(current: ResourceSettings, target: ResourceSettings)
    ensures
        with_steps(current, target, planned(current, target)) == target,
{
    let p = planned(current, target);
    law_each_change_is_planned_once(current, target, ResourceComponent::ContentWorkers);
    law_each_change_is_planned_once(current, target, ResourceComponent::MetadataLimits);
    law_each_change_is_planned_once(current, target, ResourceComponent::DeviceReaders);
    lemma_steps_reach(current, target, p);
}

/// After a run of steps every component that is among them is the target's,
/// and every other is as it was.
proof fn lemma_steps_reach(
    current: ResourceSettings,
    target: ResourceSettings,
    steps: Seq<ResourceComponent>,
)
    ensures
        ({
            let r = with_steps(current, target, steps);
            &&& r.content_workers == (if steps.contains(ResourceComponent::ContentWorkers) {
                target.content_workers
            } else {
                current.content_workers
            })
            &&& r.limits() == (if steps.contains(ResourceComponent::MetadataLimits) {
                target.limits()
            } else {
                current.limits()
            })
            &&& r.readers_per_device == (if steps.contains(ResourceComponent::DeviceReaders) {
                target.readers_per_device
            } else {
                current.readers_per_device
            })
        }),
    decreases steps.len(),
{
    if steps.len() > 0 {
        let init = steps.drop_last();
        lemma_steps_reach(current, target, init);
        assert forall|c: ResourceComponent| steps.contains(c) == (init.contains(c) || c
            == steps.last()) by {
            if steps.contains(c) {
                let i = steps.index_of(c);
                if i < init.len() {
                    assert(init[i] == c);
                }
            }
            if init.contains(c) {
                let i = init.index_of(c);
                assert(steps[i] == c);
            }
            assert(steps[steps.len() - 1] == steps.last());
        }
    }
}

/// However far an operation came, and however far the journal lags behind it,
/// replaying the steps that the journal has not recorded reaches the target.
pub proof fn law_repair_reaches_the_target(
    current: ResourceSettings,
    target: ResourceSettings,
    recorded: int,
    applied: int,
)
    requires
        0 <= recorded <= applied <= planned(current, target).len(),
    ensures
        with_steps(
            with_steps(current, target, planned(current, target).take(applied)),
            target,
            planned(current, target).skip(recorded),
        ) == target,
{
    let p = planned(current, target);
    let done = p.take(applied);
    let left = p.skip(recorded);
    let mid = with_steps(current, target, done);
    lemma_steps_reach(current, target, done);
    lemma_steps_reach(mid, target, left);
    assert forall|c: ResourceComponent| changes(current, target, c) implies done.contains(c)
        || left.contains(c) by {
        law_each_change_is_planned_once(current, target, c);
        let i = p.index_of(c);
        if i < applied {
            assert(done[i] == c);
        } else {
            assert(left[i - recorded] == c);
        }
    }
    assert(changes(current, target, ResourceComponent::ContentWorkers) ==> done.contains(
        ResourceComponent::ContentWorkers,
    ) || left.contains(ResourceComponent::ContentWorkers));
    assert(changes(current, target, ResourceComponent::MetadataLimits) ==> done.contains(
        ResourceComponent::MetadataLimits,
    ) || left.contains(ResourceComponent::MetadataLimits));
    assert(changes(current, target, ResourceComponent::DeviceReaders) ==> done.contains(
        ResourceComponent::DeviceReaders,
    ) || left.contains(ResourceComponent::DeviceReaders));
}

/// Whatever tightens is applied before whatever relaxes.
pub proof fn law_tightening_precedes_relaxing(
    current: ResourceSettings,
    target: ResourceSettings,
    i: int,
    j: int,
)
    requires
        0 <= i < planned(current, target).len(),
        0 <= j < planned(current, target).len(),
        tightens(current, target, planned(current, target)[i]),
        !tightens(current, target, planned(current, target)[j]),
    ensures
        i < j,
{
    let t = steps_of(current, target, true);
    let r = steps_of(current, target, false);
    let p = planned(current, target);
    assert(p =~= t + r);
    if i >= t.len() {
        assert(p[i] == r[i - t.len()]);
        assert(!tightens(current, target, r[i - t.len()]));
    }
    if j < t.len() {
        assert(p[j] == t[j]);
        assert(tightens(current, target, t[j]));
    }
}

proof fn lemma_taken_away_first(
    current: ResourceSettings,
    target: ResourceSettings,
    k: int,
    given: ResourceComponent,
    c: ResourceComponent,
)
    requires
        0 <= k <= planned(current, target).len(),
        planned(current, target).take(k).contains(given),
        !tightens(current, target, given),
        changes(current, target, c),
        tightens(current, target, c),
    ensures
        planned(current, target).take(k).contains(c),
{
    let p = planned(current, target);
    let done = p.take(k);
    let j = done.index_of(given);
    assert(p[j] == given);
    law_each_change_is_planned_once(current, target, c);
    let i = p.index_of(c);
    law_tightening_precedes_relaxing(current, target, i, j);
    assert(done[i] == c);
}

/// No intermediate state gives capacity before all of it was taken that is to be
/// taken: wherever an operation stands, as soon as something allows more than it
/// did, nothing allows more than it will.
pub proof fn law_capacity_is_taken_before_any_is_given(
    current: ResourceSettings,
    target: ResourceSettings,
    k: int,
)
    requires
        0 <= k <= planned(current, target).len(),
    ensures
        ({
            let s = with_steps(current, target, planned(current, target).take(k));
            let takes_limits = target.scan_threads < current.scan_threads
                || target.concurrent_scans < current.concurrent_scans || target.minimum_free_mib
                > current.minimum_free_mib;
            let gives = s.content_workers > current.content_workers || s.readers_per_device
                > current.readers_per_device || (!takes_limits && (s.scan_threads
                > current.scan_threads || s.concurrent_scans > current.concurrent_scans
                || s.minimum_free_mib < current.minimum_free_mib));
            gives ==> {
                &&& s.content_workers <= target.content_workers
                &&& s.scan_threads <= target.scan_threads
                &&& s.concurrent_scans <= target.concurrent_scans
                &&& s.minimum_free_mib >= target.minimum_free_mib
                &&& s.readers_per_device <= target.readers_per_device
            }
        }),
{
    let p = planned(current, target);
    let done = p.take(k);
    lemma_steps_reach(current, target, done);
    let w = ResourceComponent::ContentWorkers;
    let l = ResourceComponent::MetadataLimits;
    let d = ResourceComponent::DeviceReaders;
    assert forall|given: ResourceComponent, c: ResourceComponent|
        done.contains(given) && !(#[trigger] tightens(current, target, given)) && #[trigger] changes(
            current,
            target,
            c,
        ) && tightens(current, target, c) implies done.contains(c) by {
        lemma_taken_away_first(current, target, k, given, c);
    }
    assert(tightens(current, target, w) ==> changes(current, target, w));
    assert(tightens(current, target, l) ==> changes(current, target, l));
    assert(tightens(current, target, d) ==> changes(current, target, d));
}

/// Settings are accepted exactly within their ranges, and what is done to a
/// component is what its target says, no more and no less.
pub proof fn law_a_component_changes_its_own_settings(
    current: ResourceSettings,
    target: ResourceSettings,
    c: ResourceComponent,
)
    ensures
        target.problem() is None <==> 1 <= target.content_workers <= 64 && 1 <= target.scan_threads
            <= 64 && 1 <= target.concurrent_scans <= 16 && 1 <= target.readers_per_device <= 64,
        ({
            let s = with_component(current, target, c);
            match change_of(target, c) {
                Some(ComponentChange::Workers(n)) => n == target.content_workers && s == (
                ResourceSettings { content_workers: n, ..current }),
                Some(ComponentChange::Limits(limits)) => limits.scan_threads == target.scan_threads
                    && limits.concurrent_scans == target.concurrent_scans
                    && limits.minimum_free_mib == target.minimum_free_mib && s == (
                ResourceSettings {
                    scan_threads: limits.scan_threads,
                    concurrent_scans: limits.concurrent_scans,
                    minimum_free_mib: limits.minimum_free_mib,
                    ..current
                }),
                Some(ComponentChange::Readers(limits)) => limits.readers_per_device
                    == target.readers_per_device && s == (ResourceSettings {
                    readers_per_device: limits.readers_per_device,
                    ..current
                }),
                None => s == current,
            }
        }),
        change_of(target, ResourceComponent::ContentWorkers) is Some,
        change_of(target, ResourceComponent::MetadataLimits) is Some,
        change_of(target, ResourceComponent::DeviceReaders) is Some,
{
}

// ----- the journal ----------------------------------------------------------

#[derive(Debug)]
pub struct OperationFailure {
    pub component: ResourceComponent,
    pub error: String,
}

pub struct FailureModel {
    pub component: ResourceComponent,
    pub error: Seq<char>,
}

pub open spec fn opt_failure(f: Option<OperationFailure>) -> Option<FailureModel> {
    match f {
        Some(f) => Some(f@),
        None => None,
    }
}

impl View for OperationFailure {
    type V = FailureModel;

    open spec fn view(&self) -> FailureModel {
        FailureModel { component: self.component, error: self.error@ }
    }
}

impl OperationFailure {
    pub fn copy(&self) -> (r: OperationFailure)
        ensures
            r@ == self@,
    {
        OperationFailure { component: self.component, error: self.error.clone() }
    }
}

/// An operation that is under way.
#[derive(Debug)]
pub struct OperationJournal {
    pub version: u32,
    pub target: ResourceSettings,
    pub steps: Vec<ResourceComponent>,
    pub completed: usize,
    pub failure: Option<OperationFailure>,
}

pub struct JournalModel {
    pub version: u32,
    pub target: ResourceSettings,
    pub steps: Seq<ResourceComponent>,
    pub completed: nat,
    pub failure: Option<FailureModel>,
}

impl View for OperationJournal {
    type V = JournalModel;

    open spec fn view(&self) -> JournalModel {
        JournalModel {
            version: self.version,
            target: self.target,
            steps: self.steps@,
            completed: self.completed as nat,
            failure: opt_failure(self.failure),
        }
    }
}

/// Why a stored journal is refused.
pub open spec fn journal_problem(j: JournalModel) -> Option<Seq<char>> {
    if j.version != JOURNAL_VERSION {
        Some("unsupported coordinated resource journal version "@ + decimal(j.version as nat))
    } else if j.target.problem() is Some {
        j.target.problem()
    } else if !(1 <= j.steps.len() <= 3) {
        Some("invalid coordinated resource step count"@)
    } else if j.completed > j.steps.len() {
        Some("invalid completed step count"@)
    } else if exists|i: int| 0 <= i < j.steps.len() && !(#[trigger] j.steps[i]).is_setting() {
        Some("invalid component in coordinated resource journal"@)
    } else if !j.steps.no_duplicates() {
        Some("duplicate component in coordinated resource journal"@)
    } else {
        None
    }
}

/// Hold a stored journal to what an operation writes.
pub fn check_journal(j: &OperationJournal) -> (r: Result<(), String>)
    ensures
        match journal_problem(j@) {
            None => r is Ok,
            Some(p) => r matches Err(e) && e@ == p,
        },
{
    if j.version != JOURNAL_VERSION {
        let mut m = "unsupported coordinated resource journal version ".to_owned();
        push_decimal(&mut m, j.version as u64);
        return Err(m);
    }
    match j.target.validate() {
        Err(e) => {
            return Err(e.to_owned());
        },
        Ok(()) => {},
    }
    if !(1 <= j.steps.len() && j.steps.len() <= 3) {
        return Err("invalid coordinated resource step count".to_owned());
    }
    if j.completed > j.steps.len() {
        return Err("invalid completed step count".to_owned());
    }
    let mut i: usize = 0;
    while i < j.steps.len()
        invariant
            0 <= i <= j.steps.len(),
            j.version == JOURNAL_VERSION,
            j.target.problem() is None,
            1 <= j.steps@.len() <= 3,
            j.completed <= j.steps@.len(),
            forall|k: int| 0 <= k < i ==> (#[trigger] j.steps@[k]).is_setting(),
        decreases j.steps.len() - i,
    {
        let ok: bool = match j.steps[i] {
            ResourceComponent::ContentWorkers => true,
            ResourceComponent::MetadataLimits => true,
            ResourceComponent::DeviceReaders => true,
            _ => false,
        };
        if !ok {
            assert(!j@.steps[i as int].is_setting());
            return Err("invalid component in coordinated resource journal".to_owned());
        }
        i += 1;
    }
    let mut a: usize = 0;
    while a < j.steps.len()
        invariant
            0 <= a <= j.steps.len(),
            j.version == JOURNAL_VERSION,
            j.target.problem() is None,
            1 <= j.steps@.len() <= 3,
            j.completed <= j.steps@.len(),
            forall|k: int| 0 <= k < j.steps@.len() ==> (#[trigger] j.steps@[k]).is_setting(),
            forall|p: int, q: int| 0 <= p < q < a ==> j.steps@[p] != j.steps@[q],
        decreases j.steps.len() - a,
    {
        let mut b: usize = 0;
        while b < a
            invariant
                0 <= b <= a < j.steps.len(),
                j.version == JOURNAL_VERSION,
                j.target.problem() is None,
                1 <= j.steps@.len() <= 3,
                j.completed <= j.steps@.len(),
                forall|k: int| 0 <= k < j.steps@.len() ==> (#[trigger] j.steps@[k]).is_setting(),
                forall|p: int| 0 <= p < b ==> j.steps@[p] != j.steps@[a as int],
            decreases a - b,
        {
            if j.steps[b] == j.steps[a] {
                assert(j@.steps[b as int] == j@.steps[a as int]);
                assert(!j@.steps.no_duplicates());
                return Err("duplicate component in coordinated resource journal".to_owned());
            }
            b += 1;
        }
        a += 1;
    }
    Ok(())
}

/// How an oversized journal is refused; nothing of it is parsed.
pub fn journal_too_large(path: &str, bytes: u64) -> (r: Option<String>)
    ensures
        if bytes <= MAX_JOURNAL_BYTES {
            r is None
        } else {
            r is Some && r->0@ == path@ + " exceeds "@ + decimal(MAX_JOURNAL_BYTES as nat)
                + " bytes"@
        },
{
    if bytes <= MAX_JOURNAL_BYTES {
        return None;
    }
    let mut m = path.to_owned().concat(" exceeds ");
    push_decimal(&mut m, MAX_JOURNAL_BYTES);
    m.append(" bytes");
    Some(m)
}

/// The journal of a new operation, or nothing where nothing changes.
pub fn plan_operation(current: ResourceSettings, target: ResourceSettings) -> (r: Option<
    OperationJournal,
>)
    ensures
        r is Some <==> planned(current, target).len() > 0,
        r matches Some(j) ==> j@ == (JournalModel {
            version: JOURNAL_VERSION,
            target,
            steps: planned(current, target),
            completed: 0,
            failure: None,
        }),
{
    let steps = ordered_steps(current, target);
    if steps.len() == 0 {
        return None;
    }
    Some(
        OperationJournal {
            version: JOURNAL_VERSION,
            target,
            steps,
            completed: 0,
            failure: None,
        },
    )
}

/// A stored journal is accepted exactly if it is of this version, has a target
/// within its ranges and one to three steps, each a setting and none twice, and
/// counts no more steps as done than it has.
pub proof fn law_only_sound_journals_are_accepted(j: JournalModel)
    ensures
        journal_problem(j) is None <==> {
            &&& j.version == 1
            &&& j.target.problem() is None
            &&& 1 <= j.steps.len() <= 3
            &&& j.completed <= j.steps.len()
            &&& forall|i: int|
                0 <= i < j.steps.len() ==> (#[trigger] j.steps[i]) == ResourceComponent::ContentWorkers
                    || j.steps[i] == ResourceComponent::MetadataLimits || j.steps[i]
                    == ResourceComponent::DeviceReaders
            &&& forall|a: int, b: int|
                0 <= a < b < j.steps.len() ==> #[trigger] j.steps[a] != #[trigger] j.steps[b]
        },
{
    if exists|i: int| 0 <= i < j.steps.len() && !(#[trigger] j.steps[i]).is_setting() {
        let i = choose|i: int| 0 <= i < j.steps.len() && !(#[trigger] j.steps[i]).is_setting();
        assert(j.steps[i] != ResourceComponent::ContentWorkers);
    }
    if forall|a: int, b: int|
        0 <= a < b < j.steps.len() ==> #[trigger] j.steps[a] != #[trigger] j.steps[b] {
        assert(j.steps.no_duplicates());
    }
}

/// Every journal that an operation writes is one that a restart accepts.
pub proof fn law_planned_journals_are_accepted(current: ResourceSettings, target: ResourceSettings)
    requires
        target.problem() is None,
        planned(current, target).len() > 0,
    ensures
        journal_problem(
            JournalModel {
                version: JOURNAL_VERSION,
                target,
                steps: planned(current, target),
                completed: 0,
                failure: None,
            },
        ) is None,
{
    let p = planned(current, target);
    law_each_change_is_planned_once(current, target, ResourceComponent::ContentWorkers);
    assert forall|i: int| 0 <= i < p.len() implies (#[trigger] p[i]).is_setting() by {
        assert(p.contains(p[i]));
        law_each_change_is_planned_once(current, target, p[i]);
    }
}

// ----- running an operation -------------------------------------------------

#[derive(Debug, Clone, Copy, PartialEq, Eq, Structural)]
pub enum ResourceApplyOutcome {
    Current,
    Applied,
    Partial,
    Failed,
}

/// What applying a component means for its owner.
#[derive(Debug, Clone, Copy, PartialEq, Eq, Structural)]
pub enum ComponentChange {
    Workers(u32),
    Limits(ResourceLimits),
    Readers(DeviceLimits),
}

pub const INVALID_COMPONENT: &'static str = "invalid settings component in operation plan";

/// The change that a component makes, if settings have it.
pub open spec fn change_of(target: ResourceSettings, component: ResourceComponent) -> Option<
    ComponentChange,
> {
    match component {
        ResourceComponent::ContentWorkers => Some(ComponentChange::Workers(target.content_workers)),
        ResourceComponent::MetadataLimits => Some(ComponentChange::Limits(target.limits())),
        ResourceComponent::DeviceReaders => Some(ComponentChange::Readers(target.readers())),
        _ => None,
    }
}

pub fn component_change(target: ResourceSettings, component: ResourceComponent) -> (r: Result<
    ComponentChange,
    &'static str,
>)
    ensures
        match change_of(target, component) {
            Some(change) => r == Ok::<ComponentChange, &'static str>(change),
            None => r matches Err(e) && e@ == INVALID_COMPONENT@,
        },
{
    match component {
        ResourceComponent::ContentWorkers => Ok(ComponentChange::Workers(target.content_workers)),
        ResourceComponent::MetadataLimits => Ok(ComponentChange::Limits(target.resource_limits())),
        ResourceComponent::DeviceReaders => Ok(ComponentChange::Readers(target.device_limits())),
        _ => Err(INVALID_COMPONENT),
    }
}

/// The settings in force. Before any worker was spawned the configured number
/// of workers stands for the running one.
pub fn current_settings(
    spawned: usize,
    configured_workers: u32,
    running_workers: u32,
    limits: ResourceLimits,
    readers_per_device: u32,
) -> (r: ResourceSettings)
    ensures
        r.limits() == limits,
        r.readers_per_device == readers_per_device,
        r.content_workers == (if spawned == 0 {
            configured_workers
        } else {
            running_workers
        }),
{
    ResourceSettings {
        content_workers: if spawned == 0 {
            configured_workers
        } else {
            running_workers
        },
        scan_threads: limits.scan_threads,
        concurrent_scans: limits.concurrent_scans,
        minimum_free_mib: limits.minimum_free_mib,
        readers_per_device,
    }
}

/// What to do next for an operation.
#[derive(Debug, Clone, Copy, PartialEq, Eq, Structural)]
pub enum OperationStep {
    /// Apply this component, and then record what came of it.
    Apply(ResourceComponent),
    /// Everything is applied and recorded: remove the journal.
    RemoveJournal,
}

/// How an operation goes on after its journal was written.
#[derive(Debug, Clone, Copy, PartialEq, Eq, Structural)]
pub enum OperationTurn {
    Continue,
    /// The operation stops here and stays pending.
    Stop,
}

impl OperationJournal {
    pub open spec fn spec_next_step(j: JournalModel) -> OperationStep {
        if j.completed < j.steps.len() {
            OperationStep::Apply(j.steps[j.completed as int])
        } else {
            OperationStep::RemoveJournal
        }
    }

    pub fn next_step(&self) -> (r: OperationStep)
        ensures
            r == Self::spec_next_step(self@),
    {
        if self.completed < self.steps.len() {
            OperationStep::Apply(self.steps[self.completed])
        } else {
            OperationStep::RemoveJournal
        }
    }

    /// The next component was applied, or could not be. Either way the journal
    /// has to be written.
    pub fn note_applied(&mut self, applied: Result<(), String>)
        requires
            old(self)@.completed < old(self)@.steps.len(),
        ensures
            final(self)@ == noted(
                old(self)@,
                match applied {
                    Ok(_) => None,
                    Err(e) => Some(e@),
                },
            ),
    {
        match applied {
            Ok(_) => {
                let total: usize = self.steps.len();
                assert(self.completed < total);
                self.completed = self.completed + 1;
                self.failure = None;
            },
            Err(error) => {
                let component = self.steps[self.completed];
                self.failure = Some(OperationFailure { component, error });
            },
        }
    }
}

/// A journal after its next component was applied, or failed with an error.
pub open spec fn noted(j: JournalModel, error: Option<Seq<char>>) -> JournalModel {
    match error {
        None => JournalModel { completed: j.completed + 1, failure: None, ..j },
        Some(e) => JournalModel {
            failure: Some(FailureModel { component: j.steps[j.completed as int], error: e }),
            ..j
        },
    }
}

/// The next step is the first component that is not done; once it was applied it
/// is done, and if it failed it is tried again. The journal is removed when
/// every component is done, and not before.
pub proof fn law_the_journal_is_removed_last(j: JournalModel, error: Seq<char>)
    requires
        j.completed <= j.steps.len(),
    ensures
        match OperationJournal::spec_next_step(j) {
            OperationStep::Apply(c) => {
                &&& j.steps.take(noted(j, None).completed as int) == j.steps.take(
                    j.completed as int,
                ).push(c)
                &&& OperationJournal::spec_next_step(noted(j, Some(error)))
                    == OperationJournal::spec_next_step(j)
                &&& noted(j, Some(error)).failure == Some(FailureModel { component: c, error })
            },
            OperationStep::RemoveJournal => j.steps.take(j.completed as int) == j.steps,
        },
        j.completed < j.steps.len() ==> OperationJournal::spec_next_step(j) is Apply,
{
    if j.completed < j.steps.len() {
        assert(j.steps.take((j.completed + 1) as int) =~= j.steps.take(j.completed as int).push(
            j.steps[j.completed as int],
        ));
    } else {
        assert(j.steps.take(j.completed as int) =~= j.steps);
    }
}

/// Noting how a step went, well or badly, leaves a journal that a restart
/// accepts.
pub proof fn law_running_keeps_the_journal_acceptable(j: JournalModel, error: Option<Seq<char>>)
    requires
        journal_problem(j) is None,
        j.completed < j.steps.len(),
    ensures
        journal_problem(noted(j, error)) is None,
{
}

/// What the live process remembers after it tried to write a journal: a
/// component's own failure, with the trouble of recording it; or that progress
/// could not be recorded.
pub open spec fn remembered(j: JournalModel, written: Option<Seq<char>>) -> Option<FailureModel> {
    match j.failure {
        Some(f) => Some(
            FailureModel {
                component: f.component,
                error: match written {
                    None => f.error,
                    Some(w) => f.error + "; recording that failure also failed: "@ + w,
                },
            },
        ),
        None => match written {
            None => None,
            Some(w) => Some(
                FailureModel {
                    component: ResourceComponent::OperationJournal,
                    error: j.steps[j.completed - 1].title()
                        + " changed, but progress could not be checkpointed: "@ + w,
                },
            ),
        },
    }
}

/// What is remembered of a finished operation whose journal stays behind.
pub open spec fn uncleaned(error: Seq<char>) -> FailureModel {
    FailureModel {
        component: ResourceComponent::JournalCleanup,
        error: "all target settings are live, but the completed operation journal could not be removed: "@
            + error,
    }
}

pub open spec fn opt_error(r: Result<(), String>) -> Option<Seq<char>> {
    match r {
        Ok(_) => None,
        Err(e) => Some(e@),
    }
}

/// A request to change settings together.
#[derive(Debug)]
pub enum ApplyStart {
    /// The settings are the requested ones already: this is shown.
    Settled(ResourceSettingsView),
    /// Write this journal, and then run its operation.
    Begin(OperationJournal),
}

/// A request to finish what is pending.
#[derive(Debug)]
pub enum RepairStart {
    /// Nothing is pending: this is shown.
    Settled(ResourceSettingsView),
    /// Run this operation to its end.
    Resume(OperationJournal),
}

/// The coordination of every manual or coordinated mutation. It retains a
/// live-process checkpoint/cleanup error that could not itself be written into
/// the journal, so polling does not erase it.
#[derive(Debug)]
pub struct ResourceProfileControl {
    pub last_failure: Option<OperationFailure>,
}

pub const UNREADABLE_FOR_MANUAL: &'static str =
    "cannot verify the coordinated resource journal: ";

pub const UNREADABLE: &'static str = "cannot read the coordinated resource journal: ";

pub const INCOMPLETE_FOR_MANUAL: &'static str =
    "a coordinated resource change is incomplete; repair it before saving an individual control";

pub const INCOMPLETE_FOR_APPLY: &'static str =
    "a coordinated resource change is incomplete; repair it before applying another target";

impl ResourceProfileControl {
    pub fn new() -> (r: ResourceProfileControl)
        ensures
            r.last_failure is None,
    {
        ResourceProfileControl { last_failure: None }
    }

    /// Ordinary single-control endpoints stop if a coordinated target still
    /// needs repair. This prevents a manual edit from silently changing the
    /// target that restart recovery will replay.
    pub fn admit_manual_update(&self, journal: &Result<Option<OperationJournal>, String>) -> (r:
        Result<(), ApiError>)
        ensures
            match *journal {
                Ok(None) => r is Ok,
                Ok(Some(_)) => r matches Err(e) && e@ == ApiErrorModel::conflict(
                    INCOMPLETE_FOR_MANUAL@,
                ),
                Err(error) => r matches Err(e) && e@ == ApiErrorModel::internal(
                    UNREADABLE_FOR_MANUAL@ + error@,
                ),
            },
    {
        match journal {
            Ok(None) => Ok(()),
            Ok(Some(_)) => Err(ApiError::conflict(INCOMPLETE_FOR_MANUAL.to_owned())),
            Err(error) => Err(
                ApiError::internal(UNREADABLE_FOR_MANUAL.to_owned().concat(error)),
            ),
        }
    }

    /// A manual update was made, or failed. Only one that was made clears the
    /// remembered failure.
    pub fn manual_update<T>(&mut self, updated: Result<T, String>) -> (r: Result<T, ApiError>)
        ensures
            match updated {
                Ok(value) => r == Ok::<T, ApiError>(value) && final(self).last_failure is None,
                Err(error) => (r matches Err(e) && e@ == ApiErrorModel::internal(error@))
                    && *final(self) == *old(self),
            },
    {
        match updated {
            Ok(value) => {
                self.last_failure = None;
                Ok(value)
            },
            Err(error) => Err(ApiError::internal(error)),
        }
    }

    pub fn status(
        &self,
        current: ResourceSettings,
        journal: &Result<Option<OperationJournal>, String>,
    ) -> (r: Result<ResourceSettingsView, ApiError>)
        ensures
            match *journal {
                Err(error) => r matches Err(e) && e@ == ApiErrorModel::internal(
                    UNREADABLE@ + error@,
                ),
                Ok(j) => r matches Ok(v) && shows_settings(
                    v,
                    current,
                    ResourceApplyOutcome::Current,
                    match j {
                        Some(j) => Some(j@),
                        None => None,
                    },
                    opt_failure(self.last_failure),
                ),
            },
    {
        match journal {
            Err(error) => Err(ApiError::internal(UNREADABLE.to_owned().concat(error))),
            Ok(None) => Ok(
                settings_view(
                    current,
                    ResourceApplyOutcome::Current,
                    None,
                    self.last_failure.as_ref(),
                ),
            ),
            Ok(Some(j)) => Ok(
                settings_view(
                    current,
                    ResourceApplyOutcome::Current,
                    Some(j),
                    self.last_failure.as_ref(),
                ),
            ),
        }
    }

    /// A request for new settings. A target that is out of range is refused
    /// first; so is any target while an earlier operation is incomplete.
    pub fn apply(
        &mut self,
        current: ResourceSettings,
        target: ResourceSettings,
        journal: &Result<Option<OperationJournal>, String>,
    ) -> (r: Result<ApplyStart, ApiError>)
        ensures
            r is Err ==> *final(self) == *old(self),
            r is Ok ==> final(self).last_failure is None,
            match target.problem() {
                Some(p) => r matches Err(e) && e@ == ApiErrorModel::bad_request(p),
                None => match *journal {
                    Err(error) => r matches Err(e) && e@ == ApiErrorModel::internal(error@),
                    Ok(Some(_)) => r matches Err(e) && e@ == ApiErrorModel::conflict(
                        INCOMPLETE_FOR_APPLY@,
                    ),
                    Ok(None) => if planned(current, target).len() == 0 {
                        r matches Ok(ApplyStart::Settled(v)) && shows_settings(
                            v,
                            current,
                            ResourceApplyOutcome::Applied,
                            None,
                            None,
                        )
                    } else {
                        r matches Ok(ApplyStart::Begin(j)) && j@ == (JournalModel {
                            version: JOURNAL_VERSION,
                            target,
                            steps: planned(current, target),
                            completed: 0,
                            failure: None,
                        })
                    },
                },
            },
    {
        match target.validate() {
            Err(e) => {
                return Err(ApiError::bad_request(e.to_owned()));
            },
            Ok(()) => {},
        }
        match journal {
            Err(error) => {
                return Err(ApiError::internal(error.clone()));
            },
            Ok(Some(_)) => {
                return Err(ApiError::conflict(INCOMPLETE_FOR_APPLY.to_owned()));
            },
            Ok(None) => {},
        }
        self.last_failure = None;
        match plan_operation(current, target) {
            None => Ok(
                ApplyStart::Settled(
                    settings_view(current, ResourceApplyOutcome::Applied, None, None),
                ),
            ),
            Some(j) => Ok(ApplyStart::Begin(j)),
        }
    }

    /// The journal of a new operation could not be written: nothing changed, and
    /// the request failed.
    pub fn journal_unwritten(&mut self, current: ResourceSettings, error: &str) -> (r:
        ResourceSettingsView)
        ensures
            shows_settings(
                r,
                current,
                ResourceApplyOutcome::Failed,
                None,
                opt_failure(final(self).last_failure),
            ),
            opt_failure(final(self).last_failure) == Some(
                FailureModel {
                    component: ResourceComponent::OperationJournal,
                    error: "no settings changed because the operation journal could not be written: "@
                        + error@,
                },
            ),
    {
        self.last_failure = Some(
            OperationFailure {
                component: ResourceComponent::OperationJournal,
                error: "no settings changed because the operation journal could not be written: ".to_owned().concat(
                    error,
                ),
            },
        );
        settings_view(current, ResourceApplyOutcome::Failed, None, self.last_failure.as_ref())
    }

    /// A request to finish what is pending. Nothing pending is no error, and
    /// clears the remembered failure.
    pub fn repair(
        &mut self,
        current: ResourceSettings,
        journal: Result<Option<OperationJournal>, String>,
    ) -> (r: Result<RepairStart, ApiError>)
        ensures
            match journal {
                Err(error) => (r matches Err(e) && e@ == ApiErrorModel::internal(
                    UNREADABLE@ + error@,
                )) && *final(self) == *old(self),
                Ok(Some(j)) => r == Ok::<RepairStart, ApiError>(RepairStart::Resume(j))
                    && *final(self) == *old(self),
                Ok(None) => (r matches Ok(RepairStart::Settled(v)) && shows_settings(
                    v,
                    current,
                    ResourceApplyOutcome::Current,
                    None,
                    None,
                )) && final(self).last_failure is None,
            },
    {
        match journal {
            Err(error) => Err(ApiError::internal(UNREADABLE.to_owned().concat(&error))),
            Ok(None) => {
                self.last_failure = None;
                Ok(
                    RepairStart::Settled(
                        settings_view(current, ResourceApplyOutcome::Current, None, None),
                    ),
                )
            },
            Ok(Some(j)) => Ok(RepairStart::Resume(j)),
        }
    }

    /// The journal was written after [`OperationJournal::note_applied`], or
    /// could not be. A failed component and unrecorded progress stop the
    /// operation; it stays pending.
    pub fn checkpointed(&mut self, journal: &mut OperationJournal, written: Result<(), String>) -> (r:
        OperationTurn)
        requires
            old(journal)@.completed <= old(journal)@.steps.len(),
            old(journal)@.failure is None ==> old(journal)@.completed > 0,
        ensures
            r == (if remembered(old(journal)@, opt_error(written)) is Some {
                OperationTurn::Stop
            } else {
                OperationTurn::Continue
            }),
            r == OperationTurn::Continue ==> *final(self) == *old(self) && final(journal)@ == old(
                journal,
            )@,
            r == OperationTurn::Stop ==> {
                &&& opt_failure(final(self).last_failure) == remembered(
                    old(journal)@,
                    opt_error(written),
                )
                &&& final(journal)@ == (if old(journal)@.failure is Some {
                    old(journal)@
                } else {
                    JournalModel {
                        failure: remembered(old(journal)@, opt_error(written)),
                        ..old(journal)@
                    }
                })
            },
    {
        match &journal.failure {
            Some(f) => {
                let error = match &written {
                    Ok(_) => f.error.clone(),
                    Err(w) => f.error.clone().concat(
                        "; recording that failure also failed: ",
                    ).concat(w),
                };
                self.last_failure = Some(OperationFailure { component: f.component, error });
                return OperationTurn::Stop;
            },
            None => {},
        }
        match &written {
            Ok(_) => OperationTurn::Continue,
            Err(w) => {
                let component = journal.steps[journal.completed - 1];
                let failure = OperationFailure {
                    component: ResourceComponent::OperationJournal,
                    error: component_name(component).to_owned().concat(
                        " changed, but progress could not be checkpointed: ",
                    ).concat(w),
                };
                journal.failure = Some(failure.copy());
                self.last_failure = Some(failure);
                OperationTurn::Stop
            },
        }
    }

    /// The journal of a finished operation was removed, or could not be.
    /// Returns whether the operation is over.
    pub fn removed(&mut self, journal: &mut OperationJournal, removal: Result<(), String>) -> (r:
        bool)
        ensures
            r == (removal is Ok),
            r ==> final(self).last_failure is None && final(journal)@ == old(journal)@,
            removal matches Err(error) ==> {
                let failure = uncleaned(error@);
                &&& opt_failure(final(self).last_failure) == Some(failure)
                &&& final(journal)@ == (JournalModel { failure: Some(failure), ..old(journal)@ })
            },
    {
        match &removal {
            Ok(_) => {
                self.last_failure = None;
                true
            },
            Err(error) => {
                let failure = OperationFailure {
                    component: ResourceComponent::JournalCleanup,
                    error: "all target settings are live, but the completed operation journal could not be removed: ".to_owned().concat(
                        error,
                    ),
                };
                journal.failure = Some(failure.copy());
                self.last_failure = Some(failure);
                false
            },
        }
    }
}

// ----- a live operation -----------------------------------------------------

/// What a live operation does to the process and its files.
pub struct LiveOperation<A, W, R, C> {
    /// Make a change to the component that owns it.
    pub apply: A,
    /// Write the journal.
    pub write: W,
    /// Remove the journal.
    pub remove: R,
    /// The settings in force.
    pub current: C,
}

/// How one step went: the error of applying it, and that of writing the
/// journal after it.
pub struct LiveStep {
    pub applied: Option<Seq<char>>,
    pub written: Option<Seq<char>>,
}

impl LiveStep {
    pub open spec fn went_well(self) -> bool {
        self.applied is None && self.written is None
    }
}

pub open spec fn runnable<
    A: Fn(ComponentChange) -> Result<(), String>,
    W: Fn(&OperationJournal) -> Result<(), String>,
    R: Fn() -> Result<(), String>,
    C: Fn() -> ResourceSettings,
>(ops: LiveOperation<A, W, R, C>) -> bool {
    &&& forall|c: ComponentChange| call_requires(ops.apply, (c,))
    &&& forall|j: &OperationJournal| call_requires(ops.write, (j,))
    &&& call_requires(ops.remove, ())
    &&& call_requires(ops.current, ())
}

/// Applying a component ended with this error, or with none.
pub open spec fn applied_is<A: Fn(ComponentChange) -> Result<(), String>>(
    apply: A,
    target: ResourceSettings,
    component: ResourceComponent,
    error: Option<Seq<char>>,
) -> bool {
    match change_of(target, component) {
        None => error == Some(INVALID_COMPONENT@),
        Some(change) => exists|r: Result<(), String>| #[trigger]
            call_ensures(apply, (change,), r) && opt_error(r) == error,
    }
}

/// Writing a journal ended with this error, or with none.
pub open spec fn written_is<W: Fn(&OperationJournal) -> Result<(), String>>(
    write: W,
    journal: JournalModel,
    error: Option<Seq<char>>,
) -> bool {
    exists|j: &OperationJournal, r: Result<(), String>| #[trigger]
        call_ensures(write, (j,), r) && j@ == journal && opt_error(r) == error
}

/// Removing the journal ended with this error, or with none.
pub open spec fn removed_is<R: Fn() -> Result<(), String>>(remove: R, error: Option<Seq<char>>) -> bool {
    exists|r: Result<(), String>| #[trigger] call_ensures(remove, (), r) && opt_error(r) == error
}

/// A journal once `n` more steps were applied.
pub open spec fn progressed(j: JournalModel, n: nat) -> JournalModel {
    if n == 0 {
        j
    } else {
        JournalModel { completed: j.completed + n, failure: None, ..j }
    }
}

/// The next step of a journal was applied, and the journal written, as said.
pub open spec fn step_is<
    A: Fn(ComponentChange) -> Result<(), String>,
    W: Fn(&OperationJournal) -> Result<(), String>,
    R: Fn() -> Result<(), String>,
    C: Fn() -> ResourceSettings,
>(ops: LiveOperation<A, W, R, C>, j: JournalModel, step: LiveStep) -> bool {
    &&& applied_is(ops.apply, j.target, j.steps[j.completed as int], step.applied)
    &&& written_is(ops.write, noted(j, step.applied), step.written)
}

/// The steps that an operation took: what its journal still held, in order, up
/// to the first that went wrong.
pub open spec fn steps_taken<
    A: Fn(ComponentChange) -> Result<(), String>,
    W: Fn(&OperationJournal) -> Result<(), String>,
    R: Fn() -> Result<(), String>,
    C: Fn() -> ResourceSettings,
>(ops: LiveOperation<A, W, R, C>, j: JournalModel, steps: Seq<LiveStep>) -> bool {
    &&& j.completed + steps.len() <= j.steps.len()
    &&& forall|i: int|
        0 <= i < steps.len() ==> step_is(ops, progressed(j, i as nat), #[trigger] steps[i])
    &&& forall|i: int| 0 <= i < steps.len() - 1 ==> (#[trigger] steps[i]).went_well()
}

/// Whether a step went wrong.
pub open spec fn stopped(steps: Seq<LiveStep>) -> bool {
    steps.len() > 0 && !steps.last().went_well()
}

/// What an operation did: its steps, and then, unless one went wrong, the
/// removal of its journal.
pub open spec fn live_ran<
    A: Fn(ComponentChange) -> Result<(), String>,
    W: Fn(&OperationJournal) -> Result<(), String>,
    R: Fn() -> Result<(), String>,
    C: Fn() -> ResourceSettings,
>(
    ops: LiveOperation<A, W, R, C>,
    j: JournalModel,
    steps: Seq<LiveStep>,
    removal: Option<Seq<char>>,
) -> bool {
    &&& steps_taken(ops, j, steps)
    &&& !stopped(steps) ==> j.completed + steps.len() == j.steps.len() && removed_is(
        ops.remove,
        removal,
    )
}

/// How an operation ended.
pub struct LiveEnd {
    pub outcome: ResourceApplyOutcome,
    pub journal: JournalModel,
    /// What the live process remembers.
    pub failure: Option<FailureModel>,
}

pub open spec fn live_end(j: JournalModel, steps: Seq<LiveStep>, removal: Option<Seq<char>>) -> LiveEnd {
    if stopped(steps) {
        let last = steps.last();
        let after = noted(progressed(j, (steps.len() - 1) as nat), last.applied);
        let failure = remembered(after, last.written);
        LiveEnd {
            outcome: ResourceApplyOutcome::Partial,
            journal: if after.failure is Some {
                after
            } else {
                JournalModel { failure, ..after }
            },
            failure,
        }
    } else {
        let after = progressed(j, steps.len());
        match removal {
            None => LiveEnd {
                outcome: ResourceApplyOutcome::Applied,
                journal: after,
                failure: None,
            },
            Some(e) => LiveEnd {
                outcome: ResourceApplyOutcome::Partial,
                journal: JournalModel { failure: Some(uncleaned(e)), ..after },
                failure: Some(uncleaned(e)),
            },
        }
    }
}

/// An operation ends as applied exactly when every step was applied, every
/// journal was written and the removal succeeded, and then nothing is pending
/// or remembered. Else it ends as partial, with a failure remembered, and what
/// is pending names the target and exactly the steps that took effect.
pub proof fn law_applied_means_everything_succeeded<
    A: Fn(ComponentChange) -> Result<(), String>,
    W: Fn(&OperationJournal) -> Result<(), String>,
    R: Fn() -> Result<(), String>,
    C: Fn() -> ResourceSettings,
>(
    ops: LiveOperation<A, W, R, C>,
    j: JournalModel,
    steps: Seq<LiveStep>,
    removal: Option<Seq<char>>,
    v: ResourceSettingsView,
    current: ResourceSettings,
)
    requires
        live_ran(ops, j, steps, removal),
        ends_as(v, current, live_end(j, steps, removal)),
    ensures
        ({
            let end = live_end(j, steps, removal);
            let all = forall|i: int|
                0 <= i < steps.len() ==> (#[trigger] steps[i]).applied is None && steps[i].written
                    is None;
            let took_effect = if stopped(steps) && steps.last().applied is Some {
                steps.len() - 1
            } else {
                steps.len() as int
            };
            &&& v.outcome == (if all && j.completed + steps.len() == j.steps.len()
                && removal is None {
                ResourceApplyOutcome::Applied
            } else {
                ResourceApplyOutcome::Partial
            })
            &&& v.current == current
            &&& v.outcome == ResourceApplyOutcome::Applied ==> v.pending is None && end.failure
                is None
            &&& v.outcome == ResourceApplyOutcome::Partial ==> {
                &&& end.failure is Some
                &&& v.pending matches Some(p) && p.target == j.target
                    && p.completed_components@ == j.steps.take(j.completed + took_effect)
            }
        }),
{
    if stopped(steps) {
        assert(!steps[steps.len() - 1].went_well());
    } else {
        assert forall|i: int| 0 <= i < steps.len() implies (#[trigger] steps[i]).went_well() by {
            if i == steps.len() - 1 {
                assert(steps[i] == steps.last());
            }
        }
    }
}

/// An operation makes the changes of its journal's remaining components, one
/// after the other, and writes down after each how far it has come.
pub proof fn law_an_operation_follows_its_journal<
    A: Fn(ComponentChange) -> Result<(), String>,
    W: Fn(&OperationJournal) -> Result<(), String>,
    R: Fn() -> Result<(), String>,
    C: Fn() -> ResourceSettings,
>(
    ops: LiveOperation<A, W, R, C>,
    j: JournalModel,
    steps: Seq<LiveStep>,
    removal: Option<Seq<char>>,
    i: int,
)
    requires
        live_ran(ops, j, steps, removal),
        0 <= i < steps.len(),
    ensures
        j.completed + i < j.steps.len(),
        match change_of(j.target, j.steps[j.completed + i]) {
            Some(change) => exists|r: Result<(), String>| #[trigger]
                call_ensures(ops.apply, (change,), r) && (r is Ok <==> steps[i].applied is None)
                    && (r matches Err(e) ==> steps[i].applied == Some(e@)),
            None => steps[i].applied == Some(INVALID_COMPONENT@),
        },
        exists|written: &OperationJournal, r: Result<(), String>|
            {
                &&& #[trigger] call_ensures(ops.write, (written,), r)
                &&& r is Ok <==> steps[i].written is None
                &&& written@.target == j.target && written@.steps == j.steps
                &&& written@.completed == j.completed + i + (if steps[i].applied is None {
                    1int
                } else {
                    0int
                })
                &&& written@.failure is None <==> steps[i].applied is None
            },
{
    assert(step_is(ops, progressed(j, i as nat), steps[i]));
    let (written, r) = choose|written: &OperationJournal, r: Result<(), String>|
        #[trigger] call_ensures(ops.write, (written,), r) && written@ == noted(
            progressed(j, i as nat),
            steps[i].applied,
        ) && opt_error(r) == steps[i].written;
    assert(call_ensures(ops.write, (written,), r));
}

/// What is shown of an operation that ended.
pub open spec fn ends_as(v: ResourceSettingsView, current: ResourceSettings, end: LiveEnd) -> bool {
    shows_settings(
        v,
        current,
        end.outcome,
        if end.outcome == ResourceApplyOutcome::Applied {
            None
        } else {
            Some(end.journal)
        },
        end.failure,
    )
}

impl ResourceProfileControl {
    /// Run an operation to its end, or to the first step that goes wrong.
    pub fn run_live_operation<
        A: Fn(ComponentChange) -> Result<(), String>,
        W: Fn(&OperationJournal) -> Result<(), String>,
        R: Fn() -> Result<(), String>,
        C: Fn() -> ResourceSettings,
    >(&mut self, ops: &LiveOperation<A, W, R, C>, journal: &mut OperationJournal) -> (r:
        ResourceSettingsView)
        requires
            runnable(*ops),
            old(journal)@.completed <= old(journal)@.steps.len(),
        ensures
            exists|steps: Seq<LiveStep>, removal: Option<Seq<char>>, current: ResourceSettings|
                {
                    &&& #[trigger] live_ran(*ops, old(journal)@, steps, removal)
                    &&& #[trigger] call_ensures(ops.current, (), current)
                    &&& ends_as(r, current, live_end(old(journal)@, steps, removal))
                    &&& final(journal)@ == live_end(old(journal)@, steps, removal).journal
                    &&& opt_failure(final(self).last_failure) == live_end(
                        old(journal)@,
                        steps,
                        removal,
                    ).failure
                },
    {
        let ghost j = journal@;
        let ghost mut steps: Seq<LiveStep> = Seq::empty();
        while journal.completed < journal.steps.len()
            invariant
                runnable(*ops),
                j == old(journal)@,
                journal@ == progressed(j, steps.len()),
                j.completed + steps.len() <= j.steps.len(),
                steps_taken(*ops, j, steps),
                !stopped(steps),
            decreases journal.steps.len() - journal.completed,
        {
            let ghost before = journal@;
            let ghost taken = steps;
            let applied = match component_change(journal.target, journal.steps[journal.completed]) {
                Ok(change) => (ops.apply)(change),
                Err(e) => Err(e.to_owned()),
            };
            let ghost step_error = opt_error(applied);
            assert(applied_is(
                ops.apply,
                before.target,
                before.steps[before.completed as int],
                step_error,
            ));
            journal.note_applied(applied);
            let ghost after = journal@;
            let written = (ops.write)(&*journal);
            let ghost write_error = opt_error(written);
            proof {
                assert(written_is(ops.write, after, write_error));
                let step = LiveStep { applied: step_error, written: write_error };
                assert(step_is(*ops, before, step));
                steps = taken.push(step);
                assert forall|i: int| 0 <= i < steps.len() implies step_is(
                    *ops,
                    progressed(j, i as nat),
                    #[trigger] steps[i],
                ) by {
                    if i < taken.len() {
                        assert(steps[i] == taken[i]);
                    }
                }
                assert forall|i: int| 0 <= i < steps.len() - 1 implies (#[trigger] steps[i]).went_well() by {
                    assert(steps[i] == taken[i]);
                    if i == taken.len() - 1 {
                        assert(taken.last() == taken[i]);
                    }
                }
                assert(steps.last() == step);
                assert(steps_taken(*ops, j, steps));
            }
            match self.checkpointed(journal, written) {
                OperationTurn::Continue => {},
                OperationTurn::Stop => {
                    let current = (ops.current)();
                    proof {
                        assert(live_ran(*ops, j, steps, None));
                        assert(call_ensures(ops.current, (), current));
                    }
                    return settings_view(
                        current,
                        ResourceApplyOutcome::Partial,
                        Some(&*journal),
                        self.last_failure.as_ref(),
                    );
                },
            }
        }
        let removal = (ops.remove)();
        let ghost removal_error = opt_error(removal);
        proof {
            assert(removed_is(ops.remove, removal_error));
            assert(live_ran(*ops, j, steps, removal_error));
        }
        if self.removed(journal, removal) {
            let current = (ops.current)();
            assert(call_ensures(ops.current, (), current));
            return settings_view(current, ResourceApplyOutcome::Applied, None, None);
        }
        let _left_behind = (ops.write)(&*journal);
        let current = (ops.current)();
        assert(call_ensures(ops.current, (), current));
        settings_view(
            current,
            ResourceApplyOutcome::Partial,
            Some(&*journal),
            self.last_failure.as_ref(),
        )
    }
}

// ----- recovery at start-up -------------------------------------------------

impl OperationJournal {
    /// At start-up a component's file was written, or could not be, which
    /// stops the start. An interrupted operation is finished before any
    /// component reads its own file and before background work can start.
    pub fn recovered(&mut self, applied: Result<(), String>) -> (r: Result<(), String>)
        requires
            old(self)@.completed < old(self)@.steps.len(),
        ensures
            match applied {
                Ok(_) => r is Ok && final(self)@ == noted(old(self)@, None),
                Err(error) => {
                    &&& final(self)@ == old(self)@
                    &&& r matches Err(e) && e@ == "recovering coordinated "@ + old(
                        self,
                    )@.steps[old(self)@.completed as int].title() + " failed: "@ + error@
                },
            },
    {
        match applied {
            Ok(_) => {
                self.note_applied(Ok(()));
                Ok(())
            },
            Err(error) => {
                let component = self.steps[self.completed];
                Err(
                    "recovering coordinated ".to_owned().concat(component_name(component)).concat(
                        " failed: ",
                    ).concat(&error),
                )
            },
        }
    }

    /// A cleanup-only failure leaves a visible, repairable journal but does
    /// not block the now-consistent target settings from loading.
    pub fn recovery_uncleaned(&mut self, error: &str)
        ensures
            final(self)@ == (JournalModel {
                failure: Some(
                    FailureModel {
                        component: ResourceComponent::JournalCleanup,
                        error: "all target settings recovered, but the completed operation journal could not be removed: "@
                            + error@,
                    },
                ),
                ..old(self)@
            }),
    {
        self.failure = Some(
            OperationFailure {
                component: ResourceComponent::JournalCleanup,
                error: "all target settings recovered, but the completed operation journal could not be removed: ".to_owned().concat(
                    error,
                ),
            },
        );
    }
}

// ----- the view -------------------------------------------------------------

#[derive(Debug)]
pub struct PendingResourceOperation {
    pub target: ResourceSettings,
    pub completed_components: Vec<ResourceComponent>,
    pub next_component: Option<ResourceComponent>,
    pub failed_component: Option<ResourceComponent>,
    pub error: Option<String>,
    pub cleanup_pending: bool,
}

#[derive(Debug)]
pub struct ResourceSettingsView {
    pub current: ResourceSettings,
    pub outcome: ResourceApplyOutcome,
    pub pending: Option<PendingResourceOperation>,
    pub error: Option<String>,
}

#[derive(Debug, Clone, Copy, PartialEq, Eq, Structural)]
pub struct ApplyResourceSettings {
    pub settings: ResourceSettings,
}

/// A pending operation as it is shown.
pub open spec fn shows_pending(
    p: PendingResourceOperation,
    j: JournalModel,
    failure: Option<FailureModel>,
) -> bool {
    let done = if j.completed < j.steps.len() {
        j.completed as int
    } else {
        j.steps.len() as int
    };
    &&& p.target == j.target
    &&& p.completed_components@ == j.steps.take(done)
    &&& p.next_component == (if j.completed < j.steps.len() {
        Some(j.steps[j.completed as int])
    } else {
        None
    })
    &&& p.failed_component == (match failure {
        Some(f) => Some(f.component),
        None => None,
    })
    &&& opt_text(p.error) == (match failure {
        Some(f) => Some(f.error),
        None => None,
    })
    &&& p.cleanup_pending == (j.completed >= j.steps.len())
}

/// What an operator is shown. A failure of the live process outranks the one
/// in the journal; an operation that is still pending is never shown as
/// current.
pub open spec fn shows_settings(
    v: ResourceSettingsView,
    current: ResourceSettings,
    requested: ResourceApplyOutcome,
    journal: Option<JournalModel>,
    runtime_failure: Option<FailureModel>,
) -> bool {
    &&& v.current == current
    &&& v.outcome == (if journal is Some && requested == ResourceApplyOutcome::Current {
        ResourceApplyOutcome::Partial
    } else {
        requested
    })
    &&& opt_text(v.error) == (match runtime_failure {
        Some(f) => Some(f.error),
        None => None,
    })
    &&& match journal {
        None => v.pending is None,
        Some(j) => v.pending matches Some(p) && shows_pending(
            p,
            j,
            match runtime_failure {
                Some(f) => Some(f),
                None => j.failure,
            },
        ),
    }
}

/// What is shown of settings is those in force. An operation that is pending is
/// never shown as current: it is shown with its target, the components that are
/// done, the one that is next, and the failure that was last seen; only its
/// cleanup is left when no component is next.
pub proof fn law_a_pending_operation_is_shown(
    v: ResourceSettingsView,
    current: ResourceSettings,
    requested: ResourceApplyOutcome,
    journal: Option<JournalModel>,
    runtime_failure: Option<FailureModel>,
)
    requires
        shows_settings(v, current, requested, journal, runtime_failure),
        journal matches Some(j) ==> j.completed <= j.steps.len(),
    ensures
        v.current == current,
        v.pending is Some <==> journal is Some,
        journal is None ==> v.outcome == requested,
        journal is Some ==> v.outcome != ResourceApplyOutcome::Current,
        requested != ResourceApplyOutcome::Current ==> v.outcome == requested,
        v.error is Some <==> runtime_failure is Some,
        runtime_failure matches Some(f) ==> v.error->0@ == f.error,
        journal matches Some(j) ==> {
            let p = v.pending->0;
            &&& p.target == j.target
            &&& p.completed_components@.len() == j.completed
            &&& p.completed_components@.is_prefix_of(j.steps)
            &&& p.next_component matches Some(c) ==> p.completed_components@.push(c).is_prefix_of(
                j.steps,
            )
            &&& p.next_component is None ==> p.completed_components@ == j.steps
            &&& p.cleanup_pending <==> p.next_component is None
            &&& runtime_failure matches Some(f) ==> p.failed_component == Some(f.component)
                && p.error is Some && p.error->0@ == f.error
            &&& runtime_failure is None && j.failure is Some ==> p.failed_component == Some(
                j.failure->0.component,
            ) && p.error is Some && p.error->0@ == j.failure->0.error
            &&& runtime_failure is None && j.failure is None ==> p.failed_component is None
                && p.error is None
        },
{
    if journal is Some {
        let j = journal->0;
        if j.completed == j.steps.len() {
            assert(j.steps.take(j.steps.len() as int) =~= j.steps);
        }
    }
}

pub fn settings_view(
    current: ResourceSettings,
    requested: ResourceApplyOutcome,
    journal: Option<&OperationJournal>,
    runtime_failure: Option<&OperationFailure>,
) -> (r: ResourceSettingsView)
    ensures
        shows_settings(
            r,
            current,
            requested,
            match journal {
                Some(j) => Some(j@),
                None => None,
            },
            match runtime_failure {
                Some(f) => Some(f@),
                None => None,
            },
        ),
{
    let pending: Option<PendingResourceOperation> = match journal {
        None => None,
        Some(j) => {
            let done: usize = if j.completed < j.steps.len() {
                j.completed
            } else {
                j.steps.len()
            };
            let mut completed: Vec<ResourceComponent> = Vec::new();
            let mut i: usize = 0;
            while i < done
                invariant
                    0 <= i <= done <= j.steps.len(),
                    completed@ == j.steps@.take(i as int),
                decreases done - i,
            {
                completed.push(j.steps[i]);
                i += 1;
                assert(j.steps@.take(i as int) =~= j.steps@.take(i - 1).push(j.steps@[i - 1]));
            }
            let failure: Option<OperationFailure> = match runtime_failure {
                Some(f) => Some(f.copy()),
                None => match &j.failure {
                    Some(f) => Some(f.copy()),
                    None => None,
                },
            };
            let (failed_component, error): (Option<ResourceComponent>, Option<String>) =
                match failure {
                Some(f) => (Some(f.component), Some(f.error)),
                None => (None, None),
            };
            Some(
                PendingResourceOperation {
                    target: j.target,
                    completed_components: completed,
                    next_component: match j.next_step() {
                        OperationStep::Apply(c) => Some(c),
                        OperationStep::RemoveJournal => None,
                    },
                    failed_component,
                    error,
                    cleanup_pending: j.completed >= j.steps.len(),
                },
            )
        },
    };
    let outcome = if journal.is_some() && requested == ResourceApplyOutcome::Current {
        ResourceApplyOutcome::Partial
    } else {
        requested
    };
    let error: Option<String> = match runtime_failure {
        Some(f) => Some(f.error.clone()),
        None => None,
    };
    ResourceSettingsView { current, outcome, pending, error }
}

} // verus!
