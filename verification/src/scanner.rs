//! Background scan execution with observable progress: who may start a scan,
//! what an automatic start waits for, and what an enumeration reports.

use crate::domain::{Instant, SourceId, SourceKind, SourceState, UnixNanos, NANOS_PER_SEC};
use crate::source_map::SourceMap;
use crate::state::{
    DeferralModel, Deferrals, ReconciliationDeferral, ReconciliationDeferralCause, StoredModel,
};
use crate::text::{decimal, push_decimal, push_signed, signed_decimal};
use vstd::prelude::*;
use vstd::string::*;

verus! {

/// What a finished scan published.
#[derive(Debug, Clone, Copy, PartialEq, Eq, Structural)]
pub struct ScanSummary {
    pub generation: i64,
    pub final_state: SourceState,
}

/// How a scan ended.
#[derive(Debug)]
pub enum ScanResult {
    Published(ScanSummary),
    Failed(String),
}

/// Progress of one scan.
#[derive(Debug)]
pub struct ScanProgress {
    pub source_id: SourceId,
    pub started: Instant,
    pub dirs: u64,
    pub entries: u64,
    pub errors: u64,
    pub cancel: bool,
    /// The scan has its slot: it opened a generation and reads its source.
    pub admitted: bool,
    pub phase: String,
    pub finished_at: Option<Instant>,
    pub result: Option<ScanResult>,
}

/// A scan as the API shows it. The entry rate is left to the presenter.
#[derive(Debug)]
pub struct ScanProgressView {
    pub source_id: SourceId,
    pub running: bool,
    pub phase: String,
    pub elapsed_ms: u64,
    pub dirs: u64,
    pub entries: u64,
    pub errors: u64,
    pub summary: Option<ScanSummary>,
    pub error: Option<String>,
}

impl ScanProgress {
    pub open spec fn finished(&self) -> bool {
        self.finished_at is Some
    }

    /// A scan that just started.
    pub open spec fn fresh(&self, source_id: SourceId, now: Instant) -> bool {
        &&& self.source_id == source_id
        &&& self.started == now
        &&& self.dirs == 0
        &&& self.entries == 0
        &&& self.errors == 0
        &&& !self.cancel
        &&& !self.admitted
        &&& self.phase@ == "starting"@
        &&& self.finished_at is None
        &&& self.result is None
    }

    pub fn new(source_id: SourceId, now: Instant) -> (r: ScanProgress)
        ensures
            r.fresh(source_id, now),
    {
        ScanProgress {
            source_id,
            started: now,
            dirs: 0,
            entries: 0,
            errors: 0,
            cancel: false,
            admitted: false,
            phase: "starting".to_owned(),
            finished_at: None,
            result: None,
        }
    }

    pub fn set_phase(&mut self, phase: &str)
        ensures
            final(self).phase@ == phase@,
            *final(self) == (ScanProgress { phase: final(self).phase, ..*old(self) }),
    {
        self.phase = phase.to_owned();
    }

    /// The scan got its slot.
    pub fn got_slot(&mut self)
        ensures
            *final(self) == (ScanProgress { admitted: true, ..*old(self) }),
    {
        self.admitted = true;
    }

    pub fn is_admitted(&self) -> (r: bool)
        ensures
            r == self.admitted,
    {
        self.admitted
    }

    pub fn is_finished(&self) -> (r: bool)
        ensures
            r == self.finished(),
    {
        self.finished_at.is_some()
    }

    /// How long ago the scan finished, in nanoseconds.
    pub fn finished_for(&self, now: Instant) -> (r: Option<u64>)
        ensures
            r == (match self.finished_at {
                Some(t) => Some(now.spec_since(t)),
                None => None,
            }),
    {
        match self.finished_at {
            Some(t) => Some(now.since(t)),
            None => None,
        }
    }

    /// A failure that is younger than the retry delay.
    pub fn failed_within(&self, now: Instant, delay_ns: u64) -> (r: bool)
        ensures
            r == (self.result matches Some(ScanResult::Failed(_)) && self.finished_at is Some
                && now.spec_since(self.finished_at->0) < delay_ns),
    {
        let failed: bool = match &self.result {
            Some(ScanResult::Failed(_)) => true,
            _ => false,
        };
        match self.finished_for(now) {
            Some(age) => failed && age < delay_ns,
            None => false,
        }
    }

    pub fn finish(&mut self, now: Instant, r: ScanResult)
        ensures
            *final(self) == (ScanProgress {
                result: Some(r),
                finished_at: Some(now),
                phase: final(self).phase,
                ..*old(self)
            }),
            final(self).phase@ == "done"@,
    {
        self.result = Some(r);
        self.finished_at = Some(now);
        self.set_phase("done");
    }

    pub fn view(&self, now: Instant) -> (r: ScanProgressView)
        ensures
            r.source_id == self.source_id,
            r.running == !self.finished(),
            r.phase@ == self.phase@,
            r.elapsed_ms == (match self.finished_at {
                Some(t) => t.spec_since(self.started),
                None => now.spec_since(self.started),
            }) / 1_000_000,
            r.dirs == self.dirs,
            r.entries == self.entries,
            r.errors == self.errors,
            r.summary == (match self.result {
                Some(ScanResult::Published(s)) => Some(s),
                _ => None,
            }),
            match self.result {
                Some(ScanResult::Failed(e)) => r.error is Some && r.error->0@ == e@,
                _ => r.error is None,
            },
    {
        let elapsed: u64 = match self.finished_at {
            Some(t) => t.since(self.started),
            None => now.since(self.started),
        };
        ScanProgressView {
            source_id: self.source_id,
            running: !self.is_finished(),
            phase: self.phase.clone(),
            elapsed_ms: elapsed / 1_000_000,
            dirs: self.dirs,
            entries: self.entries,
            errors: self.errors,
            summary: match &self.result {
                Some(ScanResult::Published(s)) => Some(*s),
                _ => None,
            },
            error: match &self.result {
                Some(ScanResult::Failed(e)) => Some(e.clone()),
                _ => None,
            },
        }
    }
}

// ----- starting scans -------------------------------------------------------

#[derive(Debug)]
pub enum StartScanError {
    AlreadyRunning,
    RemoteSource,
    /// The catalog has no such source.
    NotFound(SourceId),
}

/// How a source reads in an error message.
pub open spec fn source_label(id: SourceId) -> Seq<char> {
    "source "@ + signed_decimal(id.0 as int)
}

pub fn source_name(id: SourceId) -> (r: String)
    ensures
        r@ == source_label(id),
{
    let mut s = "source ".to_owned();
    push_signed(&mut s, id.0);
    s
}

impl StartScanError {
    pub open spec fn text(&self) -> Seq<char> {
        match self {
            StartScanError::AlreadyRunning => "a scan is already running for this source"@,
            StartScanError::RemoteSource =>
                "a fleet replica is scanned on its origin node, not here"@,
            StartScanError::NotFound(id) => source_label(*id),
        }
    }

    pub fn message(&self) -> (r: String)
        ensures
            r@ == self.text(),
    {
        match self {
            StartScanError::AlreadyRunning => "a scan is already running for this source".to_owned(),
            StartScanError::RemoteSource =>
                "a fleet replica is scanned on its origin node, not here".to_owned(),
            StartScanError::NotFound(id) => source_name(*id),
        }
    }
}

/// Whether a source may be scanned on this node at all. `kind` is what the
/// catalog knows of it, `None` where it has no such source.
pub fn ensure_scannable(id: SourceId, kind: Option<SourceKind>) -> (r: Result<(), StartScanError>)
    ensures
        match kind {
            None => r == Err::<(), StartScanError>(StartScanError::NotFound(id)),
            Some(k) => if k == SourceKind::Remote {
                r == Err::<(), StartScanError>(StartScanError::RemoteSource)
            } else {
                r is Ok
            },
        },
{
    match kind {
        None => Err(StartScanError::NotFound(id)),
        Some(k) => if k == SourceKind::Remote {
            Err(StartScanError::RemoteSource)
        } else {
            Ok(())
        },
    }
}

/// How long an automatic start waits before it is reconsidered.
pub const AUTOMATIC_RETRY_DELAY_S: i64 = 60;

/// `now` plus the retry delay, as far as the clock goes.
pub open spec fn retry_at(now: UnixNanos) -> UnixNanos {
    let t = now.0 + AUTOMATIC_RETRY_DELAY_S * NANOS_PER_SEC;
    UnixNanos(
        if t > i64::MAX {
            i64::MAX
        } else {
            t as i64
        },
    )
}

fn deferral(now: UnixNanos, reason: String) -> (r: ReconciliationDeferral)
    ensures
        r@ == (DeferralModel { reason: reason@, next_eligible_at: retry_at(now) }),
{
    let limit: i64 = i64::MAX - 60_000_000_000;
    let at: i64 = if now.0 > limit {
        i64::MAX
    } else {
        now.0 + 60_000_000_000
    };
    ReconciliationDeferral { reason, next_eligible_at: UnixNanos(at) }
}

/// Result of asking the scheduler to start a reconciliation. Deferral is a
/// normal operational outcome rather than an error.
#[derive(Debug)]
pub enum AutomaticScanOutcome {
    Started,
    Deferred(ReconciliationDeferral),
}

/// What an automatic start does after looking at what this process knows.
#[derive(Debug)]
pub enum StartStep {
    Deferred(ReconciliationDeferral),
    /// Ask the catalog for an open scan generation next.
    AskGeneration,
    /// Ask the catalog for the source's content jobs next.
    AskContent,
    /// The scan is registered: run it.
    Started,
}

/// Queued and running content jobs of a source, and whether anything is going
/// to claim the queued ones.
#[derive(Debug, Clone, Copy, PartialEq, Eq, Structural)]
pub struct ContentLoad {
    pub queued: u64,
    pub running: u64,
    pub content_enabled: bool,
    pub content_paused: bool,
    pub source_enabled: bool,
}

impl ContentLoad {
    /// Whether content work holds a reconciliation off. A queued backlog only
    /// justifies that if something is going to claim it: a paused pipeline
    /// claims nothing. Jobs already running always do: they are draining and
    /// touch the volume that the scan would walk.
    pub open spec fn holds_off(self) -> bool {
        self.running > 0 || (self.queued > 0 && self.content_enabled && !self.content_paused
            && self.source_enabled)
    }
}

/// The scans of this process and the automatic starts that wait.
pub struct ScanRegistry {
    pub scans: SourceMap<ScanProgress>,
    pub deferrals: Deferrals,
}

/// Whether a scan of the source is in progress.
pub open spec fn scanning(scans: Map<i64, ScanProgress>, id: SourceId) -> bool {
    scans.dom().contains(id.0) && !scans[id.0].finished()
}

/// A deferral that already says no: it has not expired, and an automatic start
/// of this kind respects what caused it.
pub open spec fn still_deferred(
    deferrals: Map<i64, StoredModel>,
    id: SourceId,
    now: UnixNanos,
    coordinate_content: bool,
) -> bool {
    &&& deferrals.dom().contains(id.0)
    &&& now.0 < deferrals[id.0].0.next_eligible_at.0
    &&& (coordinate_content || deferrals[id.0].1 == ReconciliationDeferralCause::Scan)
}

pub open spec fn open_generation_text(generation: i64) -> Seq<char> {
    "scan generation "@ + signed_decimal(generation as int) + " is already open"@
}

pub open spec fn content_active_text(load: ContentLoad) -> Seq<char> {
    "content crawl active ("@ + decimal(load.queued as nat) + " queued, "@ + decimal(
        load.running as nat,
    ) + " running)"@
}

impl ScanRegistry {
    pub open spec fn wf(&self) -> bool {
        self.scans.wf() && self.deferrals.wf()
    }

    pub fn new() -> (r: ScanRegistry)
        ensures
            r.wf(),
            r.scans@ == Map::<i64, ScanProgress>::empty(),
            r.deferrals@ == Map::<i64, StoredModel>::empty(),
    {
        ScanRegistry { scans: SourceMap::new(), deferrals: Deferrals::new() }
    }

    /// Whether a scan of the source is in progress.
    pub fn is_scanning(&self, id: SourceId) -> (r: bool)
        requires
            self.wf(),
        ensures
            r == scanning(self.scans@, id),
    {
        match self.scans.get(id.0) {
            Some(p) => !p.is_finished(),
            None => false,
        }
    }

    /// Whether a scan holds content work off the source. One that is finished
    /// does not during the time that it is still shown, and neither does one
    /// that is queued for a slot: it has read nothing of the source.
    pub fn holds_off_content(&self, id: SourceId) -> (r: bool)
        requires
            self.wf(),
        ensures
            r == (self.scans@.dom().contains(id.0) && self.scans@[id.0].admitted
                && !self.scans@[id.0].finished()),
    {
        match self.scans.get(id.0) {
            Some(p) => p.is_admitted() && !p.is_finished(),
            None => false,
        }
    }

    /// A scan of the source takes over: registered, and nothing waits any more.
    fn register(&mut self, id: SourceId, now: Instant)
        requires
            old(self).wf(),
        ensures
            final(self).wf(),
            final(self).scans@.dom() == old(self).scans@.dom().insert(id.0),
            final(self).scans@[id.0].fresh(id, now),
            final(self).scans@.remove(id.0) == old(self).scans@.remove(id.0),
            final(self).deferrals@ == old(self).deferrals@.remove(id.0),
    {
        let p = ScanProgress::new(id, now);
        self.scans.insert(id.0, p);
        self.deferrals.clear_reconciliation_deferral(id);
        assert(self.scans@.remove(id.0) =~= old(self).scans@.remove(id.0));
    }

    /// Start a scan on an operator's request. Content work does not hold it
    /// back; another scan of the source does, whether this process runs it or
    /// the catalog still has its generation open.
    pub fn start_scan(
        &mut self,
        id: SourceId,
        kind: Option<SourceKind>,
        open_generation: Option<i64>,
        now: Instant,
    ) -> (r: Result<(), StartScanError>)
        requires
            old(self).wf(),
        ensures
            final(self).wf(),
            starts(*old(self), *final(self), id, kind, open_generation, now, r),
    {
        match ensure_scannable(id, kind) {
            Err(e) => {
                return Err(e);
            },
            Ok(()) => {},
        }
        if self.is_scanning(id) || open_generation.is_some() {
            return Err(StartScanError::AlreadyRunning);
        }
        self.register(id, now);
        Ok(())
    }

    /// First step of an automatic start: what this process knows by itself. A
    /// remembered deferral prevents fast scheduler and watcher loops from
    /// repeatedly probing the same busy source.
    pub fn begin_automatic(
        &mut self,
        id: SourceId,
        kind: Option<SourceKind>,
        now: UnixNanos,
        coordinate_content: bool,
    ) -> (r: Result<StartStep, StartScanError>)
        requires
            old(self).wf(),
        ensures
            final(self).wf(),
            begins(*old(self), *final(self), id, kind, now, coordinate_content, r),
    {
        match ensure_scannable(id, kind) {
            Err(e) => {
                return Err(e);
            },
            Ok(()) => {},
        }
        if self.is_scanning(id) {
            let d = deferral(now, "scan already running".to_owned());
            self.deferrals.defer_reconciliation(id, d.copy(), ReconciliationDeferralCause::Scan);
            return Ok(StartStep::Deferred(d));
        }
        if let Some((existing, cause)) = self.deferrals.scheduled_reconciliation_deferral(id) {
            if now.0 < existing.next_eligible_at.0 && (coordinate_content || cause
                == ReconciliationDeferralCause::Scan) {
                return Ok(StartStep::Deferred(existing));
            }
        }
        Ok(StartStep::AskGeneration)
    }

    /// Second step: the catalog answered whether a scan generation is open. A
    /// start that does not coordinate with content work begins here.
    pub fn with_generation(
        &mut self,
        id: SourceId,
        open_generation: Option<i64>,
        now: UnixNanos,
        coordinate_content: bool,
        clock: Instant,
    ) -> (r: StartStep)
        requires
            old(self).wf(),
        ensures
            final(self).wf(),
            goes_on(
                *old(self),
                *final(self),
                id,
                open_generation,
                now,
                coordinate_content,
                clock,
                r,
            ),
    {
        if let Some(g) = open_generation {
            let mut reason = "scan generation ".to_owned();
            push_signed(&mut reason, g);
            reason.append(" is already open");
            let d = deferral(now, reason);
            self.deferrals.defer_reconciliation(id, d.copy(), ReconciliationDeferralCause::Scan);
            return StartStep::Deferred(d);
        }
        if coordinate_content {
            return StartStep::AskContent;
        }
        self.register(id, clock);
        StartStep::Started
    }

    /// Third step: the catalog answered what content work the source has.
    pub fn with_content(
        &mut self,
        id: SourceId,
        load: ContentLoad,
        now: UnixNanos,
        clock: Instant,
    ) -> (r: StartStep)
        requires
            old(self).wf(),
        ensures
            final(self).wf(),
            ends_start(*old(self), *final(self), id, load, now, clock, r),
    {
        let scheduled: bool = load.content_enabled && !load.content_paused && load.source_enabled;
        if load.running > 0 || (load.queued > 0 && scheduled) {
            let mut reason = "content crawl active (".to_owned();
            push_decimal(&mut reason, load.queued);
            reason.append(" queued, ");
            push_decimal(&mut reason, load.running);
            reason.append(" running)");
            let d = deferral(now, reason);
            self.deferrals.defer_reconciliation(
                id,
                d.copy(),
                ReconciliationDeferralCause::Content,
            );
            return StartStep::Deferred(d);
        }
        self.register(id, clock);
        StartStep::Started
    }

    /// Progress of a running, or just finished, scan. A finished one is shown
    /// once more after it has been done for half a minute, and then forgotten.
    pub fn reap(&mut self, id: SourceId, now: Instant) -> (forgotten: bool)
        requires
            old(self).wf(),
        ensures
            final(self).wf(),
            forgotten == (old(self).scans@.dom().contains(id.0) && old(
                self,
            ).scans@[id.0].finished() && now.spec_since(old(self).scans@[id.0].finished_at->0)
                / NANOS_PER_SEC > 30),
            final(self).scans@ == (if forgotten {
                old(self).scans@.remove(id.0)
            } else {
                old(self).scans@
            }),
            final(self).deferrals == old(self).deferrals,
    {
        let expired: bool = match self.scans.get(id.0) {
            Some(p) => match p.finished_for(now) {
                Some(age) => age / NANOS_PER_SEC > 30,
                None => false,
            },
            None => false,
        };
        if expired {
            let _ = self.scans.remove(id.0);
        }
        expired
    }
}

/// What asking for a scan answers, and what it does.
pub open spec fn starts(
    before: ScanRegistry,
    after: ScanRegistry,
    id: SourceId,
    kind: Option<SourceKind>,
    open_generation: Option<i64>,
    now: Instant,
    r: Result<(), StartScanError>,
) -> bool {
    match kind {
        None => r == Err::<(), StartScanError>(StartScanError::NotFound(id)) && after == before,
        Some(k) => if k == SourceKind::Remote {
            r == Err::<(), StartScanError>(StartScanError::RemoteSource) && after == before
        } else if scanning(before.scans@, id) || open_generation is Some {
            r == Err::<(), StartScanError>(StartScanError::AlreadyRunning) && after == before
        } else {
            r is Ok && started(before, after, id, now)
        },
    }
}

/// How an automatic scan begins: it is refused, put off, or goes on to ask for
/// an open generation.
pub open spec fn begins(
    before: ScanRegistry,
    after: ScanRegistry,
    id: SourceId,
    kind: Option<SourceKind>,
    now: UnixNanos,
    coordinate_content: bool,
    r: Result<StartStep, StartScanError>,
) -> bool {
    &&& after.scans == before.scans
    &&& match kind {
        None => r == Err::<StartStep, StartScanError>(StartScanError::NotFound(id)) && after
            == before,
        Some(k) => if k == SourceKind::Remote {
            r == Err::<StartStep, StartScanError>(StartScanError::RemoteSource) && after == before
        } else if scanning(before.scans@, id) {
            let d = DeferralModel {
                reason: "scan already running"@,
                next_eligible_at: retry_at(now),
            };
            &&& r matches Ok(StartStep::Deferred(x)) && x@ == d
            &&& after.deferrals@ == before.deferrals@.insert(
                id.0,
                (d, ReconciliationDeferralCause::Scan),
            )
        } else if still_deferred(before.deferrals@, id, now, coordinate_content) {
            &&& r matches Ok(StartStep::Deferred(x)) && x@ == before.deferrals@[id.0].0
            &&& after.deferrals == before.deferrals
        } else {
            r matches Ok(StartStep::AskGeneration) && after.deferrals == before.deferrals
        },
    }
}

/// How an automatic start goes on once the catalog was asked for an open
/// generation.
pub open spec fn goes_on(
    before: ScanRegistry,
    after: ScanRegistry,
    id: SourceId,
    open_generation: Option<i64>,
    now: UnixNanos,
    coordinate_content: bool,
    clock: Instant,
    r: StartStep,
) -> bool {
    match open_generation {
        Some(g) => {
            let d = DeferralModel {
                reason: open_generation_text(g),
                next_eligible_at: retry_at(now),
            };
            &&& r matches StartStep::Deferred(x) && x@ == d
            &&& after.scans == before.scans
            &&& after.deferrals@ == before.deferrals@.insert(
                id.0,
                (d, ReconciliationDeferralCause::Scan),
            )
        },
        None => if coordinate_content {
            r is AskContent && after == before
        } else {
            r is Started && started(before, after, id, clock)
        },
    }
}

/// How an automatic start ends once the catalog was asked for content work.
pub open spec fn ends_start(
    before: ScanRegistry,
    after: ScanRegistry,
    id: SourceId,
    load: ContentLoad,
    now: UnixNanos,
    clock: Instant,
    r: StartStep,
) -> bool {
    if load.holds_off() {
        let d = DeferralModel { reason: content_active_text(load), next_eligible_at: retry_at(now) };
        &&& r matches StartStep::Deferred(x) && x@ == d
        &&& after.scans == before.scans
        &&& after.deferrals@ == before.deferrals@.insert(
            id.0,
            (d, ReconciliationDeferralCause::Content),
        )
    } else {
        r is Started && started(before, after, id, clock)
    }
}

/// Content work holds a scan off exactly while it moves: what runs always does,
/// what is queued only if something is going to claim it.
pub proof fn law_only_work_that_moves_holds_a_scan_off(load: ContentLoad)
    ensures
        load.running > 0 ==> load.holds_off(),
        load.running == 0 && load.queued == 0 ==> !load.holds_off(),
        load.running == 0 && (load.content_paused || !load.content_enabled || !load.source_enabled)
            ==> !load.holds_off(),
        load.queued > 0 && load.content_enabled && !load.content_paused && load.source_enabled
            ==> load.holds_off(),
{
}

/// A start that is put off is reconsidered a minute later, as far as the clock
/// goes, and never before now.
pub proof fn law_a_retry_comes_a_minute_later(now: UnixNanos)
    ensures
        retry_at(now).0 > now.0 || now.0 == i64::MAX,
        now.0 + 60_000_000_000 <= i64::MAX ==> retry_at(now).0 == now.0 + 60_000_000_000,
        now.0 + 60_000_000_000 > i64::MAX ==> retry_at(now).0 == i64::MAX,
{
}

/// A remembered deferral holds until its time and not a moment longer; until
/// then one that a scan caused holds every automatic start, and one that
/// content work caused holds those that coordinate with content work.
pub proof fn law_a_deferral_ends_at_its_time(
    deferrals: Map<i64, StoredModel>,
    id: SourceId,
    now: UnixNanos,
    d: DeferralModel,
    cause: ReconciliationDeferralCause,
    coordinate_content: bool,
)
    ensures
        !deferrals.dom().contains(id.0) ==> !still_deferred(deferrals, id, now, coordinate_content),
        ({
            let stored = deferrals.insert(id.0, (d, cause));
            &&& now.0 >= d.next_eligible_at.0 ==> !still_deferred(
                stored,
                id,
                now,
                coordinate_content,
            )
            &&& now.0 < d.next_eligible_at.0 && cause == ReconciliationDeferralCause::Scan
                ==> still_deferred(stored, id, now, coordinate_content)
            &&& now.0 < d.next_eligible_at.0 && cause == ReconciliationDeferralCause::Content ==> (
            still_deferred(stored, id, now, coordinate_content) <==> coordinate_content)
        }),
{
}

/// An operator's request starts a scan of every local source that is not being
/// scanned, whatever waits and whatever content work there is; a replica, an
/// unknown source and one that is being scanned are each refused for that
/// reason, and a refusal changes nothing.
pub proof fn law_an_operator_starts_what_is_not_running(
    before: ScanRegistry,
    after: ScanRegistry,
    id: SourceId,
    kind: SourceKind,
    open_generation: Option<i64>,
    now: Instant,
    r: Result<(), StartScanError>,
)
    requires
        starts(before, after, id, Some(kind), open_generation, now, r),
    ensures
        r is Ok <==> kind != SourceKind::Remote && !(before.scans@.dom().contains(id.0)
            && before.scans@[id.0].finished_at is None) && open_generation is None,
        r is Ok ==> after.scans@.dom().contains(id.0) && after.scans@[id.0].finished_at is None
            && after.scans@[id.0].source_id == id && !after.deferrals@.dom().contains(id.0),
        r is Err ==> after == before,
        r matches Err(e) ==> (e is RemoteSource <==> kind == SourceKind::Remote) && (e
            is AlreadyRunning <==> kind != SourceKind::Remote),
{
    assert(!before.deferrals@.remove(id.0).dom().contains(id.0));
}

/// An automatic start that comes through is registered and waits no more; one
/// that is put off is remembered with what it waits for and runs nothing. It
/// comes through exactly if no generation is open and, where it coordinates
/// with content work, none holds it off.
pub proof fn law_an_automatic_start_waits_or_runs(
    before: ScanRegistry,
    asked: ScanRegistry,
    after: ScanRegistry,
    id: SourceId,
    open_generation: Option<i64>,
    load: ContentLoad,
    now: UnixNanos,
    coordinate_content: bool,
    clock: Instant,
    first: StartStep,
    last: StartStep,
)
    requires
        goes_on(before, asked, id, open_generation, now, coordinate_content, clock, first),
        first is AskContent ==> ends_start(asked, after, id, load, now, clock, last),
    ensures
        first is Started <==> open_generation is None && !coordinate_content,
        first is AskContent <==> open_generation is None && coordinate_content,
        first is Started ==> scanning(asked.scans@, id) && !asked.deferrals@.dom().contains(id.0),
        first is Deferred ==> asked.scans == before.scans && asked.deferrals@.dom().contains(id.0)
            && asked.deferrals@[id.0].1 == ReconciliationDeferralCause::Scan
            && asked.deferrals@[id.0].0.next_eligible_at == retry_at(now),
        first matches StartStep::Deferred(d) ==> d@ == asked.deferrals@[id.0].0,
        first is AskContent ==> (last is Started <==> !load.holds_off()) && (last matches
            StartStep::Deferred(d) ==> d@ == after.deferrals@[id.0].0),
        first is AskContent && last is Started ==> scanning(after.scans@, id)
            && !after.deferrals@.dom().contains(id.0),
        first is AskContent && last !is Started ==> after.scans == before.scans
            && after.deferrals@.dom().contains(id.0) && after.deferrals@[id.0].1
            == ReconciliationDeferralCause::Content && after.deferrals@[id.0].0.next_eligible_at
            == retry_at(now),
{
    assert(!before.deferrals@.remove(id.0).dom().contains(id.0));
    assert(!asked.deferrals@.remove(id.0).dom().contains(id.0));
}

/// A scan of the source took over.
pub open spec fn started(
    before: ScanRegistry,
    after: ScanRegistry,
    id: SourceId,
    clock: Instant,
) -> bool {
    &&& after.scans@.dom() == before.scans@.dom().insert(id.0)
    &&& after.scans@[id.0].fresh(id, clock)
    &&& after.scans@.remove(id.0) == before.scans@.remove(id.0)
    &&& after.deferrals@ == before.deferrals@.remove(id.0)
}

/// A start makes its source one that is being scanned, and leaves the scans of
/// all others as they were.
pub proof fn law_a_started_scan_owns_its_source(
    before: ScanRegistry,
    after: ScanRegistry,
    id: SourceId,
    other: SourceId,
    clock: Instant,
)
    requires
        started(before, after, id, clock),
    ensures
        scanning(after.scans@, id),
        other != id ==> scanning(after.scans@, other) == scanning(before.scans@, other),
{
    assert(after.scans@.dom().contains(id.0));
    if other != id {
        let (a, b) = (after.scans@.remove(id.0), before.scans@.remove(id.0));
        assert(a.dom().contains(other.0) == after.scans@.dom().contains(other.0));
        assert(b.dom().contains(other.0) == before.scans@.dom().contains(other.0));
        if after.scans@.dom().contains(other.0) {
            assert(a[other.0] == after.scans@[other.0]);
        }
        if before.scans@.dom().contains(other.0) {
            assert(b[other.0] == before.scans@[other.0]);
        }
    }
}

/// No start of any kind overlaps a scan in progress: one that an operator asks
/// for is refused and changes nothing, and an automatic one is put off.
pub proof fn law_a_running_scan_is_not_overlapped(
    before: ScanRegistry,
    asked: ScanRegistry,
    automatic: ScanRegistry,
    id: SourceId,
    kind: Option<SourceKind>,
    open_generation: Option<i64>,
    clock: Instant,
    now: UnixNanos,
    coordinate_content: bool,
    r: Result<(), StartScanError>,
    step: Result<StartStep, StartScanError>,
)
    requires
        scanning(before.scans@, id),
        starts(before, asked, id, kind, open_generation, clock, r),
        begins(before, automatic, id, kind, now, coordinate_content, step),
    ensures
        r is Err && asked == before,
        step is Err || step->Ok_0 is Deferred,
        automatic.scans == before.scans,
{
}

/// An automatic start of a local source that is neither scanned nor put off goes
/// on to ask the catalog; one that is put off is answered with what it waits
/// for, which is remembered; a replica and an unknown source are refused.
pub proof fn law_an_automatic_start_begins_or_waits(
    before: ScanRegistry,
    after: ScanRegistry,
    id: SourceId,
    kind: Option<SourceKind>,
    now: UnixNanos,
    coordinate_content: bool,
    r: Result<StartStep, StartScanError>,
)
    requires
        begins(before, after, id, kind, now, coordinate_content, r),
    ensures
        r is Err <==> kind is None || kind == Some(SourceKind::Remote),
        r matches Ok(step) ==> (step is AskGeneration <==> !scanning(before.scans@, id)
            && !still_deferred(before.deferrals@, id, now, coordinate_content)),
        r matches Ok(StartStep::Deferred(d)) ==> after.deferrals@.dom().contains(id.0) && d@
            == after.deferrals@[id.0].0,
        r matches Ok(step) ==> step is AskGeneration || step is Deferred,
        after.scans == before.scans,
{
}

/// A remembered content deferral never delays a feed recovery.
pub proof fn law_recovery_ignores_content_deferrals(
    deferrals: Map<i64, StoredModel>,
    id: SourceId,
    now: UnixNanos,
)
    requires
        deferrals.dom().contains(id.0),
        deferrals[id.0].1 == ReconciliationDeferralCause::Content,
    ensures
        !still_deferred(deferrals, id, now, false),
{
}

// ----- enumeration ----------------------------------------------------------

/// Which kind of generation an enumeration opens.
#[derive(Debug, Clone, Copy, PartialEq, Eq, Structural)]
pub enum ScanKind {
    Full,
    Reconcile,
}

/// How an enumeration opens its generation.
#[derive(Debug, Clone, Copy, PartialEq, Eq, Structural)]
pub struct EnumerationPlan {
    /// The kind to store for the source, where the volume shows another one
    /// than the catalog has.
    pub new_kind: Option<SourceKind>,
    pub scan: ScanKind,
}

#[derive(Debug, Clone, Copy, PartialEq, Eq, Structural)]
pub enum EnumerateError {
    NotFound(SourceId),
    Replica(SourceId),
    /// The scan was cancelled.
    Cancelled,
}

impl EnumerateError {
    pub open spec fn text(&self) -> Seq<char> {
        match self {
            EnumerateError::NotFound(id) => source_label(*id) + " not found"@,
            EnumerateError::Replica(id) => source_label(*id)
                + " is a fleet replica and cannot be scanned here"@,
            EnumerateError::Cancelled => "scan cancelled"@,
        }
    }

    pub fn message(&self) -> (r: String)
        ensures
            r@ == self.text(),
    {
        match self {
            EnumerateError::NotFound(id) => source_name(*id).concat(" not found"),
            EnumerateError::Replica(id) => source_name(*id).concat(
                " is a fleet replica and cannot be scanned here",
            ),
            EnumerateError::Cancelled => "scan cancelled".to_owned(),
        }
    }
}

/// Decide how to enumerate a source. `source` is its kind and whether it is
/// published; `probed` is the kind that the volume shows, if it could be read.
pub fn plan_enumeration(
    id: SourceId,
    source: Option<(SourceKind, bool)>,
    probed: Option<SourceKind>,
) -> (r: Result<EnumerationPlan, EnumerateError>)
    ensures
        r == planned(id, source, probed),
{
    match source {
        None => Err(EnumerateError::NotFound(id)),
        Some((kind, published)) => {
            if kind == SourceKind::Remote {
                return Err(EnumerateError::Replica(id));
            }
            let new_kind: Option<SourceKind> = match probed {
                Some(k) => if k != kind {
                    Some(k)
                } else {
                    None
                },
                None => None,
            };
            Ok(
                EnumerationPlan {
                    new_kind,
                    scan: if published {
                        ScanKind::Reconcile
                    } else {
                        ScanKind::Full
                    },
                },
            )
        },
    }
}

/// The plan of an enumeration.
pub open spec fn planned(id: SourceId, source: Option<(SourceKind, bool)>, probed: Option<SourceKind>) -> Result<
    EnumerationPlan,
    EnumerateError,
> {
    match source {
        None => Err(EnumerateError::NotFound(id)),
        Some((kind, published)) => if kind == SourceKind::Remote {
            Err(EnumerateError::Replica(id))
        } else {
            Ok(
                EnumerationPlan {
                    new_kind: if probed is Some && probed->0 != kind {
                        probed
                    } else {
                        None
                    },
                    scan: if published {
                        ScanKind::Reconcile
                    } else {
                        ScanKind::Full
                    },
                },
            )
        },
    }
}

/// A source that was published before is reconciled, another is scanned in
/// full; its kind changes only to what the volume shows, and only where that
/// differs; a replica is never enumerated here.
pub proof fn law_an_enumeration_fits_its_source(
    id: SourceId,
    kind: SourceKind,
    published: bool,
    probed: Option<SourceKind>,
)
    ensures
        planned(id, Some((kind, published)), probed) is Ok <==> kind != SourceKind::Remote,
        planned(id, None, probed) is Err,
        planned(id, Some((kind, published)), probed) matches Ok(p) ==> {
            &&& p.scan == ScanKind::Reconcile <==> published
            &&& p.new_kind is Some <==> probed is Some && probed != Some(kind)
            &&& p.new_kind is Some ==> p.new_kind == probed
        },
{
}

/// The running state of an enumeration.
#[derive(Debug)]
pub struct Enumeration {
    /// The first failure to ingest a listing.
    pub ingest_error: Option<String>,
}

/// How an enumeration ends: the generation goes on, or is aborted with a
/// reason, and the scan fails with an error.
#[derive(Debug)]
pub enum EnumerationEnd {
    Open,
    Abort { reason: String, error: String, cancelled: bool },
}

impl Enumeration {
    pub fn new() -> (r: Enumeration)
        ensures
            r.ingest_error is None,
    {
        Enumeration { ingest_error: None }
    }

    /// One directory was listed: `listed` is its number of entries, `None`
    /// where listing failed. Says whether the listing is to be ingested;
    /// after an ingest failure nothing is counted or ingested any more.
    pub fn observe(&self, progress: &mut ScanProgress, listed: Option<u64>) -> (ingest: bool)
        ensures
            ingest == (self.ingest_error is None),
            *final(progress) == (if self.ingest_error is Some {
                *old(progress)
            } else {
                ScanProgress {
                    dirs: wrapped(old(progress).dirs + 1),
                    entries: match listed {
                        Some(n) => wrapped(old(progress).entries + n),
                        None => old(progress).entries,
                    },
                    errors: match listed {
                        Some(_) => old(progress).errors,
                        None => wrapped(old(progress).errors + 1),
                    },
                    ..*old(progress)
                }
            }),
    {
        if self.ingest_error.is_some() {
            return false;
        }
        progress.dirs = progress.dirs.wrapping_add(1);
        match listed {
            Some(n) => {
                progress.entries = progress.entries.wrapping_add(n);
            },
            None => {
                progress.errors = progress.errors.wrapping_add(1);
            },
        }
        true
    }

    /// A listing could not be ingested: the first such failure decides the
    /// scan, and the walk is cancelled.
    pub fn ingest_failed(&mut self, progress: &mut ScanProgress, error: String)
        requires
            old(self).ingest_error is None,
        ensures
            final(self).ingest_error == Some(error),
            *final(progress) == (ScanProgress { cancel: true, ..*old(progress) }),
    {
        self.ingest_error = Some(error);
        progress.cancel = true;
    }

    /// The walk is over.
    pub fn conclude(&self, walk_cancelled: bool) -> (r: EnumerationEnd)
        ensures
            match self.ingest_error {
                Some(e) => {
                    &&& r matches EnumerationEnd::Abort { reason, error, cancelled }
                    &&& reason@ == "ingest error: "@ + e@
                    &&& error@ == e@
                    &&& !cancelled
                },
                None => if walk_cancelled {
                    &&& r matches EnumerationEnd::Abort { reason, error, cancelled }
                    &&& reason@ == "scan cancelled"@
                    &&& error@ == "scan cancelled"@
                    &&& cancelled
                } else {
                    r is Open
                },
            },
    {
        match &self.ingest_error {
            Some(e) => EnumerationEnd::Abort {
                reason: "ingest error: ".to_owned().concat(e),
                error: e.clone(),
                cancelled: false,
            },
            None => if walk_cancelled {
                EnumerationEnd::Abort {
                    reason: "scan cancelled".to_owned(),
                    error: "scan cancelled".to_owned(),
                    cancelled: true,
                }
            } else {
                EnumerationEnd::Open
            },
        }
    }
}

/// A counter that wraps.
pub open spec fn wrapped(n: int) -> u64 {
    (n % 0x1_0000_0000_0000_0000) as u64
}

} // verus!
