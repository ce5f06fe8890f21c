//! Admission control for expensive HTTP operations.
//!
//! One bounded gate stands in front of search, browse, archive listing and
//! count endpoints:
//!
//! - a semaphore with `concurrency` permits, taken only by expensive
//!   operations (health, activity and index status never enter it);
//! - a bounded queue: at most `queue_depth` requests may wait for a permit,
//!   for at most `queue_wait`. Anything beyond that is shed immediately with
//!   a structured busy error and a retry hint;
//! - a per-operation timeout that ends the *response*, not the work.
//!
//! ## Permits outlive timed-out responses
//!
//! The blocking work cannot be cancelled mid-call, so the permit is released
//! when the work actually finishes, never by the awaiting request. The
//! accounting reflects that: `in_flight` counts work that still holds a permit,
//! so it stays elevated after a timeout, and `detached` counts how much of it
//! no longer has a client waiting. Both return to zero once the abandoned work
//! drains.

use crate::scanner::wrapped;
use crate::text::{decimal, push_decimal};
use vstd::prelude::*;
use vstd::string::*;

verus! {

/// Tunables for the expensive-operation gate.
#[derive(Debug, Clone, Copy, PartialEq, Eq, Structural)]
pub struct AdmissionConfig {
    /// Expensive operations allowed to run at once.
    pub concurrency: usize,
    /// Requests allowed to wait for a permit before shedding load.
    pub queue_depth: usize,
    /// How long a queued request waits before it is shed.
    pub queue_wait_ms: u64,
    /// Response deadline for search.
    pub search_timeout_ms: u64,
    /// Response deadline for the other expensive operations.
    pub operation_timeout_ms: u64,
    /// Maximum JSON request body accepted by the API.
    pub max_body_bytes: usize,
}

impl Default for AdmissionConfig {
    /// Loopback defaults: a single interactive UI plus a CLI, on a machine
    /// that is also scanning and extracting content. Four concurrent heavy
    /// queries keep the blocking pool available for background work.
    fn default() -> (r: AdmissionConfig)
        ensures
            r == (AdmissionConfig {
                concurrency: 4,
                queue_depth: 32,
                queue_wait_ms: 5_000,
                search_timeout_ms: 30_000,
                operation_timeout_ms: 60_000,
                max_body_bytes: 1_048_576,
            }),
    {
        AdmissionConfig {
            concurrency: 4,
            queue_depth: 32,
            queue_wait_ms: 5_000,
            search_timeout_ms: 30_000,
            operation_timeout_ms: 60_000,
            max_body_bytes: 1_048_576,
        }
    }
}

/// Operation classes that are admitted one by one.
#[derive(Debug, Clone, Copy, PartialEq, Eq, Structural)]
pub enum Expensive {
    /// Catalog/content query execution.
    Search,
    /// One page of a streaming search export.
    Export,
    /// Directory listing and object detail.
    Browse,
    /// Archive manifest listing.
    Archive,
    /// Aggregate counts over a subtree or source.
    Counts,
    /// Bulk catalog maintenance triggered from the API.
    Maintenance,
}

impl Expensive {
    pub open spec fn name(self) -> Seq<char> {
        match self {
            Expensive::Search => "search"@,
            Expensive::Export => "export"@,
            Expensive::Browse => "browse"@,
            Expensive::Archive => "archive"@,
            Expensive::Counts => "counts"@,
            Expensive::Maintenance => "maintenance"@,
        }
    }

    pub fn label(self) -> (r: &'static str)
        ensures
            r@ == self.name(),
    {
        match self {
            Expensive::Search => "search",
            Expensive::Export => "export",
            Expensive::Browse => "browse",
            Expensive::Archive => "archive",
            Expensive::Counts => "counts",
            Expensive::Maintenance => "maintenance",
        }
    }
}

/// Why an expensive operation did not produce a result.
#[derive(Debug)]
pub enum AdmissionError {
    /// Shed before running: the queue was full, the wait expired, or the
    /// service is shutting down.
    Busy { op: Expensive, message: String, retry_after_s: u64 },
    /// Admitted and still running, but the response deadline passed.
    Timeout { op: Expensive, after_ms: u64 },
    /// The blocking task panicked or was cancelled by runtime shutdown.
    Failed(String),
}

/// Milliseconds as whole seconds, to the nearest; a half goes to the even one.
pub open spec fn rounded_seconds(ms: u64) -> nat {
    let whole = ms as nat / 1000;
    let rest = ms as nat % 1000;
    if rest > 500 || (rest == 500 && whole % 2 == 1) {
        whole + 1
    } else {
        whole
    }
}

pub fn round_seconds(ms: u64) -> (r: u64)
    ensures
        r == rounded_seconds(ms),
{
    let whole: u64 = ms / 1000;
    let rest: u64 = ms % 1000;
    if rest > 500 || (rest == 500 && whole % 2 == 1) {
        whole + 1
    } else {
        whole
    }
}

impl AdmissionError {
    pub open spec fn text(&self) -> Seq<char> {
        match self {
            AdmissionError::Busy { message, .. } => message@,
            AdmissionError::Timeout { op, after_ms } => op.name() + " exceeded its "@ + decimal(
                rounded_seconds(*after_ms),
            ) + "s time limit"@,
            AdmissionError::Failed(m) => "operation failed: "@ + m@,
        }
    }

    pub fn message(&self) -> (r: String)
        ensures
            r@ == self.text(),
    {
        match self {
            AdmissionError::Busy { message, .. } => message.clone(),
            AdmissionError::Timeout { op, after_ms } => {
                let mut s = op.label().to_owned().concat(" exceeded its ");
                push_decimal(&mut s, round_seconds(*after_ms));
                s.append("s time limit");
                s
            },
            AdmissionError::Failed(m) => "operation failed: ".to_owned().concat(m),
        }
    }
}

// ----- accounting -----------------------------------------------------------

/// Whether admitted work still has a client.
#[derive(Debug, Clone, Copy, PartialEq, Eq, Structural)]
pub enum WorkState {
    Running,
    Detached,
}

/// One admitted operation that holds a permit. It ends through
/// [`Admission::finish`].
#[derive(Debug)]
pub struct Work {
    state: WorkState,
}

impl View for Work {
    type V = WorkState;

    closed spec fn view(&self) -> WorkState {
        self.state
    }
}

/// How trying to take a permit at once went.
#[derive(Debug, Clone, Copy, PartialEq, Eq, Structural)]
pub enum PermitTry {
    Granted,
    NoPermits,
    Closed,
}

/// How waiting for a permit went.
#[derive(Debug, Clone, Copy, PartialEq, Eq, Structural)]
pub enum PermitWait {
    Granted,
    Closed,
    Elapsed,
}

/// What a request does after it tried to take a permit.
#[derive(Debug)]
pub enum Entry {
    /// Run the work; the response waits for this long.
    Admitted { work: Work, deadline_ms: u64 },
    /// Wait for a permit for this long.
    Queue { wait_ms: u64 },
    /// Give back the permit, if one was taken, and answer with the error.
    Refused(AdmissionError),
}

/// The admission configuration and gauges.
pub struct Admission {
    config: AdmissionConfig,
    in_flight: u64,
    queued: u64,
    detached: u64,
    admitted: u64,
    completed: u64,
    rejected_busy: u64,
    timed_out: u64,
    live: Ghost<Seq<WorkState>>,
}

pub struct AdmissionModel {
    pub config: AdmissionConfig,
    /// The work that holds a permit.
    pub live: Seq<WorkState>,
    /// Requests waiting for a permit.
    pub queued: u64,
    pub admitted: u64,
    pub completed: u64,
    pub rejected_busy: u64,
    pub timed_out: u64,
}

/// How much of the work no longer has a client.
pub open spec fn detached_count(live: Seq<WorkState>) -> nat
    decreases live.len(),
{
    if live.len() == 0 {
        0
    } else {
        detached_count(live.drop_last()) + (if live.last() == WorkState::Detached {
            1nat
        } else {
            0nat
        })
    }
}

impl AdmissionModel {
    pub open spec fn shed(self) -> AdmissionModel {
        AdmissionModel { rejected_busy: wrapped(self.rejected_busy + 1), ..self }
    }

    pub open spec fn begun(self) -> AdmissionModel {
        AdmissionModel {
            live: self.live.push(WorkState::Running),
            admitted: wrapped(self.admitted + 1),
            ..self
        }
    }

    /// The response deadline of an operation.
    pub open spec fn deadline(self, op: Expensive) -> u64 {
        if op == Expensive::Search || op == Expensive::Export {
            self.config.search_timeout_ms
        } else {
            self.config.operation_timeout_ms
        }
    }

    /// The retry hint of a shed request. Deliberately coarse: the wait bound is
    /// the only honest estimate of when a permit might be free.
    pub open spec fn retry_hint(self) -> u64 {
        let s = self.config.queue_wait_ms / 1000;
        if s < 1 {
            1
        } else if s > 60 {
            60
        } else {
            s as u64
        }
    }
}

pub open spec fn is_busy(e: AdmissionError, m: AdmissionModel, wanted: Expensive, text: Seq<char>) -> bool {
    &&& e matches AdmissionError::Busy { op, message, retry_after_s }
    &&& op == wanted
    &&& message@ == text
    &&& retry_after_s == m.retry_hint()
}

pub open spec fn queue_full_text(m: AdmissionModel) -> Seq<char> {
    "too many queued requests ("@ + decimal(m.queued as nat) + " waiting, "@ + decimal(
        m.config.concurrency as nat,
    ) + " running)"@
}

pub open spec fn waited_text(m: AdmissionModel) -> Seq<char> {
    "waited "@ + decimal(rounded_seconds(m.config.queue_wait_ms)) + "s for a free slot"@
}

/// What a request that tried to take a permit at once is answered.
pub open spec fn enters(
    before: AdmissionModel,
    after: AdmissionModel,
    op: Expensive,
    allow_queue: bool,
    tried: PermitTry,
    r: Entry,
) -> bool {
    match tried {
        PermitTry::Closed => {
            &&& r matches Entry::Refused(e) && is_busy(e, before, op, "service is shutting down"@)
            &&& after == before.shed()
        },
        PermitTry::NoPermits => if !allow_queue {
            &&& r matches Entry::Refused(e) && is_busy(
                e,
                before,
                op,
                "no free slot; export pages do not queue"@,
            )
            &&& after == before.shed()
        } else if before.queued >= before.config.queue_depth {
            &&& r matches Entry::Refused(e) && is_busy(e, before, op, queue_full_text(before))
            &&& after == before.shed()
        } else {
            &&& r == (Entry::Queue { wait_ms: before.config.queue_wait_ms })
            &&& after == (AdmissionModel { queued: (before.queued + 1) as u64, ..before })
        },
        PermitTry::Granted => if !allow_queue && before.queued > 0 {
            &&& r matches Entry::Refused(e) && is_busy(
                e,
                before,
                op,
                "interactive work is waiting; export page yielded"@,
            )
            &&& after == before.shed()
        } else {
            &&& r matches Entry::Admitted { work, deadline_ms } && work@ == WorkState::Running
                && deadline_ms == before.deadline(op)
            &&& after == before.begun()
        },
    }
}

/// What a request that waited for a permit is answered.
pub open spec fn waited_out(
    before: AdmissionModel,
    after: AdmissionModel,
    op: Expensive,
    waited: PermitWait,
    r: Entry,
) -> bool {
    let left = AdmissionModel { queued: (before.queued - 1) as u64, ..before };
    match waited {
        PermitWait::Granted => {
            &&& r matches Entry::Admitted { work, deadline_ms } && work@ == WorkState::Running
                && deadline_ms == left.deadline(op)
            &&& after == left.begun()
        },
        PermitWait::Closed => {
            &&& r matches Entry::Refused(e) && is_busy(e, left, op, "service is shutting down"@)
            &&& after == left.shed()
        },
        PermitWait::Elapsed => {
            &&& r matches Entry::Refused(e) && is_busy(e, left, op, waited_text(left))
            &&& after == left.shed()
        },
    }
}

/// Additive admission block reported with the index status and activity.
#[derive(Debug, Clone, Copy, PartialEq, Eq, Structural)]
pub struct AdmissionView {
    /// Expensive operations admitted concurrently.
    pub limit: usize,
    pub queue_depth: usize,
    /// Work holding a permit right now (includes work whose client already
    /// gave up).
    pub in_flight: u64,
    /// Requests waiting for a permit right now.
    pub queued: u64,
    /// In-flight work with no client left waiting for it (timed out, or the
    /// connection went away).
    pub detached: u64,
    pub admitted: u64,
    pub completed: u64,
    pub rejected_busy: u64,
    pub timed_out: u64,
    pub queue_wait_ms: u64,
    pub search_timeout_ms: u64,
    pub operation_timeout_ms: u64,
    pub max_body_bytes: usize,
}

proof fn lemma_detached_push(live: Seq<WorkState>, s: WorkState)
    ensures
        detached_count(live.push(s)) == detached_count(live) + (if s == WorkState::Detached {
            1nat
        } else {
            0nat
        }),
{
    assert(live.push(s).drop_last() =~= live);
}

proof fn lemma_detached_remove(live: Seq<WorkState>, i: int)
    requires
        0 <= i < live.len(),
    ensures
        detached_count(live) == detached_count(live.remove(i)) + (if live[i]
            == WorkState::Detached {
            1nat
        } else {
            0nat
        }),
    decreases live.len(),
{
    if i == live.len() - 1 {
        assert(live.remove(i) =~= live.drop_last());
    } else {
        lemma_detached_remove(live.drop_last(), i);
        assert(live.remove(i).drop_last() =~= live.drop_last().remove(i));
        assert(live.remove(i).last() == live.last());
    }
}

proof fn lemma_detached_bounded(live: Seq<WorkState>)
    ensures
        detached_count(live) <= live.len(),
    decreases live.len(),
{
    if live.len() > 0 {
        lemma_detached_bounded(live.drop_last());
    }
}

impl View for Admission {
    type V = AdmissionModel;

    closed spec fn view(&self) -> AdmissionModel {
        AdmissionModel {
            config: self.config,
            live: self.live@,
            queued: self.queued,
            admitted: self.admitted,
            completed: self.completed,
            rejected_busy: self.rejected_busy,
            timed_out: self.timed_out,
        }
    }
}

impl Admission {
    /// The gauges are exactly what the live work comes to.
    pub closed spec fn wf(&self) -> bool {
        &&& self.in_flight == self.live@.len()
        &&& self.detached == detached_count(self.live@)
        &&& self.config.concurrency >= 1
    }

    /// A gate of zero would close the API entirely; what is enforced is
    /// reported.
    pub fn new(config: AdmissionConfig) -> (r: Admission)
        ensures
            r.wf(),
            r@ == (AdmissionModel {
                config: AdmissionConfig {
                    concurrency: if config.concurrency < 1 {
                        1
                    } else {
                        config.concurrency
                    },
                    ..config
                },
                live: Seq::empty(),
                queued: 0,
                admitted: 0,
                completed: 0,
                rejected_busy: 0,
                timed_out: 0,
            }),
    {
        let mut config = config;
        if config.concurrency < 1 {
            config.concurrency = 1;
        }
        Admission {
            config,
            in_flight: 0,
            queued: 0,
            detached: 0,
            admitted: 0,
            completed: 0,
            rejected_busy: 0,
            timed_out: 0,
            live: Ghost(Seq::empty()),
        }
    }

    pub fn config(&self) -> (r: AdmissionConfig)
        ensures
            r == self@.config,
    {
        self.config
    }

    fn timeout_for(&self, op: Expensive) -> (r: u64)
        ensures
            r == self@.deadline(op),
    {
        if op == Expensive::Search || op == Expensive::Export {
            self.config.search_timeout_ms
        } else {
            self.config.operation_timeout_ms
        }
    }

    fn busy(&mut self, op: Expensive, message: String) -> (r: AdmissionError)
        requires
            old(self).wf(),
        ensures
            final(self).wf(),
            final(self)@ == old(self)@.shed(),
            is_busy(r, old(self)@, op, message@),
    {
        self.rejected_busy = self.rejected_busy.wrapping_add(1);
        let s: u64 = self.config.queue_wait_ms / 1000;
        let retry_after_s: u64 = if s < 1 {
            1
        } else if s > 60 {
            60
        } else {
            s
        };
        AdmissionError::Busy { op, message, retry_after_s }
    }

    fn begin(&mut self, op: Expensive) -> (r: Entry)
        requires
            old(self).wf(),
            old(self)@.live.len() < u64::MAX,
        ensures
            final(self).wf(),
            final(self)@ == old(self)@.begun(),
            r matches Entry::Admitted { work, deadline_ms } && work@ == WorkState::Running
                && deadline_ms == old(self)@.deadline(op) && final(self)@.live.contains(work@),
    {
        proof {
            lemma_detached_push(self.live@, WorkState::Running);
        }
        self.in_flight = self.in_flight + 1;
        self.admitted = self.admitted.wrapping_add(1);
        proof {
            let n = self.live@.len();
            self.live@ = self.live@.push(WorkState::Running);
            assert(self.live@[n as int] == WorkState::Running);
        }
        Entry::Admitted {
            work: Work { state: WorkState::Running },
            deadline_ms: self.timeout_for(op),
        }
    }

    /// A request tried to take a permit at once. Export pages do not queue
    /// (`allow_queue` is false): they take a permit only when it is free and
    /// nobody waits, so a fast cursor walk cannot repeatedly get ahead of a
    /// queued search.
    pub fn enter(&mut self, op: Expensive, allow_queue: bool, tried: PermitTry) -> (r: Entry)
        requires
            old(self).wf(),
            old(self)@.live.len() < u64::MAX,
        ensures
            final(self).wf(),
            enters(old(self)@, final(self)@, op, allow_queue, tried, r),
            r matches Entry::Admitted { work, .. } ==> final(self)@.live.contains(work@),
    {
        match tried {
            PermitTry::Closed => Entry::Refused(
                self.busy(op, "service is shutting down".to_owned()),
            ),
            PermitTry::NoPermits => {
                if !allow_queue {
                    return Entry::Refused(
                        self.busy(op, "no free slot; export pages do not queue".to_owned()),
                    );
                }
                if self.queued >= self.config.queue_depth as u64 {
                    let mut m = "too many queued requests (".to_owned();
                    push_decimal(&mut m, self.queued);
                    m.append(" waiting, ");
                    push_decimal(&mut m, self.config.concurrency as u64);
                    m.append(" running)");
                    return Entry::Refused(self.busy(op, m));
                }
                self.queued = self.queued + 1;
                Entry::Queue { wait_ms: self.config.queue_wait_ms }
            },
            PermitTry::Granted => {
                if !allow_queue && self.queued > 0 {
                    return Entry::Refused(
                        self.busy(
                            op,
                            "interactive work is waiting; export page yielded".to_owned(),
                        ),
                    );
                }
                self.begin(op)
            },
        }
    }

    /// A queued request stopped waiting.
    pub fn end_wait(&mut self, op: Expensive, waited: PermitWait) -> (r: Entry)
        requires
            old(self).wf(),
            old(self)@.queued > 0,
            old(self)@.live.len() < u64::MAX,
        ensures
            final(self).wf(),
            waited_out(old(self)@, final(self)@, op, waited, r),
            r matches Entry::Admitted { work, .. } ==> final(self)@.live.contains(work@),
    {
        self.queued = self.queued - 1;
        match waited {
            PermitWait::Granted => self.begin(op),
            PermitWait::Closed => Entry::Refused(
                self.busy(op, "service is shutting down".to_owned()),
            ),
            PermitWait::Elapsed => {
                let mut m = "waited ".to_owned();
                push_decimal(&mut m, round_seconds(self.config.queue_wait_ms));
                m.append("s for a free slot");
                Entry::Refused(self.busy(op, m))
            },
        }
    }

    /// A waiting request went away without an answer.
    pub fn leave_queue(&mut self)
        requires
            old(self).wf(),
            old(self)@.queued > 0,
        ensures
            final(self).wf(),
            final(self)@ == (AdmissionModel { queued: (old(self)@.queued - 1) as u64, ..old(self)@ }),
    {
        self.queued = self.queued - 1;
    }

    /// The client of some work is gone: the deadline passed or the connection
    /// did. The work goes on and keeps its permit.
    pub fn abandon(&mut self, work: &mut Work)
        requires
            old(self).wf(),
            old(self)@.live.contains(old(work)@),
        ensures
            final(self).wf(),
            final(work)@ == WorkState::Detached,
            final(self)@.live.contains(final(work)@),
            final(self)@ == (AdmissionModel {
                live: old(self)@.live.update(
                    old(self)@.live.index_of(old(work)@),
                    WorkState::Detached,
                ),
                ..old(self)@
            }),
    {
        let ghost live = self.live@;
        let ghost at = live.index_of(work@);
        let ghost after = live.update(at, WorkState::Detached);
        proof {
            assert(live[at] == work@);
            lemma_detached_remove(live, at);
            lemma_detached_remove(after, at);
            lemma_detached_bounded(after);
            assert(after.remove(at) =~= live.remove(at));
            assert(after[at] == WorkState::Detached);
        }
        if work.state == WorkState::Running {
            work.state = WorkState::Detached;
            self.detached = self.detached + 1;
        }
        proof {
            self.live@ = after;
        }
    }

    /// Some work is genuinely over, by success or by panic: its permit is free.
    pub fn finish(&mut self, work: Work)
        requires
            old(self).wf(),
            old(self)@.live.contains(work@),
        ensures
            final(self).wf(),
            final(self)@ == (AdmissionModel {
                live: old(self)@.live.remove(old(self)@.live.index_of(work@)),
                completed: wrapped(old(self)@.completed + 1),
                ..old(self)@
            }),
    {
        let ghost live = self.live@;
        let ghost at = live.index_of(work@);
        proof {
            assert(live[at] == work@);
            lemma_detached_remove(live, at);
        }
        if work.state == WorkState::Detached {
            self.detached = self.detached - 1;
        }
        self.in_flight = self.in_flight - 1;
        self.completed = self.completed.wrapping_add(1);
        proof {
            self.live@ = live.remove(at);
        }
    }

    /// The response deadline of an operation passed.
    pub fn time_out(&mut self, op: Expensive) -> (r: AdmissionError)
        requires
            old(self).wf(),
        ensures
            final(self).wf(),
            final(self)@ == (AdmissionModel {
                timed_out: wrapped(old(self)@.timed_out + 1),
                ..old(self)@
            }),
            r == (AdmissionError::Timeout { op, after_ms: old(self)@.deadline(op) }),
    {
        self.timed_out = self.timed_out.wrapping_add(1);
        AdmissionError::Timeout { op, after_ms: self.timeout_for(op) }
    }

    pub fn gauges(&self) -> (r: AdmissionView)
        requires
            self.wf(),
        ensures
            r.limit == self@.config.concurrency,
            r.queue_depth == self@.config.queue_depth,
            r.in_flight == self@.live.len(),
            r.queued == self@.queued,
            r.detached == detached_count(self@.live),
            r.admitted == self@.admitted,
            r.completed == self@.completed,
            r.rejected_busy == self@.rejected_busy,
            r.timed_out == self@.timed_out,
            r.queue_wait_ms == self@.config.queue_wait_ms,
            r.search_timeout_ms == self@.config.search_timeout_ms,
            r.operation_timeout_ms == self@.config.operation_timeout_ms,
            r.max_body_bytes == self@.config.max_body_bytes,
    {
        AdmissionView {
            limit: self.config.concurrency,
            queue_depth: self.config.queue_depth,
            in_flight: self.in_flight,
            queued: self.queued,
            detached: self.detached,
            admitted: self.admitted,
            completed: self.completed,
            rejected_busy: self.rejected_busy,
            timed_out: self.timed_out,
            queue_wait_ms: self.config.queue_wait_ms,
            search_timeout_ms: self.config.search_timeout_ms,
            operation_timeout_ms: self.config.operation_timeout_ms,
            max_body_bytes: self.config.max_body_bytes,
        }
    }
}

// ----- laws -----------------------------------------------------------------

/// The queue never grows past its depth, whatever arrives.
pub proof fn law_the_queue_is_bounded(
    before: AdmissionModel,
    after: AdmissionModel,
    op: Expensive,
    allow_queue: bool,
    tried: PermitTry,
    r: Entry,
)
    requires
        enters(before, after, op, allow_queue, tried, r),
        before.queued <= before.config.queue_depth,
    ensures
        after.queued <= after.config.queue_depth,
{
}

/// Export pages never queue, and never run while interactive work waits.
pub proof fn law_exports_yield_to_waiting_work(
    before: AdmissionModel,
    after: AdmissionModel,
    tried: PermitTry,
    r: Entry,
)
    requires
        enters(before, after, Expensive::Export, false, tried, r),
    ensures
        after.queued == before.queued,
        before.queued > 0 ==> r is Refused,
{
}

/// A request runs exactly if a permit is free for it: an interactive one
/// whenever it is, an export page only if nobody waits. It waits exactly if it
/// may and there is room in the queue; anything else is shed and counted, and
/// nobody is both.
pub proof fn law_a_free_permit_is_used(
    before: AdmissionModel,
    after: AdmissionModel,
    op: Expensive,
    allow_queue: bool,
    tried: PermitTry,
    r: Entry,
)
    requires
        enters(before, after, op, allow_queue, tried, r),
        before.rejected_busy < u64::MAX,
        before.admitted < u64::MAX,
        before.queued < u64::MAX,
    ensures
        r is Admitted <==> tried == PermitTry::Granted && (allow_queue || before.queued == 0),
        r is Queue <==> tried == PermitTry::NoPermits && allow_queue && before.queued
            < before.config.queue_depth,
        r is Admitted ==> after.live.len() == before.live.len() + 1 && after.admitted
            == before.admitted + 1 && after.rejected_busy == before.rejected_busy && after.queued
            == before.queued,
        r is Queue ==> after.queued == before.queued + 1 && after.live == before.live
            && after.rejected_busy == before.rejected_busy,
        r is Refused ==> after.live == before.live && after.queued == before.queued
            && after.rejected_busy == before.rejected_busy + 1 && after.admitted == before.admitted,
        r matches Entry::Admitted { deadline_ms, .. } ==> deadline_ms == (if op == Expensive::Search
            || op == Expensive::Export {
            before.config.search_timeout_ms
        } else {
            before.config.operation_timeout_ms
        }),
        r matches Entry::Queue { wait_ms } ==> wait_ms == before.config.queue_wait_ms,
        r matches Entry::Refused(e) ==> (e matches AdmissionError::Busy { op: busy, retry_after_s, .. }
            && busy == op && 1 <= retry_after_s <= 60),
        after.config == before.config,
{
}

/// A request that waited has left the queue whatever came of it. It runs exactly
/// if it got its permit; else it is shed, counted, and told which operation was
/// busy.
pub proof fn law_a_wait_ends_in_a_permit_or_a_refusal(
    before: AdmissionModel,
    after: AdmissionModel,
    op: Expensive,
    waited: PermitWait,
    r: Entry,
)
    requires
        waited_out(before, after, op, waited, r),
        before.queued > 0,
        before.rejected_busy < u64::MAX,
        before.admitted < u64::MAX,
    ensures
        after.queued == before.queued - 1,
        after.config == before.config,
        r is Admitted <==> waited == PermitWait::Granted,
        r is Refused <==> waited != PermitWait::Granted,
        r is Admitted ==> after.live.len() == before.live.len() + 1 && after.admitted
            == before.admitted + 1 && after.rejected_busy == before.rejected_busy,
        r is Refused ==> after.live == before.live && after.rejected_busy == before.rejected_busy
            + 1 && after.admitted == before.admitted,
        r matches Entry::Admitted { work, deadline_ms } ==> work@ == WorkState::Running
            && deadline_ms == (if op == Expensive::Search || op == Expensive::Export {
            before.config.search_timeout_ms
        } else {
            before.config.operation_timeout_ms
        }),
        r matches Entry::Refused(e) ==> (e matches AdmissionError::Busy { op: busy, retry_after_s, .. }
            && busy == op && 1 <= retry_after_s <= 60),
{
}

/// A shed request is told to come back after as long as a queued one waits, in
/// whole seconds, but no sooner than in one second and no later than in a
/// minute.
pub proof fn law_a_retry_hint_is_the_queue_wait(m: AdmissionModel)
    ensures
        1 <= m.retry_hint() <= 60,
        1_000 <= m.config.queue_wait_ms < 61_000 ==> m.retry_hint() * 1_000
            <= m.config.queue_wait_ms < (m.retry_hint() + 1) * 1_000,
        m.config.queue_wait_ms < 1_000 ==> m.retry_hint() == 1,
        m.config.queue_wait_ms >= 60_000 ==> m.retry_hint() == 60,
{
}

/// A time is shown in the whole seconds nearest to it, and one half way between
/// two in the even one.
pub proof fn law_seconds_are_the_nearest(ms: u64)
    ensures
        -500 <= ms - 1_000 * rounded_seconds(ms) <= 500,
        (ms - 1_000 * rounded_seconds(ms) == 500 || ms - 1_000 * rounded_seconds(ms) == -500)
            ==> rounded_seconds(ms) % 2 == 0,
{
}

/// Work counts as detached exactly if its client is gone: work that begins does
/// not, and each that is abandoned counts once.
pub proof fn law_abandoned_work_is_counted(live: Seq<WorkState>, state: WorkState)
    ensures
        detached_count(live.push(state)) == detached_count(live) + (if state == WorkState::Detached {
            1int
        } else {
            0int
        }),
{
    assert(live.push(state).drop_last() =~= live);
}

/// Nothing leaks: once no work holds a permit, no work is detached either.
pub proof fn law_detached_work_drains(live: Seq<WorkState>)
    ensures
        detached_count(live) <= live.len(),
        live.len() == 0 ==> detached_count(live) == 0,
{
    lemma_detached_bounded(live);
}

} // verus!
