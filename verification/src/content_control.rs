//! Operator controls for background content work, and the one place that
//! decides what "content state" means.
//!
//! Two switches gate extraction, and they are deliberately different: the
//! process switch is chosen at start-up and not persisted, and turns the whole
//! pipeline off. The pause is an *operator* control taken while the service
//! runs. It stops new job **claims** only: a batch a worker already holds runs
//! to completion and is committed and published normally.
//!
//! A pause survives a restart. It is recorded in a marker file whose presence
//! is the flag; resuming is always explicit.

use crate::text::{decimal, push_decimal};
use vstd::prelude::*;
use vstd::string::*;

verus! {

/// Durable marker for a paused content pipeline, in the data directory.
pub const PAUSE_MARKER: &'static str = "content-pause.json";

/// What the marker file says at start-up.
#[derive(Debug, Clone, Copy, PartialEq, Eq, Structural)]
pub enum Marker {
    Absent,
    /// The file exists; the time inside it is advisory and may be unreadable.
    Present { paused_at_unix_s: Option<u64> },
}

/// The global "stop claiming content jobs" flag.
#[derive(Debug, Clone, Copy, PartialEq, Eq, Structural)]
pub struct ContentPause {
    pub paused: bool,
    /// Wall-clock second the pause was requested; meaningless when running.
    pub since_unix_s: u64,
}

/// What has to be done to the marker before the flag may change.
#[derive(Debug, Clone, Copy, PartialEq, Eq, Structural)]
pub enum MarkerChange {
    Nothing,
    Write { paused_at_unix_s: u64 },
    Remove,
}

impl ContentPause {
    /// A marker that exists but cannot be parsed still means paused.
    pub fn load(marker: Marker, now_unix_s: u64) -> (r: ContentPause)
        ensures
            r == restarted(marker, now_unix_s),
    {
        match marker {
            Marker::Absent => ContentPause { paused: false, since_unix_s: 0 },
            Marker::Present { paused_at_unix_s } => ContentPause {
                paused: true,
                since_unix_s: match paused_at_unix_s {
                    Some(t) => t,
                    None => now_unix_s,
                },
            },
        }
    }

    pub fn is_paused(&self) -> (r: bool)
        ensures
            r == self.paused,
    {
        self.paused
    }

    pub fn paused_since_unix_s(&self) -> (r: Option<u64>)
        ensures
            r == (if self.paused {
                Some(self.since_unix_s)
            } else {
                None
            }),
    {
        if self.paused {
            Some(self.since_unix_s)
        } else {
            None
        }
    }

    /// What a request does to the marker.
    pub open spec fn wanted_change(self, paused: bool, now_unix_s: u64) -> MarkerChange {
        if paused == self.paused {
            MarkerChange::Nothing
        } else if paused {
            MarkerChange::Write { paused_at_unix_s: now_unix_s }
        } else {
            MarkerChange::Remove
        }
    }

    /// The flag after a request, whose change of the marker was done or not.
    pub open spec fn switched(self, paused: bool, now_unix_s: u64, done: bool) -> ContentPause {
        if paused == self.paused || !done {
            self
        } else if paused {
            ContentPause { paused: true, since_unix_s: now_unix_s }
        } else {
            ContentPause { paused: false, ..self }
        }
    }

    /// What to do to the marker for a request. Both directions are idempotent.
    pub fn marker_change(&self, paused: bool, now_unix_s: u64) -> (r: MarkerChange)
        ensures
            r == self.wanted_change(paused, now_unix_s),
    {
        if paused == self.paused {
            MarkerChange::Nothing
        } else if paused {
            MarkerChange::Write { paused_at_unix_s: now_unix_s }
        } else {
            MarkerChange::Remove
        }
    }

    /// Pause or resume claiming, after the marker was changed as
    /// [`Self::marker_change`] says. Returns whether the flag actually changed.
    /// If the marker could not be changed the flag is untouched, so what the
    /// operator is told and what a restart will do never diverge.
    pub fn set_paused<E>(&mut self, paused: bool, now_unix_s: u64, marker: Result<(), E>) -> (r:
        Result<bool, E>)
        ensures
            *final(self) == old(self).switched(paused, now_unix_s, marker is Ok),
            if paused == old(self).paused {
                r == Ok::<bool, E>(false)
            } else {
                match marker {
                    Err(e) => r == Err::<bool, E>(e),
                    Ok(_) => r == Ok::<bool, E>(true),
                }
            },
    {
        if paused == self.paused {
            return Ok(false);
        }
        match marker {
            Err(e) => {
                return Err(e);
            },
            Ok(_) => {},
        }
        if paused {
            self.since_unix_s = now_unix_s;
        }
        self.paused = paused;
        Ok(true)
    }
}

/// How a failed marker change is reported.
pub fn marker_failure(paused: bool, error: &str) -> (r: String)
    ensures
        r@ == "the pause marker could not be "@ + (if paused {
            "written"@
        } else {
            "removed"@
        }) + ": "@ + error@,
{
    let verb = if paused {
        "written"
    } else {
        "removed"
    };
    "the pause marker could not be ".to_owned().concat(verb).concat(": ").concat(error)
}

/// What a start-up makes of a marker.
pub open spec fn restarted(marker: Marker, now_unix_s: u64) -> ContentPause {
    match marker {
        Marker::Absent => ContentPause { paused: false, since_unix_s: 0 },
        Marker::Present { paused_at_unix_s } => ContentPause {
            paused: true,
            since_unix_s: match paused_at_unix_s {
                Some(t) => t,
                None => now_unix_s,
            },
        },
    }
}

/// The marker after a change of it. One that was not done leaves the marker as
/// it was.
pub open spec fn marked(marker: Marker, change: MarkerChange, done: bool) -> Marker {
    if !done {
        marker
    } else {
        match change {
            MarkerChange::Nothing => marker,
            MarkerChange::Write { paused_at_unix_s } => Marker::Present {
                paused_at_unix_s: Some(paused_at_unix_s),
            },
            MarkerChange::Remove => Marker::Absent,
        }
    }
}

/// The marker says what the flag says.
pub open spec fn records(marker: Marker, p: ContentPause) -> bool {
    match marker {
        Marker::Absent => !p.paused,
        Marker::Present { paused_at_unix_s } => {
            &&& p.paused
            &&& paused_at_unix_s is Some ==> paused_at_unix_s == Some(p.since_unix_s)
        },
    }
}

/// What the operator is told and what a restart will do never diverge: a
/// request keeps the marker and the flag in agreement, whether its change of
/// the marker was done or not, and start-up makes of the marker the flag that
/// the request left.
pub proof fn law_a_restart_sees_the_recorded_pause(
    p: ContentPause,
    marker: Marker,
    paused: bool,
    now: u64,
    done: bool,
    later: u64,
)
    requires
        records(marker, p),
    ensures
        ({
            let after = p.switched(paused, now, done);
            let left = marked(marker, p.wanted_change(paused, now), done);
            &&& records(left, after)
            &&& restarted(left, later).paused == after.paused
            &&& records(left, restarted(left, later))
            &&& left matches Marker::Present { paused_at_unix_s: Some(_) } ==> restarted(left, later)
                == after
        }),
{
}

/// Both directions are idempotent: asking again asks nothing of the marker and
/// changes nothing.
pub proof fn law_switching_again_changes_nothing(
    p: ContentPause,
    paused: bool,
    now: u64,
    later: u64,
    done: bool,
)
    ensures
        ({
            let after = p.switched(paused, now, true);
            &&& after.wanted_change(paused, later) is Nothing
            &&& after.switched(paused, later, done) == after
        }),
{
}

// ----- status ---------------------------------------------------------------

/// What the workers are doing with respect to claiming new jobs.
#[derive(Debug, Clone, Copy, PartialEq, Eq, Structural)]
pub enum ContentFlow {
    /// `--no-content`: this process extracts nothing.
    Disabled,
    /// Claiming has stopped and no batch is in flight.
    Stopped,
    /// Claiming has stopped but workers are still finishing claimed batches.
    Draining,
    /// Claiming is allowed but there is nothing to claim: the queue is empty
    /// or every source is at its concurrency budget.
    Waiting,
    /// Workers are extracting.
    Running,
}

/// How complete content *search* is right now.
#[derive(Debug, Clone, Copy, PartialEq, Eq, Structural)]
pub enum ContentSearchState {
    /// The content index reflects every stored chunk.
    Ready,
    /// A rebuild from stored chunks is pending or running; results are partial.
    Rebuilding,
    /// The last rebuild failed; results stay partial until it runs again.
    Failed,
    /// Extraction is off for this process, so coverage will not grow.
    Disabled,
}

/// How far a rebuild of the content index is.
#[derive(Debug, Clone, Copy, PartialEq, Eq, Structural)]
pub enum RebuildPhase {
    Idle,
    Pending,
    Running,
    Done,
    Failed,
}

#[derive(Debug)]
pub struct RebuildStatus {
    pub phase: RebuildPhase,
    pub docs: u64,
    pub chunks: u64,
    pub elapsed_ms: u64,
    pub error: Option<String>,
}

/// The content state shared by health, activity, the CLI, and the web UI, so
/// those four can never disagree.
#[derive(Debug)]
pub struct ContentStatusView {
    pub search: ContentSearchState,
    /// One line describing `search` and `flow` together.
    pub detail: String,
    /// Process-level switch (`--no-content` clears it).
    pub enabled: bool,
    /// Operator pause; persisted across restarts.
    pub paused: bool,
    pub paused_since_unix_s: Option<u64>,
    pub flow: ContentFlow,
    pub flow_reason: String,
    /// Source-budget units held by workers: one per batch being extracted.
    pub in_flight: u32,
    pub rebuild: RebuildStatus,
}

pub open spec fn is_rebuilding(phase: RebuildPhase) -> bool {
    phase == RebuildPhase::Pending || phase == RebuildPhase::Running
}

/// What the workers do. The order matters: the reason an operator is shown is
/// the one they can act on. The process switch outranks a pause, and a pause
/// outranks a rebuild.
pub open spec fn flow_of(enabled: bool, paused: bool, rebuilding: bool, in_flight: u32) -> ContentFlow {
    if !enabled {
        ContentFlow::Disabled
    } else if paused {
        if in_flight > 0 {
            ContentFlow::Draining
        } else {
            ContentFlow::Stopped
        }
    } else if rebuilding {
        if in_flight > 0 {
            ContentFlow::Draining
        } else {
            ContentFlow::Stopped
        }
    } else if in_flight > 0 {
        ContentFlow::Running
    } else {
        ContentFlow::Waiting
    }
}

pub open spec fn flow_text(enabled: bool, paused: bool, rebuilding: bool, in_flight: u32) -> Seq<char> {
    if !enabled {
        "content extraction is disabled for this process (--no-content)"@
    } else if paused {
        if in_flight > 0 {
            "paused: no new jobs are claimed; "@ + decimal(in_flight as nat)
                + " batch(es) already claimed finish and publish normally"@
        } else {
            "paused: no jobs are claimed and nothing is in flight"@
        }
    } else if rebuilding {
        if in_flight > 0 {
            "the content index is being rebuilt: no new jobs are claimed until it finishes"@
        } else {
            "the content index is being rebuilt: claiming resumes when it finishes"@
        }
    } else if in_flight > 0 {
        decimal(in_flight as nat) + " batch(es) in flight"@
    } else {
        "nothing to claim: the queue is empty or every source is at its concurrency budget"@
    }
}

pub open spec fn search_of(enabled: bool, phase: RebuildPhase) -> ContentSearchState {
    if is_rebuilding(phase) {
        ContentSearchState::Rebuilding
    } else if phase == RebuildPhase::Failed {
        ContentSearchState::Failed
    } else if !enabled {
        ContentSearchState::Disabled
    } else {
        ContentSearchState::Ready
    }
}

pub open spec fn search_text(enabled: bool, rebuild: RebuildStatus) -> Seq<char> {
    match search_of(enabled, rebuild.phase) {
        ContentSearchState::Ready => "content search is ready"@,
        ContentSearchState::Rebuilding =>
            "content search is partial: rebuilding the index from stored chunks ("@ + decimal(
            rebuild.docs as nat,
        ) + " of "@ + decimal(rebuild.chunks as nat) + " documents, "@ + decimal(
            rebuild.elapsed_ms as nat / 1000,
        ) + " s)"@,
        ContentSearchState::Failed => "content search is partial: the last index rebuild failed ("@
            + (match rebuild.error {
            Some(e) => e@,
            None => "unknown error"@,
        }) + "); it runs again at the next start"@,
        ContentSearchState::Disabled => "content search covers only what was already indexed"@,
    }
}

fn flow(enabled: bool, paused: bool, rebuilding: bool, in_flight: u32) -> (r: (ContentFlow, String))
    ensures
        r.0 == flow_of(enabled, paused, rebuilding, in_flight),
        r.1@ == flow_text(enabled, paused, rebuilding, in_flight),
{
    let busy = in_flight > 0;
    if !enabled {
        (
            ContentFlow::Disabled,
            "content extraction is disabled for this process (--no-content)".to_owned(),
        )
    } else if paused {
        if busy {
            let mut m = "paused: no new jobs are claimed; ".to_owned();
            push_decimal(&mut m, in_flight as u64);
            m.append(" batch(es) already claimed finish and publish normally");
            (ContentFlow::Draining, m)
        } else {
            (
                ContentFlow::Stopped,
                "paused: no jobs are claimed and nothing is in flight".to_owned(),
            )
        }
    } else if rebuilding {
        if busy {
            (
                ContentFlow::Draining,
                "the content index is being rebuilt: no new jobs are claimed until it finishes".to_owned(),
            )
        } else {
            (
                ContentFlow::Stopped,
                "the content index is being rebuilt: claiming resumes when it finishes".to_owned(),
            )
        }
    } else if busy {
        let mut m = String::new();
        push_decimal(&mut m, in_flight as u64);
        m.append(" batch(es) in flight");
        assert(m@ =~= flow_text(enabled, paused, rebuilding, in_flight));
        (ContentFlow::Running, m)
    } else {
        (
            ContentFlow::Waiting,
            "nothing to claim: the queue is empty or every source is at its concurrency budget".to_owned(),
        )
    }
}

fn search_line(search: ContentSearchState, rebuild: &RebuildStatus, enabled: bool) -> (r: String)
    requires
        search == search_of(enabled, rebuild.phase),
    ensures
        r@ == search_text(enabled, *rebuild),
{
    match search {
        ContentSearchState::Ready => "content search is ready".to_owned(),
        ContentSearchState::Rebuilding => {
            let mut m =
                "content search is partial: rebuilding the index from stored chunks (".to_owned();
            push_decimal(&mut m, rebuild.docs);
            m.append(" of ");
            push_decimal(&mut m, rebuild.chunks);
            m.append(" documents, ");
            push_decimal(&mut m, rebuild.elapsed_ms / 1000);
            m.append(" s)");
            m
        },
        ContentSearchState::Failed => {
            let mut m = "content search is partial: the last index rebuild failed (".to_owned();
            match &rebuild.error {
                Some(e) => m.append(e),
                None => m.append("unknown error"),
            }
            m.append("); it runs again at the next start");
            m
        },
        ContentSearchState::Disabled =>
            "content search covers only what was already indexed".to_owned(),
    }
}

/// Derive the current content state. Cheap: no catalog or index reads.
pub fn content_status(
    enabled: bool,
    pause: &ContentPause,
    rebuild: RebuildStatus,
    in_flight: u32,
) -> (r: ContentStatusView)
    ensures
        ({
            let rebuilding = is_rebuilding(rebuild.phase);
            &&& r.search == search_of(enabled, rebuild.phase)
            &&& r.flow == flow_of(enabled, pause.paused, rebuilding, in_flight)
            &&& r.flow_reason@ == flow_text(enabled, pause.paused, rebuilding, in_flight)
            &&& r.detail@ == search_text(enabled, rebuild) + "; "@ + r.flow_reason@
            &&& r.enabled == enabled
            &&& r.paused == pause.paused
            &&& r.paused_since_unix_s == (if pause.paused {
                Some(pause.since_unix_s)
            } else {
                None
            })
            &&& r.in_flight == in_flight
            &&& r.rebuild == rebuild
        }),
{
    let paused = pause.is_paused();
    let rebuilding = rebuild.phase == RebuildPhase::Pending || rebuild.phase
        == RebuildPhase::Running;
    let (flow, flow_reason) = flow(enabled, paused, rebuilding, in_flight);
    let search = if rebuilding {
        ContentSearchState::Rebuilding
    } else if rebuild.phase == RebuildPhase::Failed {
        ContentSearchState::Failed
    } else if !enabled {
        ContentSearchState::Disabled
    } else {
        ContentSearchState::Ready
    };
    let detail = search_line(search, &rebuild, enabled).concat("; ").concat(&flow_reason);
    ContentStatusView {
        search,
        detail,
        enabled,
        paused,
        paused_since_unix_s: pause.paused_since_unix_s(),
        flow,
        flow_reason,
        in_flight,
        rebuild,
    }
}

/// Content search counts as ready exactly if nothing is missing from the index
/// and extraction goes on: a rebuild that is under way or failed makes it
/// partial, whatever the switch says.
pub proof fn law_search_is_ready_only_when_complete(enabled: bool, phase: RebuildPhase)
    ensures
        search_of(enabled, phase) == ContentSearchState::Ready <==> enabled && (phase
            == RebuildPhase::Idle || phase == RebuildPhase::Done),
        search_of(enabled, phase) == ContentSearchState::Rebuilding <==> phase
            == RebuildPhase::Pending || phase == RebuildPhase::Running,
        search_of(enabled, phase) == ContentSearchState::Failed <==> phase == RebuildPhase::Failed,
        search_of(enabled, phase) == ContentSearchState::Disabled <==> !enabled && (phase
            == RebuildPhase::Idle || phase == RebuildPhase::Done),
{
}

/// Whether a process extracts shows first: one that does not is disabled,
/// whatever else holds; one that does is never shown as disabled, and one that
/// claims is running exactly while a batch is in flight.
pub proof fn law_the_switch_shows_first(enabled: bool, paused: bool, rebuilding: bool, in_flight: u32)
    ensures
        flow_of(enabled, paused, rebuilding, in_flight) == ContentFlow::Disabled <==> !enabled,
        enabled && !paused && !rebuilding ==> (flow_of(enabled, paused, rebuilding, in_flight)
            == ContentFlow::Running <==> in_flight > 0),
{
}

/// The reason that is shown is the one to act on: the switch first, then the
/// pause, then the rebuild; where work is in flight it says how much, as far as
/// that is the operator's doing.
pub proof fn law_the_reason_is_the_one_to_act_on(
    enabled: bool,
    paused: bool,
    rebuilding: bool,
    in_flight: u32,
)
    ensures
        ({
            let text = flow_text(enabled, paused, rebuilding, in_flight);
            &&& text.len() > 40 || (enabled && !paused && !rebuilding && in_flight > 0)
            &&& !enabled ==> text.take(18) == "content extraction"@
            &&& enabled && paused ==> text.take(7) == "paused:"@
            &&& enabled && !paused && rebuilding ==> text.take(17) == "the content index"@
            &&& enabled && !paused && !rebuilding && in_flight == 0 ==> text.take(16)
                == "nothing to claim"@
            &&& enabled && !paused && !rebuilding && in_flight > 0 ==> text == decimal(
                in_flight as nat,
            ) + " batch(es) in flight"@
            &&& enabled && paused && in_flight > 0 ==> ({
                let count = "paused: no new jobs are claimed; "@ + decimal(in_flight as nat);
                text.take(count.len() as int) == count
            })
        }),
{
    reveal_strlit("content extraction is disabled for this process (--no-content)");
    reveal_strlit("content extraction");
    reveal_strlit("paused: no new jobs are claimed; ");
    reveal_strlit(" batch(es) already claimed finish and publish normally");
    reveal_strlit("paused: no jobs are claimed and nothing is in flight");
    reveal_strlit("paused:");
    reveal_strlit("the content index is being rebuilt: no new jobs are claimed until it finishes");
    reveal_strlit("the content index is being rebuilt: claiming resumes when it finishes");
    reveal_strlit("the content index");
    reveal_strlit(
        "nothing to claim: the queue is empty or every source is at its concurrency budget",
    );
    reveal_strlit("nothing to claim");
    let text = flow_text(enabled, paused, rebuilding, in_flight);
    if !enabled {
        assert(text.take(18) =~= "content extraction"@);
    } else if paused {
        assert(text.take(7) =~= "paused:"@);
        if in_flight > 0 {
            let count = "paused: no new jobs are claimed; "@ + decimal(in_flight as nat);
            assert(text.take(count.len() as int) =~= count);
        }
    } else if rebuilding {
        assert(text.take(17) =~= "the content index"@);
    } else if in_flight == 0 {
        assert(text.take(16) =~= "nothing to claim"@);
    }
}

/// A pause is never shown as plain work: as long as claiming is stopped, the
/// flow says so, and it says "draining" exactly while a batch is in flight.
pub proof fn law_a_pause_is_never_shown_as_running(rebuilding: bool, in_flight: u32)
    ensures
        flow_of(true, true, rebuilding, in_flight) == ContentFlow::Draining <==> in_flight > 0,
        flow_of(true, true, rebuilding, in_flight) == ContentFlow::Stopped <==> in_flight == 0,
{
}

/// The flow says whether new jobs are claimed: it is "waiting" or "running"
/// exactly where neither a switch, nor a pause, nor a rebuild stops claiming,
/// and "stopped" or "draining" where a pause or a rebuild does.
pub proof fn law_the_flow_says_whether_jobs_are_claimed(
    enabled: bool,
    paused: bool,
    rebuilding: bool,
    in_flight: u32,
)
    ensures
        ({
            let flow = flow_of(enabled, paused, rebuilding, in_flight);
            &&& (flow == ContentFlow::Waiting || flow == ContentFlow::Running) <==> (enabled
                && !paused && !rebuilding)
            &&& (flow == ContentFlow::Stopped || flow == ContentFlow::Draining) <==> (enabled && (
            paused || rebuilding))
            &&& flow == ContentFlow::Draining ==> in_flight > 0
            &&& flow == ContentFlow::Stopped ==> in_flight == 0
        }),
{
}

} // verus!
