//! Single-flight OS probes. A stuck syscall keeps its one dedicated thread;
//! HTTP timeouts never release capacity or launch replacement probes.

use crate::domain::Instant;
use vstd::prelude::*;
use vstd::string::*;

verus! {

/// What a caller is told when no answer came in time.
pub const STILL_RUNNING: &'static str =
    "OS probe is still running; retry shortly or enter a path manually";

/// The result that stands for a probe that panicked.
pub const PANICKED: &'static str = "OS probe panicked";

/// The latest answer of a probe, when it came, and whether the probe runs.
pub struct BackgroundProbe<T> {
    pub result: Option<(Instant, Result<T, String>)>,
    pub running: bool,
}

impl<T> BackgroundProbe<T> {
    pub fn cold() -> (r: BackgroundProbe<T>)
        ensures
            r.result is None,
            !r.running,
    {
        BackgroundProbe { result: None, running: false }
    }

    /// A probe that has an answer already.
    pub fn seeded(result: Result<T, String>, now: Instant) -> (r: BackgroundProbe<T>)
        ensures
            r.result == Some((now, result)),
            !r.running,
    {
        BackgroundProbe { result: Some((now, result)), running: false }
    }

    /// The latest answer and its age.
    pub open spec fn sample(self, now: Instant) -> Option<(u64, Result<T, String>)> {
        match self.result {
            Some((at, result)) => Some((now.spec_since(at), result)),
            None => None,
        }
    }

    pub fn snapshot(&self, now: Instant) -> (r: Option<(u64, &Result<T, String>)>)
        ensures
            match r {
                Some((age, result)) => self.sample(now) == Some((age, *result)),
                None => self.sample(now) is None,
            },
    {
        match &self.result {
            Some((at, result)) => Some((now.since(*at), result)),
            None => None,
        }
    }

    /// Whether a refresh may start: nothing runs, and the latest answer, if
    /// there is one, is at least `ttl` old.
    pub open spec fn due(self, ttl: u64, now: Instant) -> bool {
        !self.running && (self.sample(now) matches Some((age, _)) ==> age >= ttl)
    }

    /// Start a refresh if one is due. The caller then runs the probe and hands
    /// its answer to [`Self::finish`].
    pub fn begin(&mut self, ttl: u64, now: Instant) -> (r: bool)
        ensures
            r == old(self).due(ttl, now),
            final(self).result == old(self).result,
            final(self).running == (old(self).running || r),
    {
        if self.running {
            return false;
        }
        if let Some((at, _)) = &self.result {
            if now.since(*at) < ttl {
                return false;
            }
        }
        self.running = true;
        true
    }

    /// The probe came back, or could not be started at all.
    pub fn finish(&mut self, result: Result<T, String>, now: Instant)
        ensures
            final(self).result == Some((now, result)),
            !final(self).running,
    {
        self.result = Some((now, result));
        self.running = false;
    }

    /// The answer a caller gets without waiting. With `max_age`, an older
    /// answer counts as none.
    pub fn warm(&self, max_age: Option<u64>, now: Instant) -> (r: Option<&Result<T, String>>)
        ensures
            match self.sample(now) {
                None => r is None,
                Some((age, result)) => if max_age matches Some(limit) && age > limit {
                    r is None
                } else {
                    r matches Some(x) && *x == result
                },
            },
    {
        match &self.result {
            None => None,
            Some((at, result)) => {
                if let Some(limit) = max_age {
                    if now.since(*at) > limit {
                        return None;
                    }
                }
                Some(result)
            },
        }
    }
}

/// A probe that does not run is due exactly if it never answered, or its latest
/// answer is as old as was asked.
pub proof fn law_an_idle_probe_is_due_when_its_answer_is_old<T>(
    p: BackgroundProbe<T>,
    ttl: u64,
    now: Instant,
)
    requires
        !p.running,
    ensures
        p.result is None ==> p.due(ttl, now),
        p.result matches Some(r) ==> (p.due(ttl, now) <==> now.spec_since(r.0) >= ttl),
        p.result matches Some(r) ==> p.sample(now) == Some((now.spec_since(r.0), r.1)),
{
}

/// While a probe runs, nothing starts another one, whatever is asked and
/// however long it takes.
pub proof fn law_one_probe_at_a_time<T>(p: BackgroundProbe<T>, ttl: u64, now: Instant)
    requires
        p.running,
    ensures
        !p.due(ttl, now),
{
}

} // verus!
