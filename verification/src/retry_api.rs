//! Operator retries of failed jobs: which jobs a request selects.

use crate::api::{ApiError, ApiErrorModel};
use crate::domain::{opt_text, SourceId};
use crate::text::{trim, trimmed};
use vstd::prelude::*;
use vstd::string::*;

verus! {

#[derive(Debug)]
pub struct RetryBody {
    /// Only jobs that failed with this class (`deterministic`, `corrupt`, ...).
    pub class: Option<String>,
    /// Only jobs whose last error starts with this text.
    pub reason_prefix: Option<String>,
    /// Count what would be retried without changing anything.
    pub preview: bool,
    /// Cap on jobs touched by one call.
    pub limit: Option<u32>,
}

impl Default for RetryBody {
    fn default() -> (r: RetryBody)
        ensures
            r.class is None,
            r.reason_prefix is None,
            !r.preview,
            r.limit is None,
    {
        RetryBody { class: None, reason_prefix: None, preview: false, limit: None }
    }
}

/// Which failed jobs to requeue.
#[derive(Debug)]
pub struct RetrySelector<C> {
    /// One job, or else the content jobs of one source.
    pub job: Option<i64>,
    pub source: Option<SourceId>,
    pub class: Option<C>,
    pub reason_prefix: Option<String>,
    pub preview: bool,
    pub limit: Option<u32>,
}

/// A text that says something once it is trimmed.
pub open spec fn given(s: Option<String>) -> bool {
    s matches Some(t) && trim(t@).len() > 0
}

/// The failure class that a request names. A blank name is no filter; `parse`
/// knows the classes.
pub fn parse_class<C, F: Fn(&str) -> Option<C>>(raw: &Option<String>, parse: &F) -> (r: Result<
    Option<C>,
    ApiError,
>)
    requires
        forall|t: &str| call_requires(*parse, (t,)),
    ensures
        !given(*raw) ==> r == Ok::<Option<C>, ApiError>(None),
        given(*raw) ==> {
            let name = trim(raw->0@);
            match r {
                Ok(class) => class is Some && parsed_as(*parse, name, class),
                Err(e) => parsed_as(*parse, name, None) && e@ == ApiErrorModel::bad_request(
                    "unknown failure class '"@ + name + "'"@,
                ),
            }
        },
{
    match raw {
        None => Ok(None),
        Some(text) => {
            let name = trimmed(text);
            if name.as_str().is_empty() {
                return Ok(None);
            }
            match parse(name.as_str()) {
                Some(c) => {
                    assert(parsed_as(*parse, trim(raw->0@), Some(c)));
                    Ok(Some(c))
                },
                None => {
                    assert(parsed_as(*parse, trim(raw->0@), None));
                    Err(
                        ApiError::bad_request(
                            "unknown failure class '".to_owned().concat(&name).concat("'"),
                        ),
                    )
                },
            }
        },
    }
}

/// Whether `parse` gave this for a name.
pub open spec fn parsed_as<C, F: Fn(&str) -> Option<C>>(
    parse: F,
    name: Seq<char>,
    class: Option<C>,
) -> bool {
    exists|t: &str| #[trigger] call_ensures(parse, (t,), class) && t@ == name
}

/// Requeue one failed job.
pub fn job_selector<C>(job: i64, body: &RetryBody) -> (r: RetrySelector<C>)
    ensures
        r == (RetrySelector::<C> {
            job: Some(job),
            source: None,
            class: None,
            reason_prefix: None,
            preview: body.preview,
            limit: None,
        }),
{
    RetrySelector {
        job: Some(job),
        source: None,
        class: None,
        reason_prefix: None,
        preview: body.preview,
        limit: None,
    }
}

/// Requeue a source's failed content jobs.
pub fn source_selector<C>(source: SourceId, class: Option<C>, body: &RetryBody) -> (r:
    RetrySelector<C>)
    ensures
        r.job is None,
        r.source == Some(source),
        r.class == class,
        opt_text(r.reason_prefix) == (if given(body.reason_prefix) {
            opt_text(body.reason_prefix)
        } else {
            None
        }),
        r.preview == body.preview,
        r.limit == body.limit,
{
    let reason_prefix: Option<String> = match &body.reason_prefix {
        None => None,
        Some(p) => {
            let bare = trimmed(p);
            if bare.as_str().is_empty() {
                None
            } else {
                Some(p.clone())
            }
        },
    };
    RetrySelector {
        job: None,
        source: Some(source),
        class,
        reason_prefix,
        preview: body.preview,
        limit: body.limit,
    }
}

} // verus!
