//! Collector visibility and forwarding control.
//!
//! The collector is a separate daemon with a machine-wide control pipe. The
//! service answers for the local daemon here: status and the forwarding
//! configuration (enabled, destination share, delivery hour).
//!
//! The pipe grants access to administrators and SYSTEM only. An instance run
//! unelevated reports the denial as a state rather than an error.

use crate::api::{ApiError, ApiErrorModel};
use crate::domain::opt_text;
use vstd::prelude::*;
use vstd::string::*;

verus! {

/// Bundle forwarding as the daemon reports it.
#[derive(Debug)]
pub struct CollectorUploadView {
    pub enabled: bool,
    /// Directory the daily bundle is copied into (typically a UNC share).
    pub destination: String,
    /// Local hour 0-23 the delivery runs at or after.
    pub hour: u32,
    pub last_upload_unix_ns: Option<i64>,
    pub uploaded_total: u64,
    /// Bundles staged locally and not yet delivered.
    pub pending: u64,
    pub last_error: Option<String>,
}

/// The local collector daemon as seen over its control pipe.
#[derive(Debug)]
pub struct CollectorView {
    /// The daemon answered on its control pipe.
    pub available: bool,
    /// Why it did not: not installed or stopped, access denied, or a
    /// platform without a collector.
    pub detail: Option<String>,
    pub version: Option<String>,
    pub uptime_s: u64,
    pub spool_records: u64,
    pub capture_gaps: u64,
    pub upload: Option<CollectorUploadView>,
}

/// Fields present are changed, absent are kept.
#[derive(Debug)]
pub struct CollectorUploadBody {
    pub enabled: Option<bool>,
    pub destination: Option<String>,
    pub hour: Option<u32>,
}

/// What the daemon says of itself.
#[derive(Debug)]
pub struct CollectorStatus {
    pub version: String,
    pub uptime_s: u64,
    pub spool_records: u64,
    pub capture_gaps: u64,
    pub upload: CollectorUploadView,
}

/// Why the control pipe did not answer.
#[derive(Debug, Clone, Copy, PartialEq, Eq, Structural)]
pub enum PipeFailure {
    NotFound,
    PermissionDenied,
    Other,
}

/// What came of a status request on the control pipe.
#[derive(Debug)]
pub enum StatusReply {
    Status(CollectorStatus),
    /// Another answer, written out.
    Other(String),
    Failed(PipeFailure, String),
}

/// What came of a request to change the forwarding.
#[derive(Debug)]
pub enum UploadReply {
    Accepted,
    Refused(String),
    /// Another answer, written out.
    Other(String),
    Failed(PipeFailure, String),
}

pub const WINDOWS_ONLY: &'static str = "the collector runs on Windows hosts only";

pub open spec fn pipe_error(failure: PipeFailure, text: Seq<char>) -> Seq<char> {
    match failure {
        PipeFailure::NotFound =>
        "the collector service is not installed or not running on this host"@,
        PipeFailure::PermissionDenied =>
        "access to the collector control pipe was denied (the pipe admits administrators and SYSTEM)"@,
        PipeFailure::Other => "collector control pipe: "@ + text,
    }
}

/// The distinction operators actually need: not running vs. not allowed.
pub fn collector_error(failure: PipeFailure, text: &str) -> (r: String)
    ensures
        r@ == pipe_error(failure, text@),
{
    match failure {
        PipeFailure::NotFound => {
            "the collector service is not installed or not running on this host".to_owned()
        },
        PipeFailure::PermissionDenied => {
            "access to the collector control pipe was denied (the pipe admits administrators and SYSTEM)".to_owned()
        },
        PipeFailure::Other => "collector control pipe: ".to_owned().concat(text),
    }
}

/// A view without the daemon: everything about it is absent or zero.
pub open spec fn shows_unavailable(v: CollectorView, detail: Seq<char>) -> bool {
    &&& !v.available
    &&& opt_text(v.detail) == Some(detail)
    &&& v.version is None
    &&& v.uptime_s == 0
    &&& v.spool_records == 0
    &&& v.capture_gaps == 0
    &&& v.upload is None
}

/// A daemon that does not answer is shown with the reason and nothing else: no
/// version, no counters and no forwarding.
pub proof fn law_a_silent_daemon_shows_only_why(v: CollectorView, detail: Seq<char>)
    requires
        shows_unavailable(v, detail),
    ensures
        !v.available && v.detail is Some && v.detail->0@ == detail,
        v.version is None && v.upload is None,
        v.uptime_s == 0 && v.spool_records == 0 && v.capture_gaps == 0,
{
}

/// Not running and not allowed are told apart, and from everything else.
pub proof fn law_failures_of_the_pipe_are_told_apart(text: Seq<char>)
    ensures
        pipe_error(PipeFailure::NotFound, text) != pipe_error(PipeFailure::PermissionDenied, text),
        pipe_error(PipeFailure::NotFound, text) != pipe_error(PipeFailure::Other, text),
        pipe_error(PipeFailure::PermissionDenied, text) != pipe_error(PipeFailure::Other, text),
        pipe_error(PipeFailure::Other, text) == "collector control pipe: "@ + text,
        pipe_error(PipeFailure::PermissionDenied, text).take(6) == "access"@,
        pipe_error(PipeFailure::NotFound, text).take(3) == "the"@,
{
    reveal_strlit("the collector service is not installed or not running on this host");
    reveal_strlit(
        "access to the collector control pipe was denied (the pipe admits administrators and SYSTEM)",
    );
    reveal_strlit("collector control pipe: ");
    reveal_strlit("access");
    reveal_strlit("the");
    let a = pipe_error(PipeFailure::NotFound, text);
    let b = pipe_error(PipeFailure::PermissionDenied, text);
    let c = pipe_error(PipeFailure::Other, text);
    assert(a[0] == 't' && b[0] == 'a' && c[0] == 'c');
    assert(b.take(6) =~= "access"@);
    assert(a.take(3) =~= "the"@);
}

pub fn unavailable(detail: String) -> (r: CollectorView)
    ensures
        shows_unavailable(r, detail@),
{
    CollectorView {
        available: false,
        detail: Some(detail),
        version: None,
        uptime_s: 0,
        spool_records: 0,
        capture_gaps: 0,
        upload: None,
    }
}

/// The view of the daemon after a status request.
pub fn query_status(reply: StatusReply) -> (r: CollectorView)
    ensures
        match reply {
            StatusReply::Status(status) => {
                &&& r.available
                &&& r.detail is None
                &&& opt_text(r.version) == Some(status.version@)
                &&& r.uptime_s == status.uptime_s
                &&& r.spool_records == status.spool_records
                &&& r.capture_gaps == status.capture_gaps
                &&& r.upload == Some(status.upload)
            },
            StatusReply::Failed(failure, text) => shows_unavailable(r, pipe_error(failure, text@)),
            StatusReply::Other(text) => shows_unavailable(
                r,
                "unexpected collector response: "@ + text@,
            ),
        },
{
    match reply {
        StatusReply::Status(status) => CollectorView {
            available: true,
            detail: None,
            version: Some(status.version),
            uptime_s: status.uptime_s,
            spool_records: status.spool_records,
            capture_gaps: status.capture_gaps,
            upload: Some(status.upload),
        },
        StatusReply::Failed(failure, text) => unavailable(collector_error(failure, &text)),
        StatusReply::Other(text) => unavailable(
            "unexpected collector response: ".to_owned().concat(&text),
        ),
    }
}

pub fn apply_upload(reply: UploadReply) -> (r: Result<(), ApiError>)
    ensures
        match reply {
            UploadReply::Accepted => r is Ok,
            UploadReply::Refused(message) => r matches Err(e) && e@ == ApiErrorModel::bad_request(
                message@,
            ),
            UploadReply::Failed(failure, text) => r matches Err(e) && e@
                == ApiErrorModel::unavailable(pipe_error(failure, text@), None),
            UploadReply::Other(text) => r matches Err(e) && e@ == ApiErrorModel::internal(
                "unexpected collector response: "@ + text@,
            ),
        },
{
    match reply {
        UploadReply::Accepted => Ok(()),
        UploadReply::Refused(message) => Err(ApiError::bad_request(message)),
        UploadReply::Failed(failure, text) => Err(
            ApiError::unavailable(collector_error(failure, &text), None),
        ),
        UploadReply::Other(text) => Err(
            ApiError::internal("unexpected collector response: ".to_owned().concat(&text)),
        ),
    }
}

} // verus!
