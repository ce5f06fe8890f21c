//! What the HTTP API decides: error answers, limits, and the shape of views.
//!
//! Every listing is paginated server-side. Every source-level response carries
//! completeness. Errors carry a status, a stable code and a message.

use crate::admission::AdmissionError;
use crate::content_preview::{object_label, object_name};
use crate::domain::{ObjectId, SourceKind};
use crate::key_list::texts;
use crate::picks::{lemma_picks_next, lemma_picks_none, picks, rising};
use crate::text::{chars_of, parts_at, split, split_bounds, string_of, trim, trimmed};
use vstd::prelude::*;
use vstd::string::*;

verus! {

// ----- errors ---------------------------------------------------------------

/// An extra machine-readable field of an error body.
#[derive(Debug, Clone, Copy)]
pub struct Detail {
    pub key: &'static str,
    pub value: i64,
}

#[derive(Debug)]
pub struct ApiError {
    pub status: u16,
    /// The stable code that clients switch on.
    pub kind: &'static str,
    pub message: String,
    /// Emitted as a retry hint (seconds) when load is shed.
    pub retry_after_s: Option<u64>,
    /// Extra machine-readable fields merged into the error body.
    pub details: Vec<Detail>,
}

pub struct ApiErrorModel {
    pub status: u16,
    pub kind: Seq<char>,
    pub message: Seq<char>,
    pub retry_after_s: Option<u64>,
    pub details: Seq<(Seq<char>, i64)>,
}

impl View for ApiError {
    type V = ApiErrorModel;

    open spec fn view(&self) -> ApiErrorModel {
        ApiErrorModel {
            status: self.status,
            kind: self.kind@,
            message: self.message@,
            retry_after_s: self.retry_after_s,
            details: Seq::new(
                self.details@.len(),
                |i: int| (self.details@[i].key@, self.details@[i].value),
            ),
        }
    }
}

impl ApiErrorModel {
    /// A plain error: a status, a code and a message.
    pub open spec fn plain(status: u16, kind: Seq<char>, message: Seq<char>) -> ApiErrorModel {
        ApiErrorModel { status, kind, message, retry_after_s: None, details: Seq::empty() }
    }

    pub open spec fn not_found(message: Seq<char>) -> ApiErrorModel {
        ApiErrorModel::plain(404, "not_found"@, message)
    }

    pub open spec fn bad_request(message: Seq<char>) -> ApiErrorModel {
        ApiErrorModel::plain(400, "bad_request"@, message)
    }

    pub open spec fn conflict(message: Seq<char>) -> ApiErrorModel {
        ApiErrorModel::plain(409, "conflict"@, message)
    }

    pub open spec fn internal(message: Seq<char>) -> ApiErrorModel {
        ApiErrorModel::plain(500, "internal"@, message)
    }

    pub open spec fn unavailable(message: Seq<char>, retry_after_s: Option<u64>) -> ApiErrorModel {
        ApiErrorModel {
            retry_after_s,
            ..ApiErrorModel::plain(503, "unavailable"@, message)
        }
    }

    pub open spec fn busy(message: Seq<char>, retry_after_s: u64) -> ApiErrorModel {
        ApiErrorModel {
            retry_after_s: Some(retry_after_s),
            ..ApiErrorModel::plain(503, "busy"@, message)
        }
    }
}

impl ApiError {
    fn new(status: u16, kind: &'static str, message: String) -> (r: ApiError)
        ensures
            r@ == ApiErrorModel::plain(status, kind@, message@),
    {
        let r = ApiError { status, kind, message, retry_after_s: None, details: Vec::new() };
        assert(r@.details =~= Seq::empty());
        r
    }

    pub fn not_found(message: String) -> (r: ApiError)
        ensures
            r@ == ApiErrorModel::not_found(message@),
    {
        Self::new(404, "not_found", message)
    }

    pub fn bad_request(message: String) -> (r: ApiError)
        ensures
            r@ == ApiErrorModel::bad_request(message@),
    {
        Self::new(400, "bad_request", message)
    }

    pub fn conflict(message: String) -> (r: ApiError)
        ensures
            r@ == ApiErrorModel::conflict(message@),
    {
        Self::new(409, "conflict", message)
    }

    pub fn internal(message: String) -> (r: ApiError)
        ensures
            r@ == ApiErrorModel::internal(message@),
    {
        Self::new(500, "internal", message)
    }

    pub fn unavailable(message: String, retry_after_s: Option<u64>) -> (r: ApiError)
        ensures
            r@ == ApiErrorModel::unavailable(message@, retry_after_s),
    {
        let mut e = Self::new(503, "unavailable", message);
        e.retry_after_s = retry_after_s;
        e
    }

    pub fn busy(message: String, retry_after_s: u64) -> (r: ApiError)
        ensures
            r@ == ApiErrorModel::busy(message@, retry_after_s),
    {
        let mut e = Self::new(503, "busy", message);
        e.retry_after_s = Some(retry_after_s);
        e
    }

    /// Replace the stable error code clients switch on.
    pub fn with_kind(self, kind: &'static str) -> (r: ApiError)
        ensures
            r@ == (ApiErrorModel { kind: kind@, ..self@ }),
    {
        ApiError { kind, ..self }
    }

    /// Merge extra fields into the error body.
    pub fn with_details(self, details: Vec<Detail>) -> (r: ApiError)
        ensures
            r@ == (ApiErrorModel {
                details: Seq::new(
                    details@.len(),
                    |i: int| (details@[i].key@, details@[i].value),
                ),
                ..self@
            }),
    {
        ApiError { details, ..self }
    }

    /// How a refused or failed expensive operation is answered. A shed request
    /// never ran, so retrying is safe. After a timeout the work still runs, so
    /// a retry may find every slot taken for a while.
    pub fn from_admission(e: AdmissionError) -> (r: ApiError)
        ensures
            r@ == (match e {
                AdmissionError::Busy { retry_after_s, .. } => ApiErrorModel::busy(
                    e.text(),
                    retry_after_s,
                ),
                AdmissionError::Timeout { .. } => ApiErrorModel {
                    retry_after_s: Some(1),
                    ..ApiErrorModel::plain(504, "timeout"@, e.text())
                },
                AdmissionError::Failed(_) => ApiErrorModel::internal(e.text()),
            }),
    {
        let message = e.message();
        match e {
            AdmissionError::Busy { op, message: m, retry_after_s } => Self::busy(
                message,
                retry_after_s,
            ),
            AdmissionError::Timeout { op, after_ms } => {
                let mut e = Self::new(504, "timeout", message);
                e.retry_after_s = Some(1);
                e
            },
            AdmissionError::Failed(_) => Self::internal(message),
        }
    }

    /// How a catalog failure is answered.
    pub fn from_catalog(e: CatalogFailure) -> (r: ApiError)
        ensures
            r@ == catalog_answer(e),
    {
        match e {
            CatalogFailure::NotFound(m) => Self::not_found(m),
            CatalogFailure::InvalidState(m) => Self::conflict(m),
            CatalogFailure::Other(m) => Self::internal(m),
        }
    }

    /// How a search failure is answered.
    pub fn from_search(e: SearchFailure) -> (r: ApiError)
        ensures
            r@ == (match e {
                SearchFailure::Query(m) => ApiErrorModel::plain(400, "query"@, m@),
                SearchFailure::Catalog(c) => catalog_answer(c),
                SearchFailure::Other(m) => ApiErrorModel::plain(500, "search"@, m@),
            }),
    {
        match e {
            SearchFailure::Query(m) => Self::new(400, "query", m),
            SearchFailure::Catalog(c) => Self::from_catalog(c),
            SearchFailure::Other(m) => Self::new(500, "search", m),
        }
    }
}

pub open spec fn catalog_answer(e: CatalogFailure) -> ApiErrorModel {
    match e {
        CatalogFailure::NotFound(m) => ApiErrorModel::not_found(m@),
        CatalogFailure::InvalidState(m) => ApiErrorModel::conflict(m@),
        CatalogFailure::Other(m) => ApiErrorModel::internal(m@),
    }
}

/// A catalog failure is answered with its own message: what is not there as not
/// found, what does not fit the state as a conflict, anything else as our fault.
pub proof fn law_a_catalog_failure_keeps_its_kind(e: CatalogFailure)
    ensures
        e matches CatalogFailure::NotFound(m) ==> catalog_answer(e).status == 404 && catalog_answer(
            e,
        ).message == m@,
        e matches CatalogFailure::InvalidState(m) ==> catalog_answer(e).status == 409
            && catalog_answer(e).message == m@,
        e matches CatalogFailure::Other(m) ==> catalog_answer(e).status == 500 && catalog_answer(
            e,
        ).message == m@,
        catalog_answer(e).retry_after_s is None,
{
}

/// Every kind of error has the status that HTTP gives it, and only shed load
/// asks for a retry.
pub proof fn law_errors_have_their_status(m: Seq<char>, retry: u64, hint: Option<u64>)
    ensures
        ApiErrorModel::bad_request(m).status == 400,
        ApiErrorModel::not_found(m).status == 404,
        ApiErrorModel::conflict(m).status == 409,
        ApiErrorModel::internal(m).status == 500,
        ApiErrorModel::unavailable(m, hint).status == 503,
        ApiErrorModel::busy(m, retry).status == 503,
        ApiErrorModel::busy(m, retry).retry_after_s == Some(retry),
        ApiErrorModel::unavailable(m, hint).retry_after_s == hint,
        ApiErrorModel::bad_request(m).retry_after_s is None && ApiErrorModel::not_found(
            m,
        ).retry_after_s is None && ApiErrorModel::conflict(m).retry_after_s is None
            && ApiErrorModel::internal(m).retry_after_s is None,
        ApiErrorModel::bad_request(m).message == m && ApiErrorModel::not_found(m).message == m
            && ApiErrorModel::conflict(m).message == m && ApiErrorModel::internal(m).message == m
            && ApiErrorModel::unavailable(m, hint).message == m && ApiErrorModel::busy(
            m,
            retry,
        ).message == m,
{
}

/// Why a catalog operation failed.
#[derive(Debug)]
pub enum CatalogFailure {
    NotFound(String),
    InvalidState(String),
    Other(String),
}

/// Why a search failed.
#[derive(Debug)]
pub enum SearchFailure {
    Query(String),
    Catalog(CatalogFailure),
    Other(String),
}

// ----- limits ---------------------------------------------------------------

pub fn default_limit() -> (r: u32)
    ensures
        r == 200,
{
    200
}

pub fn default_children_limit() -> (r: u32)
    ensures
        r == 200,
{
    200
}

pub fn default_true() -> (r: bool)
    ensures
        r,
{
    true
}

pub fn default_member_limit() -> (r: u32)
    ensures
        r == 200,
{
    200
}

pub fn default_ext_limit() -> (r: u32)
    ensures
        r == 50,
{
    50
}

pub fn default_search_limit() -> (r: u32)
    ensures
        r == 50,
{
    50
}

/// `n` moved into `low..=high`.
pub open spec fn clamped(n: u32, low: u32, high: u32) -> u32 {
    if n < low {
        low
    } else if n > high {
        high
    } else {
        n
    }
}

/// A limit stays within its bounds and is what was asked for wherever that is.
pub proof fn law_a_limit_is_what_was_asked_within_bounds(n: u32, low: u32, high: u32)
    requires
        low <= high,
    ensures
        low <= clamped(n, low, high) <= high,
        low <= n <= high ==> clamped(n, low, high) == n,
        n < low ==> clamped(n, low, high) == low,
        n > high ==> clamped(n, low, high) == high,
{
}

pub fn clamp(n: u32, low: u32, high: u32) -> (r: u32)
    requires
        low <= high,
    ensures
        r == clamped(n, low, high),
{
    if n < low {
        low
    } else if n > high {
        high
    } else {
        n
    }
}

/// Error records per listing.
pub fn errors_limit(asked: u32) -> (r: u32)
    ensures
        r == clamped(asked, 0, 5000),
{
    clamp(asked, 0, 5000)
}

/// Children per page.
pub fn children_limit(asked: u32) -> (r: u32)
    ensures
        r == clamped(asked, 1, 2000),
{
    clamp(asked, 1, 2000)
}

/// Archive members per page.
pub fn members_limit(asked: u32) -> (r: u32)
    ensures
        r == clamped(asked, 1, 5000),
{
    clamp(asked, 1, 5000)
}

/// Extensions per listing.
pub fn extensions_limit(asked: u32) -> (r: u32)
    ensures
        r == clamped(asked, 0, 1000),
{
    clamp(asked, 0, 1000)
}

// ----- sources --------------------------------------------------------------

/// How fresh a source's published data is.
#[derive(Debug, Clone, Copy, PartialEq, Eq, Structural)]
pub enum Freshness {
    Live,
    Periodic,
    Stale,
    Unknown,
}

/// A stored checkpoint only means "live" while a watcher is actually consuming
/// it.
pub fn shown_freshness(stored: Freshness, watcher_live: bool) -> (r: Freshness)
    ensures
        r == (if stored == Freshness::Live && !watcher_live {
            Freshness::Unknown
        } else {
            stored
        }),
{
    if stored == Freshness::Live && !watcher_live {
        Freshness::Unknown
    } else {
        stored
    }
}

/// What a request to add a source asks for.
#[derive(Debug)]
pub struct AddSourceBody {
    pub name: String,
    pub root_path: String,
    pub kind: Option<SourceKind>,
    pub aliases: Vec<String>,
    /// Start a scan immediately.
    pub scan: bool,
}

/// The trimmed root path of a request to add a source, unless a part of the
/// request is blank.
pub fn requested_root(body: &AddSourceBody) -> (r: Result<String, ApiError>)
    ensures
        r is Ok <==> trim(body.name@).len() > 0 && trim(body.root_path@).len() > 0,
        r matches Ok(root) ==> root@ == trim(body.root_path@),
        r matches Err(e) ==> e@ == ApiErrorModel::bad_request("name and root_path are required"@),
{
    let name = trimmed(&body.name);
    let root = trimmed(&body.root_path);
    if name.as_str().is_empty() || root.as_str().is_empty() {
        return Err(ApiError::bad_request("name and root_path are required".to_owned()));
    }
    Ok(root)
}

/// Whether a source can be added at a root: it has to be an accessible
/// directory, and the name must not be taken.
pub fn admit_source(name: &str, root: &str, is_dir: bool, name_taken: bool) -> (r: Result<
    (),
    ApiError,
>)
    ensures
        r is Ok <==> is_dir && !name_taken,
        r matches Err(e) ==> e@ == (if !is_dir {
            ApiErrorModel::bad_request("root_path is not an accessible directory: "@ + root@)
        } else {
            ApiErrorModel::conflict("source '"@ + name@ + "' already exists"@)
        }),
{
    if !is_dir {
        return Err(
            ApiError::bad_request(
                "root_path is not an accessible directory: ".to_owned().concat(root),
            ),
        );
    }
    if name_taken {
        return Err(
            ApiError::conflict("source '".to_owned().concat(name).concat("' already exists")),
        );
    }
    Ok(())
}

/// What the volume under a root looks like.
#[derive(Debug, Clone, Copy, PartialEq, Eq, Structural)]
pub struct ProbedVolume {
    pub remote: bool,
    pub native_local: bool,
}

/// The kind of a new source: what was asked for, else what the volume shows.
pub fn source_kind(asked: Option<SourceKind>, volume: Option<ProbedVolume>) -> (r: SourceKind)
    ensures
        r == (match asked {
            Some(k) => k,
            None => match volume {
                Some(v) => if v.remote {
                    SourceKind::Smb
                } else if v.native_local {
                    SourceKind::WindowsLocal
                } else {
                    SourceKind::WindowsGeneric
                },
                None => SourceKind::WindowsGeneric,
            },
        }),
{
    match asked {
        Some(k) => k,
        None => match volume {
            Some(v) => if v.remote {
                SourceKind::Smb
            } else if v.native_local {
                SourceKind::WindowsLocal
            } else {
                SourceKind::WindowsGeneric
            },
            None => SourceKind::WindowsGeneric,
        },
    }
}

/// The content policy of a source after a request that may leave parts out.
pub fn content_policy(
    asked_enabled: Option<bool>,
    asked_concurrency: Option<u32>,
    enabled: bool,
    concurrency: u32,
) -> (r: (bool, u32))
    ensures
        r.0 == (match asked_enabled {
            Some(e) => e,
            None => enabled,
        }),
        r.1 == clamped(
            match asked_concurrency {
                Some(c) => c,
                None => concurrency,
            },
            1,
            64,
        ),
{
    let enabled = match asked_enabled {
        Some(e) => e,
        None => enabled,
    };
    let wanted: u32 = match asked_concurrency {
        Some(c) => c,
        None => concurrency,
    };
    (enabled, clamp(wanted, 1, 64))
}

/// How far the index is with one source.
#[derive(Debug, Clone, Copy, PartialEq, Eq, Structural)]
pub struct IndexedState {
    pub indexed_generation: Option<i64>,
    pub documents: u64,
    pub in_sync: bool,
}

/// `projection` is the generation and the number of documents that the index
/// holds of the source, if it holds any.
pub fn indexed_state(published: Option<i64>, projection: Option<(i64, u64)>) -> (r: IndexedState)
    ensures
        match projection {
            Some((generation, documents)) => r == (IndexedState {
                indexed_generation: Some(generation),
                documents,
                in_sync: published == Some(generation),
            }),
            None => r == (IndexedState { indexed_generation: None, documents: 0, in_sync: false }),
        },
{
    match projection {
        Some((generation, documents)) => {
            let in_sync: bool = match published {
                Some(p) => p == generation,
                None => false,
            };
            IndexedState { indexed_generation: Some(generation), documents, in_sync }
        },
        None => IndexedState { indexed_generation: None, documents: 0, in_sync: false },
    }
}

// ----- objects --------------------------------------------------------------

/// Whether the children of an object can be listed. `directory` says whether
/// the object is one, if it exists at all.
pub fn check_directory(id: ObjectId, directory: Option<bool>) -> (r: Result<(), ApiError>)
    ensures
        match directory {
            None => r matches Err(e) && e@ == ApiErrorModel::not_found(object_label(id)),
            Some(false) => r matches Err(e) && e@ == ApiErrorModel::bad_request(
                "object is not a directory"@,
            ),
            Some(true) => r is Ok,
        },
{
    match directory {
        None => Err(ApiError::not_found(object_name(id))),
        Some(true) => Ok(()),
        Some(false) => Err(ApiError::bad_request("object is not a directory".to_owned())),
    }
}

/// How many archives were queued again.
#[derive(Debug, Clone, Copy, PartialEq, Eq, Structural)]
pub struct RequeueView {
    pub queued: u64,
}

// ----- search ---------------------------------------------------------------

/// Where a search request takes its query from. When both a query tree and
/// text are given, the tree wins.
#[derive(Debug)]
pub enum QueryInput<Q> {
    Tree(Q),
    Text(String),
    /// Neither was given: everything matches.
    Everything,
}

/// The note of a request without a query.
pub const EMPTY_QUERY_NOTE: &'static str = "empty query matches everything";

pub fn query_input<Q>(tree: Option<Q>, text: Option<String>) -> (r: QueryInput<Q>)
    ensures
        r == (match (tree, text) {
            (Some(q), _) => QueryInput::Tree(q),
            (None, Some(t)) => QueryInput::Text(t),
            (None, None) => QueryInput::Everything,
        }),
{
    match tree {
        Some(q) => QueryInput::Tree(q),
        None => match text {
            Some(t) => QueryInput::Text(t),
            None => QueryInput::Everything,
        },
    }
}

/// The non-empty parts of a list.
pub open spec fn nonempty(parts: Seq<Seq<char>>) -> Seq<Seq<char>>
    decreases parts.len(),
{
    if parts.len() == 0 {
        Seq::empty()
    } else if parts.last().len() > 0 {
        nonempty(parts.drop_last()).push(parts.last())
    } else {
        nonempty(parts.drop_last())
    }
}

/// Exactly the parts that are not empty are kept, in order.
pub proof fn law_only_empty_parts_are_dropped(parts: Seq<Seq<char>>)
    ensures
        exists|pick: Seq<int>|
            {
                &&& #[trigger] rising(pick)
                &&& picks(pick, parts.len() as int, |i: int| parts[i].len() > 0)
                &&& nonempty(parts).len() == pick.len()
                &&& forall|a: int|
                    0 <= a < pick.len() ==> #[trigger] nonempty(parts)[a] == parts[pick[a]]
            },
    decreases parts.len(),
{
    let full = |i: int| parts[i].len() > 0;
    if parts.len() == 0 {
        lemma_picks_none(full);
        assert(rising(Seq::<int>::empty()));
    } else {
        let init = parts.drop_last();
        let n = init.len() as int;
        law_only_empty_parts_are_dropped(init);
        let before = choose|pick: Seq<int>|
            {
                &&& #[trigger] rising(pick)
                &&& picks(pick, init.len() as int, |i: int| init[i].len() > 0)
                &&& nonempty(init).len() == pick.len()
                &&& forall|a: int|
                    0 <= a < pick.len() ==> #[trigger] nonempty(init)[a] == init[pick[a]]
            };
        let old = |i: int| init[i].len() > 0;
        assert(picks(before, n, old));
        assert(picks(before, n, full)) by {
            assert forall|a: int| 0 <= a < before.len() implies 0 <= #[trigger] before[a] < n && full(
                before[a],
            ) by {
                assert(old(before[a]));
            }
            assert forall|i: int| 0 <= i < n && #[trigger] full(i) implies before.contains(i) by {
                assert(old(i));
            }
        }
        lemma_picks_next(before, n, full);
        let pick = if full(n) {
            before.push(n)
        } else {
            before
        };
        assert(rising(pick));
    }
}

/// The facet fields that a comma-separated list names; each is looked up by
/// name, and a name that is no field is ignored there.
pub fn facet_names(list: &str) -> (r: Vec<String>)
    ensures
        texts(r@) == nonempty(split(list@, ',')),
{
    let v = chars_of(list);
    let bounds = split_bounds(&v, 0, v.len(), ',');
    assert(v@.subrange(0, v@.len() as int) =~= v@);
    let ghost parts = parts_at(v@, bounds@);
    let mut r: Vec<String> = Vec::new();
    let mut i: usize = 0;
    assert(texts(r@) =~= nonempty(parts.take(0)));
    while i < bounds.len()
        invariant
            0 <= i <= bounds.len(),
            parts == parts_at(v@, bounds@),
            forall|k: int|
                0 <= k < bounds.len() ==> 0 <= (#[trigger] bounds@[k]).0 <= bounds@[k].1 <= v.len(),
            texts(r@) == nonempty(parts.take(i as int)),
        decreases bounds.len() - i,
    {
        let (a, b) = bounds[i];
        assert(parts.take(i + 1).drop_last() =~= parts.take(i as int));
        assert(parts[i as int] == v@.subrange(a as int, b as int));
        let ghost before = texts(r@);
        if a < b {
            let part = string_of(&v, a, b);
            r.push(part);
            assert(texts(r@) =~= before.push(parts[i as int]));
        }
        i += 1;
    }
    assert(parts.take(i as int) =~= parts);
    r
}

} // verus!
