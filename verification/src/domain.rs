//! Identifiers and small value types shared by the whole service.

use vstd::prelude::*;

verus! {

/// A source: one root that is scanned, watched and indexed.
#[derive(Debug, Clone, Copy, PartialEq, Eq, Structural, Hash, PartialOrd, Ord)]
pub struct SourceId(pub i64);

/// An indexed file-system object.
#[derive(Debug, Clone, Copy, PartialEq, Eq, Structural, Hash, PartialOrd, Ord)]
pub struct ObjectId(pub i64);

/// Nanoseconds since the Unix epoch.
#[derive(Debug, Clone, Copy, PartialEq, Eq, Structural, Hash, PartialOrd, Ord)]
pub struct UnixNanos(pub i64);

/// A point on the monotonic clock, in nanoseconds since the process started.
#[derive(Debug, Clone, Copy, PartialEq, Eq, Structural, Hash, PartialOrd, Ord)]
pub struct Instant(pub u64);

pub const NANOS_PER_SEC: u64 = 1_000_000_000;

impl Instant {
    /// How long ago `earlier` was; zero if it is not in the past.
    pub open spec fn spec_since(self, earlier: Instant) -> u64 {
        if self.0 >= earlier.0 {
            (self.0 - earlier.0) as u64
        } else {
            0
        }
    }

    pub fn since(self, earlier: Instant) -> (r: u64)
        ensures
            r == self.spec_since(earlier),
    {
        if self.0 >= earlier.0 {
            self.0 - earlier.0
        } else {
            0
        }
    }
}

/// The time since an earlier point and that point make up now; a point that is
/// not in the past is no time ago.
pub proof fn law_time_since_adds_up(now: Instant, earlier: Instant)
    ensures
        earlier.0 <= now.0 ==> earlier.0 + now.spec_since(earlier) == now.0,
        earlier.0 >= now.0 ==> now.spec_since(earlier) == 0,
{
}

/// How complete and how fresh a source's published data is.
#[derive(Debug, Clone, Copy, PartialEq, Eq, Structural, Hash)]
pub enum SourceState {
    Enumerating,
    Reconciling,
    MetadataComplete,
    ContentPending,
    Complete,
    Stale,
    Degraded,
    Offline,
    Retired,
}

/// What kind of volume a source's root is on.
#[derive(Debug, Clone, Copy, PartialEq, Eq, Structural, Hash)]
pub enum SourceKind {
    WindowsLocal,
    WindowsGeneric,
    MacosLocal,
    Smb,
    /// A replica of a source that another node owns.
    Remote,
}

impl SourceKind {
    pub open spec fn spec_remote(self) -> bool {
        self == SourceKind::Remote
    }

    pub fn is_remote(self) -> (r: bool)
        ensures
            r == self.spec_remote(),
    {
        self == SourceKind::Remote
    }
}

/// What became of extracting an object's text.
#[derive(Debug, Clone, Copy, PartialEq, Eq, Structural, Hash)]
pub enum ContentState {
    Pending,
    Indexing,
    Indexed,
    Stale,
    Unsupported,
    Failed,
}

/// How much of an object's text is indexed.
#[derive(Debug, Clone, Copy, PartialEq, Eq, Structural, Hash)]
pub enum Coverage {
    Full,
    Partial,
    Nothing,
}

/// The text of an optional string.
pub open spec fn opt_text(s: Option<String>) -> Option<Seq<char>> {
    match s {
        Some(t) => Some(t@),
        None => None,
    }
}

/// A copy of an optional string.
pub fn copy_opt(s: &Option<String>) -> (r: Option<String>)
    ensures
        opt_text(r) == opt_text(*s),
{
    match s {
        Some(t) => Some(t.clone()),
        None => None,
    }
}

} // verus!
