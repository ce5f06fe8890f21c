//! What the fleet endpoints decide: master role, approval-based joining, peer
//! maintenance, and per-source sync policy.
//!
//! These are operator actions on the loopback API, the same trust level as
//! adding a source.

use crate::api::{ApiError, ApiErrorModel};
use crate::domain::{opt_text, SourceKind};
use crate::text::{decimal, push_decimal, push_signed, signed_decimal, trim, trimmed};
use vstd::prelude::*;
use vstd::string::*;

verus! {

#[derive(Debug)]
pub struct CentralBody {
    /// Act as the master that approves nodes and holds their replicas.
    pub central: Option<bool>,
    /// Sync listener address (`host:port`); `""` stops listening.
    pub listen: Option<String>,
}

#[derive(Debug)]
pub struct JoinBody {
    /// Master IP address or host name, with an optional sync port.
    pub master: String,
}

#[derive(Debug, Clone, Copy, PartialEq, Eq, Structural)]
pub struct JoinDecisionBody {
    pub approve: bool,
}

#[derive(Debug, Clone, Copy, PartialEq, Eq, Structural)]
pub struct SyncBody {
    pub enabled: bool,
}

#[derive(Debug)]
pub struct PeerBody {
    /// Where this side dials the peer (`host:port`); `""` clears it.
    pub endpoint: Option<String>,
    pub enabled: Option<bool>,
}

#[derive(Debug, Clone, Copy, PartialEq, Eq, Structural)]
pub struct ForgetView {
    pub retired_sources: u64,
}

// ----- node ids -------------------------------------------------------------

#[derive(Debug, Clone, Copy, PartialEq, Eq, Structural)]
pub struct NodeId(pub u128);

/// What reading a node id answered.
pub open spec fn read_as<F: Fn(&str) -> Option<NodeId>>(
    read: F,
    id: Seq<char>,
    node: Option<NodeId>,
) -> bool {
    exists|t: &str| #[trigger] call_ensures(read, (t,), node) && t@ == id
}

/// The node that a request names; `read` knows how ids are spelled.
pub fn parse_node<F: Fn(&str) -> Option<NodeId>>(id: &str, read: &F) -> (r: Result<NodeId, ApiError>)
    requires
        forall|t: &str| call_requires(*read, (t,)),
    ensures
        match r {
            Ok(node) => read_as(*read, id@, Some(node)),
            Err(e) => read_as(*read, id@, None) && e@ == ApiErrorModel::bad_request(
                "node id must be 32 hex characters"@,
            ),
        },
{
    match read(id) {
        Some(node) => {
            assert(read_as(*read, id@, Some(node)));
            Ok(node)
        },
        None => {
            assert(read_as(*read, id@, None));
            Err(ApiError::bad_request("node id must be 32 hex characters".to_owned()))
        },
    }
}

// ----- the master role ------------------------------------------------------

/// The part of the fleet configuration that the master role is about.
#[derive(Debug)]
pub struct FleetSettings {
    pub central: bool,
    pub listen: Option<String>,
    /// A join of this node is waiting for a master's decision.
    pub pending_join: bool,
}

pub const LEAVE_FIRST: &'static str = "leave the current fleet before making this node the master";

pub const CANCEL_FIRST: &'static str = "cancel the pending join before making this node the master";

/// Whether this node may become the master: not while it is, or asks to be, a
/// member of another one's fleet.
pub fn check_central(central: Option<bool>, enrolled: bool, pending_join: bool) -> (r: Result<
    (),
    ApiError,
>)
    ensures
        if central != Some(true) {
            r is Ok
        } else if enrolled {
            r matches Err(e) && e@ == ApiErrorModel::bad_request(LEAVE_FIRST@)
        } else if pending_join {
            r matches Err(e) && e@ == ApiErrorModel::bad_request(CANCEL_FIRST@)
        } else {
            r is Ok
        },
{
    match central {
        Some(true) => {
            if enrolled {
                return Err(ApiError::bad_request(LEAVE_FIRST.to_owned()));
            }
            if pending_join {
                return Err(ApiError::bad_request(CANCEL_FIRST.to_owned()));
            }
            Ok(())
        },
        _ => Ok(()),
    }
}

/// What a request wants of the listener.
#[derive(Debug)]
pub enum ListenChange {
    Keep,
    Stop,
    /// Listen here; the address has still to be read.
    Listen(String),
}

pub open spec fn wanted_listen(listen: Option<String>) -> Option<Seq<char>> {
    match listen {
        Some(l) => Some(trim(l@)),
        None => None,
    }
}

pub open spec fn shows_listen(r: ListenChange, wanted: Option<Seq<char>>) -> bool {
    match wanted {
        None => r is Keep,
        Some(t) => if t.len() == 0 {
            r is Stop
        } else {
            r matches ListenChange::Listen(a) && a@ == t
        },
    }
}

pub fn requested_listen(body: &CentralBody) -> (r: ListenChange)
    ensures
        shows_listen(r, wanted_listen(body.listen)),
{
    match &body.listen {
        None => ListenChange::Keep,
        Some(l) => {
            let address = trimmed(l);
            if address.as_str().is_empty() {
                ListenChange::Stop
            } else {
                ListenChange::Listen(address)
            }
        },
    }
}

/// How an address that cannot be read is refused.
pub fn bad_listen(error: &str) -> (r: ApiError)
    ensures
        r@ == ApiErrorModel::bad_request("listen address: "@ + error@),
{
    ApiError::bad_request("listen address: ".to_owned().concat(error))
}

pub struct FleetModel {
    pub central: bool,
    pub listen: Option<Seq<char>>,
    pub pending_join: bool,
}

impl View for FleetSettings {
    type V = FleetModel;

    open spec fn view(&self) -> FleetModel {
        FleetModel {
            central: self.central,
            listen: opt_text(self.listen),
            pending_join: self.pending_join,
        }
    }
}

/// The settings after a change. A node that becomes the master listens
/// somewhere, unless the request says otherwise.
pub open spec fn recentred(
    m: FleetModel,
    central: Option<bool>,
    listen: ListenChange,
    default_port: u16,
) -> FleetModel {
    FleetModel {
        central: match central {
            Some(c) => c,
            None => m.central,
        },
        listen: match listen {
            ListenChange::Listen(a) => Some(a@),
            ListenChange::Stop => None,
            ListenChange::Keep => if central == Some(true) && m.listen is None {
                Some("0.0.0.0:"@ + decimal(default_port as nat))
            } else {
                m.listen
            },
        },
        pending_join: m.pending_join,
    }
}

/// Change the settings, unless a join that came in meanwhile forbids it.
pub fn update_central(
    settings: &mut FleetSettings,
    central: Option<bool>,
    listen: ListenChange,
    default_port: u16,
) -> (r: Result<(), &'static str>)
    ensures
        if central == Some(true) && old(settings).pending_join {
            (r matches Err(e) && e@ == CANCEL_FIRST@) && final(settings)@ == old(settings)@
        } else {
            r is Ok && final(settings)@ == recentred(old(settings)@, central, listen, default_port)
        },
{
    if let Some(c) = central {
        if c && settings.pending_join {
            return Err(CANCEL_FIRST);
        }
        settings.central = c;
        if c && settings.listen.is_none() {
            if let ListenChange::Keep = listen {
                let mut address = "0.0.0.0:".to_owned();
                push_decimal(&mut address, default_port as u64);
                settings.listen = Some(address);
            }
        }
    }
    match listen {
        ListenChange::Keep => {},
        ListenChange::Stop => {
            settings.listen = None;
        },
        ListenChange::Listen(a) => {
            settings.listen = Some(a);
        },
    }
    Ok(())
}

/// A node that was made the master listens, unless it was told not to.
pub proof fn law_a_master_listens(m: FleetModel, listen: ListenChange, default_port: u16)
    requires
        !(listen is Stop),
    ensures
        recentred(m, Some(true), listen, default_port).listen is Some,
        recentred(m, Some(true), listen, default_port).central,
{
}

/// A request changes what it names and nothing else: the role only where it
/// names one, the address to the one that it names, to none where it says so,
/// and otherwise only where a new master has none yet.
pub proof fn law_a_fleet_request_changes_what_it_names(
    m: FleetModel,
    central: Option<bool>,
    address: String,
    default_port: u16,
)
    ensures
        recentred(m, central, ListenChange::Listen(address), default_port).listen == Some(address@),
        recentred(m, central, ListenChange::Stop, default_port).listen is None,
        m.listen is Some || central != Some(true) ==> recentred(
            m,
            central,
            ListenChange::Keep,
            default_port,
        ).listen == m.listen,
        m.listen is None && central == Some(true) ==> recentred(
            m,
            central,
            ListenChange::Keep,
            default_port,
        ).listen == Some("0.0.0.0:"@ + decimal(default_port as nat)),
        forall|listen: ListenChange| #[trigger]
            recentred(m, central, listen, default_port).central == (if central is Some {
                central->0
            } else {
                m.central
            }) && recentred(m, central, listen, default_port).pending_join == m.pending_join,
{
}

/// What a request wants of the listener goes by its trimmed text: none keeps it,
/// a blank one stops it, any other is the address.
pub proof fn law_a_blank_address_stops_the_listener(r: ListenChange, listen: Option<String>)
    requires
        shows_listen(r, wanted_listen(listen)),
    ensures
        r is Keep <==> listen is None,
        r is Stop <==> listen is Some && trim(listen->0@).len() == 0,
        r matches ListenChange::Listen(a) ==> listen is Some && a@ == trim(listen->0@),
{
}

/// Each source that was retired counts once.
pub proof fn law_retired_sources_are_counted(outcomes: Seq<bool>, next: bool)
    ensures
        retired(Seq::empty()) == 0,
        retired(outcomes.push(next)) == retired(outcomes) + (if next {
            1int
        } else {
            0int
        }),
{
    assert(outcomes.push(next).drop_last() =~= outcomes);
}

// ----- joining and peers ----------------------------------------------------

/// Only the master decides on join requests.
pub fn check_decider(central: bool) -> (r: Result<(), ApiError>)
    ensures
        r is Ok <==> central,
        r matches Err(e) ==> e@ == ApiErrorModel::bad_request(
            "only the designated master can approve join requests"@,
        ),
{
    if central {
        Ok(())
    } else {
        Err(
            ApiError::bad_request(
                "only the designated master can approve join requests".to_owned(),
            ),
        )
    }
}

/// What came of a decision: an unknown request is not found; an approval is
/// counted.
pub fn join_decided(request_id: &str, known: bool, approve: bool) -> (r: Result<u64, ApiError>)
    ensures
        if known {
            r == Ok::<u64, ApiError>(if approve {
                1
            } else {
                0
            })
        } else {
            r matches Err(e) && e@ == ApiErrorModel::not_found("join request "@ + request_id@)
        },
{
    if !known {
        return Err(ApiError::not_found("join request ".to_owned().concat(request_id)));
    }
    Ok(
        if approve {
            1
        } else {
            0
        },
    )
}

#[derive(Debug, Clone, Copy, PartialEq, Eq, Structural)]
pub enum PeerRole {
    Central,
    Node,
}

#[derive(Debug, Clone, Copy, PartialEq, Eq, Structural)]
pub struct FleetPeer {
    pub node_id: NodeId,
    pub role: PeerRole,
}

/// Whether the peer at `k` is the first master of the roster.
pub open spec fn first_central(peers: Seq<FleetPeer>, k: int) -> bool {
    &&& 0 <= k < peers.len()
    &&& peers[k].role == PeerRole::Central
    &&& forall|j: int| 0 <= j < k ==> (#[trigger] peers[j]).role != PeerRole::Central
}

/// The master that this node has joined.
pub fn central_peer(peers: &Vec<FleetPeer>) -> (r: Result<FleetPeer, ApiError>)
    ensures
        match r {
            Ok(p) => exists|k: int| #[trigger] first_central(peers@, k) && p == peers@[k],
            Err(e) => {
                &&& forall|j: int|
                    0 <= j < peers.len() ==> (#[trigger] peers@[j]).role != PeerRole::Central
                &&& e@ == ApiErrorModel::bad_request("this node has not joined a master"@)
            },
        },
{
    let mut i: usize = 0;
    while i < peers.len()
        invariant
            0 <= i <= peers.len(),
            forall|j: int| 0 <= j < i ==> (#[trigger] peers@[j]).role != PeerRole::Central,
        decreases peers.len() - i,
    {
        if peers[i].role == PeerRole::Central {
            assert(first_central(peers@, i as int));
            return Ok(peers[i]);
        }
        i += 1;
    }
    Err(ApiError::bad_request("this node has not joined a master".to_owned()))
}

/// What a request changes about a peer.
#[derive(Debug)]
pub struct PeerChange {
    /// The endpoint to set, if it changes; none clears it.
    pub endpoint: Option<Option<String>>,
    pub enabled: Option<bool>,
    /// Wake the running session once the change is stored. Revocation is
    /// persisted first, so the session cannot process another tick of frames.
    pub close: bool,
}

pub fn peer_change(body: &PeerBody) -> (r: PeerChange)
    ensures
        r.enabled == body.enabled,
        r.close == (body.enabled == Some(false)),
        match body.endpoint {
            None => r.endpoint is None,
            Some(e) => r.endpoint matches Some(t) && opt_text(t) == (if trim(e@).len() == 0 {
                None
            } else {
                Some(trim(e@))
            }),
        },
{
    let endpoint: Option<Option<String>> = match &body.endpoint {
        None => None,
        Some(e) => {
            let t = trimmed(e);
            if t.as_str().is_empty() {
                Some(None)
            } else {
                Some(Some(t))
            }
        },
    };
    let close: bool = match body.enabled {
        Some(on) => !on,
        None => false,
    };
    PeerChange { endpoint, enabled: body.enabled, close }
}

/// How many of the sources of a forgotten node were retired by it.
pub open spec fn retired(outcomes: Seq<bool>) -> nat
    decreases outcomes.len(),
{
    if outcomes.len() == 0 {
        0
    } else {
        retired(outcomes.drop_last()) + (if outcomes.last() {
            1nat
        } else {
            0nat
        })
    }
}

pub fn forget_view(outcomes: &Vec<bool>) -> (r: ForgetView)
    ensures
        r.retired_sources == retired(outcomes@),
{
    let mut n: u64 = 0;
    let mut i: usize = 0;
    assert(outcomes@.take(0) =~= Seq::<bool>::empty());
    while i < outcomes.len()
        invariant
            0 <= i <= outcomes.len(),
            n == retired(outcomes@.take(i as int)),
            n <= i,
        decreases outcomes.len() - i,
    {
        assert(outcomes@.take(i + 1).drop_last() =~= outcomes@.take(i as int));
        if outcomes[i] {
            n = n + 1;
        }
        i += 1;
    }
    assert(outcomes@.take(i as int) =~= outcomes@);
    ForgetView { retired_sources: n }
}

/// Whether a source can have a sync policy: it must exist, and a replica has
/// none of its own.
pub fn check_sync_policy(id: i64, kind: Option<SourceKind>) -> (r: Result<(), ApiError>)
    ensures
        match kind {
            None => r matches Err(e) && e@ == ApiErrorModel::not_found(
                "source "@ + signed_decimal(id as int),
            ),
            Some(k) => if k == SourceKind::Remote {
                r matches Err(e) && e@ == ApiErrorModel::bad_request(
                    "a replicated source has no sync policy of its own"@,
                )
            } else {
                r is Ok
            },
        },
{
    match kind {
        None => {
            let mut m = "source ".to_owned();
            push_signed(&mut m, id);
            Err(ApiError::not_found(m))
        },
        Some(k) => if k == SourceKind::Remote {
            Err(
                ApiError::bad_request(
                    "a replicated source has no sync policy of its own".to_owned(),
                ),
            )
        } else {
            Ok(())
        },
    }
}

} // verus!
