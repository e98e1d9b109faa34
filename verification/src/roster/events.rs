//! What is published when the roster changes.

use crate::text::{clone_bytes, clone_opt, clone_strings, opt_text, strs};
use vstd::prelude::*;

verus! {

/// The label under which every event of the roster is published.
pub const PEER_SEGMENT: &'static str = "platform.mesh.peers";

/// A kind of event, known by the label that it is published under.
pub trait MeshEvent {
    /// The label of this kind of event.
    fn event_type() -> &'static str;
}

/// The role of a peer that names none.
pub fn default_kind() -> (r: String)
    ensures
        r@ == "peer"@,
{
    "peer".to_owned()
}

/// A peer joined the mesh.
#[derive(Debug, PartialEq, Eq)]
pub struct PeerJoined {
    /// The peer's identifier, in text.
    pub peer_id: String,
    /// The peer's public key.
    pub wg_public_key: Vec<u8>,
    /// The peer's address, in text.
    pub ula: String,
    /// Where to dial the peer; empty where nowhere is known.
    pub listen_endpoint: String,
    /// A name for people.
    pub display_name: String,
    /// The network that the peer belongs to; empty for the unnamed one.
    pub network: String,
    /// The peer's tags.
    pub tags: Vec<String>,
    /// The addresses of the applications that the peer hosts.
    pub hosted_app_ulas: Vec<String>,
    /// When it joined, in wall-clock microseconds.
    pub joined_at_micros: i64,
    /// The peer's role.
    pub kind: String,
    /// The address of the supervisor that owns a runner.
    pub parent: Option<String>,
    /// The application that a runner serves.
    pub app_uuid: Option<String>,
    /// The software version that the peer reported.
    pub software_version: Option<String>,
    /// The mesh version that the peer reported.
    pub mesh_version: Option<String>,
    /// Whether the peer can only be reached through a relay.
    pub relay_only: bool,
}

/// What a `PeerJoined` holds.
#[verifier::ext_equal]
pub struct JoinedView {
    pub peer_id: Seq<char>,
    pub wg_public_key: Seq<u8>,
    pub ula: Seq<char>,
    pub listen_endpoint: Seq<char>,
    pub display_name: Seq<char>,
    pub network: Seq<char>,
    pub tags: Seq<Seq<char>>,
    pub hosted_app_ulas: Seq<Seq<char>>,
    pub joined_at_micros: i64,
    pub kind: Seq<char>,
    pub parent: Option<Seq<char>>,
    pub app_uuid: Option<Seq<char>>,
    pub software_version: Option<Seq<char>>,
    pub mesh_version: Option<Seq<char>>,
    pub relay_only: bool,
}

impl View for PeerJoined {
    type V = JoinedView;

    open spec fn view(&self) -> JoinedView {
        JoinedView {
            peer_id: self.peer_id@,
            wg_public_key: self.wg_public_key@,
            ula: self.ula@,
            listen_endpoint: self.listen_endpoint@,
            display_name: self.display_name@,
            network: self.network@,
            tags: strs(self.tags@),
            hosted_app_ulas: strs(self.hosted_app_ulas@),
            joined_at_micros: self.joined_at_micros,
            kind: self.kind@,
            parent: opt_text(self.parent),
            app_uuid: opt_text(self.app_uuid),
            software_version: opt_text(self.software_version),
            mesh_version: opt_text(self.mesh_version),
            relay_only: self.relay_only,
        }
    }
}

impl Clone for PeerJoined {
    fn clone(&self) -> (r: Self)
        ensures
            r@ == self@,
    {
        PeerJoined {
            peer_id: self.peer_id.clone(),
            wg_public_key: clone_bytes(&self.wg_public_key),
            ula: self.ula.clone(),
            listen_endpoint: self.listen_endpoint.clone(),
            display_name: self.display_name.clone(),
            network: self.network.clone(),
            tags: clone_strings(&self.tags),
            hosted_app_ulas: clone_strings(&self.hosted_app_ulas),
            joined_at_micros: self.joined_at_micros,
            kind: self.kind.clone(),
            parent: clone_opt(&self.parent),
            app_uuid: clone_opt(&self.app_uuid),
            software_version: clone_opt(&self.software_version),
            mesh_version: clone_opt(&self.mesh_version),
            relay_only: self.relay_only,
        }
    }
}

impl MeshEvent for PeerJoined {
    fn event_type() -> (r: &'static str)
        ensures
            r@ == "peer_joined"@,
    {
        "peer_joined"
    }
}

/// A peer reported that it is alive.
#[derive(Debug, PartialEq, Eq)]
pub struct PeerHeartbeat {
    /// The peer's identifier, in text.
    pub peer_id: String,
    /// The socket address that the report came from; empty where unknown.
    pub observed_external: String,
    /// The addresses of all applications that the peer hosts now.
    pub hosted_app_ulas: Vec<String>,
    /// The software version, where the report carried one.
    pub software_version: Option<String>,
    /// The mesh version, where the report carried one.
    pub mesh_version: Option<String>,
    /// When it was received, in wall-clock microseconds.
    pub at_micros: i64,
}

/// What a `PeerHeartbeat` holds.
#[verifier::ext_equal]
pub struct HeartbeatView {
    pub peer_id: Seq<char>,
    pub observed_external: Seq<char>,
    pub hosted_app_ulas: Seq<Seq<char>>,
    pub software_version: Option<Seq<char>>,
    pub mesh_version: Option<Seq<char>>,
    pub at_micros: i64,
}

impl View for PeerHeartbeat {
    type V = HeartbeatView;

    open spec fn view(&self) -> HeartbeatView {
        HeartbeatView {
            peer_id: self.peer_id@,
            observed_external: self.observed_external@,
            hosted_app_ulas: strs(self.hosted_app_ulas@),
            software_version: opt_text(self.software_version),
            mesh_version: opt_text(self.mesh_version),
            at_micros: self.at_micros,
        }
    }
}

impl MeshEvent for PeerHeartbeat {
    fn event_type() -> (r: &'static str)
        ensures
            r@ == "peer_heartbeat"@,
    {
        "peer_heartbeat"
    }
}

/// A peer left the mesh.
#[derive(Debug, PartialEq, Eq)]
pub struct PeerLeft {
    /// The peer's identifier, in text.
    pub peer_id: String,
    /// Why it left.
    pub reason: String,
    /// When it left, in wall-clock microseconds.
    pub left_at_micros: i64,
}

/// What a `PeerLeft` holds.
#[verifier::ext_equal]
pub struct LeftView {
    pub peer_id: Seq<char>,
    pub reason: Seq<char>,
    pub left_at_micros: i64,
}

impl View for PeerLeft {
    type V = LeftView;

    open spec fn view(&self) -> LeftView {
        LeftView {
            peer_id: self.peer_id@,
            reason: self.reason@,
            left_at_micros: self.left_at_micros,
        }
    }
}

impl MeshEvent for PeerLeft {
    fn event_type() -> (r: &'static str)
        ensures
            r@ == "peer_left"@,
    {
        "peer_left"
    }
}

/// One peer should try to reach another one directly.
#[derive(Debug, PartialEq, Eq)]
pub struct HolePunchInitiate {
    /// Who should send first.
    pub initiator_peer_id: String,
    /// Whom to dial.
    pub target_peer_id: String,
    /// Where to dial.
    pub target_external_endpoint: String,
    /// When it was decided, in wall-clock microseconds.
    pub timestamp_micros: i64,
}

/// What a `HolePunchInitiate` holds.
#[verifier::ext_equal]
pub struct PunchView {
    pub initiator_peer_id: Seq<char>,
    pub target_peer_id: Seq<char>,
    pub target_external_endpoint: Seq<char>,
    pub timestamp_micros: i64,
}

impl View for HolePunchInitiate {
    type V = PunchView;

    open spec fn view(&self) -> PunchView {
        PunchView {
            initiator_peer_id: self.initiator_peer_id@,
            target_peer_id: self.target_peer_id@,
            target_external_endpoint: self.target_external_endpoint@,
            timestamp_micros: self.timestamp_micros,
        }
    }
}

impl Clone for HolePunchInitiate {
    fn clone(&self) -> (r: Self)
        ensures
            r@ == self@,
    {
        HolePunchInitiate {
            initiator_peer_id: self.initiator_peer_id.clone(),
            target_peer_id: self.target_peer_id.clone(),
            target_external_endpoint: self.target_external_endpoint.clone(),
            timestamp_micros: self.timestamp_micros,
        }
    }
}

impl MeshEvent for HolePunchInitiate {
    fn event_type() -> (r: &'static str)
        ensures
            r@ == "holepunch_initiate"@,
    {
        "holepunch_initiate"
    }
}

} // verus!
