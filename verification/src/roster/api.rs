//! What joiners send and what viewers are shown.

use crate::roster::events::{HolePunchInitiate, PunchView};
use crate::text::{opt_text, strs};
use vstd::prelude::*;

verus! {

/// A request to join the mesh.
#[derive(Debug)]
pub struct RegisterRequest {
    /// The joiner's public key, in base64.
    pub wg_public_key: String,
    /// Where the joiner says it can be dialled.
    pub listen_endpoint: Option<String>,
    /// The port that its tunnel listens on.
    pub wg_listen_port: Option<u16>,
    /// A name for people.
    pub display_name: String,
    /// The network that it asks for.
    pub network: String,
    /// The tags that it claims.
    pub tags: Vec<String>,
    /// The addresses of the applications that it hosts.
    pub hosted_app_ulas: Vec<String>,
    /// Its role.
    pub kind: String,
    /// The address of the supervisor that owns a runner.
    pub parent: Option<String>,
    /// The application that a runner serves.
    pub app_uuid: Option<String>,
    /// The address that it asks for.
    pub requested_ula: Option<String>,
    /// Its software version.
    pub software_version: Option<String>,
    /// Its mesh version.
    pub mesh_version: Option<String>,
    /// Whether it can only be reached through a relay.
    pub relay_only: bool,
}

/// What a `RegisterRequest` holds.
#[verifier::ext_equal]
pub struct RequestView {
    pub wg_public_key: Seq<char>,
    pub listen_endpoint: Option<Seq<char>>,
    pub wg_listen_port: Option<u16>,
    pub display_name: Seq<char>,
    pub network: Seq<char>,
    pub tags: Seq<Seq<char>>,
    pub hosted_app_ulas: Seq<Seq<char>>,
    pub kind: Seq<char>,
    pub parent: Option<Seq<char>>,
    pub app_uuid: Option<Seq<char>>,
    pub requested_ula: Option<Seq<char>>,
    pub software_version: Option<Seq<char>>,
    pub mesh_version: Option<Seq<char>>,
    pub relay_only: bool,
}

impl View for RegisterRequest {
    type V = RequestView;

    open spec fn view(&self) -> RequestView {
        RequestView {
            wg_public_key: self.wg_public_key@,
            listen_endpoint: opt_text(self.listen_endpoint),
            wg_listen_port: self.wg_listen_port,
            display_name: self.display_name@,
            network: self.network@,
            tags: strs(self.tags@),
            hosted_app_ulas: strs(self.hosted_app_ulas@),
            kind: self.kind@,
            parent: opt_text(self.parent),
            app_uuid: opt_text(self.app_uuid),
            requested_ula: opt_text(self.requested_ula),
            software_version: opt_text(self.software_version),
            mesh_version: opt_text(self.mesh_version),
            relay_only: self.relay_only,
        }
    }
}

/// A peer as viewers are shown it.
#[derive(Debug)]
pub struct PeerInfo {
    pub peer_id: String,
    pub wg_public_key: String,
    pub ula: String,
    pub listen_endpoint: Option<String>,
    pub display_name: String,
    pub network: String,
    pub tags: Vec<String>,
    pub hosted_app_ulas: Vec<String>,
    pub joined_at_micros: i64,
    pub kind: String,
    pub parent: Option<String>,
    pub app_uuid: Option<String>,
    pub software_version: Option<String>,
    pub mesh_version: Option<String>,
    pub relay_only: bool,
    /// How the peer is connected: `direct`, `relay` or `dead`.
    pub connectivity: Option<String>,
    /// How old the evidence for that is, in milliseconds.
    pub connectivity_age_ms: Option<u64>,
}

/// What a `PeerInfo` holds.
#[verifier::ext_equal]
pub struct InfoView {
    pub peer_id: Seq<char>,
    pub wg_public_key: Seq<char>,
    pub ula: Seq<char>,
    pub listen_endpoint: Option<Seq<char>>,
    pub display_name: Seq<char>,
    pub network: Seq<char>,
    pub tags: Seq<Seq<char>>,
    pub hosted_app_ulas: Seq<Seq<char>>,
    pub joined_at_micros: i64,
    pub kind: Seq<char>,
    pub parent: Option<Seq<char>>,
    pub app_uuid: Option<Seq<char>>,
    pub software_version: Option<Seq<char>>,
    pub mesh_version: Option<Seq<char>>,
    pub relay_only: bool,
    pub connectivity: Option<Seq<char>>,
    pub connectivity_age_ms: Option<u64>,
}

impl View for PeerInfo {
    type V = InfoView;

    open spec fn view(&self) -> InfoView {
        InfoView {
            peer_id: self.peer_id@,
            wg_public_key: self.wg_public_key@,
            ula: self.ula@,
            listen_endpoint: opt_text(self.listen_endpoint),
            display_name: self.display_name@,
            network: self.network@,
            tags: strs(self.tags@),
            hosted_app_ulas: strs(self.hosted_app_ulas@),
            joined_at_micros: self.joined_at_micros,
            kind: self.kind@,
            parent: opt_text(self.parent),
            app_uuid: opt_text(self.app_uuid),
            software_version: opt_text(self.software_version),
            mesh_version: opt_text(self.mesh_version),
            relay_only: self.relay_only,
            connectivity: opt_text(self.connectivity),
            connectivity_age_ms: self.connectivity_age_ms,
        }
    }
}

/// What a list of `PeerInfo` holds.
pub open spec fn infos(v: Seq<PeerInfo>) -> Seq<InfoView> {
    Seq::new(v.len(), |i: int| v[i]@)
}

/// A change that viewers are told of.
#[derive(Debug)]
pub enum PeerEvent {
    /// A peer appeared.
    Added(PeerInfo),
    /// A peer changed.
    Updated(PeerInfo),
    /// A peer went away; its tags tell which viewers knew it.
    Removed { peer_id: String, tags: Vec<String> },
    /// A peer should try to reach another one directly.
    HolePunch(HolePunchInitiate),
}

/// What a `PeerEvent` holds.
#[verifier::ext_equal]
pub enum PeerEventView {
    Added(InfoView),
    Updated(InfoView),
    Removed { peer_id: Seq<char>, tags: Seq<Seq<char>> },
    HolePunch(PunchView),
}

impl View for PeerEvent {
    type V = PeerEventView;

    open spec fn view(&self) -> PeerEventView {
        match self {
            PeerEvent::Added(i) => PeerEventView::Added(i@),
            PeerEvent::Updated(i) => PeerEventView::Updated(i@),
            PeerEvent::Removed { peer_id, tags } => PeerEventView::Removed {
                peer_id: peer_id@,
                tags: strs(tags@),
            },
            PeerEvent::HolePunch(h) => PeerEventView::HolePunch(h@),
        }
    }
}

/// One path that a peer reports: how it currently reaches another peer.
#[derive(Debug)]
pub struct PeerPathDto {
    /// The other peer, in text.
    pub peer_id: String,
    /// Whether the path is direct.
    pub direct: bool,
    /// How long ago data last arrived over it, in milliseconds.
    pub last_rx_age_ms: u64,
}

/// What a `PeerPathDto` holds.
#[verifier::ext_equal]
pub struct PathView {
    pub peer_id: Seq<char>,
    pub direct: bool,
    pub last_rx_age_ms: u64,
}

impl View for PeerPathDto {
    type V = PathView;

    open spec fn view(&self) -> PathView {
        PathView {
            peer_id: self.peer_id@,
            direct: self.direct,
            last_rx_age_ms: self.last_rx_age_ms,
        }
    }
}

/// What a list of paths holds.
pub open spec fn path_views(v: Seq<PeerPathDto>) -> Seq<PathView> {
    Seq::new(v.len(), |i: int| v[i]@)
}

/// A machine in the graph of machines.
#[derive(Debug)]
pub struct TopologyMachine {
    pub peer_id: String,
    pub name: String,
    pub ula: String,
    pub tags: Vec<String>,
    pub relay_only: bool,
    pub software_version: Option<String>,
    pub mesh_version: Option<String>,
    pub connectivity: Option<String>,
}

/// What a `TopologyMachine` holds.
#[verifier::ext_equal]
pub struct MachineView {
    pub peer_id: Seq<char>,
    pub name: Seq<char>,
    pub ula: Seq<char>,
    pub tags: Seq<Seq<char>>,
    pub relay_only: bool,
    pub software_version: Option<Seq<char>>,
    pub mesh_version: Option<Seq<char>>,
    pub connectivity: Option<Seq<char>>,
}

impl View for TopologyMachine {
    type V = MachineView;

    open spec fn view(&self) -> MachineView {
        MachineView {
            peer_id: self.peer_id@,
            name: self.name@,
            ula: self.ula@,
            tags: strs(self.tags@),
            relay_only: self.relay_only,
            software_version: opt_text(self.software_version),
            mesh_version: opt_text(self.mesh_version),
            connectivity: opt_text(self.connectivity),
        }
    }
}

/// A connection between two machines, whoever reported it.
#[derive(Debug)]
pub struct TopologyEdge {
    pub from: String,
    pub to: String,
    /// Whether either side reported it as direct.
    pub direct: bool,
    /// The smallest age that was reported, in milliseconds.
    pub age_ms: u64,
}

/// What a `TopologyEdge` holds.
#[verifier::ext_equal]
pub struct EdgeView {
    pub from: Seq<char>,
    pub to: Seq<char>,
    pub direct: bool,
    pub age_ms: u64,
}

impl View for TopologyEdge {
    type V = EdgeView;

    open spec fn view(&self) -> EdgeView {
        EdgeView { from: self.from@, to: self.to@, direct: self.direct, age_ms: self.age_ms }
    }
}

/// The graph of machines.
#[derive(Debug)]
pub struct TopologyResponse {
    pub machines: Vec<TopologyMachine>,
    pub edges: Vec<TopologyEdge>,
}

/// What a list of machines holds.
pub open spec fn machine_views(v: Seq<TopologyMachine>) -> Seq<MachineView> {
    Seq::new(v.len(), |i: int| v[i]@)
}

/// What a list of edges holds.
pub open spec fn edge_views(v: Seq<TopologyEdge>) -> Seq<EdgeView> {
    Seq::new(v.len(), |i: int| v[i]@)
}

/// A command for a peer. It is signed for the peer, and passed on as it is.
#[derive(Debug, PartialEq, Eq)]
pub struct NodeCommandDto {
    /// Tells one command from another.
    pub command_id: String,
    /// What the peer should do.
    pub verb: String,
    /// Which peer should do it.
    pub peer_id: String,
    /// Guards against replay.
    pub nonce: String,
    /// When it was issued, in wall-clock microseconds.
    pub issued_at: i64,
    /// Until when it holds, in wall-clock microseconds.
    pub expiry: i64,
    /// The signature, which only the peer looks at.
    pub signature: String,
}

/// What a `NodeCommandDto` holds.
#[verifier::ext_equal]
pub struct CommandView {
    pub command_id: Seq<char>,
    pub verb: Seq<char>,
    pub peer_id: Seq<char>,
    pub nonce: Seq<char>,
    pub issued_at: i64,
    pub expiry: i64,
    pub signature: Seq<char>,
}

impl View for NodeCommandDto {
    type V = CommandView;

    open spec fn view(&self) -> CommandView {
        CommandView {
            command_id: self.command_id@,
            verb: self.verb@,
            peer_id: self.peer_id@,
            nonce: self.nonce@,
            issued_at: self.issued_at,
            expiry: self.expiry,
            signature: self.signature@,
        }
    }
}

/// What a list of commands holds.
pub open spec fn command_views(v: Seq<NodeCommandDto>) -> Seq<CommandView> {
    Seq::new(v.len(), |i: int| v[i]@)
}

impl Clone for NodeCommandDto {
    fn clone(&self) -> (r: Self)
        ensures
            r@ == self@,
    {
        NodeCommandDto {
            command_id: self.command_id.clone(),
            verb: self.verb.clone(),
            peer_id: self.peer_id.clone(),
            nonce: self.nonce.clone(),
            issued_at: self.issued_at,
            expiry: self.expiry,
            signature: self.signature.clone(),
        }
    }
}

/// Copies a list of commands.
pub fn clone_commands(v: &Vec<NodeCommandDto>) -> (r: Vec<NodeCommandDto>)
    ensures
        command_views(r@) == command_views(v@),
{
    let mut r: Vec<NodeCommandDto> = Vec::new();
    let mut i: usize = 0;
    while i < v.len()
        invariant
            i <= v@.len(),
            r@.len() == i,
            forall|k: int| 0 <= k < i ==> (#[trigger] r@[k])@ == v@[k]@,
        decreases v@.len() - i,
    {
        r.push(v[i].clone());
        i = i + 1;
    }
    assert(command_views(r@) =~= command_views(v@));
    r
}

} // verus!
