//! One peer of the roster.

use crate::bindings::encoding::{base64_text, encode_base64};
use crate::bindings::ids::{id_text, uuid_text};
use crate::clock::Instant;
use crate::net::addr::{ipv6_text, segs, Ipv6Addr};
use crate::roster::api::{
    clone_commands, command_views, CommandView, InfoView, NodeCommandDto, PeerInfo,
};
use crate::roster::events::{JoinedView, PeerJoined};
use crate::text::{
    clone_bytes, clone_opt, clone_strings, contains_text, opt_text, same_text, strs, text_or_empty,
};
use std::collections::HashMap;
use vstd::prelude::*;

verus! {

/// What the roster keeps of a peer.
#[derive(Debug)]
pub struct PeerEntry {
    /// The peer's identifier.
    pub peer_id: u128,
    /// The peer's public key.
    pub wg_public_key: Vec<u8>,
    /// The peer's address.
    pub ula: Ipv6Addr,
    /// The peer's index within its network's block of addresses.
    pub peer_index: u16,
    /// Where to dial the peer.
    pub listen_endpoint: Option<String>,
    /// A name for people.
    pub display_name: String,
    /// The network that the peer belongs to.
    pub network: String,
    /// The peer's tags, which decide who sees it.
    pub tags: Vec<String>,
    /// The addresses of the applications that the peer hosts.
    pub hosted_app_ulas: Vec<String>,
    /// When it joined, in wall-clock microseconds.
    pub joined_at_micros: i64,
    /// When it was last heard of.
    pub last_heartbeat: Instant,
    /// The socket address it was last seen under; empty where unknown.
    pub observed_external: String,
    /// Whether `listen_endpoint` was derived from the observed address.
    pub endpoint_is_reflexive: bool,
    /// The peer's role.
    pub kind: String,
    /// The address of the supervisor that owns a runner.
    pub parent: Option<String>,
    /// The application that a runner serves.
    pub app_uuid: Option<String>,
    /// The software version that it last reported.
    pub software_version: Option<String>,
    /// The mesh version that it last reported.
    pub mesh_version: Option<String>,
    /// Whether it can only be reached through a relay.
    pub relay_only: bool,
    /// How the peer says it reaches others: directly or not, and how long ago.
    pub paths: HashMap<u128, (bool, u64)>,
    /// Whether the peer says that its tunnels carry data.
    pub dataplane_healthy: bool,
    /// The commands that wait for the peer.
    pub pending_commands: Vec<NodeCommandDto>,
}

/// What a `PeerEntry` holds.
#[verifier::ext_equal]
pub struct PeerView {
    pub peer_id: u128,
    pub wg_public_key: Seq<u8>,
    pub ula: Ipv6Addr,
    pub peer_index: u16,
    pub listen_endpoint: Option<Seq<char>>,
    pub display_name: Seq<char>,
    pub network: Seq<char>,
    pub tags: Seq<Seq<char>>,
    pub hosted_app_ulas: Seq<Seq<char>>,
    pub joined_at_micros: i64,
    pub last_heartbeat: Instant,
    pub observed_external: Seq<char>,
    pub endpoint_is_reflexive: bool,
    pub kind: Seq<char>,
    pub parent: Option<Seq<char>>,
    pub app_uuid: Option<Seq<char>>,
    pub software_version: Option<Seq<char>>,
    pub mesh_version: Option<Seq<char>>,
    pub relay_only: bool,
    pub paths: Map<u128, (bool, u64)>,
    pub dataplane_healthy: bool,
    pub pending_commands: Seq<CommandView>,
}

impl View for PeerEntry {
    type V = PeerView;

    open spec fn view(&self) -> PeerView {
        PeerView {
            peer_id: self.peer_id,
            wg_public_key: self.wg_public_key@,
            ula: self.ula,
            peer_index: self.peer_index,
            listen_endpoint: opt_text(self.listen_endpoint),
            display_name: self.display_name@,
            network: self.network@,
            tags: strs(self.tags@),
            hosted_app_ulas: strs(self.hosted_app_ulas@),
            joined_at_micros: self.joined_at_micros,
            last_heartbeat: self.last_heartbeat,
            observed_external: self.observed_external@,
            endpoint_is_reflexive: self.endpoint_is_reflexive,
            kind: self.kind@,
            parent: opt_text(self.parent),
            app_uuid: opt_text(self.app_uuid),
            software_version: opt_text(self.software_version),
            mesh_version: opt_text(self.mesh_version),
            relay_only: self.relay_only,
            paths: self.paths@,
            dataplane_healthy: self.dataplane_healthy,
            pending_commands: command_views(self.pending_commands@),
        }
    }
}

impl Clone for PeerEntry {
    fn clone(&self) -> (r: Self)
        ensures
            r@ == self@,
    {
        PeerEntry {
            peer_id: self.peer_id,
            wg_public_key: clone_bytes(&self.wg_public_key),
            ula: self.ula,
            peer_index: self.peer_index,
            listen_endpoint: clone_opt(&self.listen_endpoint),
            display_name: self.display_name.clone(),
            network: self.network.clone(),
            tags: clone_strings(&self.tags),
            hosted_app_ulas: clone_strings(&self.hosted_app_ulas),
            joined_at_micros: self.joined_at_micros,
            last_heartbeat: self.last_heartbeat,
            observed_external: self.observed_external.clone(),
            endpoint_is_reflexive: self.endpoint_is_reflexive,
            kind: self.kind.clone(),
            parent: clone_opt(&self.parent),
            app_uuid: clone_opt(&self.app_uuid),
            software_version: clone_opt(&self.software_version),
            mesh_version: clone_opt(&self.mesh_version),
            relay_only: self.relay_only,
            paths: self.paths.clone(),
            dataplane_healthy: self.dataplane_healthy,
            pending_commands: clone_commands(&self.pending_commands),
        }
    }
}

/// What viewers are shown of a peer.
pub open spec fn info_of(
    e: PeerView,
    connectivity: Option<Seq<char>>,
    connectivity_age_ms: Option<u64>,
) -> InfoView {
    InfoView {
        peer_id: uuid_text(e.peer_id),
        wg_public_key: base64_text(e.wg_public_key),
        ula: ipv6_text(e.ula),
        listen_endpoint: e.listen_endpoint,
        display_name: e.display_name,
        network: e.network,
        tags: e.tags,
        hosted_app_ulas: e.hosted_app_ulas,
        joined_at_micros: e.joined_at_micros,
        kind: e.kind,
        parent: e.parent,
        app_uuid: e.app_uuid,
        software_version: e.software_version,
        mesh_version: e.mesh_version,
        relay_only: e.relay_only,
        connectivity,
        connectivity_age_ms,
    }
}

/// The event that a peer's entry can be rebuilt from.
pub open spec fn joined_of(e: PeerView) -> JoinedView {
    JoinedView {
        peer_id: uuid_text(e.peer_id),
        wg_public_key: e.wg_public_key,
        ula: ipv6_text(e.ula),
        listen_endpoint: text_or_empty(e.listen_endpoint),
        display_name: e.display_name,
        network: e.network,
        tags: e.tags,
        hosted_app_ulas: e.hosted_app_ulas,
        joined_at_micros: e.joined_at_micros,
        kind: e.kind,
        parent: e.parent,
        app_uuid: e.app_uuid,
        software_version: e.software_version,
        mesh_version: e.mesh_version,
        relay_only: e.relay_only,
    }
}

/// The second segment of the addresses that applications and their runners have.
pub const RUNNER_ULA_HEXTET: u16 = 0x1f02;

/// Whether a peer is a machine rather than the runner of an application: no
/// runner's address, no `runner` tag and no `runner` role.
pub open spec fn machine(e: PeerView) -> bool {
    &&& segs(e.ula)[1] != RUNNER_ULA_HEXTET
    &&& !e.tags.contains("runner"@)
    &&& e.kind != "runner"@
}

/// Whether a peer is a machine.
pub fn is_machine(entry: &PeerEntry) -> (r: bool)
    ensures
        r == machine(entry@),
{
    let s = entry.ula.segments();
    assert(crate::net::addr::ints(s@)[1] == s@[1]);
    !(s[1] == RUNNER_ULA_HEXTET || contains_text(&entry.tags, "runner") || same_text(
        entry.kind.as_str(),
        "runner",
    ))
}

impl PeerEntry {
    /// What viewers are shown of the peer, with nothing said of how it is
    /// connected.
    pub fn to_info(&self) -> (r: PeerInfo)
        ensures
            r@ == info_of(self@, None, None),
    {
        self.to_info_with_connectivity(None, None)
    }

    /// What viewers are shown of the peer.
    pub fn to_info_with_connectivity(
        &self,
        connectivity: Option<String>,
        connectivity_age_ms: Option<u64>,
    ) -> (r: PeerInfo)
        ensures
            r@ == info_of(self@, opt_text(connectivity), connectivity_age_ms),
    {
        PeerInfo {
            peer_id: id_text(self.peer_id),
            wg_public_key: encode_base64(self.wg_public_key.as_slice()),
            ula: self.ula.to_text(),
            listen_endpoint: clone_opt(&self.listen_endpoint),
            display_name: self.display_name.clone(),
            network: self.network.clone(),
            tags: clone_strings(&self.tags),
            hosted_app_ulas: clone_strings(&self.hosted_app_ulas),
            joined_at_micros: self.joined_at_micros,
            kind: self.kind.clone(),
            parent: clone_opt(&self.parent),
            app_uuid: clone_opt(&self.app_uuid),
            software_version: clone_opt(&self.software_version),
            mesh_version: clone_opt(&self.mesh_version),
            relay_only: self.relay_only,
            connectivity,
            connectivity_age_ms,
        }
    }

    /// The event that this entry can be rebuilt from.
    pub fn to_joined_event(&self) -> (r: PeerJoined)
        ensures
            r@ == joined_of(self@),
    {
        let listen_endpoint = match &self.listen_endpoint {
            Some(s) => s.clone(),
            None => String::new(),
        };
        PeerJoined {
            peer_id: id_text(self.peer_id),
            wg_public_key: clone_bytes(&self.wg_public_key),
            ula: self.ula.to_text(),
            listen_endpoint,
            display_name: self.display_name.clone(),
            network: self.network.clone(),
            tags: clone_strings(&self.tags),
            hosted_app_ulas: clone_strings(&self.hosted_app_ulas),
            joined_at_micros: self.joined_at_micros,
            kind: self.kind.clone(),
            parent: clone_opt(&self.parent),
            app_uuid: clone_opt(&self.app_uuid),
            software_version: clone_opt(&self.software_version),
            mesh_version: clone_opt(&self.mesh_version),
            relay_only: self.relay_only,
        }
    }
}

} // verus!
