//! Sending over encrypted datagrams.

use crate::bindings::display::{debug_duration, duration_text};
use crate::bindings::keys::random_bytes;
use crate::bindings::routes::{
    session_contents, sessions_insert, sessions_new, sessions_remove, sessions_walk,
};
use crate::bindings::tunnel::{
    given, holding, is_cramped, is_data_of, is_initiation, lets_time_pass, tunnel_busy, tunnel_sealed, tunnel_up,
    tunnel_view, with_handshake, OutcomeView, TunnelOutcome, QUEUE_DEPTH,
};
use crate::clock::Duration;
use crate::fabric::error::{
    plan_result, FabricError, FabricErrorView, MeshFabric, MeshFabricMutators, PlanView, SendPlan,
};
use crate::fabric::loopback::LoopbackPeerSpec;
use crate::fabric::packet::{
    build_ipv6_packet, law_packets_round_trip, lemma_packet_layout, packet_bytes, packet_fault,
    packet_parts,
};
use crate::fabric::routing::{
    hop_to, is_walk, no_routes, Hop, HopView, Routing, RoutingSnapshot, RoutingView,
};
use crate::fabric::wireguard::keys::WireGuardPeerSpec;
use crate::fabric::wireguard::session::{
    is_new_session, same_node, Session, SessionView, ENCAPSULATION_ROOM,
};
use crate::net::addr::Ipv6Addr;
use crate::net::socket::SocketAddr;
use crate::numeral::{decimal, decimal_text};
use crate::text::{cat, cat3};
use dashmap::DashMap;
use vstd::prelude::*;

verus! {

/// The longest message: what an IPv6 packet can hold, less room for encryption.
pub const MAX_APP_PAYLOAD: usize = 65_471;

/// A fabric between hosts.
pub struct WireGuardFabric {
    local_node_id: String,
    local_addr: SocketAddr,
    static_private: [u8; 32],
    routing: Routing,
    peers: DashMap<String, Session>,
}

/// What a `WireGuardFabric` holds.
#[verifier::ext_equal]
pub struct WireGuardView {
    pub local_node_id: Seq<char>,
    pub local_addr: SocketAddr,
    pub static_private: Seq<u8>,
    pub routing: RoutingView,
    pub peers: Map<Seq<char>, SessionView>,
}

impl View for WireGuardFabric {
    type V = WireGuardView;

    closed spec fn view(&self) -> WireGuardView {
        WireGuardView {
            local_node_id: self.local_node_id@,
            local_addr: self.local_addr,
            static_private: self.static_private@,
            routing: self.routing@,
            peers: session_contents(self.peers),
        }
    }
}

/// What a tunnel is to be given for a message, and where the other side is; or
/// why the message cannot be sent: it is too long, or the node is unknown.
pub open spec fn remote_packet(
    s: WireGuardView,
    node_id: Seq<char>,
    dst: Ipv6Addr,
    msg: Seq<u8>,
) -> Result<(SocketAddr, Seq<u8>), FabricErrorView> {
    if msg.len() > MAX_APP_PAYLOAD {
        Err(
            FabricErrorView::Encoding(
                "payload "@ + decimal(msg.len() as int) + " exceeds max "@ + decimal(
                    MAX_APP_PAYLOAD as int,
                ),
            ),
        )
    } else if !s.peers.contains_key(node_id) {
        Err(FabricErrorView::Transport("peer "@ + node_id + " not registered"@))
    } else {
        Ok((s.peers[node_id].endpoint, packet_bytes(Ipv6Addr { bits: 0 }, dst, msg)))
    }
}

/// What is to be done once a tunnel was given a packet.
pub open spec fn sent(endpoint: SocketAddr, o: OutcomeView) -> Result<PlanView, FabricErrorView> {
    match o {
        OutcomeView::ToNetwork(b) => Ok(PlanView::Datagram { addr: endpoint, bytes: b }),
        OutcomeView::Done => Ok(PlanView::HeldBack),
        OutcomeView::Failed(e) => Err(
            FabricErrorView::Transport("boringtun encapsulate error: "@ + e),
        ),
        OutcomeView::ToTunnelV4 { debug } => Err(
            FabricErrorView::Transport("boringtun encapsulate error: unexpected: "@ + debug),
        ),
        OutcomeView::ToTunnelV6 { packet, debug } => Err(
            FabricErrorView::Transport("boringtun encapsulate error: unexpected: "@ + debug),
        ),
    }
}

/// What is to be sent to start a handshake, if anything.
pub open spec fn kicked(endpoint: SocketAddr, o: OutcomeView) -> Result<
    Option<(SocketAddr, Seq<u8>)>,
    FabricErrorView,
> {
    match o {
        OutcomeView::ToNetwork(b) => Ok(Some((endpoint, b))),
        OutcomeView::Done => Ok(None),
        OutcomeView::Failed(e) => Err(
            FabricErrorView::Transport("boringtun handshake error: "@ + e),
        ),
        OutcomeView::ToTunnelV4 { debug } => Err(
            FabricErrorView::Transport("unexpected boringtun handshake result: "@ + debug),
        ),
        OutcomeView::ToTunnelV6 { packet, debug } => Err(
            FabricErrorView::Transport("unexpected boringtun handshake result: "@ + debug),
        ),
    }
}

/// Decides what is to be done once a tunnel was given a packet.
pub fn on_encapsulated(endpoint: SocketAddr, outcome: TunnelOutcome) -> (r: Result<
    SendPlan,
    FabricError,
>)
    ensures
        plan_result(r) == sent(endpoint, outcome@),
{
    match outcome {
        TunnelOutcome::ToNetwork(bytes) => Ok(SendPlan::Datagram { addr: endpoint, bytes }),
        TunnelOutcome::Done => Ok(SendPlan::HeldBack),
        TunnelOutcome::Failed(e) => Err(
            FabricError::Transport(cat("boringtun encapsulate error: ", e.as_str())),
        ),
        TunnelOutcome::ToTunnelV4 { debug } => Err(
            FabricError::Transport(
                cat("boringtun encapsulate error: unexpected: ", debug.as_str()),
            ),
        ),
        TunnelOutcome::ToTunnelV6 { packet: _, debug } => Err(
            FabricError::Transport(
                cat("boringtun encapsulate error: unexpected: ", debug.as_str()),
            ),
        ),
    }
}

/// What a datagram holds.
pub open spec fn datagram_view(d: Option<(SocketAddr, Vec<u8>)>) -> Option<(SocketAddr, Seq<u8>)> {
    match d {
        Some(d) => Some((d.0, d.1@)),
        None => None,
    }
}

/// Decides what is to be sent to start a handshake.
pub fn on_handshake(endpoint: SocketAddr, outcome: TunnelOutcome) -> (r: Result<
    Option<(SocketAddr, Vec<u8>)>,
    FabricError,
>)
    ensures
        match r {
            Ok(d) => kicked(endpoint, outcome@) == Ok::<
                Option<(SocketAddr, Seq<u8>)>,
                FabricErrorView,
            >(datagram_view(d)),
            Err(e) => kicked(endpoint, outcome@) == Err::<
                Option<(SocketAddr, Seq<u8>)>,
                FabricErrorView,
            >(e@),
        },
{
    match outcome {
        TunnelOutcome::ToNetwork(bytes) => Ok(Some((endpoint, bytes))),
        TunnelOutcome::Done => Ok(None),
        TunnelOutcome::Failed(e) => Err(
            FabricError::Transport(cat("boringtun handshake error: ", e.as_str())),
        ),
        TunnelOutcome::ToTunnelV4 { debug } => Err(
            FabricError::Transport(cat("unexpected boringtun handshake result: ", debug.as_str())),
        ),
        TunnelOutcome::ToTunnelV6 { packet: _, debug } => Err(
            FabricError::Transport(cat("unexpected boringtun handshake result: ", debug.as_str())),
        ),
    }
}

/// What the passing of time makes it necessary to send.
pub open spec fn ticked(endpoint: SocketAddr, o: OutcomeView) -> Option<(SocketAddr, Seq<u8>)> {
    match o {
        OutcomeView::ToNetwork(b) => Some((endpoint, b)),
        _ => None,
    }
}

/// Decides what the passing of time makes it necessary to send.
pub fn on_tick(endpoint: SocketAddr, outcome: TunnelOutcome) -> (r: Option<(SocketAddr, Vec<u8>)>)
    ensures
        datagram_view(r) == ticked(endpoint, outcome@),
{
    match outcome {
        TunnelOutcome::ToNetwork(bytes) => Some((endpoint, bytes)),
        _ => None,
    }
}

/// What to do while a handshake is waited for.
#[derive(Debug, Clone, Copy, PartialEq, Eq, Structural)]
pub enum WaitDecision {
    /// There is a session.
    Ready,
    /// It has taken too long.
    TimedOut,
    /// Start a handshake, and look again.
    Kick,
}

/// What to do while a handshake is waited for.
pub open spec fn waiting_for(established: bool, waited: Duration, timeout: Duration) -> WaitDecision {
    if established {
        WaitDecision::Ready
    } else if waited.nanos >= timeout.nanos {
        WaitDecision::TimedOut
    } else {
        WaitDecision::Kick
    }
}

/// Decides what to do while a handshake is waited for.
pub fn on_wait(established: bool, waited: Duration, timeout: Duration) -> (r: WaitDecision)
    ensures
        r == waiting_for(established, waited, timeout),
{
    if established {
        WaitDecision::Ready
    } else if waited.nanos >= timeout.nanos {
        WaitDecision::TimedOut
    } else {
        WaitDecision::Kick
    }
}

/// What came of waiting for a handshake once more.
#[derive(Debug)]
pub enum WaitStep {
    /// There is a session.
    Ready,
    /// It has taken too long.
    TimedOut(FabricError),
    /// Send these bytes, then wait a little and ask again.
    Send { addr: SocketAddr, bytes: Vec<u8> },
    /// Wait a little and ask again.
    Wait,
}

/// The error of a handshake that took too long.
pub open spec fn handshake_timeout(node_id: Seq<char>, timeout: Duration) -> FabricErrorView {
    FabricErrorView::Transport(
        "handshake to "@ + node_id + " did not complete within "@ + duration_text(
            (timeout.nanos / 1_000_000_000) as u64,
            (timeout.nanos % 1_000_000_000) as u32,
        ),
    )
}

/// Whether a fabric is another but for the tunnel to a node.
pub open spec fn only_tunnel(s: WireGuardView, node_id: Seq<char>, after: WireGuardView) -> bool {
    &&& after == (WireGuardView {
        peers: s.peers.insert(node_id, after.peers[node_id]),
        ..s
    })
    &&& same_node(after.peers[node_id], s.peers[node_id])
}

/// Whether a handshake with a node was started, and nothing else changed.
pub open spec fn is_kicked(s: WireGuardView, node_id: Seq<char>, after: WireGuardView) -> bool {
    &&& only_tunnel(s, node_id, after)
    &&& after.peers[node_id].tunnel() == with_handshake(s.peers[node_id].tunnel())
}

/// A step of waiting: whether there is a session is what counts first, then
/// whether it has taken too long. A handshake is started where there is none
/// under way; with a node that is unknown there is none to start.
pub open spec fn is_wait_step(
    s: WireGuardView,
    node_id: Seq<char>,
    waited: Duration,
    timeout: Duration,
    step: WaitStep,
    after: WireGuardView,
) -> bool {
    let known = s.peers.contains_key(node_id);
    if known && s.peers[node_id].tunnel().up {
        step is Ready && after == s
    } else if waited.nanos >= timeout.nanos {
        &&& after == s
        &&& step matches WaitStep::TimedOut(e) && e@ == handshake_timeout(node_id, timeout)
    } else if !known || s.peers[node_id].tunnel().busy {
        step is Wait && after == s
    } else {
        &&& is_kicked(s, node_id, after)
        &&& step matches WaitStep::Send { addr, bytes } && addr == s.peers[node_id].endpoint
            && is_initiation(bytes@)
    }
}

/// What a list of datagrams holds.
pub open spec fn datagrams(v: Seq<(SocketAddr, Vec<u8>)>) -> Seq<(SocketAddr, Seq<u8>)> {
    Seq::new(v.len(), |i: int| (v[i].0, v[i].1@))
}

/// Whether a list names each node once.
pub open spec fn names_each(nodes: Seq<Seq<char>>, peers: Map<Seq<char>, SessionView>) -> bool {
    &&& nodes.no_duplicates()
    &&& forall|i: int| 0 <= i < nodes.len() ==> peers.contains_key(#[trigger] nodes[i])
    &&& forall|k: Seq<char>| #[trigger] peers.contains_key(k) ==> nodes.contains(k)
}

/// What is to be sent when each node's tunnel answered as given, in the order
/// of the nodes.
pub open spec fn ticked_all(
    peers: Map<Seq<char>, SessionView>,
    nodes: Seq<Seq<char>>,
    outs: Map<Seq<char>, OutcomeView>,
) -> Seq<(SocketAddr, Seq<u8>)>
    decreases nodes.len(),
{
    if nodes.len() == 0 {
        Seq::empty()
    } else {
        let before = ticked_all(peers, nodes.drop_last(), outs);
        match ticked(peers[nodes.last()].endpoint, outs[nodes.last()]) {
            Some(d) => before.push(d),
            None => before,
        }
    }
}

/// Whether time passed for a node: its tunnel did what was due, and nothing
/// else changed.
pub open spec fn aged(s: SessionView, o: OutcomeView, t: SessionView) -> bool {
    lets_time_pass(s.tunn, o, t.tunnel()) && same_node(t, s)
}

/// Whether time passed for every node.
pub open spec fn all_aged(
    before: Map<Seq<char>, SessionView>,
    outs: Map<Seq<char>, OutcomeView>,
    after: Map<Seq<char>, SessionView>,
) -> bool {
    &&& after.dom() == before.dom()
    &&& forall|k: Seq<char>| #[trigger]
        before.contains_key(k) ==> aged(before[k], outs[k], after[k])
}

proof fn lemma_ticked_all_reads(
    peers: Map<Seq<char>, SessionView>,
    nodes: Seq<Seq<char>>,
    a: Map<Seq<char>, OutcomeView>,
    b: Map<Seq<char>, OutcomeView>,
)
    requires
        forall|i: int| 0 <= i < nodes.len() ==> a[#[trigger] nodes[i]] == b[nodes[i]],
    ensures
        ticked_all(peers, nodes, a) == ticked_all(peers, nodes, b),
    decreases nodes.len(),
{
    if nodes.len() > 0 {
        assert(a[nodes[nodes.len() - 1]] == b[nodes[nodes.len() - 1]]);
        lemma_ticked_all_reads(peers, nodes.drop_last(), a, b);
    }
}

/// The answer to a message for an address, and the fabric after it.
pub open spec fn is_send_answer(
    s: WireGuardView,
    dst: Ipv6Addr,
    msg: Seq<u8>,
    answer: Result<PlanView, FabricErrorView>,
    after: WireGuardView,
) -> bool {
    match hop_to(s.routing, dst) {
        HopView::Local => answer == Ok::<PlanView, FabricErrorView>(PlanView::Local(dst)) && after
            == s,
        HopView::Unknown => answer == Err::<PlanView, FabricErrorView>(
            FabricErrorView::NoRoute(dst),
        ) && after == s,
        HopView::Remote(node_id) => is_remote_answer(s, node_id, dst, msg, answer, after),
    }
}

/// The answer to a message for an address behind a node, and the fabric after
/// it: the message is refused; or there is a session, and what the node's tunnel
/// makes of the message's packet is to be sent; or there is none, the packet is
/// held back, and a handshake is to be started unless one is under way. With a
/// short packet there is no room for the start of one: the packet is held back
/// all the same, and the answer is an error.
pub open spec fn is_remote_answer(
    s: WireGuardView,
    node_id: Seq<char>,
    dst: Ipv6Addr,
    msg: Seq<u8>,
    answer: Result<PlanView, FabricErrorView>,
    after: WireGuardView,
) -> bool {
    match remote_packet(s, node_id, dst, msg) {
        Err(e) => answer == Err::<PlanView, FabricErrorView>(e) && after == s,
        Ok((endpoint, packet)) => {
            let t = s.peers[node_id].tunn;
            let cramped = is_cramped(tunnel_view(t), packet.len() + ENCAPSULATION_ROOM);
            &&& only_tunnel(s, node_id, after)
            &&& after.peers[node_id].tunnel() == (if cramped {
                holding(tunnel_view(t), packet)
            } else {
                given(tunnel_view(t), packet)
            })
            &&& if cramped {
                answer == Err::<PlanView, FabricErrorView>(
                    FabricErrorView::Transport(
                        "boringtun encapsulate error: "@ + "DestinationBufferTooSmall"@,
                    ),
                )
            } else if tunnel_up(t) {
                &&& answer == Ok::<PlanView, FabricErrorView>(
                    PlanView::Datagram { addr: endpoint, bytes: tunnel_sealed(t, packet) },
                )
                &&& is_data_of(tunnel_sealed(t, packet), packet.len())
            } else if tunnel_busy(t) {
                answer == Ok::<PlanView, FabricErrorView>(PlanView::HeldBack)
            } else {
                answer matches Ok(PlanView::Datagram { addr, bytes }) && addr == endpoint
                    && is_initiation(bytes)
            }
        },
    }
}

impl WireGuardFabric {
    /// The fabric of a node that listens at an address and has a secret key.
    pub fn bind(local_addr: SocketAddr, local_node_id: String, static_private: [u8; 32]) -> (r:
        Self)
        ensures
            r@ == (WireGuardView {
                local_node_id: local_node_id@,
                local_addr,
                static_private: static_private@,
                routing: no_routes(),
                peers: Map::empty(),
            }),
    {
        WireGuardFabric {
            local_node_id,
            local_addr,
            static_private,
            routing: Routing::new(),
            peers: sessions_new(),
        }
    }

    /// Where the node listens.
    pub fn local_addr(&self) -> (r: SocketAddr)
        ensures
            r == self@.local_addr,
    {
        self.local_addr
    }

    /// The node.
    pub fn local_node_id(&self) -> (r: &str)
        ensures
            r@ == self@.local_node_id,
    {
        self.local_node_id.as_str()
    }

    /// Registers a node, or replaces it; a tunnel to it is made anew.
    pub fn add_wireguard_peer(&mut self, peer: WireGuardPeerSpec)
        ensures
            final(self)@ == (WireGuardView {
                peers: old(self)@.peers.insert(peer.node_id@, final(self)@.peers[peer.node_id@]),
                ..old(self)@
            }),
            is_new_session(
                final(self)@.peers[peer.node_id@],
                peer.endpoint,
                peer.public_key@,
                old(self)@.static_private,
            ),
    {
        let b = random_bytes(4);
        let index: u32 = b[0] as u32 + 0x100 * b[1] as u32 + 0x1_0000 * b[2] as u32 + 0x100_0000
            * b[3] as u32;
        let s = Session::new(peer.endpoint, peer.public_key, &self.static_private, index);
        sessions_insert(&mut self.peers, peer.node_id, s);
    }

    /// Forgets a node and the tunnel to it.
    pub fn remove_wireguard_peer(&mut self, node_id: &str)
        ensures
            final(self)@ == (WireGuardView {
                peers: old(self)@.peers.remove(node_id@),
                ..old(self)@
            }),
    {
        let _gone = sessions_remove(&mut self.peers, node_id);
    }

    /// Takes a node's session out, to work with its tunnel.
    pub(crate) fn take_session(&mut self, node_id: &str) -> (r: Option<Session>)
        ensures
            final(self)@ == (WireGuardView {
                peers: old(self)@.peers.remove(node_id@),
                ..old(self)@
            }),
            match r {
                Some(s) => old(self)@.peers.contains_key(node_id@) && s@
                    == old(self)@.peers[node_id@],
                None => !old(self)@.peers.contains_key(node_id@),
            },
    {
        sessions_remove(&mut self.peers, node_id)
    }

    /// Puts a node's session back.
    pub(crate) fn put_session(&mut self, node_id: String, s: Session)
        ensures
            final(self)@ == (WireGuardView {
                peers: old(self)@.peers.insert(node_id@, s@),
                ..old(self)@
            }),
    {
        sessions_insert(&mut self.peers, node_id, s);
    }

    /// Where each node is, in no particular order.
    pub(crate) fn node_endpoints(&self) -> (r: Vec<(String, SocketAddr)>)
        ensures
            forall|i: int|
                0 <= i < r@.len() ==> self@.peers.contains_key((#[trigger] r@[i]).0@) && r@[i].1
                    == self@.peers[r@[i].0@].endpoint,
            forall|i: int, j: int|
                0 <= i < j < r@.len() ==> (#[trigger] r@[i]).0@ != (#[trigger] r@[j]).0@,
            forall|k: Seq<char>| #[trigger]
                self@.peers.contains_key(k) ==> exists|i: int|
                    0 <= i < r@.len() && (#[trigger] r@[i]).0@ == k,
    {
        sessions_walk(&self.peers)
    }

    /// Whether an endpoint is registered here under an address.
    pub(crate) fn is_local(&self, dst: Ipv6Addr) -> (r: bool)
        ensures
            r == self@.routing.endpoints.contains_key(dst.bits),
    {
        self.routing.is_local(dst)
    }

    /// Makes a message for an address behind a node a packet for its tunnel.
    pub fn prepare_remote(&mut self, node_id: &str, dst: Ipv6Addr, msg: &[u8]) -> (r: Result<
        (SocketAddr, Vec<u8>),
        FabricError,
    >)
        ensures
            final(self)@ == old(self)@,
            match r {
                Ok((endpoint, packet)) => remote_packet(old(self)@, node_id@, dst, msg@) == Ok::<
                    (SocketAddr, Seq<u8>),
                    FabricErrorView,
                >((endpoint, packet@)),
                Err(e) => remote_packet(old(self)@, node_id@, dst, msg@) == Err::<
                    (SocketAddr, Seq<u8>),
                    FabricErrorView,
                >(e@),
            },
    {
        let ghost before = self@;
        let n = msg.len();
        if n > MAX_APP_PAYLOAD {
            let mut s = cat3("payload ", decimal_text(n as u64).as_str(), " exceeds max ");
            s.append(decimal_text(MAX_APP_PAYLOAD as u64).as_str());
            return Err(FabricError::Encoding(s));
        }
        match self.take_session(node_id) {
            None => {
                assert(self@ =~= before) by {
                    assert(self@.peers =~= before.peers);
                }
                Err(FabricError::Transport(cat3("peer ", node_id, " not registered")))
            },
            Some(session) => {
                let endpoint = session.endpoint();
                self.put_session(node_id.to_owned(), session);
                assert(self@ =~= before) by {
                    assert(self@.peers =~= before.peers);
                }
                match build_ipv6_packet(Ipv6Addr::unspecified(), dst, msg) {
                    Ok(packet) => Ok((endpoint, packet)),
                    Err(e) => Err(e),
                }
            },
        }
    }

    /// Encrypts a message for an address behind a node.
    fn send_remote(&mut self, node_id: String, dst: Ipv6Addr, msg: &[u8]) -> (r: Result<
        SendPlan,
        FabricError,
    >)
        ensures
            is_remote_answer(old(self)@, node_id@, dst, msg@, plan_result(r), final(self)@),
    {
        let ghost before = self@;
        let (endpoint, packet) = match self.prepare_remote(node_id.as_str(), dst, msg) {
            Ok(p) => p,
            Err(e) => {
                return Err(e);
            },
        };
        match self.take_session(node_id.as_str()) {
            None => {
                assert(false);
                Ok(SendPlan::HeldBack)
            },
            Some(session) => {
                let ghost name = node_id@;
                let (session, outcome) = session.encapsulate(packet.as_slice());
                let ghost given_session = session@;
                self.put_session(node_id, session);
                assert(self@.peers =~= before.peers.insert(name, given_session));
                on_encapsulated(endpoint, outcome)
            },
        }
    }

    /// Starts a handshake with a node, unless one is under way; gives what is to
    /// be sent.
    pub fn kick_handshake(&mut self, node_id: &str) -> (r: Result<
        Option<(SocketAddr, Vec<u8>)>,
        FabricError,
    >)
        ensures
            match r {
                Ok(d) => {
                    &&& old(self)@.peers.contains_key(node_id@)
                    &&& is_kicked(old(self)@, node_id@, final(self)@)
                    &&& old(self)@.peers[node_id@].tunnel().busy ==> final(self)@ == old(self)@
                    &&& if old(self)@.peers[node_id@].tunnel().busy {
                        d is None
                    } else {
                        d matches Some(p) && p.0 == old(self)@.peers[node_id@].endpoint
                            && is_initiation(p.1@)
                    }
                },
                Err(e) => {
                    &&& !old(self)@.peers.contains_key(node_id@)
                    &&& final(self)@ == old(self)@
                    &&& e@ == FabricErrorView::Transport("peer "@ + node_id@ + " not registered"@)
                },
            },
    {
        let ghost before = self@;
        match self.take_session(node_id) {
            None => {
                assert(self@ =~= before) by {
                    assert(self@.peers =~= before.peers);
                }
                Err(FabricError::Transport(cat3("peer ", node_id, " not registered")))
            },
            Some(session) => {
                let endpoint = session.endpoint();
                let (session, outcome) = session.handshake();
                let ghost kicked_session = session@;
                self.put_session(node_id.to_owned(), session);
                assert(self@.peers =~= before.peers.insert(node_id@, kicked_session));
                assert(before.peers[node_id@].tunnel().busy ==> self@.peers =~= before.peers);
                on_handshake(endpoint, outcome)
            },
        }
    }

    /// Whether there is a session with a node.
    fn is_established(&mut self, node_id: &str) -> (r: bool)
        ensures
            final(self)@ == old(self)@,
            r == (old(self)@.peers.contains_key(node_id@)
                && old(self)@.peers[node_id@].tunnel().up),
    {
        let ghost before = self@;
        match self.take_session(node_id) {
            None => {
                assert(self@ =~= before) by {
                    assert(self@.peers =~= before.peers);
                }
                false
            },
            Some(session) => {
                let up = session.is_up();
                self.put_session(node_id.to_owned(), session);
                assert(self@ =~= before) by {
                    assert(self@.peers =~= before.peers);
                }
                up
            },
        }
    }

    /// Looks once more whether there is a session with a node, after having
    /// waited for as long as given, and starts a handshake where there is none.
    pub fn wait_until_handshake(
        &mut self,
        node_id: &str,
        waited: Duration,
        timeout: Duration,
    ) -> (r: WaitStep)
        requires
            timeout.nanos / 1_000_000_000 <= u64::MAX,
        ensures
            is_wait_step(old(self)@, node_id@, waited, timeout, r, final(self)@),
    {
        let ghost before = self@;
        let established = self.is_established(node_id);
        match on_wait(established, waited, timeout) {
            WaitDecision::Ready => WaitStep::Ready,
            WaitDecision::TimedOut => {
                let secs: u64 = (timeout.nanos / 1_000_000_000) as u64;
                let nanos: u32 = (timeout.nanos % 1_000_000_000) as u32;
                let mut s = cat3("handshake to ", node_id, " did not complete within ");
                s.append(debug_duration(secs, nanos).as_str());
                WaitStep::TimedOut(FabricError::Transport(s))
            },
            WaitDecision::Kick => match self.kick_handshake(node_id) {
                Ok(Some((addr, bytes))) => WaitStep::Send { addr, bytes },
                Ok(None) => WaitStep::Wait,
                Err(_) => WaitStep::Wait,
            },
        }
    }

    /// Lets time pass for every tunnel; gives what is to be sent.
    pub fn tick(&mut self) -> (r: Vec<(SocketAddr, Vec<u8>)>)
        ensures
            final(self)@ == (WireGuardView { peers: final(self)@.peers, ..old(self)@ }),
            exists|nodes: Seq<Seq<char>>, outs: Map<Seq<char>, OutcomeView>|
                {
                    &&& names_each(nodes, old(self)@.peers)
                    &&& all_aged(old(self)@.peers, outs, final(self)@.peers)
                    &&& datagrams(r@) == #[trigger] ticked_all(old(self)@.peers, nodes, outs)
                },
    {
        let ghost before = self@;
        let all = self.node_endpoints();
        let ghost nodes = Seq::new(all@.len(), |i: int| all@[i].0@);
        let ghost mut outs: Map<Seq<char>, OutcomeView> = Map::empty();
        let mut r: Vec<(SocketAddr, Vec<u8>)> = Vec::new();
        let mut i: usize = 0;
        proof {
            assert(nodes.take(0) =~= Seq::<Seq<char>>::empty());
            assert(datagrams(r@) =~= Seq::<(SocketAddr, Seq<u8>)>::empty());
            assert(names_each(nodes, before.peers)) by {
                assert forall|k: Seq<char>| #[trigger]
                    before.peers.contains_key(k) implies nodes.contains(k) by {
                    let j = choose|j: int| 0 <= j < all@.len() && (#[trigger] all@[j]).0@ == k;
                    assert(nodes[j] == k);
                }
                assert forall|x: int, y: int|
                    0 <= x < nodes.len() && 0 <= y < nodes.len() && x != y implies nodes[x]
                    != nodes[y] by {
                    if x < y {
                        assert(all@[x].0@ != all@[y].0@);
                    } else {
                        assert(all@[y].0@ != all@[x].0@);
                    }
                }
            }
        }
        while i < all.len()
            invariant
                i <= all@.len(),
                nodes == Seq::new(all@.len(), |i: int| all@[i].0@),
                names_each(nodes, before.peers),
                self@ == (WireGuardView { peers: self@.peers, ..before }),
                self@.peers.dom() == before.peers.dom(),
                forall|k: int|
                    0 <= k < i ==> aged(
                        before.peers[#[trigger] nodes[k]],
                        outs[nodes[k]],
                        self@.peers[nodes[k]],
                    ),
                forall|k: int|
                    i <= k < nodes.len() ==> self@.peers[#[trigger] nodes[k]]
                        == before.peers[nodes[k]],
                datagrams(r@) == ticked_all(before.peers, nodes.take(i as int), outs),
            decreases all@.len() - i,
        {
            let node_id = &all[i].0;
            let ghost name = node_id@;
            let ghost so_far = r@;
            let ghost prior = self@;
            let ghost prior_outs = outs;
            assert(name == nodes[i as int]);
            assert(before.peers.contains_key(nodes[i as int]));
            match self.take_session(node_id.as_str()) {
                None => {
                    assert(false);
                },
                Some(session) => {
                    let endpoint = session.endpoint();
                    let (session, outcome) = session.tick();
                    let ghost o = outcome@;
                    let ghost aged_session = session@;
                    self.put_session(node_id.clone(), session);
                    proof {
                        outs = outs.insert(name, o);
                        assert(self@.peers =~= prior.peers.insert(name, aged_session));
                        assert(self@.peers.dom() =~= before.peers.dom());
                        assert forall|k: int| 0 <= k < nodes.len() && k != i implies #[trigger]
                            nodes[k] != name by {};
                        let seen = nodes.take(i as int);
                        assert forall|k: int| 0 <= k < seen.len() implies prior_outs[#[trigger] seen[k]]
                            == outs[seen[k]] by {
                            assert(seen[k] == nodes[k]);
                        }
                        lemma_ticked_all_reads(before.peers, seen, prior_outs, outs);
                        assert(nodes.take(i + 1).drop_last() =~= seen);
                        assert(nodes.take(i + 1).last() == name);
                    }
                    if let Some(d) = on_tick(endpoint, outcome) {
                        r.push(d);
                        assert(datagrams(r@) =~= datagrams(so_far).push((d.0, d.1@)));
                    }
                },
            }
            i = i + 1;
        }
        proof {
            assert(nodes.take(nodes.len() as int) =~= nodes);
            assert(all_aged(before.peers, outs, self@.peers)) by {
                assert forall|k: Seq<char>| #[trigger] before.peers.contains_key(k) implies aged(
                    before.peers[k],
                    outs[k],
                    self@.peers[k],
                ) by {
                    let j = choose|j: int| 0 <= j < nodes.len() && nodes[j] == k;
                    assert(nodes[j] == k);
                }
            }
        }
        r
    }
}

impl MeshFabric for WireGuardFabric {
    fn send(&mut self, dst: Ipv6Addr, msg: &Vec<u8>) -> (r: Result<SendPlan, FabricError>)
        ensures
            is_send_answer(old(self)@, dst, msg@, plan_result(r), final(self)@),
    {
        match self.routing.hop(dst) {
            Hop::Local => Ok(SendPlan::Local(dst)),
            Hop::Unknown => Err(FabricError::NoRoute(dst)),
            Hop::Remote(node_id) => self.send_remote(node_id, dst, msg.as_slice()),
        }
    }

    fn register_local(&mut self, ula: Ipv6Addr, endpoint_id: String) -> (r: Result<
        (),
        FabricError,
    >)
        ensures
            r is Ok,
            final(self)@ == (WireGuardView {
                routing: RoutingView {
                    endpoints: old(self)@.routing.endpoints.insert(ula.bits, endpoint_id@),
                    ..old(self)@.routing
                },
                ..old(self)@
            }),
    {
        self.routing.register(ula, endpoint_id);
        Ok(())
    }

    fn unregister_local(&mut self, ula: Ipv6Addr) -> (r: Result<(), FabricError>)
        ensures
            r is Ok,
            final(self)@ == (WireGuardView {
                routing: RoutingView {
                    endpoints: old(self)@.routing.endpoints.remove(ula.bits),
                    ..old(self)@.routing
                },
                ..old(self)@
            }),
    {
        self.routing.unregister(ula);
        Ok(())
    }

    fn routing_snapshot(&self) -> (r: RoutingSnapshot)
        ensures
            is_walk(r.local_endpoints@, self@.routing.endpoints),
            is_walk(r.remote_routes@, self@.routing.remote_routes),
    {
        self.routing.snapshot()
    }
}

/// A tunnel takes a public key, which a `LoopbackPeerSpec` does not have, so a
/// node cannot be added here.
impl MeshFabricMutators for WireGuardFabric {
    fn add_peer(&mut self, peer: LoopbackPeerSpec)
        ensures
            final(self)@ == old(self)@,
    {
    }

    fn remove_peer(&mut self, node_id: &str)
        ensures
            final(self)@ == (WireGuardView {
                peers: old(self)@.peers.remove(node_id@),
                ..old(self)@
            }),
    {
        self.remove_wireguard_peer(node_id);
    }

    fn add_remote_route(&mut self, ula: Ipv6Addr, node_id: String)
        ensures
            final(self)@ == (WireGuardView {
                routing: RoutingView {
                    remote_routes: old(self)@.routing.remote_routes.insert(ula.bits, node_id@),
                    ..old(self)@.routing
                },
                ..old(self)@
            }),
    {
        self.routing.add_route(ula, node_id);
    }

    fn remove_remote_route(&mut self, ula: Ipv6Addr)
        ensures
            final(self)@ == (WireGuardView {
                routing: RoutingView {
                    remote_routes: old(self)@.routing.remote_routes.remove(ula.bits),
                    ..old(self)@.routing
                },
                ..old(self)@
            }),
    {
        self.routing.remove_route(ula);
    }
}

/// The shortest message whose packet leaves room for the start of a handshake.
pub const SHORTEST_OPENER: usize = 44;

/// A message that is not too long, for a node that is known, is not refused,
/// unless it is short and finds neither a session nor a handshake under way.
/// Where there is a session, what the node's tunnel makes of its packet goes to
/// the node; where there is none, refused or not, the packet is held back, behind what is held back already,
/// unless that is as much as a tunnel holds back.
pub proof fn law_messages_are_taken(
    s: WireGuardView,
    node_id: Seq<char>,
    dst: Ipv6Addr,
    msg: Seq<u8>,
    answer: Result<PlanView, FabricErrorView>,
    after: WireGuardView,
)
    requires
        is_remote_answer(s, node_id, dst, msg, answer, after),
        msg.len() <= MAX_APP_PAYLOAD,
        s.peers.contains_key(node_id),
    ensures
        answer is Err <==> !s.peers[node_id].tunnel().up && !s.peers[node_id].tunnel().busy
            && msg.len() < SHORTEST_OPENER,
        s.peers[node_id].tunnel().up ==> answer == Ok::<PlanView, FabricErrorView>(
            PlanView::Datagram {
                addr: s.peers[node_id].endpoint,
                bytes: tunnel_sealed(
                    s.peers[node_id].tunn,
                    packet_bytes(Ipv6Addr { bits: 0 }, dst, msg),
                ),
            },
        ),
        !s.peers[node_id].tunnel().up && s.peers[node_id].tunnel().queue.len() < QUEUE_DEPTH
            ==> after.peers[node_id].tunnel().queue == s.peers[node_id].tunnel().queue.push(
            packet_bytes(Ipv6Addr { bits: 0 }, dst, msg),
        ),
{
    lemma_packet_layout(Ipv6Addr { bits: 0 }, dst, msg);
}

/// Sending to one node leaves every other node's tunnel as it is.
pub proof fn law_tunnels_are_apart(
    s: WireGuardView,
    dst: Ipv6Addr,
    msg: Seq<u8>,
    answer: Result<PlanView, FabricErrorView>,
    after: WireGuardView,
    other: Seq<char>,
)
    requires
        is_send_answer(s, dst, msg, answer, after),
        s.peers.contains_key(other),
        hop_to(s.routing, dst) != HopView::Remote(other),
    ensures
        after.peers.contains_key(other),
        after.peers[other] == s.peers[other],
{
}

/// Whether every tunnel has this side's secret key and the key of its node.
pub open spec fn keyed(s: WireGuardView) -> bool {
    forall|k: Seq<char>| #[trigger]
        s.peers.contains_key(k) ==> s.peers[k].tunnel().secret == s.static_private
            && s.peers[k].tunnel().peer_key == s.peers[k].public_key
}

/// A tunnel to a node that is added has this side's secret key and the key of
/// the node, and those of the other tunnels are what they were.
pub proof fn law_adding_keeps_keys(
    s: WireGuardView,
    node_id: Seq<char>,
    endpoint: SocketAddr,
    public_key: Seq<u8>,
    added: SessionView,
)
    requires
        keyed(s),
        is_new_session(added, endpoint, public_key, s.static_private),
    ensures
        keyed(WireGuardView { peers: s.peers.insert(node_id, added), ..s }),
{
}

/// Sending leaves the keys of the tunnels as they are.
pub proof fn law_sending_keeps_keys(
    s: WireGuardView,
    dst: Ipv6Addr,
    msg: Seq<u8>,
    answer: Result<PlanView, FabricErrorView>,
    after: WireGuardView,
)
    requires
        keyed(s),
        is_send_answer(s, dst, msg, answer, after),
    ensures
        keyed(after),
{
}

/// The passing of time leaves the keys of the tunnels as they are.
pub proof fn law_time_keeps_keys(
    s: WireGuardView,
    outs: Map<Seq<char>, OutcomeView>,
    after: WireGuardView,
)
    requires
        keyed(s),
        all_aged(s.peers, outs, after.peers),
        after == (WireGuardView { peers: after.peers, ..s }),
    ensures
        keyed(after),
{
    assert forall|k: Seq<char>| #[trigger] after.peers.contains_key(k) implies after.peers[k].tunnel().secret
        == after.static_private && after.peers[k].tunnel().peer_key == after.peers[k].public_key by {
        assert(s.peers.contains_key(k));
    }
}

/// What is to be done with what a tunnel gave for a packet: bytes go to the
/// node, as they are and to where it listens; nothing means that the packet is
/// held back; all else is an error of the transport, with what was said.
pub proof fn law_what_tunnels_give_is_sent(endpoint: SocketAddr, bytes: Seq<u8>)
    ensures
        sent(endpoint, OutcomeView::ToNetwork(bytes)) == Ok::<PlanView, FabricErrorView>(
            PlanView::Datagram { addr: endpoint, bytes },
        ),
        sent(endpoint, OutcomeView::Done) == Ok::<PlanView, FabricErrorView>(PlanView::HeldBack),
        kicked(endpoint, OutcomeView::ToNetwork(bytes)) == Ok::<
            Option<(SocketAddr, Seq<u8>)>,
            FabricErrorView,
        >(Some((endpoint, bytes))),
        kicked(endpoint, OutcomeView::Done) == Ok::<
            Option<(SocketAddr, Seq<u8>)>,
            FabricErrorView,
        >(None),
        ticked(endpoint, OutcomeView::ToNetwork(bytes)) == Some((endpoint, bytes)),
        forall|o: OutcomeView|
            o !is ToNetwork && o !is Done ==> {
                &&& #[trigger] sent(endpoint, o) matches Err(FabricErrorView::Transport(t))
                &&& t.len() >= text_of_outcome(o).len()
                &&& t.skip(t.len() - text_of_outcome(o).len()) == text_of_outcome(o)
            },
        forall|o: OutcomeView|
            o !is ToNetwork && o !is Done ==> {
                &&& #[trigger] kicked(endpoint, o) matches Err(FabricErrorView::Transport(t))
                &&& t.len() >= text_of_outcome(o).len()
                &&& t.skip(t.len() - text_of_outcome(o).len()) == text_of_outcome(o)
            },
        forall|o: OutcomeView| o !is ToNetwork ==> #[trigger] ticked(endpoint, o) is None,
{
    assert forall|o: OutcomeView| o !is ToNetwork && o !is Done implies {
        &&& #[trigger] sent(endpoint, o) matches Err(FabricErrorView::Transport(t))
        &&& t.len() >= text_of_outcome(o).len()
        &&& t.skip(t.len() - text_of_outcome(o).len()) == text_of_outcome(o)
    } by {
        let x = text_of_outcome(o);
        let t = sent(endpoint, o)->Err_0->Transport_0;
        assert(t.skip(t.len() - x.len()) =~= x);
    }
    assert forall|o: OutcomeView| o !is ToNetwork && o !is Done implies {
        &&& #[trigger] kicked(endpoint, o) matches Err(FabricErrorView::Transport(t))
        &&& t.len() >= text_of_outcome(o).len()
        &&& t.skip(t.len() - text_of_outcome(o).len()) == text_of_outcome(o)
    } by {
        let x = text_of_outcome(o);
        let t = kicked(endpoint, o)->Err_0->Transport_0;
        assert(t.skip(t.len() - x.len()) =~= x);
    }
}

/// What a tunnel says where it gives no bytes for the other side.
pub open spec fn text_of_outcome(o: OutcomeView) -> Seq<char> {
    match o {
        OutcomeView::Failed(e) => e,
        OutcomeView::ToTunnelV4 { debug } => debug,
        OutcomeView::ToTunnelV6 { packet, debug } => debug,
        _ => Seq::empty(),
    }
}

/// What is waited for: a session ends the waiting at once, however long it took;
/// without one it ends once the time is up, and not before.
pub proof fn law_when_waiting_ends(established: bool, waited: Duration, timeout: Duration)
    ensures
        waiting_for(established, waited, timeout) == WaitDecision::Ready <==> established,
        waiting_for(established, waited, timeout) == WaitDecision::TimedOut <==> !established
            && timeout.nanos <= waited.nanos,
        waiting_for(established, waited, timeout) == WaitDecision::Kick <==> !established
            && waited.nanos < timeout.nanos,
{
}

/// A step of waiting for a node: it ends with a session, or with an error that
/// names the node once the time is up. Before that a handshake is started with a
/// node that is known and has none under way, and what starts it is sent to
/// where the node listens; nothing else of the fabric changes.
pub proof fn law_what_waiting_does(
    s: WireGuardView,
    node_id: Seq<char>,
    waited: Duration,
    timeout: Duration,
    step: WaitStep,
    after: WireGuardView,
    other: Seq<char>,
)
    requires
        is_wait_step(s, node_id, waited, timeout, step, after),
    ensures
        ({
            let known = s.peers.contains_key(node_id);
            let up = known && s.peers[node_id].tunnel().up;
            let late = waited.nanos >= timeout.nanos;
            &&& step is Ready <==> up
            &&& step is TimedOut <==> !up && late
            &&& step is Send <==> !up && !late && known && !s.peers[node_id].tunnel().busy
            &&& step is Wait <==> !up && !late && !(known && !s.peers[node_id].tunnel().busy)
            &&& step matches WaitStep::Send { addr, bytes } ==> addr == s.peers[node_id].endpoint
                && is_initiation(bytes@)
            &&& step is Send ==> after.peers[node_id].tunnel() == with_handshake(
                s.peers[node_id].tunnel(),
            )
            &&& step !is Send ==> after == s
            &&& after.routing == s.routing
            &&& after.static_private == s.static_private
            &&& after.local_addr == s.local_addr
            &&& after.local_node_id == s.local_node_id
            &&& other != node_id ==> (after.peers.contains_key(other) <==> s.peers.contains_key(
                other,
            )) && after.peers[other] == s.peers[other]
            &&& known ==> after.peers[node_id].endpoint == s.peers[node_id].endpoint
                && after.peers[node_id].public_key == s.peers[node_id].public_key
        }),
{
}

/// What is given to a tunnel for a message: a packet from nobody to the address
/// that holds the message. A message of more than 65471 bytes is refused as one
/// that cannot be encoded, and one for a node that is not known as one that
/// cannot be transported.
pub proof fn law_what_tunnels_are_given(
    s: WireGuardView,
    node_id: Seq<char>,
    dst: Ipv6Addr,
    msg: Seq<u8>,
)
    ensures
        match remote_packet(s, node_id, dst, msg) {
            Ok((addr, packet)) => {
                &&& msg.len() <= 65_471
                &&& s.peers.contains_key(node_id)
                &&& addr == s.peers[node_id].endpoint
                &&& packet_fault(packet) is None
                &&& packet_parts(packet).src.bits == 0
                &&& packet_parts(packet).dst == dst
                &&& packet_parts(packet).payload == msg
            },
            Err(e) => {
                &&& msg.len() > 65_471 || !s.peers.contains_key(node_id)
                &&& e is Encoding <==> msg.len() > 65_471
                &&& e is Transport <==> msg.len() <= 65_471
            },
        },
{
    if msg.len() <= 65_471 {
        law_packets_round_trip(Ipv6Addr { bits: 0 }, dst, msg);
    }
}

/// Where a message goes: to the endpoint here where there is one under its
/// address, which changes nothing; to the node that its address is behind
/// otherwise; and it is refused where nobody is known at the address.
pub proof fn law_where_messages_go(
    s: WireGuardView,
    dst: Ipv6Addr,
    msg: Seq<u8>,
    answer: Result<PlanView, FabricErrorView>,
    after: WireGuardView,
)
    requires
        is_send_answer(s, dst, msg, answer, after),
    ensures
        ({
            let here = s.routing.endpoints.contains_key(dst.bits);
            let routed = s.routing.remote_routes.contains_key(dst.bits);
            let node_id = s.routing.remote_routes[dst.bits];
            &&& here ==> answer == Ok::<PlanView, FabricErrorView>(PlanView::Local(dst)) && after == s
            &&& !here && !routed ==> answer == Err::<PlanView, FabricErrorView>(
                FabricErrorView::NoRoute(dst),
            ) && after == s
            &&& !here && routed ==> {
                &&& msg.len() > 65_471 || !s.peers.contains_key(node_id) ==> answer is Err && after
                    == s
                &&& answer matches Ok(PlanView::Datagram { addr, bytes }) ==> addr
                    == s.peers[node_id].endpoint
                &&& answer !== Ok::<PlanView, FabricErrorView>(PlanView::Local(dst))
            }
            &&& after.routing == s.routing
            &&& after.static_private == s.static_private
            &&& after.peers.dom() == s.peers.dom()
        }),
{
    assert(after.peers.dom() =~= s.peers.dom());
}

/// What the passing of time makes it necessary to send is what the tunnels gave
/// for the network, each to where its node listens, and nothing else.
pub proof fn law_time_sends_what_is_due(
    peers: Map<Seq<char>, SessionView>,
    nodes: Seq<Seq<char>>,
    outs: Map<Seq<char>, OutcomeView>,
    d: (SocketAddr, Seq<u8>),
)
    ensures
        ticked_all(peers, nodes, outs).contains(d) <==> exists|i: int|
            {
                &&& 0 <= i < nodes.len()
                &&& outs[#[trigger] nodes[i]] == OutcomeView::ToNetwork(d.1)
                &&& peers[nodes[i]].endpoint == d.0
            },
        ticked_all(peers, nodes, outs).len() <= nodes.len(),
    decreases nodes.len(),
{
    let all = ticked_all(peers, nodes, outs);
    if nodes.len() > 0 {
        let front = nodes.drop_last();
        let n = front.len() as int;
        let before = ticked_all(peers, front, outs);
        law_time_sends_what_is_due(peers, front, outs, d);
        if before.contains(d) {
            let m = choose|m: int| 0 <= m < before.len() && before[m] == d;
            assert(all[m] == d);
            let i = choose|i: int|
                {
                    &&& 0 <= i < front.len()
                    &&& outs[#[trigger] front[i]] == OutcomeView::ToNetwork(d.1)
                    &&& peers[front[i]].endpoint == d.0
                };
            assert(nodes[i] == front[i]);
        } else if all.contains(d) {
            let m = choose|m: int| 0 <= m < all.len() && all[m] == d;
            if m < before.len() {
                assert(before[m] == d);
            }
            assert(nodes[n] == nodes.last());
            assert(outs[nodes[n]] == OutcomeView::ToNetwork(d.1));
        }
        if exists|i: int|
            {
                &&& 0 <= i < nodes.len()
                &&& outs[#[trigger] nodes[i]] == OutcomeView::ToNetwork(d.1)
                &&& peers[nodes[i]].endpoint == d.0
            } {
            let i = choose|i: int|
                {
                    &&& 0 <= i < nodes.len()
                    &&& outs[#[trigger] nodes[i]] == OutcomeView::ToNetwork(d.1)
                    &&& peers[nodes[i]].endpoint == d.0
                };
            if i < n {
                assert(front[i] == nodes[i]);
            } else {
                assert(all.last() == d);
            }
        }
    }
}

/// A node that is added is where it said that it listens, with its key, this
/// side's secret and a sign of life every 25 seconds, without a session and with
/// nothing held back.
pub proof fn law_what_new_sessions_are(
    s: SessionView,
    endpoint: SocketAddr,
    public_key: Seq<u8>,
    private: Seq<u8>,
)
    requires
        is_new_session(s, endpoint, public_key, private),
    ensures
        s.endpoint == endpoint,
        s.public_key == public_key,
        s.tunnel().secret == private,
        s.tunnel().peer_key == public_key,
        s.tunnel().keepalive == 25,
        s.tunnel().queue.len() == 0,
        !s.tunnel().up,
        !s.tunnel().busy,
{
}

/// Time passes for every node that is known, and for nobody else: each tunnel
/// does what is due, and where the node listens and its key stay.
pub proof fn law_time_passes_for_everybody(
    before: Map<Seq<char>, SessionView>,
    outs: Map<Seq<char>, OutcomeView>,
    after: Map<Seq<char>, SessionView>,
    nodes: Seq<Seq<char>>,
    k: Seq<char>,
)
    requires
        all_aged(before, outs, after),
        names_each(nodes, before),
    ensures
        after.contains_key(k) <==> before.contains_key(k),
        before.contains_key(k) ==> {
            &&& lets_time_pass(before[k].tunn, outs[k], after[k].tunnel())
            &&& after[k].endpoint == before[k].endpoint
            &&& after[k].public_key == before[k].public_key
        },
        before.contains_key(k) <==> exists|i: int| 0 <= i < nodes.len() && #[trigger] nodes[i] == k,
        forall|i: int, j: int|
            0 <= i < nodes.len() && 0 <= j < nodes.len() && #[trigger] nodes[i]
                == #[trigger] nodes[j] ==> i == j,
{
    assert(after.dom().contains(k) == before.dom().contains(k));
    if before.contains_key(k) {
        assert(nodes.contains(k));
    }
}

/// What is said of a handshake that took too long names the node and the time.
pub proof fn law_what_is_said_of_late_handshakes(node_id: Seq<char>, timeout: Duration)
    ensures
        handshake_timeout(node_id, timeout) == FabricErrorView::Transport(
            "handshake to "@ + node_id + " did not complete within "@ + duration_text(
                (timeout.nanos as int / 1_000_000_000) as u64,
                (timeout.nanos as int - (timeout.nanos as int / 1_000_000_000) * 1_000_000_000)
                    as u32,
            ),
        ),
{
}

} // verus!
