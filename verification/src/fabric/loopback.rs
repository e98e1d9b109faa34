//! A fabric between processes of one host, over TCP.
//!
//! A message travels as a frame: the length of what follows in 8 bytes, least
//! significant first; the address it is for and the one it is from, 16 bytes
//! each; and the message.

use crate::bindings::routes::{node_contents, nodes_get, nodes_insert, nodes_new, nodes_remove};
use crate::fabric::error::{
    plan_result, FabricError, FabricErrorView, MeshFabric, MeshFabricMutators, PlanView, SendPlan,
};
use crate::fabric::routing::{
    hop_to, is_walk, no_routes, Hop, HopView, Routing, RoutingSnapshot, RoutingView,
};
use crate::net::addr::Ipv6Addr;
use crate::net::socket::{socket_text, SocketAddr};
use crate::numeral::{decimal, decimal_text};
use crate::radix::{
    be_bytes, be_value, exp, law_bytes_are_most_significant_first, lemma_be_bytes_of_value,
    lemma_be_value_of_bytes, lemma_exp_256, read_be, write_be,
};
use crate::text::{cat, cat3, copy_bytes};
use dashmap::DashMap;
use vstd::prelude::*;
use vstd::slice::slice_subrange;

verus! {

/// The most that may follow the length of a frame.
pub const MAX_FRAME_BODY: usize = 4_194_304;

/// The length of the two addresses.
pub const HEADER_LEN: usize = 32;

/// Another node of the host.
#[derive(Debug, Clone)]
pub struct LoopbackPeerSpec {
    /// The node.
    pub node_id: String,
    /// Where it listens.
    pub addr: SocketAddr,
}

/// Bytes in the opposite order.
pub open spec fn reversed(s: Seq<u8>) -> Seq<u8> {
    Seq::new(s.len(), |i: int| s[s.len() - 1 - i])
}

/// A number in 8 bytes, least significant first.
pub open spec fn length_bytes(n: int) -> Seq<u8> {
    reversed(be_bytes(n, 8))
}

/// The number that 8 bytes stand for, least significant first.
pub open spec fn length_value(s: Seq<u8>) -> int {
    be_value(reversed(s))
}

/// What follows the length of a frame.
pub open spec fn body_bytes(dst: Ipv6Addr, src: Ipv6Addr, payload: Seq<u8>) -> Seq<u8> {
    be_bytes(dst.bits as int, 16) + be_bytes(src.bits as int, 16) + payload
}

/// A frame.
pub open spec fn frame_bytes(dst: Ipv6Addr, src: Ipv6Addr, payload: Seq<u8>) -> Seq<u8> {
    length_bytes((HEADER_LEN + payload.len()) as int) + body_bytes(dst, src, payload)
}

fn reverse_bytes(s: &[u8]) -> (r: Vec<u8>)
    ensures
        r@ == reversed(s@),
{
    let mut r: Vec<u8> = Vec::new();
    let n = s.len();
    let mut i: usize = 0;
    while i < n
        invariant
            i <= n,
            n == s@.len(),
            r@.len() == i,
            forall|k: int| 0 <= k < i ==> r@[k] == s@[n - 1 - k],
        decreases n - i,
    {
        r.push(s[n - 1 - i]);
        i = i + 1;
    }
    assert(r@ =~= reversed(s@));
    r
}

/// Why a message cannot be framed.
pub open spec fn frame_refusal(len: nat) -> Option<FabricErrorView> {
    if HEADER_LEN + len > usize::MAX {
        Some(FabricErrorView::Encoding("payload too large: "@ + decimal(len as int)))
    } else if HEADER_LEN + len > MAX_FRAME_BODY {
        Some(
            FabricErrorView::Encoding(
                "frame body "@ + decimal((HEADER_LEN + len) as int) + " exceeds max "@ + decimal(
                    MAX_FRAME_BODY as int,
                ),
            ),
        )
    } else {
        None
    }
}

/// Frames a message.
pub fn encode_frame(dst: Ipv6Addr, src: Ipv6Addr, payload: &[u8]) -> (r: Result<
    Vec<u8>,
    FabricError,
>)
    ensures
        match r {
            Ok(b) => frame_refusal(payload@.len()) is None && b@ == frame_bytes(dst, src, payload@),
            Err(e) => frame_refusal(payload@.len()) == Some(e@),
        },
{
    let n = payload.len();
    if n > usize::MAX - HEADER_LEN {
        return Err(
            FabricError::Encoding(cat("payload too large: ", decimal_text(n as u64).as_str())),
        );
    }
    let body_len: usize = HEADER_LEN + n;
    if body_len > MAX_FRAME_BODY {
        let mut s = cat3("frame body ", decimal_text(body_len as u64).as_str(), " exceeds max ");
        s.append(decimal_text(MAX_FRAME_BODY as u64).as_str());
        return Err(FabricError::Encoding(s));
    }
    let mut out = reverse_bytes(write_be(body_len as u128, 8).as_slice());
    out.extend_from_slice(dst.octets().as_slice());
    out.extend_from_slice(src.octets().as_slice());
    out.extend_from_slice(payload);
    assert(out@ =~= frame_bytes(dst, src, payload@));
    Ok(out)
}

/// Why a length cannot be that of a frame: too large to count to, less than the
/// two addresses, or too large to accept.
pub open spec fn length_fault(v: int) -> Option<Seq<char>> {
    if v > usize::MAX {
        Some("body_len overflows usize: out of range integral type conversion attempted"@)
    } else if v < HEADER_LEN {
        Some("body_len "@ + decimal(v) + " < header "@ + decimal(HEADER_LEN as int))
    } else if v > MAX_FRAME_BODY {
        Some("body_len "@ + decimal(v) + " > max "@ + decimal(MAX_FRAME_BODY as int))
    } else {
        None
    }
}

/// Reads the length of what follows in a frame.
pub fn read_length(bytes: &[u8]) -> (r: Result<usize, String>)
    requires
        bytes@.len() == 8,
    ensures
        match r {
            Ok(n) => length_fault(length_value(bytes@)) is None && n == length_value(bytes@),
            Err(e) => length_fault(length_value(bytes@)) == Some(e@),
        },
{
    let be = reverse_bytes(bytes);
    proof {
        lemma_be_bytes_of_value(be@);
        lemma_exp_256();
    }
    let v: u128 = read_be(be.as_slice());
    if v > usize::MAX as u128 {
        return Err(
            "body_len overflows usize: out of range integral type conversion attempted".to_owned(),
        );
    }
    let n: usize = v as usize;
    if n < HEADER_LEN {
        let mut s = cat3("body_len ", decimal_text(n as u64).as_str(), " < header ");
        s.append(decimal_text(HEADER_LEN as u64).as_str());
        return Err(s);
    }
    if n > MAX_FRAME_BODY {
        let mut s = cat3("body_len ", decimal_text(n as u64).as_str(), " > max ");
        s.append(decimal_text(MAX_FRAME_BODY as u64).as_str());
        return Err(s);
    }
    Ok(n)
}

/// A message and its two addresses.
#[derive(Debug)]
pub struct Frame {
    pub dst: Ipv6Addr,
    pub src: Ipv6Addr,
    pub payload: Vec<u8>,
}

/// What a `Frame` holds.
#[verifier::ext_equal]
pub struct FrameView {
    pub dst: Ipv6Addr,
    pub src: Ipv6Addr,
    pub payload: Seq<u8>,
}

impl View for Frame {
    type V = FrameView;

    open spec fn view(&self) -> FrameView {
        FrameView { dst: self.dst, src: self.src, payload: self.payload@ }
    }
}

/// What follows the length of a frame, taken apart.
pub open spec fn body_parts(body: Seq<u8>) -> FrameView {
    FrameView {
        dst: Ipv6Addr { bits: be_value(body.subrange(0, 16)) as u128 },
        src: Ipv6Addr { bits: be_value(body.subrange(16, 32)) as u128 },
        payload: body.subrange(32, body.len() as int),
    }
}

/// Takes apart what follows the length of a frame.
pub fn read_body(body: &[u8]) -> (r: Frame)
    requires
        body@.len() >= HEADER_LEN,
    ensures
        r@ == body_parts(body@),
{
    let n = body.len();
    let dst = Ipv6Addr::from_octets(slice_subrange(body, 0, 16));
    let src = Ipv6Addr::from_octets(slice_subrange(body, 16, 32));
    let payload = copy_bytes(slice_subrange(body, 32, n));
    Frame { dst, src, payload }
}

/// What came of reading bytes from a connection.
#[derive(Debug)]
pub enum StreamRead {
    /// As many as were asked for.
    Bytes(Vec<u8>),
    /// The connection ended before that.
    Ended,
    /// It failed, in words.
    Failed(String),
}

/// What a `StreamRead` holds.
#[verifier::ext_equal]
pub enum StreamView {
    Bytes(Seq<u8>),
    Ended,
    Failed(Seq<char>),
}

impl View for StreamRead {
    type V = StreamView;

    open spec fn view(&self) -> StreamView {
        match self {
            StreamRead::Bytes(b) => StreamView::Bytes(b@),
            StreamRead::Ended => StreamView::Ended,
            StreamRead::Failed(e) => StreamView::Failed(e@),
        }
    }
}

/// What to do after a part of a frame was read.
#[derive(Debug)]
pub enum FrameStep {
    /// Read this many bytes: what follows the length.
    ReadBody(usize),
    /// A whole frame was read.
    Frame(Frame),
    /// The other side is gone; no frame was begun.
    Closed,
    /// The frame is bad or broke off, in words.
    Failed(String),
}

/// What a `FrameStep` holds.
#[verifier::ext_equal]
pub enum StepView {
    ReadBody(nat),
    Frame(FrameView),
    Closed,
    Failed(Seq<char>),
}

impl View for FrameStep {
    type V = StepView;

    open spec fn view(&self) -> StepView {
        match self {
            FrameStep::ReadBody(n) => StepView::ReadBody(*n as nat),
            FrameStep::Frame(f) => StepView::Frame(f@),
            FrameStep::Closed => StepView::Closed,
            FrameStep::Failed(e) => StepView::Failed(e@),
        }
    }
}

/// What follows the reading of a length. A connection that ends there ended
/// between two frames.
pub open spec fn after_length(read: StreamView) -> StepView {
    match read {
        StreamView::Ended => StepView::Closed,
        StreamView::Failed(e) => StepView::Failed(e),
        StreamView::Bytes(b) => match length_fault(length_value(b)) {
            Some(e) => StepView::Failed(e),
            None => StepView::ReadBody(length_value(b) as nat),
        },
    }
}

/// What follows the reading of a body. A connection that ends there broke off.
pub open spec fn after_body(read: StreamView) -> StepView {
    match read {
        StreamView::Ended => StepView::Failed("early eof"@),
        StreamView::Failed(e) => StepView::Failed(e),
        StreamView::Bytes(b) => StepView::Frame(body_parts(b)),
    }
}

/// Decides what follows the reading of the 8 bytes of a length.
pub fn on_length(read: StreamRead) -> (r: FrameStep)
    requires
        read matches StreamRead::Bytes(b) ==> b@.len() == 8,
    ensures
        r@ == after_length(read@),
{
    match read {
        StreamRead::Ended => FrameStep::Closed,
        StreamRead::Failed(e) => FrameStep::Failed(e),
        StreamRead::Bytes(b) => match read_length(b.as_slice()) {
            Ok(n) => FrameStep::ReadBody(n),
            Err(e) => FrameStep::Failed(e),
        },
    }
}

/// Decides what follows the reading of a body.
pub fn on_body(read: StreamRead) -> (r: FrameStep)
    requires
        read matches StreamRead::Bytes(b) ==> b@.len() >= HEADER_LEN,
    ensures
        r@ == after_body(read@),
{
    match read {
        StreamRead::Ended => FrameStep::Failed("early eof".to_owned()),
        StreamRead::Failed(e) => FrameStep::Failed(e),
        StreamRead::Bytes(b) => FrameStep::Frame(read_body(b.as_slice())),
    }
}

/// What to do with a connection.
#[derive(Debug)]
pub enum Inbound {
    /// Hand the message to the endpoint registered here, and read on.
    Deliver { dst: Ipv6Addr, payload: Vec<u8> },
    /// Read on.
    Continue,
    /// Close it.
    Close,
}

/// What an `Inbound` holds.
#[verifier::ext_equal]
pub enum InboundView {
    Deliver { dst: Ipv6Addr, payload: Seq<u8> },
    Continue,
    Close,
}

impl View for Inbound {
    type V = InboundView;

    open spec fn view(&self) -> InboundView {
        match self {
            Inbound::Deliver { dst, payload } => InboundView::Deliver {
                dst: *dst,
                payload: payload@,
            },
            Inbound::Continue => InboundView::Continue,
            Inbound::Close => InboundView::Close,
        }
    }
}

/// What to do with a connection after a step: a message for an address that is
/// not registered here is dropped, and a connection that ended or went wrong is
/// closed.
pub open spec fn inbound(s: RoutingView, step: StepView) -> InboundView {
    match step {
        StepView::ReadBody(_) => InboundView::Continue,
        StepView::Frame(f) => if s.endpoints.contains_key(f.dst.bits) {
            InboundView::Deliver { dst: f.dst, payload: f.payload }
        } else {
            InboundView::Continue
        },
        StepView::Closed => InboundView::Close,
        StepView::Failed(_) => InboundView::Close,
    }
}

/// Where the writing of a frame has got to.
#[derive(Debug, Clone, Copy, PartialEq, Eq, Structural)]
pub enum WriteStage {
    /// Get a connection, a kept one or a new one.
    Connect,
    /// Write the frame.
    Write,
    /// Drop the connection, and get another one.
    Reconnect,
    /// Write the frame once more.
    Rewrite,
}

/// What follows.
#[derive(Debug)]
pub enum WriteNext {
    /// This is to be done next.
    Stage(WriteStage),
    /// The frame is written.
    Written,
    /// It cannot be written.
    Failed(FabricError),
}

/// What a `WriteNext` holds.
#[verifier::ext_equal]
pub enum WriteNextView {
    Stage(WriteStage),
    Written,
    Failed(FabricErrorView),
}

impl View for WriteNext {
    type V = WriteNextView;

    open spec fn view(&self) -> WriteNextView {
        match self {
            WriteNext::Stage(s) => WriteNextView::Stage(*s),
            WriteNext::Written => WriteNextView::Written,
            WriteNext::Failed(e) => WriteNextView::Failed(e@),
        }
    }
}

/// What follows a stage, with the failure in words where it failed: a frame is
/// written over a fresh connection once more where writing it failed, and then
/// given up; where no connection can be had it is given up at once.
pub open spec fn next_stage(
    stage: WriteStage,
    failure: Option<Seq<char>>,
    node_id: Seq<char>,
    addr: SocketAddr,
) -> WriteNextView {
    match (stage, failure) {
        (WriteStage::Connect, None) => WriteNextView::Stage(WriteStage::Write),
        (WriteStage::Write, None) => WriteNextView::Written,
        (WriteStage::Reconnect, None) => WriteNextView::Stage(WriteStage::Rewrite),
        (WriteStage::Rewrite, None) => WriteNextView::Written,
        (WriteStage::Write, Some(_)) => WriteNextView::Stage(WriteStage::Reconnect),
        (WriteStage::Rewrite, Some(e)) => WriteNextView::Failed(
            FabricErrorView::Transport("peer write: "@ + e),
        ),
        (_, Some(e)) => WriteNextView::Failed(
            FabricErrorView::Transport(
                "connect "@ + node_id + " ("@ + socket_text(addr) + "): "@ + e,
            ),
        ),
    }
}

impl WriteStage {
    /// Decides what follows this stage.
    pub fn next(&self, failure: Option<String>, node_id: &str, addr: SocketAddr) -> (r: WriteNext)
        ensures
            r@ == next_stage(*self, crate::text::opt_text(failure), node_id@, addr),
    {
        match failure {
            None => match self {
                WriteStage::Connect => WriteNext::Stage(WriteStage::Write),
                WriteStage::Write => WriteNext::Written,
                WriteStage::Reconnect => WriteNext::Stage(WriteStage::Rewrite),
                WriteStage::Rewrite => WriteNext::Written,
            },
            Some(e) => match self {
                WriteStage::Write => WriteNext::Stage(WriteStage::Reconnect),
                WriteStage::Rewrite => WriteNext::Failed(
                    FabricError::Transport(cat("peer write: ", e.as_str())),
                ),
                _ => {
                    let mut s = cat3("connect ", node_id, " (");
                    s.append(addr.to_text().as_str());
                    s.append("): ");
                    s.append(e.as_str());
                    WriteNext::Failed(FabricError::Transport(s))
                },
            },
        }
    }
}

/// A fabric between processes of one host.
pub struct LoopbackFabric {
    local_node_id: String,
    local_addr: SocketAddr,
    routing: Routing,
    peers: DashMap<String, SocketAddr>,
}

/// What a `LoopbackFabric` holds.
#[verifier::ext_equal]
pub struct LoopbackView {
    pub local_node_id: Seq<char>,
    pub local_addr: SocketAddr,
    pub routing: RoutingView,
    pub peers: Map<Seq<char>, SocketAddr>,
}

impl View for LoopbackFabric {
    type V = LoopbackView;

    closed spec fn view(&self) -> LoopbackView {
        LoopbackView {
            local_node_id: self.local_node_id@,
            local_addr: self.local_addr,
            routing: self.routing@,
            peers: node_contents(self.peers),
        }
    }
}

/// What is to be done with a message: hand it to an endpoint here, or write it
/// framed, with no sender named, to the node that its address is behind.
pub open spec fn loopback_plan(s: LoopbackView, dst: Ipv6Addr, msg: Seq<u8>) -> Result<
    PlanView,
    FabricErrorView,
> {
    match hop_to(s.routing, dst) {
        HopView::Local => Ok(PlanView::Local(dst)),
        HopView::Unknown => Err(FabricErrorView::NoRoute(dst)),
        HopView::Remote(node_id) => if !s.peers.contains_key(node_id) {
            Err(
                FabricErrorView::Transport("peer "@ + node_id + " has no registered address"@),
            )
        } else {
            match frame_refusal(msg.len()) {
                Some(e) => Err(e),
                None => Ok(
                    PlanView::Stream {
                        node_id,
                        addr: s.peers[node_id],
                        bytes: frame_bytes(dst, Ipv6Addr { bits: 0 }, msg),
                    },
                ),
            }
        },
    }
}

impl LoopbackFabric {
    /// The fabric of a node that listens at an address.
    pub fn bind(local_addr: SocketAddr, local_node_id: String) -> (r: Self)
        ensures
            r@ == (LoopbackView {
                local_node_id: local_node_id@,
                local_addr,
                routing: no_routes(),
                peers: Map::empty(),
            }),
    {
        LoopbackFabric { local_node_id, local_addr, routing: Routing::new(), peers: nodes_new() }
    }

    /// Where the node listens.
    pub fn local_addr(&self) -> (r: SocketAddr)
        ensures
            r == self@.local_addr,
    {
        self.local_addr
    }

    /// The node.
    pub fn local_node_id(&self) -> (r: &str)
        ensures
            r@ == self@.local_node_id,
    {
        self.local_node_id.as_str()
    }

    /// Writes a message for an address behind a node.
    fn send_remote(&self, node_id: String, dst: Ipv6Addr, msg: &[u8]) -> (r: Result<
        SendPlan,
        FabricError,
    >)
        ensures
            plan_result(r) == (if !self@.peers.contains_key(node_id@) {
                Err::<PlanView, FabricErrorView>(
                    FabricErrorView::Transport(
                        "peer "@ + node_id@ + " has no registered address"@,
                    ),
                )
            } else {
                match frame_refusal(msg@.len()) {
                    Some(e) => Err::<PlanView, FabricErrorView>(e),
                    None => Ok::<PlanView, FabricErrorView>(
                        PlanView::Stream {
                            node_id: node_id@,
                            addr: self@.peers[node_id@],
                            bytes: frame_bytes(dst, Ipv6Addr { bits: 0 }, msg@),
                        },
                    ),
                }
            }),
    {
        let addr = match nodes_get(&self.peers, node_id.as_str()) {
            Some(a) => a,
            None => {
                return Err(
                    FabricError::Transport(
                        cat3("peer ", node_id.as_str(), " has no registered address"),
                    ),
                );
            },
        };
        match encode_frame(dst, Ipv6Addr::unspecified(), msg) {
            Ok(bytes) => Ok(SendPlan::Stream { node_id, addr, bytes }),
            Err(e) => Err(e),
        }
    }

    /// Decides what to do with a connection after a step.
    pub fn handle_connection(&self, step: FrameStep) -> (r: Inbound)
        ensures
            r@ == inbound(self@.routing, step@),
    {
        match step {
            FrameStep::ReadBody(_) => Inbound::Continue,
            FrameStep::Frame(f) => if self.routing.is_local(f.dst) {
                Inbound::Deliver { dst: f.dst, payload: f.payload }
            } else {
                Inbound::Continue
            },
            FrameStep::Closed => Inbound::Close,
            FrameStep::Failed(_) => Inbound::Close,
        }
    }
}

impl MeshFabric for LoopbackFabric {
    fn send(&mut self, dst: Ipv6Addr, msg: &Vec<u8>) -> (r: Result<SendPlan, FabricError>)
        ensures
            final(self)@ == old(self)@,
            plan_result(r) == loopback_plan(old(self)@, dst, msg@),
    {
        match self.routing.hop(dst) {
            Hop::Local => Ok(SendPlan::Local(dst)),
            Hop::Unknown => Err(FabricError::NoRoute(dst)),
            Hop::Remote(node_id) => self.send_remote(node_id, dst, msg.as_slice()),
        }
    }

    fn register_local(&mut self, ula: Ipv6Addr, endpoint_id: String) -> (r: Result<
        (),
        FabricError,
    >)
        ensures
            r is Ok,
            final(self)@ == (LoopbackView {
                routing: RoutingView {
                    endpoints: old(self)@.routing.endpoints.insert(ula.bits, endpoint_id@),
                    ..old(self)@.routing
                },
                ..old(self)@
            }),
    {
        self.routing.register(ula, endpoint_id);
        Ok(())
    }

    fn unregister_local(&mut self, ula: Ipv6Addr) -> (r: Result<(), FabricError>)
        ensures
            r is Ok,
            final(self)@ == (LoopbackView {
                routing: RoutingView {
                    endpoints: old(self)@.routing.endpoints.remove(ula.bits),
                    ..old(self)@.routing
                },
                ..old(self)@
            }),
    {
        self.routing.unregister(ula);
        Ok(())
    }

    fn routing_snapshot(&self) -> (r: RoutingSnapshot)
        ensures
            is_walk(r.local_endpoints@, self@.routing.endpoints),
            is_walk(r.remote_routes@, self@.routing.remote_routes),
    {
        self.routing.snapshot()
    }
}

/// A kept connection to a peer is to be dropped when the peer is added or
/// removed, as it may have moved.
impl MeshFabricMutators for LoopbackFabric {
    fn add_peer(&mut self, peer: LoopbackPeerSpec)
        ensures
            final(self)@ == (LoopbackView {
                peers: old(self)@.peers.insert(peer.node_id@, peer.addr),
                ..old(self)@
            }),
    {
        nodes_insert(&mut self.peers, peer.node_id, peer.addr);
    }

    fn remove_peer(&mut self, node_id: &str)
        ensures
            final(self)@ == (LoopbackView {
                peers: old(self)@.peers.remove(node_id@),
                ..old(self)@
            }),
    {
        nodes_remove(&mut self.peers, node_id);
    }

    fn add_remote_route(&mut self, ula: Ipv6Addr, node_id: String)
        ensures
            final(self)@ == (LoopbackView {
                routing: RoutingView {
                    remote_routes: old(self)@.routing.remote_routes.insert(ula.bits, node_id@),
                    ..old(self)@.routing
                },
                ..old(self)@
            }),
    {
        self.routing.add_route(ula, node_id);
    }

    fn remove_remote_route(&mut self, ula: Ipv6Addr)
        ensures
            final(self)@ == (LoopbackView {
                routing: RoutingView {
                    remote_routes: old(self)@.routing.remote_routes.remove(ula.bits),
                    ..old(self)@.routing
                },
                ..old(self)@
            }),
    {
        self.routing.remove_route(ula);
    }
}

/// What was framed comes out as it went in: the length names what follows, is
/// accepted, and what follows holds the addresses and the message.
pub proof fn law_frames_round_trip(dst: Ipv6Addr, src: Ipv6Addr, payload: Seq<u8>)
    requires
        frame_refusal(payload.len()) is None,
    ensures
        ({
            let f = frame_bytes(dst, src, payload);
            let length = f.subrange(0, 8);
            let body = f.subrange(8, f.len() as int);
            &&& after_length(StreamView::Bytes(length)) == StepView::ReadBody(body.len())
            &&& after_body(StreamView::Bytes(body)) == StepView::Frame(
                FrameView { dst, src, payload },
            )
        }),
{
    let n = (HEADER_LEN + payload.len()) as int;
    let f = frame_bytes(dst, src, payload);
    let body = body_bytes(dst, src, payload);
    lemma_exp_256();
    assert(f.subrange(0, 8) =~= length_bytes(n));
    assert(f.subrange(8, f.len() as int) =~= body);
    assert(reversed(length_bytes(n)) =~= be_bytes(n, 8));
    lemma_be_value_of_bytes(n, 8);
    assert(body.subrange(0, 16) =~= be_bytes(dst.bits as int, 16));
    assert(body.subrange(16, 32) =~= be_bytes(src.bits as int, 16));
    assert(body.subrange(32, body.len() as int) =~= payload);
    lemma_be_value_of_bytes(dst.bits as int, 16);
    lemma_be_value_of_bytes(src.bits as int, 16);
}

/// A frame is written at most twice.
pub proof fn law_writing_ends(
    first: Option<Seq<char>>,
    second: Option<Seq<char>>,
    node_id: Seq<char>,
    addr: SocketAddr,
)
    ensures
        next_stage(WriteStage::Rewrite, second, node_id, addr) !is Stage,
        next_stage(WriteStage::Reconnect, first, node_id, addr) != WriteNextView::Stage(
            WriteStage::Write,
        ),
        next_stage(WriteStage::Write, first, node_id, addr) is Failed == false,
{
}

/// What a frame looks like: the length of what follows in eight bytes, the least
/// significant first; where it goes and where it is from, upper bytes first; and
/// the message.
pub proof fn law_what_frames_look_like(
    dst: Ipv6Addr,
    src: Ipv6Addr,
    payload: Seq<u8>,
    i: int,
    j: int,
)
    requires
        0 <= i < 8,
        0 <= j < 16,
    ensures
        ({
            let f = frame_bytes(dst, src, payload);
            let n = 32 + payload.len() as int;
            &&& f.len() == 8 + n
            &&& f[i] == (n / exp(256, i as nat)) % 256
            &&& f[8 + j] == (dst.bits as int / exp(256, (15 - j) as nat)) % 256
            &&& f[24 + j] == (src.bits as int / exp(256, (15 - j) as nat)) % 256
            &&& f.skip(40) == payload
        }),
{
    let f = frame_bytes(dst, src, payload);
    let n = 32 + payload.len() as int;
    law_bytes_are_most_significant_first(n, 8, 7 - i);
    law_bytes_are_most_significant_first(dst.bits as int, 16, j);
    law_bytes_are_most_significant_first(src.bits as int, 16, j);
    assert(f[i] == length_bytes(n)[i]);
    assert(f[8 + j] == be_bytes(dst.bits as int, 16)[j]);
    assert(f[24 + j] == be_bytes(src.bits as int, 16)[j]);
    assert(f.skip(40) =~= payload);
}

/// What may be framed and what is accepted as a frame is the same: a body of at
/// least the two addresses and at most four megabytes.
pub proof fn law_which_lengths_are_accepted(v: int)
    requires
        v >= 0,
    ensures
        length_fault(v) is None <==> 32 <= v <= 4_194_304,
        frame_refusal(v as nat) is None <==> v + 32 <= 4_194_304,
        frame_refusal(v as nat) matches Some(e) ==> e is Encoding,
{
}

/// A connection that ends before a frame ends well; one that ends or fails
/// within a frame, or names a length that is not accepted, has failed. Any other
/// length is that of what is to be read next.
pub proof fn law_what_follows_reading(
    n: int,
    text: Seq<char>,
    dst: Ipv6Addr,
    src: Ipv6Addr,
    payload: Seq<u8>,
)
    requires
        0 <= n < 0x1_0000_0000_0000_0000,
    ensures
        after_length(StreamView::Ended) == StepView::Closed,
        after_length(StreamView::Failed(text)) == StepView::Failed(text),
        32 <= n <= 4_194_304 ==> after_length(StreamView::Bytes(length_bytes(n)))
            == StepView::ReadBody(n as nat),
        !(32 <= n <= 4_194_304) ==> after_length(StreamView::Bytes(length_bytes(n))) is Failed,
        after_body(StreamView::Ended) is Failed,
        after_body(StreamView::Failed(text)) == StepView::Failed(text),
        after_body(StreamView::Bytes(body_bytes(dst, src, payload))) == StepView::Frame(
            FrameView { dst, src, payload },
        ),
{
    lemma_exp_256();
    assert(reversed(length_bytes(n)) =~= be_bytes(n, 8));
    lemma_be_value_of_bytes(n, 8);
    let body = body_bytes(dst, src, payload);
    assert(body.subrange(0, 16) =~= be_bytes(dst.bits as int, 16));
    assert(body.subrange(16, 32) =~= be_bytes(src.bits as int, 16));
    assert(body.subrange(32, body.len() as int) =~= payload);
    lemma_be_value_of_bytes(dst.bits as int, 16);
    lemma_be_value_of_bytes(src.bits as int, 16);
}

/// What becomes of a connection: a frame for an endpoint that is registered here
/// is delivered, with its address and its message; after any other frame, and
/// after a length, it is read on; where it ended or failed it is closed.
pub proof fn law_what_becomes_of_connections(s: RoutingView, f: FrameView, n: nat, text: Seq<char>)
    ensures
        s.endpoints.contains_key(f.dst.bits) ==> inbound(s, StepView::Frame(f))
            == (InboundView::Deliver { dst: f.dst, payload: f.payload }),
        !s.endpoints.contains_key(f.dst.bits) ==> inbound(s, StepView::Frame(f))
            == InboundView::Continue,
        inbound(s, StepView::ReadBody(n)) == InboundView::Continue,
        inbound(s, StepView::Closed) == InboundView::Close,
        inbound(s, StepView::Failed(text)) == InboundView::Close,
{
}

/// Where writing a frame has got to after the given stages went as given, each
/// `None` where it went well.
pub open spec fn written_after(
    went: Seq<Option<Seq<char>>>,
    node_id: Seq<char>,
    addr: SocketAddr,
) -> WriteNextView
    decreases went.len(),
{
    if went.len() == 0 {
        WriteNextView::Stage(WriteStage::Connect)
    } else {
        match written_after(went.drop_last(), node_id, addr) {
            WriteNextView::Stage(stage) => next_stage(stage, went.last(), node_id, addr),
            end => end,
        }
    }
}

/// A frame is written exactly if there is a connection, and writing it went well
/// on that one or, after it did not, on another one. Where that cannot be had,
/// or the first cannot, it is told who could not be connected to; where writing
/// failed twice, that, each with the last failure.
pub proof fn law_when_frames_are_written(
    c: Option<Seq<char>>,
    w: Option<Seq<char>>,
    c2: Option<Seq<char>>,
    w2: Option<Seq<char>>,
    node_id: Seq<char>,
    addr: SocketAddr,
)
    ensures
        ({
            let end = written_after(seq![c, w, c2, w2], node_id, addr);
            &&& end is Written <==> c is None && (w is None || (c2 is None && w2 is None))
            &&& end !is Written ==> {
                &&& end matches WriteNextView::Failed(FabricErrorView::Transport(text))
                &&& c is Some ==> text == "connect "@ + node_id + " ("@ + socket_text(addr) + "): "@
                    + c->0
                &&& c is None && c2 is Some ==> text == "connect "@ + node_id + " ("@ + socket_text(
                    addr,
                ) + "): "@ + c2->0
                &&& c is None && c2 is None ==> text == "peer write: "@ + w2->0
            }
        }),
        written_after(seq![c], node_id, addr) is Stage <==> c is None,
        written_after(seq![c, w], node_id, addr) is Written <==> c is None && w is None,
{
    reveal_with_fuel(written_after, 5);
    let all = seq![c, w, c2, w2];
    assert(all.drop_last() =~= seq![c, w, c2]);
    assert(seq![c, w, c2].drop_last() =~= seq![c, w]);
    assert(seq![c, w].drop_last() =~= seq![c]);
    assert(seq![c].drop_last() =~= Seq::<Option<Seq<char>>>::empty());
}

/// Where a message goes: to the endpoint here where there is one under its
/// address; otherwise, framed and with no sender named, to the socket address of
/// the node that its address is behind. It is refused where nobody is known at
/// the address, where nothing is known of the node, and where it is too long.
pub proof fn law_where_messages_go(s: LoopbackView, dst: Ipv6Addr, msg: Seq<u8>)
    ensures
        ({
            let plan = loopback_plan(s, dst, msg);
            let here = s.routing.endpoints.contains_key(dst.bits);
            let routed = s.routing.remote_routes.contains_key(dst.bits);
            let node_id = s.routing.remote_routes[dst.bits];
            &&& here ==> plan == Ok::<PlanView, FabricErrorView>(PlanView::Local(dst))
            &&& !here && !routed ==> plan == Err::<PlanView, FabricErrorView>(
                FabricErrorView::NoRoute(dst),
            )
            &&& !here && routed && !s.peers.contains_key(node_id) ==> {
                &&& plan matches Err(e)
                &&& e is Transport
            }
            &&& !here && routed && s.peers.contains_key(node_id) && 32 + msg.len() > 4_194_304 ==> {
                &&& plan matches Err(e)
                &&& e is Encoding
            }
            &&& !here && routed && s.peers.contains_key(node_id) && 32 + msg.len() <= 4_194_304 ==> {
                &&& plan matches Ok(PlanView::Stream { node_id: to, addr, bytes })
                &&& to == node_id
                &&& addr == s.peers[node_id]
                &&& after_length(StreamView::Bytes(bytes.take(8))) == StepView::ReadBody(
                    (bytes.len() - 8) as nat,
                )
                &&& after_body(StreamView::Bytes(bytes.skip(8))) == StepView::Frame(
                    FrameView { dst, src: Ipv6Addr { bits: 0 }, payload: msg },
                )
            }
        }),
{
    let none = Ipv6Addr { bits: 0 };
    if frame_refusal(msg.len()) is None {
        law_frames_round_trip(dst, none, msg);
        let f = frame_bytes(dst, none, msg);
        assert(f.take(8) =~= f.subrange(0, 8));
        assert(f.skip(8) =~= f.subrange(8, f.len() as int));
    }
}

} // verus!
