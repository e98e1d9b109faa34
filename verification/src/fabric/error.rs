//! What can go wrong in a fabric, and what fabrics have in common.

use crate::fabric::loopback::LoopbackPeerSpec;
use crate::fabric::routing::RoutingSnapshot;
use crate::net::addr::{ipv6_text, Ipv6Addr};
use crate::net::socket::SocketAddr;
use crate::text::cat;
use vstd::prelude::*;

verus! {

/// What can go wrong in a fabric.
#[derive(Debug)]
pub enum FabricError {
    /// Nobody is known at the address.
    NoRoute(Ipv6Addr),
    /// The transport failed.
    Transport(String),
    /// The message cannot be framed, or a frame not be read.
    Encoding(String),
}

/// What a `FabricError` holds.
#[verifier::ext_equal]
pub enum FabricErrorView {
    NoRoute(Ipv6Addr),
    Transport(Seq<char>),
    Encoding(Seq<char>),
}

impl View for FabricError {
    type V = FabricErrorView;

    open spec fn view(&self) -> FabricErrorView {
        match self {
            FabricError::NoRoute(a) => FabricErrorView::NoRoute(*a),
            FabricError::Transport(s) => FabricErrorView::Transport(s@),
            FabricError::Encoding(s) => FabricErrorView::Encoding(s@),
        }
    }
}

/// An error in words.
pub open spec fn error_text(e: FabricErrorView) -> Seq<char> {
    match e {
        FabricErrorView::NoRoute(a) => "no route to "@ + ipv6_text(a),
        FabricErrorView::Transport(s) => "transport: "@ + s,
        FabricErrorView::Encoding(s) => "encoding: "@ + s,
    }
}

impl FabricError {
    /// The error in words.
    pub fn to_text(&self) -> (r: String)
        ensures
            r@ == error_text(self@),
    {
        match self {
            FabricError::NoRoute(a) => cat("no route to ", a.to_text().as_str()),
            FabricError::Transport(s) => cat("transport: ", s.as_str()),
            FabricError::Encoding(s) => cat("encoding: ", s.as_str()),
        }
    }
}

/// What is to be done with a message.
#[derive(Debug)]
pub enum SendPlan {
    /// Hand it to the endpoint that is registered here under the address.
    Local(Ipv6Addr),
    /// Write these bytes to the node at this socket address.
    Stream { node_id: String, addr: SocketAddr, bytes: Vec<u8> },
    /// Send these bytes to this socket address.
    Datagram { addr: SocketAddr, bytes: Vec<u8> },
    /// Nothing now: it is held back until there is a session.
    HeldBack,
}

/// What a `SendPlan` holds.
#[verifier::ext_equal]
pub enum PlanView {
    Local(Ipv6Addr),
    Stream { node_id: Seq<char>, addr: SocketAddr, bytes: Seq<u8> },
    Datagram { addr: SocketAddr, bytes: Seq<u8> },
    HeldBack,
}

impl View for SendPlan {
    type V = PlanView;

    open spec fn view(&self) -> PlanView {
        match self {
            SendPlan::Local(a) => PlanView::Local(*a),
            SendPlan::Stream { node_id, addr, bytes } => PlanView::Stream {
                node_id: node_id@,
                addr: *addr,
                bytes: bytes@,
            },
            SendPlan::Datagram { addr, bytes } => PlanView::Datagram { addr: *addr, bytes: bytes@ },
            SendPlan::HeldBack => PlanView::HeldBack,
        }
    }
}

/// What a plan or a refusal holds.
pub open spec fn plan_result(r: Result<SendPlan, FabricError>) -> Result<
    PlanView,
    FabricErrorView,
> {
    match r {
        Ok(p) => Ok(p@),
        Err(e) => Err(e@),
    }
}

/// Carries messages to addresses.
pub trait MeshFabric {
    /// Decides what is to be done with a message for an address.
    fn send(&mut self, dst: Ipv6Addr, msg: &Vec<u8>) -> Result<SendPlan, FabricError>;

    /// Registers an endpoint here under an address.
    fn register_local(&mut self, ula: Ipv6Addr, endpoint_id: String) -> Result<(), FabricError>;

    /// Takes the registration of an address back.
    fn unregister_local(&mut self, ula: Ipv6Addr) -> Result<(), FabricError>;

    /// Who is known where.
    fn routing_snapshot(&self) -> RoutingSnapshot;
}

/// Learns from outside where addresses are.
pub trait MeshFabricMutators {
    /// Registers a peer, or replaces it.
    fn add_peer(&mut self, peer: LoopbackPeerSpec);

    /// Forgets a peer.
    fn remove_peer(&mut self, node_id: &str);

    /// Sends messages for an address to a peer from now on.
    fn add_remote_route(&mut self, ula: Ipv6Addr, node_id: String);

    /// Forgets where an address is.
    fn remove_remote_route(&mut self, ula: Ipv6Addr);
}

/// What errors say: what went wrong, then what it is about, as it was given.
pub proof fn law_what_errors_say(a: Ipv6Addr, s: Seq<char>)
    ensures
        error_text(FabricErrorView::NoRoute(a)) == "no route to "@ + ipv6_text(a),
        error_text(FabricErrorView::Transport(s)) == "transport: "@ + s,
        error_text(FabricErrorView::Encoding(s)) == "encoding: "@ + s,
{
}

} // verus!
