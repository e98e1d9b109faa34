//! A fabric within one process: every endpoint is registered here.

use crate::fabric::error::{
    plan_result, FabricError, FabricErrorView, MeshFabric, MeshFabricMutators, PlanView, SendPlan,
};
use crate::fabric::loopback::LoopbackPeerSpec;
use crate::fabric::routing::{is_walk, no_routes, Routing, RoutingSnapshot, RoutingView};
use crate::net::addr::Ipv6Addr;
use vstd::prelude::*;

verus! {

/// A fabric within one process.
pub struct InProcessFabric {
    routing: Routing,
}

impl View for InProcessFabric {
    type V = RoutingView;

    closed spec fn view(&self) -> RoutingView {
        self.routing@
    }
}

impl InProcessFabric {
    /// A fabric with no endpoint.
    pub fn new() -> (r: Self)
        ensures
            r@ == no_routes(),
    {
        InProcessFabric { routing: Routing::new() }
    }
}

impl Default for InProcessFabric {
    fn default() -> (r: Self)
        ensures
            r@ == no_routes(),
    {
        InProcessFabric::new()
    }
}

/// What is to be done with a message for an address: hand it to the endpoint
/// that is registered under it; anywhere else there is nobody.
pub open spec fn local_plan(s: RoutingView, dst: Ipv6Addr) -> Result<PlanView, FabricErrorView> {
    if s.endpoints.contains_key(dst.bits) {
        Ok(PlanView::Local(dst))
    } else {
        Err(FabricErrorView::NoRoute(dst))
    }
}

impl MeshFabric for InProcessFabric {
    fn send(&mut self, dst: Ipv6Addr, msg: &Vec<u8>) -> (r: Result<SendPlan, FabricError>)
        ensures
            final(self)@ == old(self)@,
            plan_result(r) == local_plan(old(self)@, dst),
    {
        if self.routing.is_local(dst) {
            Ok(SendPlan::Local(dst))
        } else {
            Err(FabricError::NoRoute(dst))
        }
    }

    fn register_local(&mut self, ula: Ipv6Addr, endpoint_id: String) -> (r: Result<
        (),
        FabricError,
    >)
        ensures
            r is Ok,
            final(self)@ == (RoutingView {
                endpoints: old(self)@.endpoints.insert(ula.bits, endpoint_id@),
                ..old(self)@
            }),
    {
        self.routing.register(ula, endpoint_id);
        Ok(())
    }

    fn unregister_local(&mut self, ula: Ipv6Addr) -> (r: Result<(), FabricError>)
        ensures
            r is Ok,
            final(self)@ == (RoutingView {
                endpoints: old(self)@.endpoints.remove(ula.bits),
                ..old(self)@
            }),
    {
        self.routing.unregister(ula);
        Ok(())
    }

    fn routing_snapshot(&self) -> (r: RoutingSnapshot)
        ensures
            is_walk(r.local_endpoints@, self@.endpoints),
            r.remote_routes@.len() == 0,
    {
        let s = self.routing.snapshot();
        RoutingSnapshot { local_endpoints: s.local_endpoints, remote_routes: Vec::new() }
    }
}

/// There are no other nodes, so there is nothing to learn of them.
impl MeshFabricMutators for InProcessFabric {
    fn add_peer(&mut self, peer: LoopbackPeerSpec)
        ensures
            final(self)@ == old(self)@,
    {
    }

    fn remove_peer(&mut self, node_id: &str)
        ensures
            final(self)@ == old(self)@,
    {
    }

    fn add_remote_route(&mut self, ula: Ipv6Addr, node_id: String)
        ensures
            final(self)@ == old(self)@,
    {
    }

    fn remove_remote_route(&mut self, ula: Ipv6Addr)
        ensures
            final(self)@ == old(self)@,
    {
    }
}

/// A message is handed to an endpoint exactly if one is registered under its
/// address, until the registration is taken back.
pub proof fn law_messages_reach_registered_endpoints(
    s: RoutingView,
    ula: Ipv6Addr,
    endpoint: Seq<char>,
    other: Ipv6Addr,
)
    ensures
        local_plan(RoutingView { endpoints: s.endpoints.insert(ula.bits, endpoint), ..s }, ula)
            == Ok::<PlanView, FabricErrorView>(PlanView::Local(ula)),
        local_plan(RoutingView { endpoints: s.endpoints.remove(ula.bits), ..s }, ula) == Err::<
            PlanView,
            FabricErrorView,
        >(FabricErrorView::NoRoute(ula)),
        other != ula ==> local_plan(
            RoutingView { endpoints: s.endpoints.insert(ula.bits, endpoint), ..s },
            other,
        ) == local_plan(s, other) && local_plan(
            RoutingView { endpoints: s.endpoints.remove(ula.bits), ..s },
            other,
        ) == local_plan(s, other),
{
}

} // verus!
