//! Who is where: the endpoints registered here, and the nodes that other
//! addresses are behind.

use crate::bindings::routes::{
    name_contents, names_get, names_insert, names_new, names_remove, names_walk,
};
use crate::net::addr::Ipv6Addr;
use dashmap::DashMap;
use vstd::prelude::*;

verus! {

/// Who is known where, for people.
#[derive(Debug, Clone, Default)]
pub struct RoutingSnapshot {
    /// The endpoints registered here.
    pub local_endpoints: Vec<(Ipv6Addr, String)>,
    /// The addresses that are behind other nodes.
    pub remote_routes: Vec<(Ipv6Addr, String)>,
}

/// Whether a list names each address of a map once, with its name.
pub open spec fn is_walk(v: Seq<(Ipv6Addr, String)>, m: Map<u128, Seq<char>>) -> bool {
    &&& forall|i: int|
        0 <= i < v.len() ==> m.contains_key((#[trigger] v[i]).0.bits) && v[i].1@ == m[v[i].0.bits]
    &&& forall|i: int, j: int|
        0 <= i < j < v.len() ==> (#[trigger] v[i]).0.bits != (#[trigger] v[j]).0.bits
    &&& forall|k: u128| #[trigger]
        m.contains_key(k) ==> exists|i: int| 0 <= i < v.len() && (#[trigger] v[i]).0.bits == k
}

/// Who is where.
pub struct Routing {
    endpoints: DashMap<u128, String>,
    remote_routes: DashMap<u128, String>,
}

/// What a `Routing` holds: names by the bits of the address.
#[verifier::ext_equal]
pub struct RoutingView {
    pub endpoints: Map<u128, Seq<char>>,
    pub remote_routes: Map<u128, Seq<char>>,
}

impl View for Routing {
    type V = RoutingView;

    closed spec fn view(&self) -> RoutingView {
        RoutingView {
            endpoints: name_contents(self.endpoints),
            remote_routes: name_contents(self.remote_routes),
        }
    }
}

/// Nobody anywhere.
pub open spec fn no_routes() -> RoutingView {
    RoutingView { endpoints: Map::empty(), remote_routes: Map::empty() }
}

/// Where an address is.
#[derive(Debug)]
pub enum Hop {
    /// Registered here.
    Local,
    /// Behind a node.
    Remote(String),
    /// Unknown.
    Unknown,
}

/// What a `Hop` holds.
#[verifier::ext_equal]
pub enum HopView {
    Local,
    Remote(Seq<char>),
    Unknown,
}

impl View for Hop {
    type V = HopView;

    open spec fn view(&self) -> HopView {
        match self {
            Hop::Local => HopView::Local,
            Hop::Remote(n) => HopView::Remote(n@),
            Hop::Unknown => HopView::Unknown,
        }
    }
}

/// Where an address is: here before anywhere else.
pub open spec fn hop_to(s: RoutingView, dst: Ipv6Addr) -> HopView {
    if s.endpoints.contains_key(dst.bits) {
        HopView::Local
    } else if s.remote_routes.contains_key(dst.bits) {
        HopView::Remote(s.remote_routes[dst.bits])
    } else {
        HopView::Unknown
    }
}

fn with_addresses(v: Vec<(u128, String)>, Ghost(m): Ghost<Map<u128, Seq<char>>>) -> (r: Vec<
    (Ipv6Addr, String),
>)
    requires
        forall|i: int|
            0 <= i < v@.len() ==> m.contains_key((#[trigger] v@[i]).0) && v@[i].1@ == m[v@[i].0],
        forall|i: int, j: int|
            0 <= i < j < v@.len() ==> (#[trigger] v@[i]).0 != (#[trigger] v@[j]).0,
        forall|k: u128| #[trigger]
            m.contains_key(k) ==> exists|i: int| 0 <= i < v@.len() && (#[trigger] v@[i]).0 == k,
    ensures
        is_walk(r@, m),
{
    let mut r: Vec<(Ipv6Addr, String)> = Vec::new();
    let mut i: usize = 0;
    while i < v.len()
        invariant
            i <= v@.len(),
            r@.len() == i,
            forall|k: int|
                0 <= k < i ==> (#[trigger] r@[k]).0.bits == v@[k].0 && r@[k].1@ == v@[k].1@,
        decreases v@.len() - i,
    {
        r.push((Ipv6Addr { bits: v[i].0 }, v[i].1.clone()));
        i = i + 1;
    }
    proof {
        assert forall|i: int| 0 <= i < r@.len() implies m.contains_key((#[trigger] r@[i]).0.bits)
            && r@[i].1@ == m[r@[i].0.bits] by {
            assert(m.contains_key(v@[i].0));
        }
        assert forall|i: int, j: int| 0 <= i < j < r@.len() implies (#[trigger] r@[i]).0.bits != (
        #[trigger] r@[j]).0.bits by {
            assert(v@[i].0 != v@[j].0);
        }
        assert forall|k: u128| #[trigger] m.contains_key(k) implies exists|i: int|
            0 <= i < r@.len() && (#[trigger] r@[i]).0.bits == k by {
            let i = choose|i: int| 0 <= i < v@.len() && (#[trigger] v@[i]).0 == k;
            assert(r@[i].0.bits == k);
        }
    }
    r
}

impl Routing {
    /// Nobody anywhere.
    pub fn new() -> (r: Self)
        ensures
            r@ == no_routes(),
    {
        Routing { endpoints: names_new(), remote_routes: names_new() }
    }

    /// Where an address is.
    pub fn hop(&self, dst: Ipv6Addr) -> (r: Hop)
        ensures
            r@ == hop_to(self@, dst),
    {
        if names_get(&self.endpoints, dst.bits).is_some() {
            return Hop::Local;
        }
        match names_get(&self.remote_routes, dst.bits) {
            Some(n) => Hop::Remote(n),
            None => Hop::Unknown,
        }
    }

    /// Whether an endpoint is registered here under an address.
    pub fn is_local(&self, dst: Ipv6Addr) -> (r: bool)
        ensures
            r == self@.endpoints.contains_key(dst.bits),
    {
        names_get(&self.endpoints, dst.bits).is_some()
    }

    /// Registers an endpoint.
    pub fn register(&mut self, ula: Ipv6Addr, endpoint_id: String)
        ensures
            final(self)@ == (RoutingView {
                endpoints: old(self)@.endpoints.insert(ula.bits, endpoint_id@),
                ..old(self)@
            }),
    {
        names_insert(&mut self.endpoints, ula.bits, endpoint_id);
    }

    /// Takes a registration back.
    pub fn unregister(&mut self, ula: Ipv6Addr)
        ensures
            final(self)@ == (RoutingView {
                endpoints: old(self)@.endpoints.remove(ula.bits),
                ..old(self)@
            }),
    {
        names_remove(&mut self.endpoints, ula.bits);
    }

    /// Puts an address behind a node.
    pub fn add_route(&mut self, ula: Ipv6Addr, node_id: String)
        ensures
            final(self)@ == (RoutingView {
                remote_routes: old(self)@.remote_routes.insert(ula.bits, node_id@),
                ..old(self)@
            }),
    {
        names_insert(&mut self.remote_routes, ula.bits, node_id);
    }

    /// Forgets which node an address is behind.
    pub fn remove_route(&mut self, ula: Ipv6Addr)
        ensures
            final(self)@ == (RoutingView {
                remote_routes: old(self)@.remote_routes.remove(ula.bits),
                ..old(self)@
            }),
    {
        names_remove(&mut self.remote_routes, ula.bits);
    }

    /// Who is known where; in no particular order.
    pub fn snapshot(&self) -> (r: RoutingSnapshot)
        ensures
            is_walk(r.local_endpoints@, self@.endpoints),
            is_walk(r.remote_routes@, self@.remote_routes),
    {
        RoutingSnapshot {
            local_endpoints: with_addresses(names_walk(&self.endpoints), Ghost(self@.endpoints)),
            remote_routes: with_addresses(
                names_walk(&self.remote_routes),
                Ghost(self@.remote_routes),
            ),
        }
    }
}

/// An endpoint that is registered here is reached here, wherever else the
/// address may be; once it is taken back, only a route is left.
pub proof fn law_local_endpoints_come_first(s: RoutingView, ula: Ipv6Addr, endpoint: Seq<char>)
    ensures
        hop_to(
            RoutingView { endpoints: s.endpoints.insert(ula.bits, endpoint), ..s },
            ula,
        ) == HopView::Local,
        hop_to(RoutingView { endpoints: s.endpoints.remove(ula.bits), ..s }, ula) is Local
            == false,
{
}

/// Registering or routing one address leaves all others where they are.
pub proof fn law_addresses_are_routed_apart(
    s: RoutingView,
    ula: Ipv6Addr,
    other: Ipv6Addr,
    name: Seq<char>,
)
    requires
        ula != other,
    ensures
        hop_to(RoutingView { endpoints: s.endpoints.insert(ula.bits, name), ..s }, other)
            == hop_to(s, other),
        hop_to(RoutingView { remote_routes: s.remote_routes.insert(ula.bits, name), ..s }, other)
            == hop_to(s, other),
{
}

/// Where an address is: here exactly if an endpoint is registered under it;
/// behind a node exactly if that is not so and a route names the node; unknown
/// otherwise.
pub proof fn law_where_addresses_are(s: RoutingView, dst: Ipv6Addr, node_id: Seq<char>)
    ensures
        hop_to(s, dst) == HopView::Local <==> s.endpoints.contains_key(dst.bits),
        hop_to(s, dst) == HopView::Remote(node_id) <==> !s.endpoints.contains_key(dst.bits)
            && s.remote_routes.contains_key(dst.bits) && s.remote_routes[dst.bits] == node_id,
        hop_to(s, dst) == HopView::Unknown <==> !s.endpoints.contains_key(dst.bits)
            && !s.remote_routes.contains_key(dst.bits),
{
}

/// What is shown of who is where is each address once, with its name, and
/// nobody else.
pub proof fn law_snapshots_show_everybody(
    v: Seq<(Ipv6Addr, String)>,
    m: Map<u128, Seq<char>>,
    a: Ipv6Addr,
    i: int,
    j: int,
)
    requires
        is_walk(v, m),
    ensures
        m.contains_key(a.bits) <==> exists|k: int|
            0 <= k < v.len() && (#[trigger] v[k]).0 == a && v[k].1@ == m[a.bits],
        0 <= i < v.len() && 0 <= j < v.len() && v[i].0 == v[j].0 ==> i == j,
{
    if m.contains_key(a.bits) {
        let k = choose|k: int| 0 <= k < v.len() && (#[trigger] v[k]).0.bits == a.bits;
        assert(v[k].0 == a);
    }
}

} // verus!
