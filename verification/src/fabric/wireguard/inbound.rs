//! Receiving encrypted datagrams.

use crate::bindings::tunnel::{
    is_data, is_data_of, is_spent, is_whole_v6, resumed, takes_datagram, tunnel_opened,
    tunnel_peer_key, tunnel_queue, tunnel_sealed, tunnel_secret, tunnel_up, tunnel_view,
    OutcomeView, TunnelOutcome, TunnelView, MAX_PACKET, QUEUE_DEPTH,
};
use crate::fabric::error::{FabricErrorView, PlanView};
use crate::fabric::packet::{
    law_packets_round_trip, lemma_packet_layout, packet_bytes, packet_fault, packet_parts,
    parse_ipv6_packet,
};
use crate::fabric::routing::RoutingView;
use crate::fabric::wireguard::session::{takes_in, Session, SessionView};
use crate::fabric::wireguard::transport::{
    is_remote_answer, keyed, WireGuardFabric, WireGuardView, MAX_APP_PAYLOAD,
};
use crate::net::addr::Ipv6Addr;
use crate::net::socket::SocketAddr;
use crate::radix::{
    be_value, byte_digits, lemma_be_value_of_bytes, lemma_exp_256, undigits,
};
use boringtun::noise::Tunn;
use vstd::prelude::*;

verus! {

/// The longest datagram that is read: a jumbo frame.
pub const MAX_UDP_FRAME: usize = 9_001;

/// What is to be done with what a tunnel gave.
#[derive(Debug)]
pub enum WireAction {
    /// Send these bytes to the other side.
    Send { addr: SocketAddr, bytes: Vec<u8> },
    /// Hand the message to the endpoint registered here.
    Deliver { dst: Ipv6Addr, payload: Vec<u8> },
}

/// What a `WireAction` holds.
#[verifier::ext_equal]
pub enum ActionView {
    Send { addr: SocketAddr, bytes: Seq<u8> },
    Deliver { dst: Ipv6Addr, payload: Seq<u8> },
}

impl View for WireAction {
    type V = ActionView;

    open spec fn view(&self) -> ActionView {
        match self {
            WireAction::Send { addr, bytes } => ActionView::Send { addr: *addr, bytes: bytes@ },
            WireAction::Deliver { dst, payload } => ActionView::Deliver {
                dst: *dst,
                payload: payload@,
            },
        }
    }
}

/// What a list of actions holds.
pub open spec fn actions(v: Seq<WireAction>) -> Seq<ActionView> {
    Seq::new(v.len(), |i: int| v[i]@)
}

/// What is to be done with what a tunnel gave, if anything. Bytes for the other
/// side are sent; a message for an endpoint that is registered here is handed
/// to it; everything else is dropped: errors, IPv4, what is no packet, and
/// messages for nobody here.
pub open spec fn action_of(
    s: RoutingView,
    endpoint: SocketAddr,
    o: OutcomeView,
) -> Option<ActionView> {
    match o {
        OutcomeView::ToNetwork(b) => Some(ActionView::Send { addr: endpoint, bytes: b }),
        OutcomeView::ToTunnelV6 { packet, debug } => if packet_fault(packet) is None
            && s.endpoints.contains_key(packet_parts(packet).dst.bits) {
            Some(
                ActionView::Deliver {
                    dst: packet_parts(packet).dst,
                    payload: packet_parts(packet).payload,
                },
            )
        } else {
            None
        },
        _ => None,
    }
}

/// What is to be done with all that a tunnel gave, in order.
pub open spec fn actions_of(
    s: RoutingView,
    endpoint: SocketAddr,
    outs: Seq<OutcomeView>,
) -> Seq<ActionView>
    decreases outs.len(),
{
    if outs.len() == 0 {
        Seq::empty()
    } else {
        let before = actions_of(s, endpoint, outs.drop_last());
        match action_of(s, endpoint, outs.last()) {
            Some(a) => before.push(a),
            None => before,
        }
    }
}

/// Whether a node is at the socket address.
pub open spec fn is_known(s: WireGuardView, from: SocketAddr) -> bool {
    exists|k: Seq<char>| #[trigger] s.peers.contains_key(k) && s.peers[k].endpoint == from
}

/// Whether a tunnel answers so when it is asked again and again for what it
/// held back, until it has nothing to say; `tunnels` is the tunnel before each
/// answer, and after the last.
pub open spec fn is_drain(tunnels: Seq<Tunn>, outs: Seq<OutcomeView>) -> bool {
    &&& outs.len() > 0
    &&& tunnels.len() == outs.len() + 1
    &&& forall|i: int|
        0 <= i < outs.len() ==> takes_datagram(
            tunnels[i],
            Seq::empty(),
            #[trigger] outs[i],
            tunnels[i + 1],
        ) && (outs[i] is Done <==> i == outs.len() - 1)
}

/// A session with its tunnel in another state.
pub open spec fn with_tunn(s: SessionView, t: Tunn) -> SessionView {
    SessionView { tunn: t, ..s }
}

/// Whether a datagram for a node was taken in so: its tunnel was given the
/// datagram and answered, then was asked for what it held back until it had
/// nothing to say.
pub open spec fn is_taken_in(
    s: WireGuardView,
    node_id: Seq<char>,
    datagram: Seq<u8>,
    first: OutcomeView,
    tunnels: Seq<Tunn>,
    rest: Seq<OutcomeView>,
    after: WireGuardView,
) -> bool {
    let session = s.peers[node_id];
    &&& takes_in(session, datagram, first, with_tunn(session, tunnels[0]))
    &&& is_drain(tunnels, rest)
    &&& after == (WireGuardView {
        peers: s.peers.insert(node_id, with_tunn(session, tunnels.last())),
        ..s
    })
}

/// How often more a tunnel may have something to say.
spec fn patience(s: TunnelView) -> nat {
    if s.queue.len() == 0 {
        0
    } else if s.up {
        s.queue.len()
    } else if s.busy {
        0
    } else {
        1
    }
}

/// Whether a session was drained so.
spec fn is_drained(
    s: SessionView,
    tunnels: Seq<Tunn>,
    outs: Seq<OutcomeView>,
    after: SessionView,
) -> bool {
    is_drain(tunnels, outs) && tunnels[0] == s.tunn && after == with_tunn(s, tunnels.last())
}

/// Asks a tunnel for what it held back until it has nothing to say.
fn drain(session: Session) -> (r: (Session, Vec<TunnelOutcome>))
    ensures
        exists|tunnels: Seq<Tunn>| #[trigger]
            is_drained(session@, tunnels, outcomes(r.1@), r.0@),
{
    let ghost start = session@;
    let ghost mut tunnels: Seq<Tunn> = seq![start.tunn];
    let empty: Vec<u8> = Vec::new();
    let mut held = session;
    let mut r: Vec<TunnelOutcome> = Vec::new();
    let mut more = true;
    while more
        invariant
            empty@ == Seq::<u8>::empty(),
            tunnels.len() == r@.len() + 1,
            tunnels[0] == start.tunn,
            held@ == with_tunn(start, tunnels.last()),
            !more ==> r@.len() > 0,
            forall|i: int|
                0 <= i < r@.len() ==> takes_datagram(
                    tunnels[i],
                    Seq::empty(),
                    (#[trigger] r@[i])@,
                    tunnels[i + 1],
                ) && (r@[i]@ is Done <==> !more && i == r@.len() - 1),
        decreases
                (if more {
                    patience(held@.tunnel()) + 1
                } else {
                    0
                }),
    {
        let ghost was = held@;
        let ghost before = tunnels;
        let (next, outcome) = held.decapsulate(empty.as_slice());
        held = next;
        more = !matches!(outcome, TunnelOutcome::Done);
        let ghost said = r@;
        r.push(outcome);
        proof {
            tunnels = tunnels.push(held@.tunn);
            assert(tunnels.last() == held@.tunn);
            let q = was.tunnel().queue;
            if q.len() > 0 {
                assert(q.drop_first().len() == q.len() - 1);
            }
            assert forall|i: int| 0 <= i < r@.len() implies takes_datagram(
                tunnels[i],
                Seq::empty(),
                (#[trigger] r@[i])@,
                tunnels[i + 1],
            ) && (r@[i]@ is Done <==> !more && i == r@.len() - 1) by {
                if i < said.len() {
                    assert(r@[i] == said[i]);
                    assert(tunnels[i] == before[i] && tunnels[i + 1] == before[i + 1]);
                }
            }
        }
    }
    let ghost said = outcomes(r@);
    let ghost after = held@;
    proof {
        assert forall|i: int| 0 <= i < r@.len() implies takes_datagram(
            tunnels[i],
            Seq::empty(),
            #[trigger] outcomes(r@)[i],
            tunnels[i + 1],
        ) && (outcomes(r@)[i] is Done <==> i == r@.len() - 1) by {
            assert(outcomes(r@)[i] == r@[i]@);
        }
        assert(is_drained(start, tunnels, said, after));
    }
    let out = (held, r);
    assert(outcomes(out.1@) == said);
    assert(out.0@ == after);
    out
}

/// What a list of answers holds.
pub open spec fn outcomes(v: Seq<TunnelOutcome>) -> Seq<OutcomeView> {
    Seq::new(v.len(), |i: int| v[i]@)
}

impl WireGuardFabric {
    /// Decides what is to be done with what a tunnel gave.
    pub fn apply_action(&self, endpoint: SocketAddr, outcome: TunnelOutcome) -> (r: Option<
        WireAction,
    >)
        ensures
            match r {
                Some(a) => action_of(self@.routing, endpoint, outcome@) == Some(a@),
                None => action_of(self@.routing, endpoint, outcome@) is None,
            },
    {
        match outcome {
            TunnelOutcome::ToNetwork(bytes) => Some(WireAction::Send { addr: endpoint, bytes }),
            TunnelOutcome::ToTunnelV6 { packet, debug: _ } => match parse_ipv6_packet(
                packet.as_slice(),
            ) {
                Ok((_src, dst, payload)) => if self.is_local(dst) {
                    Some(WireAction::Deliver { dst, payload })
                } else {
                    None
                },
                Err(_) => None,
            },
            _ => None,
        }
    }

    /// The node at a socket address.
    fn node_at(&self, from: SocketAddr) -> (r: Option<String>)
        ensures
            match r {
                Some(n) => self@.peers.contains_key(n@) && self@.peers[n@].endpoint == from,
                None => !is_known(self@, from),
            },
    {
        let all = self.node_endpoints();
        let mut i: usize = 0;
        while i < all.len()
            invariant
                i <= all@.len(),
                forall|k: int|
                    0 <= k < all@.len() ==> self@.peers.contains_key((#[trigger] all@[k]).0@)
                        && all@[k].1 == self@.peers[all@[k].0@].endpoint,
                forall|k: int| 0 <= k < i ==> (#[trigger] all@[k]).1 != from,
            decreases all@.len() - i,
        {
            assert(self@.peers.contains_key(all@[i as int].0@));
            if all[i].1 == from {
                return Some(all[i].0.clone());
            }
            i = i + 1;
        }
        proof {
            if is_known(self@, from) {
                let k = choose|k: Seq<char>| #[trigger]
                    self@.peers.contains_key(k) && self@.peers[k].endpoint == from;
                let j = choose|j: int| 0 <= j < all@.len() && (#[trigger] all@[j]).0@ == k;
                assert(all@[j].1 == from);
            }
        }
        None
    }

    /// Takes in a datagram that came from a socket address: it is given to the
    /// tunnel of the node there, then the tunnel is asked for what it held back
    /// until it has nothing to say. A datagram from anywhere else is dropped.
    pub fn process_inbound(&mut self, from: SocketAddr, datagram: &[u8]) -> (r: Vec<WireAction>)
        ensures
            if is_known(old(self)@, from) {
                exists|
                    node_id: Seq<char>,
                    first: OutcomeView,
                    tunnels: Seq<Tunn>,
                    rest: Seq<OutcomeView>,
                |
                    {
                        &&& old(self)@.peers.contains_key(node_id)
                        &&& old(self)@.peers[node_id].endpoint == from
                        &&& #[trigger] is_taken_in(
                            old(self)@,
                            node_id,
                            datagram@,
                            first,
                            tunnels,
                            rest,
                            final(self)@,
                        )
                        &&& actions(r@) == actions_of(
                            old(self)@.routing,
                            from,
                            seq![first] + rest,
                        )
                    }
            } else {
                r@.len() == 0 && final(self)@ == old(self)@
            },
    {
        let ghost before = self@;
        let ghost routing = before.routing;
        let mut r: Vec<WireAction> = Vec::new();
        let node_id = match self.node_at(from) {
            Some(n) => n,
            None => {
                return r;
            },
        };
        let ghost name = node_id@;
        assert(is_known(before, from));
        match self.take_session(node_id.as_str()) {
            None => {
                assert(false);
                r
            },
            Some(session) => {
                let (session, first) = session.decapsulate(datagram);
                let ghost mid = session@;
                let (session, rest) = drain(session);
                let ghost tunnels = choose|tunnels: Seq<Tunn>| #[trigger]
                    is_drained(mid, tunnels, outcomes(rest@), session@);
                let ghost first_view = first@;
                let ghost rest_views = outcomes(rest@);
                let ghost all = seq![first_view] + rest_views;
                self.put_session(node_id, session);
                proof {
                    let held_before = before.peers[name];
                    assert(with_tunn(held_before, tunnels[0]) == mid);
                    assert(self@.peers =~= before.peers.insert(
                        name,
                        with_tunn(held_before, tunnels.last()),
                    ));
                    assert(is_taken_in(
                        before,
                        name,
                        datagram@,
                        first_view,
                        tunnels,
                        rest_views,
                        self@,
                    ));
                }
                assert(all.take(1).drop_last() =~= Seq::<OutcomeView>::empty());
                assert(all.take(1).last() == first_view);
                assert(actions_of(routing, from, all.take(1).drop_last()) =~= Seq::<
                    ActionView,
                >::empty());
                if let Some(a) = self.apply_action(from, first) {
                    r.push(a);
                }
                assert(actions(r@) =~= actions_of(routing, from, all.take(1)));
                let ghost held = self@;
                for o in it: rest
                    invariant
                        self@ == held,
                        held.routing == routing,
                        rest_views == outcomes(it.seq()),
                        all == seq![first_view] + rest_views,
                        actions(r@) == actions_of(routing, from, all.take(it.index() + 1)),
                {
                    let ghost i = it.index();
                    let ghost so_far = r@;
                    proof {
                        assert(o@ == rest_views[i]);
                        assert(all.take(i + 2).drop_last() =~= all.take(i + 1));
                        assert(all.take(i + 2).last() == rest_views[i]);
                    }
                    if let Some(a) = self.apply_action(from, o) {
                        r.push(a);
                        assert(actions(r@) =~= actions(so_far).push(a@));
                    }
                }
                assert(all.take(all.len() as int) =~= all);
                r
            },
        }
    }
}

/// The length that a header says, from its two bytes.
proof fn lemma_length_field(packet: Seq<u8>)
    requires
        packet.len() >= 6,
    ensures
        be_value(packet.subrange(4, 6)) == packet[4] * 256 + packet[5],
{
    let length = packet.subrange(4, 6);
    let d = byte_digits(length);
    assert(d.len() == 2);
    assert(d[0] == packet[4] && d[1] == packet[5]);
    assert(d.drop_last().drop_last() =~= Seq::<int>::empty());
    assert(undigits(d.drop_last(), 256) == packet[4]) by {
        assert(d.drop_last().last() == d[0]);
        assert(undigits(d.drop_last().drop_last(), 256) == 0);
    }
}

/// A message that is decrypted for an endpoint that is registered here reaches
/// it: whatever a tunnel decrypts can be taken apart.
pub proof fn law_decrypted_messages_are_delivered(
    s: RoutingView,
    endpoint: SocketAddr,
    packet: Seq<u8>,
    debug: Seq<char>,
)
    requires
        is_whole_v6(packet),
        s.endpoints.contains_key(packet_parts(packet).dst.bits),
    ensures
        packet_fault(packet) is None,
        action_of(s, endpoint, OutcomeView::ToTunnelV6 { packet, debug }) == Some(
            ActionView::Deliver {
                dst: packet_parts(packet).dst,
                payload: packet_parts(packet).payload,
            },
        ),
{
    lemma_length_field(packet);
}

/// Whether one tunnel is the other end of another: whatever packet the one
/// encrypts next, the other decrypts. Two tunnels are so once a handshake of the
/// one with the other gave them the session that they use; that is the cipher's
/// doing, on two hosts, and is not derived here.
pub open spec fn meets(a: Tunn, b: Tunn) -> bool {
    forall|packet: Seq<u8>|
        is_whole_v6(packet) && packet.len() <= MAX_PACKET ==> (tunnel_opened(
            b,
            #[trigger] tunnel_sealed(a, packet),
        ) matches OutcomeView::ToTunnelV6 { packet: p, .. } && p == packet)
}

/// The first answer of a tunnel is acted on first.
proof fn lemma_first_action(s: RoutingView, endpoint: SocketAddr, outs: Seq<OutcomeView>)
    requires
        outs.len() > 0,
        action_of(s, endpoint, outs[0]) is Some,
    ensures
        actions_of(s, endpoint, outs).len() > 0,
        actions_of(s, endpoint, outs)[0] == action_of(s, endpoint, outs[0])->0,
    decreases outs.len(),
{
    if outs.len() == 1 {
        assert(actions_of(s, endpoint, outs.drop_last()) =~= Seq::<ActionView>::empty());
    } else {
        assert(outs.drop_last()[0] == outs[0]);
        lemma_first_action(s, endpoint, outs.drop_last());
    }
}

/// A message comes out as it was sent: what one side sends to an address while
/// there is a session is, at the other end of the tunnel, handed unchanged to
/// the endpoint that is registered there under that address. What can stand in
/// the way is that the counter of the session has run out.
pub proof fn law_messages_arrive_unchanged(
    a: WireGuardView,
    to: Seq<char>,
    dst: Ipv6Addr,
    msg: Seq<u8>,
    addr: SocketAddr,
    bytes: Seq<u8>,
    after_a: WireGuardView,
    b: WireGuardView,
    from: Seq<char>,
    first: OutcomeView,
    tunnels: Seq<Tunn>,
    rest: Seq<OutcomeView>,
    after_b: WireGuardView,
)
    requires
        a.peers.contains_key(to),
        b.peers.contains_key(from),
        msg.len() <= MAX_APP_PAYLOAD,
        tunnel_up(a.peers[to].tunn),
        meets(a.peers[to].tunn, b.peers[from].tunn),
        is_remote_answer(
            a,
            to,
            dst,
            msg,
            Ok::<PlanView, FabricErrorView>(PlanView::Datagram { addr, bytes }),
            after_a,
        ),
        !is_spent(bytes),
        is_taken_in(b, from, bytes, first, tunnels, rest, after_b),
        b.routing.endpoints.contains_key(dst.bits),
    ensures
        addr == a.peers[to].endpoint,
        actions_of(b.routing, b.peers[from].endpoint, seq![first] + rest).len() > 0,
        actions_of(b.routing, b.peers[from].endpoint, seq![first] + rest)[0]
            == (ActionView::Deliver { dst, payload: msg }),
{
    let src = Ipv6Addr { bits: 0 };
    let packet = packet_bytes(src, dst, msg);
    lemma_packet_layout(src, dst, msg);
    lemma_exp_256();
    lemma_be_value_of_bytes(msg.len() as int, 2);
    lemma_length_field(packet);
    assert(is_whole_v6(packet));
    assert(bytes == tunnel_sealed(a.peers[to].tunn, packet));
    assert(is_data(bytes));
    assert(first == tunnel_opened(b.peers[from].tunn, bytes));
    law_packets_round_trip(src, dst, msg);
    let outs = seq![first] + rest;
    assert(outs[0] == first);
    lemma_first_action(b.routing, b.peers[from].endpoint, outs);
}

proof fn lemma_drained_up(tunnels: Seq<Tunn>, outs: Seq<OutcomeView>, n: nat)
    requires
        is_drain(tunnels, outs),
        tunnel_up(tunnels[0]),
        n <= tunnel_queue(tunnels[0]).len(),
        n < tunnels.len(),
    ensures
        tunnel_view(tunnels[n as int]) == (TunnelView {
            queue: tunnel_queue(tunnels[0]).skip(n as int),
            ..tunnel_view(tunnels[0])
        }),
    decreases n,
{
    let q = tunnel_queue(tunnels[0]);
    if n == 0 {
        assert(q.skip(0) =~= q);
    } else {
        lemma_drained_up(tunnels, outs, (n - 1) as nat);
        assert(takes_datagram(tunnels[n - 1], Seq::empty(), outs[n - 1], tunnels[n - 1 + 1]));
        assert(q.skip(n - 1).drop_first() =~= q.skip(n as int));
    }
}

/// Once there is a session, everything that was held back goes out encrypted,
/// in the order in which it was held back, and nothing is held back any more.
pub proof fn law_held_messages_go_out(tunnels: Seq<Tunn>, outs: Seq<OutcomeView>)
    requires
        is_drain(tunnels, outs),
        tunnel_up(tunnels[0]),
    ensures
        outs.len() == tunnel_queue(tunnels[0]).len() + 1,
        forall|i: int|
            0 <= i < tunnel_queue(tunnels[0]).len() ==> #[trigger] outs[i]
                == OutcomeView::ToNetwork(
                tunnel_sealed(tunnels[i], tunnel_queue(tunnels[0])[i]),
            ) && is_data_of(
                tunnel_sealed(tunnels[i], tunnel_queue(tunnels[0])[i]),
                tunnel_queue(tunnels[0])[i].len(),
            ),
        tunnel_queue(tunnels.last()).len() == 0,
{
    let q = tunnel_queue(tunnels[0]);
    let n = q.len();
    let last = outs.len() - 1;
    if last < n {
        lemma_drained_up(tunnels, outs, last as nat);
        assert(outs[last] is Done);
    }
    lemma_drained_up(tunnels, outs, n);
    if last > n {
        assert(outs[n as int] !is Done);
    }
    assert(takes_datagram(tunnels[last], Seq::empty(), outs[last], tunnels[last + 1]));
    assert forall|i: int| 0 <= i < n implies #[trigger] outs[i] == OutcomeView::ToNetwork(
        tunnel_sealed(tunnels[i], q[i]),
    ) && is_data_of(tunnel_sealed(tunnels[i], q[i]), q[i].len()) by {
        lemma_drained_up(tunnels, outs, i as nat);
        assert(q.skip(i)[0] == q[i]);
    }
}

/// While there is no session nothing is lost by asking for what is held back:
/// the same packets are held back, the oldest now last.
pub proof fn law_asking_keeps_what_is_held_back(s: TunnelView)
    requires
        !s.up,
        0 < s.queue.len() <= QUEUE_DEPTH,
    ensures
        resumed(s).queue == s.queue.drop_first().push(s.queue[0]),
{
}

proof fn lemma_drained_keys(tunnels: Seq<Tunn>, outs: Seq<OutcomeView>, n: nat)
    requires
        is_drain(tunnels, outs),
        n < tunnels.len(),
    ensures
        tunnel_secret(tunnels[n as int]) == tunnel_secret(tunnels[0]),
        tunnel_peer_key(tunnels[n as int]) == tunnel_peer_key(tunnels[0]),
    decreases n,
{
    if n > 0 {
        lemma_drained_keys(tunnels, outs, (n - 1) as nat);
        assert(takes_datagram(tunnels[n - 1], Seq::empty(), outs[n - 1], tunnels[n - 1 + 1]));
        assert(resumed(tunnel_view(tunnels[n - 1])).secret == tunnel_secret(tunnels[n - 1]));
    }
}

/// Taking in a datagram leaves the keys of the tunnels as they are.
pub proof fn law_receiving_keeps_keys(
    s: WireGuardView,
    node_id: Seq<char>,
    datagram: Seq<u8>,
    first: OutcomeView,
    tunnels: Seq<Tunn>,
    rest: Seq<OutcomeView>,
    after: WireGuardView,
)
    requires
        keyed(s),
        s.peers.contains_key(node_id),
        is_taken_in(s, node_id, datagram, first, tunnels, rest, after),
    ensures
        keyed(after),
{
    lemma_drained_keys(tunnels, rest, rest.len());
    let t = s.peers[node_id].tunn;
    assert(tunnel_secret(tunnels[0]) == tunnel_secret(t) && tunnel_peer_key(tunnels[0])
        == tunnel_peer_key(t)) by {
        if !is_spent(datagram) && datagram.len() == 0 {
            assert(resumed(tunnel_view(t)).secret == tunnel_secret(t));
        }
    }
    assert forall|k: Seq<char>| #[trigger] after.peers.contains_key(k) implies after.peers[k].tunnel().secret
        == after.static_private && after.peers[k].tunnel().peer_key
        == after.peers[k].public_key by {
        assert(s.peers.contains_key(k));
    }
}

/// What becomes of what a tunnel gave: bytes for the network are sent to where
/// they belong, as they are; a packet of version 6 for an endpoint that is
/// registered here is delivered, with its address and its message; all else is
/// dropped.
pub proof fn law_what_becomes_of_outcomes(
    s: RoutingView,
    endpoint: SocketAddr,
    bytes: Seq<u8>,
    src: Ipv6Addr,
    dst: Ipv6Addr,
    payload: Seq<u8>,
    debug: Seq<char>,
)
    requires
        payload.len() <= u16::MAX,
    ensures
        action_of(s, endpoint, OutcomeView::ToNetwork(bytes)) == Some(
            ActionView::Send { addr: endpoint, bytes },
        ),
        ({
            let packet = packet_bytes(src, dst, payload);
            let a = action_of(s, endpoint, OutcomeView::ToTunnelV6 { packet, debug });
            &&& s.endpoints.contains_key(dst.bits) ==> a == Some(ActionView::Deliver { dst, payload })
            &&& !s.endpoints.contains_key(dst.bits) ==> a is None
        }),
        packet_fault(bytes) is Some ==> action_of(
            s,
            endpoint,
            OutcomeView::ToTunnelV6 { packet: bytes, debug },
        ) is None,
        action_of(s, endpoint, OutcomeView::Done) is None,
        action_of(s, endpoint, OutcomeView::Failed(debug)) is None,
        action_of(s, endpoint, OutcomeView::ToTunnelV4 { debug }) is None,
{
    law_packets_round_trip(src, dst, payload);
}

/// All that a tunnel gave is gone through in order: what becomes of two lists,
/// one behind the other, is what becomes of each.
pub proof fn law_outcomes_are_gone_through_in_order(
    s: RoutingView,
    endpoint: SocketAddr,
    a: Seq<OutcomeView>,
    b: Seq<OutcomeView>,
    o: OutcomeView,
)
    ensures
        actions_of(s, endpoint, a + b) == actions_of(s, endpoint, a) + actions_of(s, endpoint, b),
        actions_of(s, endpoint, seq![o]) == (match action_of(s, endpoint, o) {
            Some(x) => seq![x],
            None => Seq::empty(),
        }),
        actions_of(s, endpoint, Seq::empty()) == Seq::<ActionView>::empty(),
    decreases b.len(),
{
    reveal_with_fuel(actions_of, 2);
    assert(seq![o].drop_last() =~= Seq::<OutcomeView>::empty());
    assert(actions_of(s, endpoint, seq![o]) =~= (match action_of(s, endpoint, o) {
        Some(x) => seq![x],
        None => Seq::empty(),
    }));
    if b.len() == 0 {
        assert(a + b =~= a);
        assert(actions_of(s, endpoint, a + b) =~= actions_of(s, endpoint, a) + actions_of(
            s,
            endpoint,
            b,
        ));
    } else {
        law_outcomes_are_gone_through_in_order(s, endpoint, a, b.drop_last(), o);
        assert((a + b).drop_last() =~= a + b.drop_last());
        assert((a + b).last() == b.last());
        assert(actions_of(s, endpoint, a + b) =~= actions_of(s, endpoint, a) + actions_of(
            s,
            endpoint,
            b,
        ));
    }
}

/// A datagram that is taken in changes the tunnel of the node that it came from
/// and nothing else. One whose counter has run out does not reach the tunnel.
pub proof fn law_datagrams_reach_their_tunnel(
    s: WireGuardView,
    node_id: Seq<char>,
    datagram: Seq<u8>,
    first: OutcomeView,
    tunnels: Seq<Tunn>,
    rest: Seq<OutcomeView>,
    after: WireGuardView,
    other: Seq<char>,
)
    requires
        s.peers.contains_key(node_id),
        is_taken_in(s, node_id, datagram, first, tunnels, rest, after),
    ensures
        is_spent(datagram) ==> first is Failed && tunnels[0] == s.peers[node_id].tunn,
        !is_spent(datagram) ==> takes_datagram(s.peers[node_id].tunn, datagram, first, tunnels[0]),
        rest.len() > 0 && rest.last() is Done,
        after.peers[node_id].tunn == tunnels.last(),
        after.peers[node_id].endpoint == s.peers[node_id].endpoint,
        after.peers[node_id].public_key == s.peers[node_id].public_key,
        other != node_id ==> (after.peers.contains_key(other) <==> s.peers.contains_key(other))
            && after.peers[other] == s.peers[other],
        after.routing == s.routing,
        after.static_private == s.static_private,
{
    let n = rest.len() - 1;
    assert(rest[n] is Done);
}

} // verus!
