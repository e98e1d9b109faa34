//! What is kept of another node.

use crate::bindings::tunnel::{
    counter_of, is_spent, lets_time_pass, starts_handshake,
    takes_datagram, takes_packet, tunnel_decapsulate, tunnel_encapsulate, tunnel_handshake, tunnel_is_up,
    tunnel_new, tunnel_peer_key, tunnel_queue, tunnel_tick, tunnel_view, with_handshake,
    OutcomeView, TunnelOutcome, TunnelView, DATA_OVERHEAD, MAX_PACKET,
    REORDER_WINDOW, SCRATCH,
};
use crate::net::socket::SocketAddr;
use boringtun::noise::Tunn;
use vstd::prelude::*;

verus! {

/// How often a tunnel shows that it is alive, in seconds.
pub const KEEPALIVE_SECS: u16 = 25;

/// How much more room than a packet takes there is for it encrypted.
pub const ENCAPSULATION_ROOM: usize = 64;

/// Room for the messages that a tunnel sends by itself.
pub const CONTROL_ROOM: usize = 256;

/// Another node and the tunnel to it.
pub struct Session {
    /// Where it listens.
    pub(crate) endpoint: SocketAddr,
    /// Its public key.
    pub(crate) public_key: [u8; 32],
    /// The tunnel.
    pub(crate) tunn: Tunn,
}

/// What is known of a `Session`.
#[verifier::ext_equal]
pub struct SessionView {
    pub endpoint: SocketAddr,
    pub public_key: Seq<u8>,
    pub tunn: Tunn,
}

impl SessionView {
    /// What is known of the tunnel.
    pub open spec fn tunnel(self) -> TunnelView {
        tunnel_view(self.tunn)
    }
}

impl View for Session {
    type V = SessionView;

    closed spec fn view(&self) -> SessionView {
        SessionView {
            endpoint: self.endpoint,
            public_key: self.public_key@,
            tunn: self.tunn,
        }
    }
}

/// Whether one session is another but for its tunnel.
pub open spec fn same_node(a: SessionView, b: SessionView) -> bool {
    a == (SessionView { tunn: a.tunn, ..b })
}

/// Whether a session is one of a node to which a tunnel was just made: there
/// is no session, none is under way, and nothing is held back.
pub open spec fn is_new_session(
    s: SessionView,
    endpoint: SocketAddr,
    public_key: Seq<u8>,
    private: Seq<u8>,
) -> bool {
    &&& s.endpoint == endpoint
    &&& s.public_key == public_key
    &&& s.tunnel() == (TunnelView {
        secret: private,
        peer_key: public_key,
        keepalive: KEEPALIVE_SECS,
        queue: Seq::empty(),
        up: false,
        busy: false,
    })
}

/// How a session takes in a datagram: as its tunnel does, which is not given a
/// message whose counter has run out.
pub open spec fn takes_in(
    s: SessionView,
    datagram: Seq<u8>,
    o: OutcomeView,
    after: SessionView,
) -> bool {
    if is_spent(datagram) {
        o == OutcomeView::Failed("InvalidCounter"@) && after == s
    } else {
        takes_datagram(s.tunn, datagram, o, after.tunn) && same_node(after, s)
    }
}

/// Whether a message holds an encrypted packet and its counter has run out.
fn has_run_out(datagram: &[u8]) -> (r: bool)
    ensures
        r == is_spent(datagram@),
{
    if datagram.len() < DATA_OVERHEAD || datagram[0] != 4 || datagram[1] != 0 || datagram[2] != 0
        || datagram[3] != 0 {
        return false;
    }
    let low: u64 = datagram[8] as u64 + 0x100 * datagram[9] as u64 + 0x1_0000 * datagram[10] as u64
        + 0x100_0000 * datagram[11] as u64;
    let high: u64 = datagram[12] as u64 + 0x100 * datagram[13] as u64 + 0x1_0000
        * datagram[14] as u64 + 0x100_0000 * datagram[15] as u64;
    assert(counter_of(datagram@) == low + 0x1_0000_0000 * high);
    low + 0x1_0000_0000 * high > u64::MAX - REORDER_WINDOW
}

/// Whether every packet that is held back is short enough to be sent.
pub open spec fn all_short(q: Seq<Seq<u8>>) -> bool {
    forall|i: int| 0 <= i < q.len() ==> (#[trigger] q[i]).len() <= MAX_PACKET
}

impl Session {
    /// The tunnel is to the node that the key is of, and whatever it holds back
    /// is short enough to be sent.
    #[verifier::type_invariant]
    spec fn consistent(self) -> bool {
        tunnel_peer_key(self.tunn) == self.public_key@ && all_short(tunnel_queue(self.tunn))
    }

    /// A node, and a new tunnel to it.
    pub(crate) fn new(
        endpoint: SocketAddr,
        public_key: [u8; 32],
        private: &[u8; 32],
        index: u32,
    ) -> (r: Self)
        ensures
            is_new_session(r@, endpoint, public_key@, private@),
    {
        let tunn = tunnel_new(private, &public_key, KEEPALIVE_SECS, index);
        assert(tunnel_queue(tunn) =~= Seq::<Seq<u8>>::empty());
        Session { endpoint, public_key, tunn }
    }

    /// Where the node listens.
    pub(crate) fn endpoint(&self) -> (r: SocketAddr)
        ensures
            r == self@.endpoint,
    {
        self.endpoint
    }

    /// Gives the tunnel a packet.
    pub(crate) fn encapsulate(self, packet: &[u8]) -> (r: (Self, TunnelOutcome))
        requires
            packet@.len() <= MAX_PACKET,
        ensures
            takes_packet(
                self@.tunn,
                packet@,
                packet@.len() + ENCAPSULATION_ROOM,
                r.1@,
                r.0@.tunnel(),
            ),
            same_node(r.0@, self@),
    {
        proof {
            use_type_invariant(&self);
        }
        let room: usize = packet.len() + ENCAPSULATION_ROOM;
        let Session { endpoint, public_key, tunn } = self;
        let mut t = tunn;
        let outcome = tunnel_encapsulate(&mut t, packet, room);
        (Session { endpoint, public_key, tunn: t }, outcome)
    }

    /// Gives the tunnel a datagram, unless it is a message whose counter has run
    /// out.
    pub(crate) fn decapsulate(self, datagram: &[u8]) -> (r: (Self, TunnelOutcome))
        ensures
            takes_in(self@, datagram@, r.1@, r.0@),
    {
        if has_run_out(datagram) {
            return (self, TunnelOutcome::Failed("InvalidCounter".to_owned()));
        }
        proof {
            use_type_invariant(&self);
        }
        let n = datagram.len();
        let room: usize = if n > SCRATCH {
            n
        } else {
            SCRATCH
        };
        let Session { endpoint, public_key, tunn } = self;
        let mut t = tunn;
        let outcome = tunnel_decapsulate(&mut t, datagram, room);
        (Session { endpoint, public_key, tunn: t }, outcome)
    }

    /// Starts a handshake, unless one is under way.
    pub(crate) fn handshake(self) -> (r: (Self, TunnelOutcome))
        ensures
            starts_handshake(self@.tunnel().busy, r.1@),
            self@.tunnel().busy ==> r.0@ == self@,
            r.0@.tunnel() == with_handshake(self@.tunnel()),
            same_node(r.0@, self@),
    {
        proof {
            use_type_invariant(&self);
        }
        let Session { endpoint, public_key, tunn } = self;
        let mut t = tunn;
        let outcome = tunnel_handshake(&mut t, CONTROL_ROOM);
        (Session { endpoint, public_key, tunn: t }, outcome)
    }

    /// Lets time pass.
    pub(crate) fn tick(self) -> (r: (Self, TunnelOutcome))
        ensures
            lets_time_pass(self@.tunn, r.1@, r.0@.tunnel()),
            same_node(r.0@, self@),
    {
        proof {
            use_type_invariant(&self);
        }
        let Session { endpoint, public_key, tunn } = self;
        let mut t = tunn;
        let outcome = tunnel_tick(&mut t, CONTROL_ROOM);
        (Session { endpoint, public_key, tunn: t }, outcome)
    }

    /// Whether there is a session.
    pub(crate) fn is_up(&self) -> (r: bool)
        ensures
            r == self@.tunnel().up,
    {
        tunnel_is_up(&self.tunn)
    }
}

/// Which messages do not reach the tunnel: those that hold an encrypted packet,
/// of at least 32 bytes and with a 4 in front, and whose counter is one of the
/// last 1024. Every other datagram does.
pub proof fn law_which_messages_have_run_out(
    s: SessionView,
    d: Seq<u8>,
    o: OutcomeView,
    after: SessionView,
)
    requires
        takes_in(s, d, o, after),
    ensures
        ({
            let spent = d.len() >= 32 && d[0] == 4 && d[1] == 0 && d[2] == 0 && d[3] == 0 && d[8]
                + 0x100 * (d[9] + 0x100 * (d[10] + 0x100 * (d[11] + 0x100 * (d[12] + 0x100 * (d[13]
                + 0x100 * (d[14] + 0x100 * d[15])))))) >= 0xffff_ffff_ffff_fc00;
            &&& spent ==> o is Failed && after == s
            &&& !spent ==> takes_datagram(s.tunn, d, o, after.tunn) && after.endpoint == s.endpoint
                && after.public_key == s.public_key
        }),
{
}

} // verus!
