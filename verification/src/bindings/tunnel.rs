//! The tunnel of the `boringtun` crate.
//!
//! A tunnel has the keys that it was made with. It encrypts packets while there
//! is a session and holds them back while there is none. What it makes of a
//! packet or of a message depends on the tunnel and on these alone, so it has a
//! name; which bytes start a handshake or answer one depends on chance and on
//! the time as well, so the contracts say of those only what kind of message
//! they are and how long. What the passing of time makes necessary depends on
//! the tunnel and on what the clock shows.

use boringtun::noise::{Tunn, TunnResult};
use vstd::prelude::*;

verus! {

/// The longest packet that a tunnel is given: the longest payload behind its
/// header.
pub const MAX_PACKET: usize = 65_511;

/// What encryption adds to a packet.
pub const DATA_OVERHEAD: usize = 32;

/// Room for the longest packet once it is encrypted.
pub const SCRATCH: usize = 65_543;

/// How many packets a tunnel holds back at most.
pub const QUEUE_DEPTH: usize = 256;

/// The length of the message that starts a handshake.
pub const HANDSHAKE_INIT: usize = 148;

#[verifier::external_type_specification]
#[verifier::external_body]
pub struct ExTunn(Tunn);

/// What a tunnel answers.
#[derive(Debug)]
pub enum TunnelOutcome {
    /// There is nothing to do.
    Done,
    /// It went wrong, in words.
    Failed(String),
    /// These bytes are for the other side.
    ToNetwork(Vec<u8>),
    /// A decrypted IPv4 packet; `debug` is the answer in words.
    ToTunnelV4 { debug: String },
    /// A decrypted IPv6 packet; `debug` is the answer in words.
    ToTunnelV6 { packet: Vec<u8>, debug: String },
}

/// What a `TunnelOutcome` holds.
#[verifier::ext_equal]
pub enum OutcomeView {
    Done,
    Failed(Seq<char>),
    ToNetwork(Seq<u8>),
    ToTunnelV4 { debug: Seq<char> },
    ToTunnelV6 { packet: Seq<u8>, debug: Seq<char> },
}

impl View for TunnelOutcome {
    type V = OutcomeView;

    open spec fn view(&self) -> OutcomeView {
        match self {
            TunnelOutcome::Done => OutcomeView::Done,
            TunnelOutcome::Failed(e) => OutcomeView::Failed(e@),
            TunnelOutcome::ToNetwork(b) => OutcomeView::ToNetwork(b@),
            TunnelOutcome::ToTunnelV4 { debug } => OutcomeView::ToTunnelV4 { debug: debug@ },
            TunnelOutcome::ToTunnelV6 { packet, debug } => OutcomeView::ToTunnelV6 {
                packet: packet@,
                debug: debug@,
            },
        }
    }
}

/// The secret key that a tunnel was made with.
pub uninterp spec fn tunnel_secret(t: Tunn) -> Seq<u8>;

/// The public key of the other side that a tunnel was made with.
pub uninterp spec fn tunnel_peer_key(t: Tunn) -> Seq<u8>;

/// The interval of keepalives, in seconds, that a tunnel was made with.
pub uninterp spec fn tunnel_keepalive(t: Tunn) -> u16;

/// The packets that a tunnel holds back, the oldest first.
pub uninterp spec fn tunnel_queue(t: Tunn) -> Seq<Seq<u8>>;

/// Whether a tunnel has a session.
pub uninterp spec fn tunnel_up(t: Tunn) -> bool;

/// Whether a tunnel has a handshake under way.
pub uninterp spec fn tunnel_busy(t: Tunn) -> bool;

/// The message that a tunnel with a session makes of a packet: the packet,
/// encrypted, behind the index and the counter of the session.
pub uninterp spec fn tunnel_sealed(t: Tunn, packet: Seq<u8>) -> Seq<u8>;

/// What a tunnel answers to a message that does not start a handshake.
pub uninterp spec fn tunnel_opened(t: Tunn, message: Seq<u8>) -> OutcomeView;

/// Why a tunnel refuses a message that starts a handshake, where it does.
pub uninterp spec fn tunnel_refusal(t: Tunn, message: Seq<u8>) -> Option<Seq<char>>;

/// What is due for a tunnel when the clock first shows one time and then, when
/// the age of a handshake is taken, another; both in nanoseconds.
pub uninterp spec fn tunnel_due(t: Tunn, at: nat, later: nat) -> DueView;

/// What the passing of time makes necessary.
pub enum Due {
    /// Nothing.
    Nothing,
    /// Nothing can be done any more: the tunnel had been given up before.
    Expired,
    /// The tunnel is given up: its last handshake is too long ago, or the one
    /// under way takes too long.
    GiveUp,
    /// A handshake is started, even where one is under way.
    Handshake,
    /// An empty packet is sent, to show that this side is there.
    Keepalive,
}

/// What is due for a tunnel.
#[verifier::ext_equal]
pub struct DueView {
    /// Whether its session has become too old.
    pub lapsed: bool,
    /// What is to be done then.
    pub due: Due,
}

/// What is known of a tunnel.
#[verifier::ext_equal]
pub struct TunnelView {
    pub secret: Seq<u8>,
    pub peer_key: Seq<u8>,
    pub keepalive: u16,
    pub queue: Seq<Seq<u8>>,
    pub up: bool,
    pub busy: bool,
}

/// What is known of a tunnel.
pub open spec fn tunnel_view(t: Tunn) -> TunnelView {
    TunnelView {
        secret: tunnel_secret(t),
        peer_key: tunnel_peer_key(t),
        keepalive: tunnel_keepalive(t),
        queue: tunnel_queue(t),
        up: tunnel_up(t),
        busy: tunnel_busy(t),
    }
}

/// Whether a message is of a kind: its first four bytes name it.
pub open spec fn is_kind(b: Seq<u8>, kind: u8) -> bool {
    b.len() >= 4 && b[0] == kind && b[1] == 0 && b[2] == 0 && b[3] == 0
}

/// Whether a message starts a handshake.
pub open spec fn is_initiation(b: Seq<u8>) -> bool {
    is_kind(b, 1) && b.len() == HANDSHAKE_INIT
}

/// Whether a message answers one that starts a handshake.
pub open spec fn is_response(b: Seq<u8>) -> bool {
    is_kind(b, 2) && b.len() == 92
}

/// Whether a message puts the other side off.
pub open spec fn is_cookie(b: Seq<u8>) -> bool {
    is_kind(b, 3) && b.len() == 64
}

/// Whether a message holds an encrypted packet.
pub open spec fn is_data(b: Seq<u8>) -> bool {
    is_kind(b, 4) && b.len() >= DATA_OVERHEAD
}

/// Whether a message holds an encrypted packet of this length.
pub open spec fn is_data_of(b: Seq<u8>, len: nat) -> bool {
    is_data(b) && b.len() == len + DATA_OVERHEAD
}

/// Whether a decrypted IPv6 packet is as long as its header says.
pub open spec fn is_whole_v6(packet: Seq<u8>) -> bool {
    packet.len() >= 40 && packet[0] / 16 == 6 && packet.len() == 40 + packet[4] * 256 + packet[5]
}

/// What is held back once a packet is held back too. One that finds the queue
/// full is lost.
pub open spec fn queued(q: Seq<Seq<u8>>, packet: Seq<u8>) -> Seq<Seq<u8>> {
    if q.len() < QUEUE_DEPTH {
        q.push(packet)
    } else {
        q
    }
}

/// How a tunnel answers when a handshake is to be started: with nothing where
/// one is under way.
pub open spec fn starts_handshake(busy: bool, o: OutcomeView) -> bool {
    if busy {
        o is Done
    } else {
        o matches OutcomeView::ToNetwork(b) && is_initiation(b)
    }
}

/// A tunnel with a handshake under way.
pub open spec fn with_handshake(s: TunnelView) -> TunnelView {
    TunnelView { busy: true, ..s }
}

/// A tunnel after it was given a packet: it holds it back where there is no
/// session.
pub open spec fn given(s: TunnelView, packet: Seq<u8>) -> TunnelView {
    if s.up {
        s
    } else {
        with_handshake(holding(s, packet))
    }
}

/// How a tunnel answers when it is given a packet: it encrypts it where there
/// is a session, and otherwise starts a handshake.
pub open spec fn answers_packet(t: Tunn, packet: Seq<u8>, o: OutcomeView) -> bool {
    if tunnel_up(t) {
        &&& o == OutcomeView::ToNetwork(tunnel_sealed(t, packet))
        &&& is_data_of(tunnel_sealed(t, packet), packet.len())
    } else {
        starts_handshake(tunnel_busy(t), o)
    }
}

/// A tunnel that held a packet back, with nothing else changed.
pub open spec fn holding(s: TunnelView, packet: Seq<u8>) -> TunnelView {
    TunnelView { queue: queued(s.queue, packet), ..s }
}

/// Whether a handshake would have to be started and there is no room for the
/// message that starts it.
pub open spec fn is_cramped(s: TunnelView, room: int) -> bool {
    !s.up && !s.busy && room < HANDSHAKE_INIT
}

/// How a tunnel takes a packet with this much room for its answer: where a
/// handshake has to be started and there is no room for that, the packet is
/// held back all the same, and the answer is an error.
pub open spec fn takes_packet(
    t: Tunn,
    packet: Seq<u8>,
    room: int,
    o: OutcomeView,
    after: TunnelView,
) -> bool {
    let s = tunnel_view(t);
    if is_cramped(s, room) {
        o == OutcomeView::Failed("DestinationBufferTooSmall"@) && after == holding(s, packet)
    } else {
        answers_packet(t, packet, o) && after == given(s, packet)
    }
}

/// A tunnel with the oldest of the packets that it held back taken out.
pub open spec fn without_oldest(s: TunnelView) -> TunnelView {
    TunnelView { queue: s.queue.drop_first(), ..s }
}

/// A tunnel after it was asked for what it held back: it was given the oldest
/// of those packets anew.
pub open spec fn resumed(s: TunnelView) -> TunnelView {
    if s.queue.len() == 0 {
        s
    } else {
        given(without_oldest(s), s.queue[0])
    }
}

/// How a tunnel answers when it is asked for what it held back.
pub open spec fn answers_resuming(t: Tunn, o: OutcomeView) -> bool {
    if tunnel_queue(t).len() == 0 {
        o is Done
    } else {
        answers_packet(t, tunnel_queue(t)[0], o)
    }
}

/// The counter of a message that holds an encrypted packet, the last byte the
/// most significant.
pub open spec fn counter_of(b: Seq<u8>) -> int {
    b[8] + 0x100 * b[9] + 0x1_0000 * b[10] + 0x100_0000 * b[11] + 0x1_0000_0000 * b[12]
        + 0x100_0000_0000 * b[13] + 0x1_0000_0000_0000 * b[14] + 0x100_0000_0000_0000 * b[15]
}

/// How far behind the newest message another may come.
pub const REORDER_WINDOW: u64 = 1_024;

/// Whether a message holds an encrypted packet and its counter is so high that
/// a window behind it would not fit.
pub open spec fn is_spent(b: Seq<u8>) -> bool {
    is_data(b) && counter_of(b) + REORDER_WINDOW > u64::MAX
}

/// How a tunnel takes in a message of the other side, which leaves what it
/// holds back and its keys as they are, and never ends a session. A message
/// that starts a handshake is refused or answered. What is said of any other
/// is its name and what it can be: the answer to a handshake is refused or
/// gives a session, the first use of which is an empty packet; a cookie is
/// refused or kept; what holds a packet gives one as long as its header says,
/// or none, or is refused; and anything else is refused.
pub open spec fn takes_message(t: Tunn, d: Seq<u8>, o: OutcomeView, after: Tunn) -> bool {
    let s = tunnel_view(t);
    let e = tunnel_view(after);
    &&& e == (TunnelView { up: e.up, busy: e.busy, ..s })
    &&& s.up ==> e.up
    &&& if is_initiation(d) {
        match tunnel_refusal(t, d) {
            Some(text) => o == OutcomeView::Failed(text) && e == s,
            None => !e.busy && (o matches OutcomeView::ToNetwork(b) && is_response(b)),
        }
    } else {
        &&& o == tunnel_opened(t, d)
        &&& if is_response(d) {
            (o is Failed && e == s) || (e.up && (o matches OutcomeView::ToNetwork(b)
                && is_data_of(b, 0)))
        } else if is_cookie(d) {
            (o is Failed || o is Done) && e == s
        } else if is_data(d) {
            &&& e.busy == s.busy
            &&& match o {
                OutcomeView::Failed(_) => true,
                OutcomeView::ToNetwork(_) => false,
                OutcomeView::ToTunnelV6 { packet, debug } => e.up && is_whole_v6(packet)
                    && packet.len() + DATA_OVERHEAD <= d.len(),
                _ => e.up,
            }
        } else {
            o is Failed && after == t
        }
    }
}

/// How a tunnel takes in a datagram; an empty one asks for what it held back,
/// which changes nothing where that is nothing.
pub open spec fn takes_datagram(t: Tunn, d: Seq<u8>, o: OutcomeView, after: Tunn) -> bool {
    if d.len() == 0 {
        &&& answers_resuming(t, o)
        &&& tunnel_view(after) == resumed(tunnel_view(t))
        &&& tunnel_queue(t).len() == 0 ==> after == t
    } else {
        takes_message(t, d, o, after)
    }
}

/// A tunnel without its session, where that has become too old.
pub open spec fn lapsed(s: TunnelView, gone: bool) -> TunnelView {
    TunnelView { up: s.up && !gone, ..s }
}

/// How a tunnel answers when this is due: with the start of a handshake; with
/// an empty packet, which is held back like any packet where there is no
/// session; with an error once it is given up; or with nothing.
pub open spec fn does_due(t: Tunn, d: DueView, o: OutcomeView, after: TunnelView) -> bool {
    let s = lapsed(tunnel_view(t), d.lapsed);
    match d.due {
        Due::Nothing => o is Done && after == s,
        Due::Expired => o is Failed && after == s,
        Due::GiveUp => {
            &&& o is Failed
            &&& after == (TunnelView { queue: Seq::empty(), up: false, busy: false, ..s })
        },
        Due::Handshake => {
            &&& o matches OutcomeView::ToNetwork(b) && is_initiation(b)
            &&& after == with_handshake(s)
        },
        Due::Keepalive => {
            &&& if s.up {
                &&& o == OutcomeView::ToNetwork(tunnel_sealed(t, Seq::empty()))
                &&& is_data_of(tunnel_sealed(t, Seq::empty()), 0)
            } else {
                starts_handshake(s.busy, o)
            }
            &&& after == given(s, Seq::empty())
        },
    }
}

/// How a tunnel answers when this is due by what the clock shows, which never
/// goes back.
pub open spec fn acts_by(
    t: Tunn,
    at: nat,
    later: nat,
    d: DueView,
    o: OutcomeView,
    after: TunnelView,
) -> bool {
    at <= later && does_due(t, d, o, after)
}

/// How a tunnel answers when time passes: it does what is due by what the clock
/// shows.
pub open spec fn lets_time_pass(t: Tunn, o: OutcomeView, after: TunnelView) -> bool {
    exists|at: nat, later: nat|
        acts_by(t, at, later, #[trigger] tunnel_due(t, at, later), o, after)
}

/// `Tunn::new`: a tunnel with the two keys, without a preshared key, with the
/// given interval of keepalives and index, and with a rate limiter of its own.
/// It has no session and holds nothing back. The index only tells its messages
/// from those of other tunnels; nothing is said of it.
#[verifier::external_body]
pub(crate) fn tunnel_new(
    private: &[u8; 32],
    public: &[u8; 32],
    keepalive_secs: u16,
    index: u32,
) -> (r: Tunn)
    ensures
        tunnel_secret(r) == private@,
        tunnel_peer_key(r) == public@,
        tunnel_keepalive(r) == keepalive_secs,
        tunnel_queue(r).len() == 0,
        !tunnel_up(r),
        !tunnel_busy(r),
{
    Tunn::new(
        x25519_dalek::StaticSecret::from(*private),
        x25519_dalek::PublicKey::from(*public),
        None,
        Some(keepalive_secs),
        index,
        None,
    )
}

/// `Tunn::encapsulate` into a buffer of `room` bytes: the encrypted packet
/// where there is a session, which depends on the session's key, index and
/// counter and on the packet; otherwise the packet is held back, and the answer
/// is the start of a handshake, or nothing where one is under way, or an error
/// where there is no room for the start of one, which is then not under way. A
/// buffer with no room for the encrypted packet would panic.
#[verifier::external_body]
pub(crate) fn tunnel_encapsulate(tunn: &mut Tunn, packet: &[u8], room: usize) -> (r: TunnelOutcome)
    requires
        room >= packet@.len() + DATA_OVERHEAD,
    ensures
        tunnel_up(*old(tunn)) ==> r@ == OutcomeView::ToNetwork(
            tunnel_sealed(*old(tunn), packet@),
        ),
        takes_packet(
            *old(tunn),
            packet@,
            room as int,
            r@,
            tunnel_view(*final(tunn)),
        ),
{
    let mut out = vec![0u8; room];
    match tunn.encapsulate(packet, &mut out) {
        TunnResult::Done => TunnelOutcome::Done,
        TunnResult::Err(e) => TunnelOutcome::Failed(format!("{e:?}")),
        TunnResult::WriteToNetwork(b) => TunnelOutcome::ToNetwork(b.to_vec()),
        TunnResult::WriteToTunnelV4(b, a) => TunnelOutcome::ToTunnelV4 { debug: format!("{:?}", TunnResult::WriteToTunnelV4(b, a)) },
        TunnResult::WriteToTunnelV6(b, a) => TunnelOutcome::ToTunnelV6 { packet: b.to_vec(), debug: format!("{:?}", TunnResult::WriteToTunnelV6(b, a)) },
    }
}

/// `Tunn::decapsulate` without a source address, into a buffer of `room` bytes:
/// takes in a message of the other side or, where the datagram is empty, gives
/// the oldest packet that was held back to the tunnel anew. Whether a message is
/// accepted, and what it holds, depends on the tunnel and the message alone; the
/// bytes that answer the start of a handshake depend on chance, and only their
/// kind and length are said. A buffer with no room for the packet, encrypted or
/// decrypted, would panic, and so may a counter so high that adding the window
/// of reordering to it overflows.
#[verifier::external_body]
pub(crate) fn tunnel_decapsulate(tunn: &mut Tunn, datagram: &[u8], room: usize) -> (r:
    TunnelOutcome)
    requires
        room >= HANDSHAKE_INIT,
        room >= datagram@.len(),
        is_data(datagram@) ==> counter_of(datagram@) + REORDER_WINDOW <= u64::MAX,
        datagram@.len() == 0 && tunnel_queue(*old(tunn)).len() > 0 ==> room >= tunnel_queue(
            *old(tunn),
        )[0].len() + DATA_OVERHEAD,
    ensures
        is_initiation(datagram@) ==> (r@ is Failed <==> tunnel_refusal(
            *old(tunn),
            datagram@,
        ) is Some),
        datagram@.len() > 0 && !is_initiation(datagram@) ==> r@ == tunnel_opened(
            *old(tunn),
            datagram@,
        ),
        takes_datagram(*old(tunn), datagram@, r@, *final(tunn)),
{
    let mut out = vec![0u8; room];
    match tunn.decapsulate(None, datagram, &mut out) {
        TunnResult::Done => TunnelOutcome::Done,
        TunnResult::Err(e) => TunnelOutcome::Failed(format!("{e:?}")),
        TunnResult::WriteToNetwork(b) => TunnelOutcome::ToNetwork(b.to_vec()),
        TunnResult::WriteToTunnelV4(b, a) => TunnelOutcome::ToTunnelV4 { debug: format!("{:?}", TunnResult::WriteToTunnelV4(b, a)) },
        TunnResult::WriteToTunnelV6(b, a) => TunnelOutcome::ToTunnelV6 { packet: b.to_vec(), debug: format!("{:?}", TunnResult::WriteToTunnelV6(b, a)) },
    }
}

/// `Tunn::format_handshake_initiation` without resending, into a buffer of
/// `room` bytes: the start of a handshake, or nothing where one is under way,
/// which changes nothing.
#[verifier::external_body]
pub(crate) fn tunnel_handshake(tunn: &mut Tunn, room: usize) -> (r: TunnelOutcome)
    requires
        room >= HANDSHAKE_INIT,
    ensures
        starts_handshake(tunnel_busy(*old(tunn)), r@),
        tunnel_busy(*old(tunn)) ==> *final(tunn) == *old(tunn),
        tunnel_view(*final(tunn)) == with_handshake(tunnel_view(*old(tunn))),
{
    let mut out = vec![0u8; room];
    match tunn.format_handshake_initiation(&mut out, false) {
        TunnResult::Done => TunnelOutcome::Done,
        TunnResult::Err(e) => TunnelOutcome::Failed(format!("{e:?}")),
        TunnResult::WriteToNetwork(b) => TunnelOutcome::ToNetwork(b.to_vec()),
        TunnResult::WriteToTunnelV4(b, a) => TunnelOutcome::ToTunnelV4 { debug: format!("{:?}", TunnResult::WriteToTunnelV4(b, a)) },
        TunnResult::WriteToTunnelV6(b, a) => TunnelOutcome::ToTunnelV6 { packet: b.to_vec(), debug: format!("{:?}", TunnResult::WriteToTunnelV6(b, a)) },
    }
}

/// `Tunn::update_timers` into a buffer of `room` bytes: what the passing of
/// time makes necessary. That depends on the tunnel and on two readings of the
/// clock, the second of which gives the age of a handshake under way; the
/// readings are not passed on.
#[verifier::external_body]
pub(crate) fn tunnel_tick(tunn: &mut Tunn, room: usize) -> (r: TunnelOutcome)
    requires
        room >= HANDSHAKE_INIT,
    ensures
        (exists|at: nat, later: nat|
            acts_by(
                *old(tunn),
                at,
                later,
                #[trigger] tunnel_due(*old(tunn), at, later),
                r@,
                tunnel_view(*final(tunn)),
            )),
{
    let mut out = vec![0u8; room];
    match tunn.update_timers(&mut out) {
        TunnResult::Done => TunnelOutcome::Done,
        TunnResult::Err(e) => TunnelOutcome::Failed(format!("{e:?}")),
        TunnResult::WriteToNetwork(b) => TunnelOutcome::ToNetwork(b.to_vec()),
        TunnResult::WriteToTunnelV4(b, a) => TunnelOutcome::ToTunnelV4 { debug: format!("{:?}", TunnResult::WriteToTunnelV4(b, a)) },
        TunnResult::WriteToTunnelV6(b, a) => TunnelOutcome::ToTunnelV6 { packet: b.to_vec(), debug: format!("{:?}", TunnResult::WriteToTunnelV6(b, a)) },
    }
}

/// `Tunn::time_since_last_handshake`: whether there is a session. How long it
/// has been there is not passed on.
#[verifier::external_body]
pub(crate) fn tunnel_is_up(tunn: &Tunn) -> (r: bool)
    ensures
        r == tunnel_up(*tunn),
{
    tunn.time_since_last_handshake().is_some()
}

} // verus!
