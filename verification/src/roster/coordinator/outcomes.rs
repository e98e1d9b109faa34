//! What heartbeats and departures come to, over the peers of the roster and
//! what is to be done.

use crate::bindings::ids::{lemma_uuid_round_trip, uuid_text};
use crate::clock::Instant;
use crate::net::addr::ipv6_text;
use crate::net::socket::{host_text, is_public, socket_value, unsigned_value, SocketAddr};
use crate::net::split::{lacks, lemma_last_at_found};
use crate::numeral::{decimal, digit_of, lemma_number_of_numeral, lemma_numeral_chars};
use crate::order::{id_rank, listing, lists};
use crate::policy::{permits, RuleView};
use crate::roster::api::PeerEventView;
use crate::roster::coordinator::apply::{persisted, without};
use crate::roster::coordinator::connectivity::is_info_of;
use crate::roster::coordinator::effect::{EffectView, ErrorView, RosterEventView};
use crate::roster::coordinator::heartbeat::{
    beat, dialled, endpoint_port, leaving, punch_effects, stale_set, telling, told,
};
use crate::roster::coordinator::state::{by_id, law_peers_can_be_listed, wf, CoordView};
use crate::roster::entry::PeerView;
use crate::roster::events::{HeartbeatView, JoinedView, LeftView, PunchView};
use crate::text::lemma_keep_members;
use crate::traversal::holepunch::{canonical, is_tracked, spares, PunchPeerView, PunchRecord};
use vstd::prelude::*;

verus! {

// ---------------------------------------------------------------------------
// Pairs that are told to dial each other
// ---------------------------------------------------------------------------

/// Whether two peers are among the told pairs.
pub open spec fn were_told(punches: Seq<PunchRecord>, a: u128, b: u128) -> bool {
    exists|i: int|
        0 <= i < punches.len() && (#[trigger] punches[i]).pair == (if a < b {
            (a, b)
        } else {
            (b, a)
        })
}

/// Whether two peers are flagged to be dialled directly although one of them is
/// relay-only.
pub open spec fn are_flagged(direct_pairs: Seq<(u128, u128)>, a: u128, b: u128) -> bool {
    direct_pairs.contains(
        if a < b {
            (a, b)
        } else {
            (b, a)
        },
    )
}

/// Whether an endpoint names a port: behind its last colon, or the usual one
/// where there is no endpoint.
pub open spec fn names_port(endpoint: Option<Seq<char>>, port: u16) -> bool {
    match endpoint {
        None => port == 51820,
        Some(t) => exists|host: Seq<char>| t == #[trigger] (host + seq![':'] + decimal(port as int)),
    }
}

/// Whether `other` can be told to dial a peer at `at`. A peer that is not
/// relay-only is dialled at the endpoint that it has; a relay-only one, where
/// the two are flagged, at the address that it was seen under.
pub open spec fn can_be_dialled_at(
    direct_pairs: Seq<(u128, u128)>,
    e: PeerView,
    other: u128,
    at: Seq<char>,
) -> bool {
    &&& e.observed_external.len() > 0
    &&& at.len() > 0
    &&& if e.relay_only {
        &&& are_flagged(direct_pairs, e.peer_id, other)
        &&& exists|seen: SocketAddr, port: u16|
            {
                &&& socket_value(e.observed_external) == Some(seen)
                &&& names_port(e.listen_endpoint, port)
                &&& at == #[trigger] (host_text(seen.ip, 0) + seq![':'] + decimal(port as int))
            }
    } else {
        e.listen_endpoint == Some(at)
    }
}

proof fn lemma_named_port(endpoint: Option<Seq<char>>, port: u16)
    requires
        names_port(endpoint, port),
    ensures
        endpoint_port(endpoint) == port,
{
    if let Some(t) = endpoint {
        let d = decimal(port as int);
        let host = choose|host: Seq<char>| t == #[trigger] (host + seq![':'] + d);
        lemma_number_of_numeral(port as nat, 10);
        lemma_numeral_chars(port as nat, 10);
        assert(lacks(d, ':'));
        lemma_last_at_found(host, d, ':');
        assert(t.subrange(host.len() as int + 1, t.len() as int) =~= d);
        assert(digit_of(d[0]) < 10);
        assert(d[0] != '+');
        assert(unsigned_value(d, 65535) == Some(port as int));
    }
}

proof fn lemma_dialled_at(
    direct_pairs: Seq<(u128, u128)>,
    e: PeerView,
    other: u128,
    at: Seq<char>,
)
    requires
        e.peer_id != other,
        can_be_dialled_at(direct_pairs, e, other, at),
    ensures
        dialled(direct_pairs, e, other) is Some,
        (dialled(direct_pairs, e, other)->0).peer_id == e.peer_id,
        (dialled(direct_pairs, e, other)->0).dial_endpoint == at,
{
    if e.relay_only {
        let (seen, port) = choose|seen: SocketAddr, port: u16|
            {
                &&& socket_value(e.observed_external) == Some(seen)
                &&& names_port(e.listen_endpoint, port)
                &&& at == #[trigger] (host_text(seen.ip, 0) + seq![':'] + decimal(port as int))
            };
        lemma_named_port(e.listen_endpoint, port);
    }
}

/// What is told is kept, and only pairs of `a` are added.
proof fn lemma_told_adds(
    punches: Seq<PunchRecord>,
    direct_pairs: Seq<(u128, u128)>,
    a: PeerView,
    others: Seq<PeerView>,
    at_micros: i64,
)
    ensures
        ({
            let after = told(punches, direct_pairs, a, others, at_micros);
            &&& punches.len() <= after.len()
            &&& forall|i: int| 0 <= i < punches.len() ==> after[i] == punches[i]
            &&& forall|i: int|
                punches.len() <= i < after.len() ==> (#[trigger] after[i]).at_micros == at_micros
                    && exists|q: int|
                    {
                        &&& 0 <= q < others.len()
                        &&& a.peer_id != (#[trigger] others[q]).peer_id
                        &&& after[i].pair == canonical(a.peer_id, others[q].peer_id)
                        &&& dialled(direct_pairs, a, others[q].peer_id) is Some
                        &&& dialled(direct_pairs, others[q], a.peer_id) is Some
                    }
        }),
    decreases others.len(),
{
    if others.len() > 0 {
        let front = others.drop_last();
        let n = front.len() as int;
        lemma_told_adds(punches, direct_pairs, a, front, at_micros);
        let before = told(punches, direct_pairs, a, front, at_micros);
        let after = told(punches, direct_pairs, a, others, at_micros);
        assert forall|i: int| punches.len() <= i < after.len() implies (
        #[trigger] after[i]).at_micros == at_micros && exists|q: int|
            {
                &&& 0 <= q < others.len()
                &&& a.peer_id != (#[trigger] others[q]).peer_id
                &&& after[i].pair == canonical(a.peer_id, others[q].peer_id)
                &&& dialled(direct_pairs, a, others[q].peer_id) is Some
                &&& dialled(direct_pairs, others[q], a.peer_id) is Some
            } by {
            if i < before.len() {
                assert(after[i] == before[i]);
                let q = choose|q: int|
                    {
                        &&& 0 <= q < front.len()
                        &&& a.peer_id != (#[trigger] front[q]).peer_id
                        &&& before[i].pair == canonical(a.peer_id, front[q].peer_id)
                        &&& dialled(direct_pairs, a, front[q].peer_id) is Some
                        &&& dialled(direct_pairs, front[q], a.peer_id) is Some
                    };
                assert(others[q] == front[q]);
            } else {
                assert(others[n] == others.last());
                assert(a.peer_id != others[n].peer_id);
            }
        }
    }
}

/// A pair that can be told is told, at the latest when it is its turn.
proof fn lemma_pair_is_told(
    punches: Seq<PunchRecord>,
    direct_pairs: Seq<(u128, u128)>,
    a: PeerView,
    others: Seq<PeerView>,
    at_micros: i64,
    q: int,
)
    requires
        0 <= q < others.len(),
        a.peer_id != others[q].peer_id,
        dialled(direct_pairs, a, others[q].peer_id) is Some,
        dialled(direct_pairs, others[q], a.peer_id) is Some,
    ensures
        is_tracked(
            told(punches, direct_pairs, a, others, at_micros),
            canonical(a.peer_id, others[q].peer_id),
        ),
    decreases others.len(),
{
    let front = others.drop_last();
    let before = told(punches, direct_pairs, a, front, at_micros);
    let after = told(punches, direct_pairs, a, others, at_micros);
    let pair = canonical(a.peer_id, others[q].peer_id);
    if q < front.len() {
        assert(front[q] == others[q]);
        lemma_pair_is_told(punches, direct_pairs, a, front, at_micros, q);
        let i = choose|i: int| 0 <= i < before.len() && (#[trigger] before[i]).pair == pair;
        assert(after[i].pair == pair);
    } else if is_tracked(before, pair) {
        let i = choose|i: int| 0 <= i < before.len() && (#[trigger] before[i]).pair == pair;
        assert(after[i].pair == pair);
    } else {
        assert(after.last().pair == pair);
        assert(after[after.len() - 1].pair == pair);
    }
}

/// Whether a list holds what both of a pair are to be told.
pub open spec fn tells_both(
    all: Seq<EffectView>,
    a: u128,
    a_at: Seq<char>,
    b: u128,
    b_at: Seq<char>,
    at_micros: i64,
) -> bool {
    let to_b = PunchView {
        initiator_peer_id: uuid_text(a),
        target_peer_id: uuid_text(b),
        target_external_endpoint: b_at,
        timestamp_micros: at_micros,
    };
    let to_a = PunchView {
        initiator_peer_id: uuid_text(b),
        target_peer_id: uuid_text(a),
        target_external_endpoint: a_at,
        timestamp_micros: at_micros,
    };
    &&& all.contains(EffectView::Publish(RosterEventView::HolePunch(to_b)))
    &&& all.contains(EffectView::Broadcast(PeerEventView::HolePunch(to_b)))
    &&& all.contains(EffectView::Publish(RosterEventView::HolePunch(to_a)))
    &&& all.contains(EffectView::Broadcast(PeerEventView::HolePunch(to_a)))
}

proof fn lemma_tells_more(
    all: Seq<EffectView>,
    more: Seq<EffectView>,
    a: u128,
    a_at: Seq<char>,
    b: u128,
    b_at: Seq<char>,
    at_micros: i64,
)
    ensures
        tells_both(all, a, a_at, b, b_at, at_micros) ==> tells_both(
            all + more,
            a,
            a_at,
            b,
            b_at,
            at_micros,
        ),
        tells_both(more, a, a_at, b, b_at, at_micros) ==> tells_both(
            all + more,
            a,
            a_at,
            b,
            b_at,
            at_micros,
        ),
{
    assert forall|x: EffectView| all.contains(x) || more.contains(x) implies (all + more).contains(
        x,
    ) by {
        if all.contains(x) {
            let i = choose|i: int| 0 <= i < all.len() && all[i] == x;
            assert((all + more)[i] == x);
        } else {
            let i = choose|i: int| 0 <= i < more.len() && more[i] == x;
            assert((all + more)[all.len() + i] == x);
        }
    }
}

proof fn lemma_punches_tell(pa: PunchPeerView, pb: PunchPeerView, at_micros: i64)
    ensures
        tells_both(
            punch_effects(pa, pb, at_micros),
            pa.peer_id,
            pa.dial_endpoint,
            pb.peer_id,
            pb.dial_endpoint,
            at_micros,
        ),
{
    let all = punch_effects(pa, pb, at_micros);
    let to_b = PunchView {
        initiator_peer_id: uuid_text(pa.peer_id),
        target_peer_id: uuid_text(pb.peer_id),
        target_external_endpoint: pb.dial_endpoint,
        timestamp_micros: at_micros,
    };
    let to_a = PunchView {
        initiator_peer_id: uuid_text(pb.peer_id),
        target_peer_id: uuid_text(pa.peer_id),
        target_external_endpoint: pa.dial_endpoint,
        timestamp_micros: at_micros,
    };
    assert(all[0] == EffectView::Publish(RosterEventView::HolePunch(to_b)));
    assert(all[1] == EffectView::Broadcast(PeerEventView::HolePunch(to_b)));
    assert(all[2] == EffectView::Publish(RosterEventView::HolePunch(to_a)));
    assert(all[3] == EffectView::Broadcast(PeerEventView::HolePunch(to_a)));
}

/// The last of several different peers has not been told before its turn.
proof fn lemma_not_told_yet(
    punches: Seq<PunchRecord>,
    direct_pairs: Seq<(u128, u128)>,
    a: PeerView,
    others: Seq<PeerView>,
    at_micros: i64,
)
    requires
        others.len() > 0,
        a.peer_id != others.last().peer_id,
        !is_tracked(punches, canonical(a.peer_id, others.last().peer_id)),
        forall|i: int, j: int|
            0 <= i < j < others.len() ==> (#[trigger] others[i]).peer_id != (
            #[trigger] others[j]).peer_id,
    ensures
        !is_tracked(
            told(punches, direct_pairs, a, others.drop_last(), at_micros),
            canonical(a.peer_id, others.last().peer_id),
        ),
{
    let front = others.drop_last();
    let n = front.len() as int;
    let earlier = told(punches, direct_pairs, a, front, at_micros);
    let pair = canonical(a.peer_id, others[n].peer_id);
    lemma_told_adds(punches, direct_pairs, a, front, at_micros);
    if is_tracked(earlier, pair) {
        let i = choose|i: int| 0 <= i < earlier.len() && (#[trigger] earlier[i]).pair == pair;
        if i < punches.len() {
            assert(punches[i].pair == pair);
        } else {
            let p = choose|p: int|
                {
                    &&& 0 <= p < front.len()
                    &&& a.peer_id != (#[trigger] front[p]).peer_id
                    &&& earlier[i].pair == canonical(a.peer_id, front[p].peer_id)
                    &&& dialled(direct_pairs, a, front[p].peer_id) is Some
                    &&& dialled(direct_pairs, front[p], a.peer_id) is Some
                };
            assert(front[p] == others[p]);
            assert(others[p].peer_id != others[n].peer_id);
        }
    }
}

proof fn lemma_pair_is_told_of(
    punches: Seq<PunchRecord>,
    direct_pairs: Seq<(u128, u128)>,
    a: PeerView,
    others: Seq<PeerView>,
    at_micros: i64,
    q: int,
)
    requires
        0 <= q < others.len(),
        a.peer_id != others[q].peer_id,
        dialled(direct_pairs, a, others[q].peer_id) is Some,
        dialled(direct_pairs, others[q], a.peer_id) is Some,
        !is_tracked(punches, canonical(a.peer_id, others[q].peer_id)),
        forall|i: int, j: int|
            0 <= i < j < others.len() ==> (#[trigger] others[i]).peer_id != (
            #[trigger] others[j]).peer_id,
    ensures
        ({
            let pa = dialled(direct_pairs, a, others[q].peer_id)->0;
            let pb = dialled(direct_pairs, others[q], a.peer_id)->0;
            tells_both(
                telling(punches, direct_pairs, a, others, at_micros),
                pa.peer_id,
                pa.dial_endpoint,
                pb.peer_id,
                pb.dial_endpoint,
                at_micros,
            )
        }),
    decreases others.len(),
{
    let front = others.drop_last();
    let b = others[q];
    let pa = dialled(direct_pairs, a, b.peer_id)->0;
    let pb = dialled(direct_pairs, b, a.peer_id)->0;
    let before = telling(punches, direct_pairs, a, front, at_micros);
    let after = telling(punches, direct_pairs, a, others, at_micros);
    assert forall|i: int, j: int| 0 <= i < j < front.len() implies (
    #[trigger] front[i]).peer_id != (#[trigger] front[j]).peer_id by {
        assert(others[i].peer_id != others[j].peer_id);
    }
    if q < front.len() {
        assert(front[q] == others[q]);
        lemma_pair_is_told_of(punches, direct_pairs, a, front, at_micros, q);
        let last = others.last();
        let more = punch_effects(
            dialled(direct_pairs, a, last.peer_id)->0,
            dialled(direct_pairs, last, a.peer_id)->0,
            at_micros,
        );
        lemma_tells_more(
            before,
            more,
            pa.peer_id,
            pa.dial_endpoint,
            pb.peer_id,
            pb.dial_endpoint,
            at_micros,
        );
    } else {
        lemma_not_told_yet(punches, direct_pairs, a, others, at_micros);
        let more = punch_effects(pa, pb, at_micros);
        assert(after == before + more);
        lemma_punches_tell(pa, pb, at_micros);
        lemma_tells_more(
            before,
            more,
            pa.peer_id,
            pa.dial_endpoint,
            pb.peer_id,
            pb.dial_endpoint,
            at_micros,
        );
    }
}

/// Where a peer stands among the peers by identifier.
proof fn lemma_place_by_id(s: CoordView, k: u128) -> (q: int)
    requires
        wf(s),
        s.roster.contains_key(k),
    ensures
        0 <= q < by_id(s.roster).len(),
        by_id(s.roster)[q] == s.roster[k],
        forall|i: int, j: int|
            0 <= i < j < by_id(s.roster).len() ==> (#[trigger] by_id(s.roster)[i]).peer_id != (
            #[trigger] by_id(s.roster)[j]).peer_id,
        forall|i: int|
            0 <= i < by_id(s.roster).len() ==> s.roster.contains_key(
                (#[trigger] by_id(s.roster)[i]).peer_id,
            ) && s.roster[by_id(s.roster)[i].peer_id] == by_id(s.roster)[i],
{
    law_peers_can_be_listed(s);
    let ids = listing(s.roster.dom(), id_rank());
    assert(lists(ids, s.roster.dom(), id_rank()));
    assert(s.roster.dom().contains(k));
    assert forall|i: int| 0 <= i < ids.len() implies s.roster.contains_key(
        (#[trigger] by_id(s.roster)[i]).peer_id,
    ) && s.roster[by_id(s.roster)[i].peer_id] == by_id(s.roster)[i] && by_id(s.roster)[i].peer_id
        == ids[i] by {
        assert(s.roster.dom().contains(ids[i]));
        assert(s.roster.contains_key(ids[i]));
    }
    assert forall|i: int, j: int| 0 <= i < j < ids.len() implies (
    #[trigger] by_id(s.roster)[i]).peer_id != (#[trigger] by_id(s.roster)[j]).peer_id by {
        assert(id_rank()(ids[i]) < id_rank()(ids[j]));
    }
    choose|q: int| 0 <= q < ids.len() && ids[q] == k
}

/// After a heartbeat the peer that was heard of has been told of every other
/// peer of the roster such that each of the two can be dialled by the other.
/// Where the two had not been told before, both are told now: it is published
/// and broadcast of each that it is to dial the other, and where.
pub proof fn law_peers_that_can_meet_are_told(
    s: CoordView,
    id: u128,
    ev: HeartbeatView,
    port: Option<u16>,
    relay_only: bool,
    now: Instant,
    other: u128,
    id_at: Seq<char>,
    other_at: Seq<char>,
)
    requires
        wf(s),
        s.roster.contains_key(id),
        s.roster.contains_key(other),
        id != other,
        ({
            let t = beat(s, id, ev, port, relay_only, now).state;
            &&& can_be_dialled_at(s.direct_pairs, t.roster[id], other, id_at)
            &&& can_be_dialled_at(s.direct_pairs, t.roster[other], id, other_at)
        }),
    ensures
        ({
            let b = beat(s, id, ev, port, relay_only, now);
            &&& were_told(b.state.punches, id, other)
            &&& !were_told(s.punches, id, other) ==> tells_both(
                b.effects,
                id,
                id_at,
                other,
                other_at,
                ev.at_micros,
            )
        }),
{
    let b = beat(s, id, ev, port, relay_only, now);
    let t = b.state;
    let a = t.roster[id];
    let others = by_id(t.roster);
    assert(wf(t));
    let q = lemma_place_by_id(t, other);
    lemma_dialled_at(s.direct_pairs, a, other, id_at);
    lemma_dialled_at(s.direct_pairs, t.roster[other], id, other_at);
    lemma_pair_is_told(s.punches, s.direct_pairs, a, others, ev.at_micros, q);
    let pair = canonical(id, other);
    let i = choose|i: int| 0 <= i < t.punches.len() && (#[trigger] t.punches[i]).pair == pair;
    assert(t.punches[i].pair == pair);
    if !were_told(s.punches, id, other) {
        assert(!is_tracked(s.punches, pair));
        lemma_pair_is_told_of(s.punches, s.direct_pairs, a, others, ev.at_micros, q);
        let first = b.effects.take(2);
        let rest = telling(s.punches, s.direct_pairs, a, others, ev.at_micros);
        assert(b.effects =~= first + rest);
        lemma_tells_more(first, rest, id, id_at, other, other_at, ev.at_micros);
    }
}

/// Two peers of which neither is relay-only, which were both seen under some
/// address and both have an endpoint, are told of each other's endpoint,
/// whatever their networks, tags and roles are.
pub proof fn law_plain_peers_are_told_their_endpoints(
    s: CoordView,
    id: u128,
    ev: HeartbeatView,
    port: Option<u16>,
    relay_only: bool,
    now: Instant,
    other: u128,
)
    requires
        wf(s),
        s.roster.contains_key(id),
        s.roster.contains_key(other),
        id != other,
    ensures
        ({
            let b = beat(s, id, ev, port, relay_only, now);
            let x = b.state.roster[id];
            let y = b.state.roster[other];
            !x.relay_only && !y.relay_only && x.observed_external.len() > 0
                && y.observed_external.len() > 0 && x.listen_endpoint is Some && (
            x.listen_endpoint->0).len() > 0 && y.listen_endpoint is Some && (
            y.listen_endpoint->0).len() > 0 ==> {
                &&& were_told(b.state.punches, id, other)
                &&& !were_told(s.punches, id, other) ==> tells_both(
                    b.effects,
                    id,
                    x.listen_endpoint->0,
                    other,
                    y.listen_endpoint->0,
                    ev.at_micros,
                )
            }
        }),
{
    let b = beat(s, id, ev, port, relay_only, now);
    let x = b.state.roster[id];
    let y = b.state.roster[other];
    if !x.relay_only && !y.relay_only && x.observed_external.len() > 0 && y.observed_external.len()
        > 0 && x.listen_endpoint is Some && (x.listen_endpoint->0).len() > 0
        && y.listen_endpoint is Some && (y.listen_endpoint->0).len() > 0 {
        law_peers_that_can_meet_are_told(
            s,
            id,
            ev,
            port,
            relay_only,
            now,
            other,
            x.listen_endpoint->0,
            y.listen_endpoint->0,
        );
    }
}

proof fn lemma_telling_counts(
    punches: Seq<PunchRecord>,
    direct_pairs: Seq<(u128, u128)>,
    a: PeerView,
    others: Seq<PeerView>,
    at_micros: i64,
)
    ensures
        telling(punches, direct_pairs, a, others, at_micros).len() == 4 * (told(
            punches,
            direct_pairs,
            a,
            others,
            at_micros,
        ).len() - punches.len()),
    decreases others.len(),
{
    if others.len() > 0 {
        lemma_telling_counts(punches, direct_pairs, a, others.drop_last(), at_micros);
    }
}

/// Whether a peer can be dialled by another at all.
pub open spec fn can_be_dialled(direct_pairs: Seq<(u128, u128)>, e: PeerView, other: u128) -> bool {
    &&& e.observed_external.len() > 0
    &&& e.relay_only ==> are_flagged(direct_pairs, e.peer_id, other) && socket_value(
        e.observed_external,
    ) is Some
    &&& !e.relay_only ==> e.listen_endpoint is Some && (e.listen_endpoint->0).len() > 0
}

/// A heartbeat forgets no told pair. The pairs that it adds are of the peer
/// that was heard of and another one of the roster, each of which can be
/// dialled by the other, and were not told before; they carry the time of the
/// heartbeat.
pub proof fn law_only_peers_that_can_meet_are_told(
    s: CoordView,
    id: u128,
    ev: HeartbeatView,
    port: Option<u16>,
    relay_only: bool,
    now: Instant,
    i: int,
)
    requires
        wf(s),
        s.roster.contains_key(id),
        0 <= i < beat(s, id, ev, port, relay_only, now).state.punches.len(),
    ensures
        ({
            let t = beat(s, id, ev, port, relay_only, now).state;
            let r = t.punches[i];
            &&& s.punches.len() <= t.punches.len()
            &&& i < s.punches.len() ==> r == s.punches[i]
            &&& i >= s.punches.len() ==> r.at_micros == ev.at_micros && exists|other: u128|
                {
                    &&& #[trigger] t.roster.contains_key(other)
                    &&& other != id
                    &&& r.pair == (if id < other {
                        (id, other)
                    } else {
                        (other, id)
                    })
                    &&& can_be_dialled(s.direct_pairs, t.roster[id], other)
                    &&& can_be_dialled(s.direct_pairs, t.roster[other], id)
                }
        }),
{
    let t = beat(s, id, ev, port, relay_only, now).state;
    let a = t.roster[id];
    let others = by_id(t.roster);
    assert(wf(t));
    lemma_told_adds(s.punches, s.direct_pairs, a, others, ev.at_micros);
    let at = lemma_place_by_id(t, id);
    if i >= s.punches.len() {
        let r = t.punches[i];
        let q = choose|q: int|
            {
                &&& 0 <= q < others.len()
                &&& a.peer_id != (#[trigger] others[q]).peer_id
                &&& r.pair == canonical(a.peer_id, others[q].peer_id)
                &&& dialled(s.direct_pairs, a, others[q].peer_id) is Some
                &&& dialled(s.direct_pairs, others[q], a.peer_id) is Some
            };
        let other = others[q].peer_id;
        assert(t.roster.contains_key(other));
        assert(t.roster[other] == others[q]);
        assert(r.pair == (if id < other {
            (id, other)
        } else {
            (other, id)
        }));
    }
}

/// What a heartbeat asks for: first that it is published as it was, then that
/// viewers see the peer as it is now, then, for each pair that it adds, a
/// publication and a broadcast for each of the two.
pub proof fn law_heartbeats_are_published(
    s: CoordView,
    id: u128,
    ev: HeartbeatView,
    port: Option<u16>,
    relay_only: bool,
    now: Instant,
)
    requires
        s.roster.contains_key(id),
    ensures
        ({
            let b = beat(s, id, ev, port, relay_only, now);
            &&& b.result == Ok::<PeerView, ErrorView>(b.state.roster[id])
            &&& b.effects.len() == 2 + 4 * (b.state.punches.len() - s.punches.len())
            &&& b.effects[0] == EffectView::Publish(RosterEventView::Heartbeat(ev))
            &&& b.effects[1] matches EffectView::Broadcast(PeerEventView::Updated(info))
            &&& is_info_of(info, b.state.roster[id])
            &&& info.connectivity is None
            &&& info.connectivity_age_ms is None
        }),
{
    let b = beat(s, id, ev, port, relay_only, now);
    lemma_telling_counts(
        s.punches,
        s.direct_pairs,
        b.state.roster[id],
        by_id(b.state.roster),
        ev.at_micros,
    );
}

/// A heartbeat of a peer that is not there is refused, and changes nothing.
pub proof fn law_unknown_peers_are_not_heard(
    s: CoordView,
    id: u128,
    ev: HeartbeatView,
    port: Option<u16>,
    relay_only: bool,
    now: Instant,
)
    requires
        !s.roster.contains_key(id),
    ensures
        ({
            let b = beat(s, id, ev, port, relay_only, now);
            &&& b.result == Err::<PeerView, ErrorView>(ErrorView::UnknownPeer(id))
            &&& b.state == s
            &&& b.effects.len() == 0
        }),
{
}

/// What a heartbeat changes of its peer: when it was last heard of, the address
/// that it was seen under, the applications that it hosts, whether it is
/// relay-only, its versions where it named any, and perhaps its endpoint. All
/// else of it stays, and so do all other peers and what is known besides.
pub proof fn law_what_heartbeats_change(
    s: CoordView,
    id: u128,
    ev: HeartbeatView,
    port: Option<u16>,
    relay_only: bool,
    now: Instant,
    other: u128,
)
    requires
        s.roster.contains_key(id),
    ensures
        ({
            let t = beat(s, id, ev, port, relay_only, now).state;
            let old_e = s.roster[id];
            let e = t.roster[id];
            &&& e.last_heartbeat == now
            &&& e.observed_external == ev.observed_external
            &&& e.hosted_app_ulas == ev.hosted_app_ulas
            &&& e.relay_only == relay_only
            &&& ev.software_version is Some ==> e.software_version == ev.software_version
            &&& ev.software_version is None ==> e.software_version == old_e.software_version
            &&& ev.mesh_version is Some ==> e.mesh_version == ev.mesh_version
            &&& ev.mesh_version is None ==> e.mesh_version == old_e.mesh_version
            &&& e.peer_id == old_e.peer_id
            &&& e.wg_public_key == old_e.wg_public_key
            &&& e.ula == old_e.ula
            &&& e.peer_index == old_e.peer_index
            &&& e.display_name == old_e.display_name
            &&& e.network == old_e.network
            &&& e.tags == old_e.tags
            &&& e.joined_at_micros == old_e.joined_at_micros
            &&& e.kind == old_e.kind
            &&& e.parent == old_e.parent
            &&& e.app_uuid == old_e.app_uuid
            &&& e.paths == old_e.paths
            &&& e.dataplane_healthy == old_e.dataplane_healthy
            &&& e.pending_commands == old_e.pending_commands
            &&& t.roster.contains_key(other) <==> s.roster.contains_key(other)
            &&& other != id && s.roster.contains_key(other) ==> t.roster[other] == s.roster[other]
            &&& t.by_pubkey == s.by_pubkey
            &&& t.slots == s.slots
            &&& t.policy == s.policy
            &&& t.validator == s.validator
            &&& t.heartbeat_timeout == s.heartbeat_timeout
            &&& t.direct_pairs == s.direct_pairs
            &&& t.proactive == s.proactive
            &&& t.relay_forwarded_bytes == s.relay_forwarded_bytes
            &&& t.relay_wake_emitted == s.relay_wake_emitted
        }),
{
}

/// Whether an endpoint gives way to the address that its peer is seen under:
/// there is none, or it came from such an address, or it is one that cannot be
/// dialled from anywhere.
pub open spec fn gives_way(e: PeerView) -> bool {
    match e.listen_endpoint {
        None => true,
        Some(t) => e.endpoint_is_reflexive || (socket_value(t) matches Some(a) && !is_public(a.ip)),
    }
}

/// The endpoint of a peer after a heartbeat: one that gives way follows a public
/// address that the peer was seen under, with the port that it listens on, where
/// that is known and it is not relay-only; in every other situation the endpoint
/// stays.
pub proof fn law_endpoints_follow_the_observed_address(
    s: CoordView,
    id: u128,
    ev: HeartbeatView,
    port: Option<u16>,
    relay_only: bool,
    now: Instant,
)
    requires
        s.roster.contains_key(id),
    ensures
        ({
            let old_e = s.roster[id];
            let e = beat(s, id, ev, port, relay_only, now).state.roster[id];
            let seen = socket_value(ev.observed_external);
            if !relay_only && gives_way(old_e) && port is Some && seen is Some && is_public(
                (seen->0).ip,
            ) {
                &&& e.listen_endpoint == Some(
                    host_text((seen->0).ip, 0) + seq![':'] + decimal(port->0 as int),
                )
                &&& e.endpoint_is_reflexive || e.listen_endpoint == old_e.listen_endpoint
            } else {
                &&& e.listen_endpoint == old_e.listen_endpoint
                &&& e.endpoint_is_reflexive == old_e.endpoint_is_reflexive
            }
        }),
{
}

// ---------------------------------------------------------------------------
// Leaving
// ---------------------------------------------------------------------------

/// Whether an event describes a peer as the roster has it.
pub open spec fn is_event_of(ev: JoinedView, e: PeerView) -> bool {
    &&& ev.peer_id == uuid_text(e.peer_id)
    &&& ev.wg_public_key == e.wg_public_key
    &&& ev.ula == ipv6_text(e.ula)
    &&& e.listen_endpoint is None ==> ev.listen_endpoint.len() == 0
    &&& e.listen_endpoint is Some ==> e.listen_endpoint == Some(ev.listen_endpoint)
    &&& ev.display_name == e.display_name
    &&& ev.network == e.network
    &&& ev.tags == e.tags
    &&& ev.hosted_app_ulas == e.hosted_app_ulas
    &&& ev.joined_at_micros == e.joined_at_micros
    &&& ev.kind == e.kind
    &&& ev.parent == e.parent
    &&& ev.app_uuid == e.app_uuid
    &&& ev.software_version == e.software_version
    &&& ev.mesh_version == e.mesh_version
    &&& ev.relay_only == e.relay_only
}

/// Whether a list of events describes every peer of a roster, by identifier,
/// and nobody else.
pub open spec fn describes(evs: Seq<JoinedView>, roster: Map<u128, PeerView>) -> bool {
    &&& forall|k: u128| #[trigger]
        roster.contains_key(k) ==> exists|j: int|
            0 <= j < evs.len() && is_event_of(#[trigger] evs[j], roster[k])
    &&& forall|j: int|
        0 <= j < evs.len() ==> is_event_of_some(#[trigger] evs[j], roster)
    &&& forall|i: int, j: int|
        0 <= i < j < evs.len() ==> (#[trigger] evs[i]).peer_id != (#[trigger] evs[j]).peer_id
}

/// Whether an event describes a peer of a roster.
pub open spec fn is_event_of_some(ev: JoinedView, roster: Map<u128, PeerView>) -> bool {
    exists|k: u128| #[trigger] roster.contains_key(k) && is_event_of(ev, roster[k])
}

/// The durable copy of a roster describes each of its peers once, and nobody
/// else.
pub proof fn law_the_durable_copy_has_everybody(s: CoordView)
    requires
        wf(s),
    ensures
        describes(persisted(s.roster), s.roster),
{
    law_peers_can_be_listed(s);
    let ids = listing(s.roster.dom(), id_rank());
    let evs = persisted(s.roster);
    assert(lists(ids, s.roster.dom(), id_rank()));
    assert(ids.len() == evs.len());
    assert forall|j: int| 0 <= j < ids.len() implies s.roster.contains_key(#[trigger] ids[j])
        && is_event_of(evs[j], s.roster[ids[j]]) && evs[j].peer_id == uuid_text(ids[j]) by {
        assert(s.roster.dom().contains(ids[j]));
        assert(by_id(s.roster)[j] == s.roster[ids[j]]);
    }
    assert forall|j: int| 0 <= j < evs.len() implies is_event_of_some(
        #[trigger] evs[j],
        s.roster,
    ) by {
        let k = ids[j];
        assert(s.roster.contains_key(k));
    }
    assert forall|k: u128| #[trigger] s.roster.contains_key(k) implies exists|j: int|
        0 <= j < evs.len() && is_event_of(#[trigger] evs[j], s.roster[k]) by {
        assert(s.roster.dom().contains(k));
        let j = choose|j: int| 0 <= j < ids.len() && ids[j] == k;
        assert(is_event_of(evs[j], s.roster[ids[j]]));
    }
    assert forall|i: int, j: int| 0 <= i < j < evs.len() implies (#[trigger] evs[i]).peer_id != (
    #[trigger] evs[j]).peer_id by {
        assert(id_rank()(ids[i]) < id_rank()(ids[j]));
        lemma_uuid_round_trip(ids[i]);
        lemma_uuid_round_trip(ids[j]);
    }
}

/// A peer that leaves is gone, with its public key and the pairs that it was
/// told. Everybody else and everything else stays.
pub proof fn law_leaving_takes_only_the_peer(s: CoordView, id: u128, k: u128, key: Seq<u8>)
    requires
        s.roster.contains_key(id),
    ensures
        ({
            let t = without(s, id);
            &&& t.roster.contains_key(k) <==> s.roster.contains_key(k) && k != id
            &&& k != id && s.roster.contains_key(k) ==> t.roster[k] == s.roster[k]
            &&& t.by_pubkey.contains_key(key) <==> s.by_pubkey.contains_key(key) && key
                != s.roster[id].wg_public_key
            &&& t.by_pubkey.contains_key(key) ==> t.by_pubkey[key] == s.by_pubkey[key]
            &&& k != id && were_told(s.punches, k, id) ==> !were_told(t.punches, k, id)
            &&& t.slots == s.slots
            &&& t.policy == s.policy
            &&& t.validator == s.validator
            &&& t.heartbeat_timeout == s.heartbeat_timeout
            &&& t.direct_pairs == s.direct_pairs
            &&& t.proactive == s.proactive
            &&& t.relay_forwarded_bytes == s.relay_forwarded_bytes
            &&& t.holepunch_emitted == s.holepunch_emitted
            &&& t.relay_wake_emitted == s.relay_wake_emitted
        }),
{
    let t = without(s, id);
    if were_told(t.punches, k, id) {
        let i = choose|i: int|
            0 <= i < t.punches.len() && (#[trigger] t.punches[i]).pair == (if k < id {
                (k, id)
            } else {
                (id, k)
            });
        assert(t.punches.contains(t.punches[i]));
        lemma_keep_members(s.punches, spares(id), t.punches[i]);
    }
}

/// Whether what is done when a peer leaves is what is owed: its departure is
/// published, with the reason and the time, its relay connection is closed,
/// viewers are told with the tags that it had, and the durable copy is replaced
/// by one of those that stay.
pub open spec fn announces_departure(
    all: Seq<EffectView>,
    s: CoordView,
    id: u128,
    reason: Seq<char>,
    at_micros: i64,
) -> bool {
    &&& all.contains(
        EffectView::Publish(
            RosterEventView::Left(
                LeftView { peer_id: uuid_text(id), reason, left_at_micros: at_micros },
            ),
        ),
    )
    &&& all.contains(EffectView::DropRelay(s.roster[id].wg_public_key))
    &&& all.contains(
        EffectView::Broadcast(
            PeerEventView::Removed { peer_id: uuid_text(id), tags: s.roster[id].tags },
        ),
    )
    &&& exists|i: int|
        {
            &&& 0 <= i < all.len()
            &&& (#[trigger] all[i]) matches EffectView::Persist(evs)
            &&& describes(evs, s.roster.remove(id))
        }
}

/// A peer that is taken out of the mesh is announced as gone, and nothing else
/// is done.
pub proof fn law_departures_are_announced(
    s: CoordView,
    id: u128,
    reason: Seq<char>,
    at_micros: i64,
)
    requires
        wf(s),
        s.roster.contains_key(id),
    ensures
        announces_departure(leaving(s, id, reason, at_micros), s, id, reason, at_micros),
        leaving(s, id, reason, at_micros).len() == 4,
{
    let all = leaving(s, id, reason, at_micros);
    let t = without(s, id);
    assert(wf(t));
    assert(t.roster == s.roster.remove(id));
    law_the_durable_copy_has_everybody(t);
    assert(all[0] is Publish && all[1] is DropRelay && all[2] is Broadcast);
    assert(all[3] == EffectView::Persist(persisted(t.roster)));
}

/// Whoever was permitted to see a peer is told that it is gone, and nobody
/// else: every removal that is broadcast when a peer is taken out names it, with
/// tags by which every policy decides as by those that it had.
pub proof fn law_departures_are_seen_by_those_who_saw_the_peer(
    s: CoordView,
    id: u128,
    reason: Seq<char>,
    at_micros: i64,
    policy: Seq<RuleView>,
    viewer_tags: Seq<Seq<char>>,
)
    requires
        s.roster.contains_key(id),
    ensures
        ({
            let all = leaving(s, id, reason, at_micros);
            &&& exists|i: int|
                {
                    &&& 0 <= i < all.len()
                    &&& (#[trigger] all[i]) matches EffectView::Broadcast(
                        PeerEventView::Removed { peer_id, tags },
                    )
                    &&& peer_id == uuid_text(id)
                    &&& permits(policy, viewer_tags, tags) == permits(
                        policy,
                        viewer_tags,
                        s.roster[id].tags,
                    )
                }
            &&& forall|i: int|
                0 <= i < all.len() ==> ((#[trigger] all[i]) matches EffectView::Broadcast(
                    PeerEventView::Removed { peer_id, tags },
                ) ==> peer_id == uuid_text(id) && permits(policy, viewer_tags, tags) == permits(
                    policy,
                    viewer_tags,
                    s.roster[id].tags,
                ))
        }),
{
    let all = leaving(s, id, reason, at_micros);
    assert(all[2] is Broadcast);
}

/// Taking out a peer that is not there does nothing.
pub proof fn law_nobody_leaves_twice(s: CoordView, id: u128, reason: Seq<char>, at_micros: i64)
    requires
        !s.roster.contains_key(id),
    ensures
        leaving(s, id, reason, at_micros).len() == 0,
        without(s, id) == s,
{
}

/// A peer is silent for too long exactly if more time than the timeout has
/// passed since it was last heard of.
pub proof fn law_who_is_silent(s: CoordView, now: Instant, k: u128)
    ensures
        stale_set(s, now).contains(k) <==> s.roster.contains_key(k) && now.nanos
            > s.roster[k].last_heartbeat.nanos + s.heartbeat_timeout.nanos,
{
}

/// The port that a peer is dialled at where it has to be taken from its
/// endpoint: the number behind the last colon, where one is there and fits, and
/// the usual one otherwise.
pub proof fn law_which_port_is_dialled(host: Seq<char>, tail: Seq<char>, port: u16)
    requires
        lacks(tail, ':'),
    ensures
        endpoint_port(None) == 51820,
        endpoint_port(Some(host + seq![':'] + decimal(port as int))) == port,
        unsigned_value(tail, 65535) is None ==> endpoint_port(Some(host + seq![':'] + tail)) == 51820,
        unsigned_value(tail, 65535) is Some ==> Some(endpoint_port(Some(host + seq![':'] + tail)))
            == unsigned_value(tail, 65535),
{
    assert(names_port(Some(host + seq![':'] + decimal(port as int)), port));
    lemma_named_port(Some(host + seq![':'] + decimal(port as int)), port);
    lemma_last_at_found(host, tail, ':');
    let t = host + seq![':'] + tail;
    assert(t.subrange(host.len() as int + 1, t.len() as int) =~= tail);
}

} // verus!
