//! What holds of the coordinator as a whole.

use crate::auth::{ClaimsView, ReplyView};
use crate::bindings::ids::{lemma_uuid_round_trip, uuid_text, uuid_value};
use crate::clock::{since, Duration, Instant, Reading};
use crate::net::addr::{ipv6_value, lemma_from_segs, lemma_segs, segs, Ipv6Addr};
use crate::net::textual::lemma_ipv6_round_trip;
use crate::net::socket::SocketAddr;
use crate::order::{id_rank, lemma_listing_exists, listing, lists};
use crate::policy::RuleView;
use crate::roster::allocator::{host_address, host_segments, issued_in, slot_of};
use crate::roster::api::{PeerEventView, RequestView};
use crate::roster::coordinator::apply::{
    after_all, joined_entry, joined_result, persisted, with_peer, without,
};
use crate::roster::coordinator::effect::{EffectView, ErrorView, RegisterOutcome};
use crate::roster::coordinator::heartbeat::{beat, is_due, leaving, rolled, told};
use crate::roster::coordinator::registration::{
    admitted, authenticated, created, evictee, holder_of, holds_ula, is_claimed, is_first_holder,
    is_stale, placed, pubkey_of, question, refreshed, registered, ula_refusal, wanted_ula,
};
use crate::roster::coordinator::state::{by_id, entries_of, fresh_state, wf, CoordView};
use crate::roster::entry::{info_of, joined_of, PeerView};
use crate::roster::events::{HeartbeatView, JoinedView};
use crate::roster::identity::identity_of;
use crate::text::{lemma_keep_members, text_or_empty};
use crate::traversal::holepunch::{canonical, no_pair_twice, spares, PunchRecord};
use crate::traversal::reflexive::{is_sticky, resolved};
use vstd::prelude::*;

verus! {

/// Whether the peers and the index of their public keys agree: every peer is
/// held under its identifier and known by its key, and every known key is
/// that of a peer.
pub open spec fn consistent(s: CoordView) -> bool {
    &&& wf(s)
    &&& forall|k: u128| #[trigger]
        s.roster.contains_key(k) ==> s.by_pubkey.contains_key(s.roster[k].wg_public_key)
            && s.by_pubkey[s.roster[k].wg_public_key] == k
    &&& forall|key: Seq<u8>| #[trigger]
        s.by_pubkey.contains_key(key) ==> s.roster.contains_key(s.by_pubkey[key])
            && s.roster[s.by_pubkey[key]].wg_public_key == key
}

/// Whether no two peers have the same address.
pub open spec fn distinct_ulas(s: CoordView) -> bool {
    forall|a: u128, b: u128| #[trigger]
        s.roster.contains_key(a) && #[trigger] s.roster.contains_key(b) && a != b
            ==> s.roster[a].ula != s.roster[b].ula
}

/// Whether the counter of each slot has reached every address in use.
pub open spec fn counted(s: CoordView) -> bool {
    forall|k: u128| #[trigger]
        s.roster.contains_key(k) ==> segs(s.roster[k].ula)[3] <= issued_in(
            s.slots,
            segs(s.roster[k].ula)[2] as u16,
        )
}

/// A new coordinator is consistent, and no address is in use.
pub proof fn law_starts_consistent(timeout: Duration, policy: Seq<RuleView>, validator: bool)
    ensures
        consistent(fresh_state(timeout, policy, validator)),
        distinct_ulas(fresh_state(timeout, policy, validator)),
        counted(fresh_state(timeout, policy, validator)),
{
}

proof fn lemma_with_peer_consistent(s: CoordView, e: PeerView)
    requires
        consistent(s),
        !s.roster.contains_key(e.peer_id),
        !s.by_pubkey.contains_key(e.wg_public_key),
    ensures
        consistent(with_peer(s, e)),
{
    let t = with_peer(s, e);
    assert forall|k: u128| #[trigger] t.roster.contains_key(k) implies t.by_pubkey.contains_key(
        t.roster[k].wg_public_key,
    ) && t.by_pubkey[t.roster[k].wg_public_key] == k by {
        if k != e.peer_id {
            assert(s.roster.contains_key(k));
        }
    }
    assert forall|key: Seq<u8>| #[trigger] t.by_pubkey.contains_key(
        key,
    ) implies t.roster.contains_key(t.by_pubkey[key]) && t.roster[t.by_pubkey[key]].wg_public_key
        == key by {
        if key != e.wg_public_key {
            assert(s.by_pubkey.contains_key(key));
        }
    }
}

/// Leaving keeps the state consistent.
pub proof fn law_leaving_keeps_consistency(s: CoordView, id: u128)
    requires
        consistent(s),
    ensures
        consistent(without(s, id)),
{
    let t = without(s, id);
    assert forall|k: u128| #[trigger] t.roster.contains_key(k) implies t.by_pubkey.contains_key(
        t.roster[k].wg_public_key,
    ) && t.by_pubkey[t.roster[k].wg_public_key] == k by {
        assert(s.roster.contains_key(k));
    }
    assert forall|key: Seq<u8>| #[trigger] t.by_pubkey.contains_key(
        key,
    ) implies t.roster.contains_key(t.by_pubkey[key]) && t.roster[t.by_pubkey[key]].wg_public_key
        == key by {
        assert(s.by_pubkey.contains_key(key));
    }
}

/// Replacing a peer's entry by one with the same identifier and key keeps the
/// state consistent.
proof fn lemma_replaced_consistent(s: CoordView, id: u128, e: PeerView, t: CoordView)
    requires
        consistent(s),
        s.roster.contains_key(id),
        e.peer_id == id,
        e.wg_public_key == s.roster[id].wg_public_key,
        t.roster == s.roster.insert(id, e),
        t.by_pubkey == s.by_pubkey,
    ensures
        consistent(t),
{
    assert forall|k: u128| #[trigger] t.roster.contains_key(k) implies t.by_pubkey.contains_key(
        t.roster[k].wg_public_key,
    ) && t.by_pubkey[t.roster[k].wg_public_key] == k by {
        assert(s.roster.contains_key(k));
    }
    assert forall|key: Seq<u8>| #[trigger] t.by_pubkey.contains_key(
        key,
    ) implies t.roster.contains_key(t.by_pubkey[key]) && t.roster[t.by_pubkey[key]].wg_public_key
        == key by {
        assert(s.by_pubkey.contains_key(key));
    }
}

/// Registering keeps the state consistent, as long as the identifier that was
/// drawn is not in use.
pub proof fn law_registering_keeps_consistency(
    s: CoordView,
    req: RequestView,
    bearer: Option<Seq<char>>,
    reply: ReplyView,
    observed: Option<SocketAddr>,
    clock: Reading,
    id: u128,
)
    requires
        consistent(s),
        !s.roster.contains_key(id),
    ensures
        consistent(registered(s, req, bearer, reply, observed, clock, id).state),
{
    match authenticated(
        question(
            s.validator,
            bearer,
            req.wg_public_key,
        ),
        reply,
    ) {
        Err(_) => {},
        Ok(claims) => {
            lemma_admitted_consistent(s, req, claims, observed, clock, id);
        },
    }
}

proof fn lemma_admitted_consistent(
    s: CoordView,
    req: RequestView,
    claims: Option<ClaimsView>,
    observed: Option<SocketAddr>,
    clock: Reading,
    id: u128,
)
    requires
        consistent(s),
        !s.roster.contains_key(id),
    ensures
        consistent(admitted(s, req, claims, observed, clock, id).state),
{
    let j = admitted(s, req, claims, observed, clock, id);
    match pubkey_of(req.wg_public_key) {
        Err(_) => {},
        Ok(key) => {
            if s.by_pubkey.contains_key(key) {
                let known = s.by_pubkey[key];
                if j.result is Ok {
                    lemma_replaced_consistent(s, known, j.result->Ok_0.0, j.state);
                }
            } else {
                let r = resolved(req.listen_endpoint, observed, req.wg_listen_port, req.relay_only);
                let room = match evictee(s, req.requested_ula, clock.instant) {
                    Some(k) => without(s, k),
                    None => s,
                };
                if let Some(k) = evictee(s, req.requested_ula, clock.instant) {
                    law_leaving_keeps_consistency(s, k);
                }
                assert(!room.by_pubkey.contains_key(key));
                assert(!room.roster.contains_key(id));
                assert(consistent(room));
                if j.result is Ok {
                    let (ula, slots) = placed(
                        room,
                        identity_of(req, claims).network,
                        req.requested_ula,
                    )->Ok_0;
                    lemma_with_peer_consistent(
                        CoordView { slots, ..room },
                        j.result->Ok_0.0,
                    );
                }
            }
        },
    }
}

/// A heartbeat keeps the state consistent, and changes no address, key or
/// counter.
pub proof fn law_heartbeats_keep_consistency(
    s: CoordView,
    id: u128,
    ev: HeartbeatView,
    port: Option<u16>,
    relay_only: bool,
    now: Instant,
)
    requires
        consistent(s),
    ensures
        consistent(beat(s, id, ev, port, relay_only, now).state),
        beat(s, id, ev, port, relay_only, now).state.roster.dom() == s.roster.dom(),
        beat(s, id, ev, port, relay_only, now).state.slots == s.slots,
        forall|k: u128| #[trigger]
            s.roster.contains_key(k) ==> beat(s, id, ev, port, relay_only, now).state.roster[k].ula
                == s.roster[k].ula,
{
    let b = beat(s, id, ev, port, relay_only, now);
    if s.roster.contains_key(id) {
        lemma_replaced_consistent(s, id, b.result->Ok_0, b.state);
        assert(b.state.roster.dom() =~= s.roster.dom());
    }
}

/// Leaving a second time changes nothing and asks for nothing.
pub proof fn law_leaving_is_idempotent(
    s: CoordView,
    id: u128,
    reason: Seq<char>,
    at_micros: i64,
)
    ensures
        !without(s, id).roster.contains_key(id),
        without(without(s, id), id) == without(s, id),
        leaving(without(s, id), id, reason, at_micros) == Seq::<EffectView>::empty(),
{
}

/// A peer that left is in no told pair, so that it can be told again when it
/// comes back; all other told pairs stay.
pub proof fn law_leaving_forgets_pairs(s: CoordView, id: u128, r: PunchRecord)
    requires
        s.roster.contains_key(id),
    ensures
        without(s, id).punches.contains(r) <==> s.punches.contains(r) && r.pair.0 != id && r.pair.1
            != id,
{
    lemma_keep_members(s.punches, spares(id), r);
}

/// A pair is told at most once, however often its peers are heard of.
pub proof fn law_pairs_are_told_once(
    punches: Seq<PunchRecord>,
    direct_pairs: Seq<(u128, u128)>,
    a: PeerView,
    others: Seq<PeerView>,
    at_micros: i64,
)
    requires
        no_pair_twice(punches),
    ensures
        no_pair_twice(told(punches, direct_pairs, a, others, at_micros)),
        punches.is_prefix_of(told(punches, direct_pairs, a, others, at_micros)),
    decreases others.len(),
{
    if others.len() > 0 {
        law_pairs_are_told_once(punches, direct_pairs, a, others.drop_last(), at_micros);
        let before = told(punches, direct_pairs, a, others.drop_last(), at_micros);
        let after = told(punches, direct_pairs, a, others, at_micros);
        assert(punches =~= before.subrange(0, punches.len() as int));
        assert(punches =~= after.subrange(0, punches.len() as int));
    } else {
        assert(punches =~= punches.subrange(0, punches.len() as int));
    }
}

/// A peer that was just heard of is not silent for too long.
pub proof fn law_heartbeats_keep_peers_alive(
    s: CoordView,
    id: u128,
    ev: HeartbeatView,
    port: Option<u16>,
    relay_only: bool,
    now: Instant,
)
    requires
        s.roster.contains_key(id),
    ensures
        !crate::roster::coordinator::heartbeat::stale_set(
            beat(s, id, ev, port, relay_only, now).state,
            now,
        ).contains(id),
{
}

/// An endpoint that a peer chose for itself and that can be dialled from
/// anywhere outlives its heartbeats; so does that of a relay-only peer.
pub proof fn law_chosen_endpoints_stay(
    e: PeerView,
    observed: Seq<char>,
    port: Option<u16>,
    relay_only: bool,
)
    requires
        relay_only || (!e.endpoint_is_reflexive && e.listen_endpoint is Some && is_sticky(
            e.listen_endpoint->0,
        )),
    ensures
        rolled(e, observed, port, relay_only) == e,
{
}

/// The next address of a slot is not in use.
proof fn lemma_next_is_free(s: CoordView, slot: u16)
    requires
        counted(s),
        issued_in(s.slots, slot) < u16::MAX,
    ensures
        !is_claimed(s.roster, host_address(slot, (issued_in(s.slots, slot) + 1) as u16)),
        segs(host_address(slot, (issued_in(s.slots, slot) + 1) as u16)) == host_segments(
            slot,
            (issued_in(s.slots, slot) + 1) as u16,
        ),
{
    let index = (issued_in(s.slots, slot) + 1) as u16;
    let addr = host_address(slot, index);
    lemma_from_segs(host_segments(slot, index));
    if is_claimed(s.roster, addr) {
        let k = choose|k: u128| #[trigger] holds_ula(s.roster, addr, k);
        assert(segs(s.roster[k].ula)[3] == index);
        assert(segs(s.roster[k].ula)[2] == slot);
    }
}

proof fn lemma_with_peer_ulas(s: CoordView, e: PeerView)
    requires
        wf(s),
        distinct_ulas(s),
        counted(s),
        forall|k: u128| holds_ula(s.roster, e.ula, k) ==> k == e.peer_id,
    ensures
        distinct_ulas(with_peer(s, e)),
        counted(with_peer(s, e)),
{
    let t = with_peer(s, e);
    lemma_segs(e.ula);
    assert forall|a: u128, b: u128| #[trigger]
        t.roster.contains_key(a) && #[trigger] t.roster.contains_key(b) && a
            != b implies t.roster[a].ula != t.roster[b].ula by {
        if a != e.peer_id {
            assert(s.roster.contains_key(a));
            assert(!holds_ula(s.roster, e.ula, a));
        }
        if b != e.peer_id {
            assert(s.roster.contains_key(b));
            assert(!holds_ula(s.roster, e.ula, b));
        }
    }
    assert forall|k: u128| #[trigger] t.roster.contains_key(k) implies segs(t.roster[k].ula)[3]
        <= issued_in(t.slots, segs(t.roster[k].ula)[2] as u16) by {
        if k != e.peer_id {
            assert(s.roster.contains_key(k));
        }
    }
}

proof fn lemma_without_ulas(s: CoordView, id: u128)
    requires
        distinct_ulas(s),
        counted(s),
    ensures
        distinct_ulas(without(s, id)),
        counted(without(s, id)),
{
    let t = without(s, id);
    assert forall|a: u128, b: u128| #[trigger]
        t.roster.contains_key(a) && #[trigger] t.roster.contains_key(b) && a
            != b implies t.roster[a].ula != t.roster[b].ula by {
        assert(s.roster.contains_key(a) && s.roster.contains_key(b));
    }
    assert forall|k: u128| #[trigger] t.roster.contains_key(k) implies segs(t.roster[k].ula)[3]
        <= issued_in(t.slots, segs(t.roster[k].ula)[2] as u16) by {
        assert(s.roster.contains_key(k));
    }
}

/// Leaving keeps addresses distinct, and no counter goes back: the address of
/// a peer that left is not given out anew.
pub proof fn law_leaving_keeps_addresses_distinct(s: CoordView, id: u128)
    requires
        distinct_ulas(s),
        counted(s),
    ensures
        distinct_ulas(without(s, id)),
        counted(without(s, id)),
        without(s, id).slots == s.slots,
{
    lemma_without_ulas(s, id);
}

/// Registering gives no two peers the same address, whatever they ask for.
pub proof fn law_registering_keeps_addresses_distinct(
    s: CoordView,
    req: RequestView,
    bearer: Option<Seq<char>>,
    reply: ReplyView,
    observed: Option<SocketAddr>,
    clock: Reading,
    id: u128,
)
    requires
        wf(s),
        distinct_ulas(s),
        counted(s),
    ensures
        distinct_ulas(registered(s, req, bearer, reply, observed, clock, id).state),
        counted(registered(s, req, bearer, reply, observed, clock, id).state),
{
    match authenticated(
        question(
            s.validator,
            bearer,
            req.wg_public_key,
        ),
        reply,
    ) {
        Err(_) => {},
        Ok(claims) => {
            lemma_admitted_ulas(s, req, claims, observed, clock, id);
        },
    }
}

proof fn lemma_admitted_ulas(
    s: CoordView,
    req: RequestView,
    claims: Option<ClaimsView>,
    observed: Option<SocketAddr>,
    clock: Reading,
    id: u128,
)
    requires
        wf(s),
        distinct_ulas(s),
        counted(s),
    ensures
        distinct_ulas(admitted(s, req, claims, observed, clock, id).state),
        counted(admitted(s, req, claims, observed, clock, id).state),
{
    let j = admitted(s, req, claims, observed, clock, id);
    match pubkey_of(req.wg_public_key) {
        Err(_) => {},
        Ok(key) => {
            let r = resolved(req.listen_endpoint, observed, req.wg_listen_port, req.relay_only);
            if s.by_pubkey.contains_key(key) {
                lemma_refreshed_ulas(s, s.by_pubkey[key], req, claims, observed, clock);
            } else {
                let room = match evictee(s, req.requested_ula, clock.instant) {
                    Some(k) => without(s, k),
                    None => s,
                };
                if let Some(k) = evictee(s, req.requested_ula, clock.instant) {
                    lemma_without_ulas(s, k);
                }
                assert(wf(room));
                if j.result is Ok {
                    let network = identity_of(req, claims).network;
                    let (ula, slots) = placed(room, network, req.requested_ula)->Ok_0;
                    let middle = CoordView { slots, ..room };
                    if wanted_ula(req.requested_ula) is None {
                        lemma_next_is_free(room, slot_of(network));
                    }
                    assert(!is_claimed(room.roster, ula));
                    lemma_segs(ula);
                    assert(counted(middle)) by {
                        assert forall|k: u128| #[trigger]
                            middle.roster.contains_key(k) implies segs(middle.roster[k].ula)[3]
                            <= issued_in(middle.slots, segs(middle.roster[k].ula)[2] as u16) by {
                            assert(room.roster.contains_key(k));
                        }
                    }
                    assert(distinct_ulas(middle)) by {
                        assert forall|a: u128, b: u128| #[trigger]
                            middle.roster.contains_key(a) && #[trigger] middle.roster.contains_key(
                                b,
                            ) && a != b implies middle.roster[a].ula != middle.roster[b].ula by {
                            assert(room.roster.contains_key(a) && room.roster.contains_key(b));
                        }
                    }
                    lemma_with_peer_ulas(middle, j.result->Ok_0.0);
                }
            }
        },
    }
}

proof fn lemma_refreshed_ulas(
    s: CoordView,
    id: u128,
    req: RequestView,
    claims: Option<ClaimsView>,
    observed: Option<SocketAddr>,
    clock: Reading,
)
    requires
        wf(s),
        distinct_ulas(s),
        counted(s),
    ensures
        ({
            let r = resolved(req.listen_endpoint, observed, req.wg_listen_port, req.relay_only);
            let t = refreshed(s, id, req, claims, r, observed, clock).state;
            distinct_ulas(t) && counted(t)
        }),
{
    let r = resolved(req.listen_endpoint, observed, req.wg_listen_port, req.relay_only);
    let j = refreshed(s, id, req, claims, r, observed, clock);
    let t = j.state;
    let network = identity_of(req, claims).network;
    if j.result is Ok {
        let moved = claims is Some && network != s.roster[id].network;
        if moved {
            lemma_next_is_free(s, slot_of(network));
        }
        assert forall|a: u128, b: u128| #[trigger]
            t.roster.contains_key(a) && #[trigger] t.roster.contains_key(b) && a
                != b implies t.roster[a].ula != t.roster[b].ula by {
            assert(s.roster.contains_key(a) && s.roster.contains_key(b));
            if moved {
                assert(!holds_ula(s.roster, t.roster[id].ula, a));
                assert(!holds_ula(s.roster, t.roster[id].ula, b));
            }
        }
        assert forall|k: u128| #[trigger] t.roster.contains_key(k) implies segs(
            t.roster[k].ula,
        )[3] <= issued_in(t.slots, segs(t.roster[k].ula)[2] as u16) by {
            assert(s.roster.contains_key(k));
        }
    }
}

/// A joiner that is turned away leaves no trace: nothing changed, and there is
/// nothing to do.
pub proof fn law_refusals_change_nothing(
    s: CoordView,
    req: RequestView,
    bearer: Option<Seq<char>>,
    reply: ReplyView,
    observed: Option<SocketAddr>,
    clock: Reading,
    id: u128,
)
    requires
        distinct_ulas(s),
        registered(s, req, bearer, reply, observed, clock, id).result is Err,
    ensures
        registered(s, req, bearer, reply, observed, clock, id).state == s,
        registered(s, req, bearer, reply, observed, clock, id).effects
            == Seq::<EffectView>::empty(),
{
    if let Some(k) = evictee(s, req.requested_ula, clock.instant) {
        let addr = wanted_ula(req.requested_ula)->0;
        assert(is_claimed(s.roster, addr));
        lemma_first_holder(s.roster, addr);
        assert(holds_ula(s.roster, addr, k));
        let room = without(s, k);
        if is_claimed(room.roster, addr) {
            let j = choose|j: u128| #[trigger] holds_ula(room.roster, addr, j);
            assert(s.roster.contains_key(j) && s.roster.contains_key(k));
        }
    }
}

/// A peer that is not silent keeps its address, whoever else asks for it: a
/// joiner that may have the address is turned away over the conflict, any other
/// because it may not have it.
pub proof fn law_live_holders_keep_their_address(
    s: CoordView,
    key: Seq<u8>,
    req: RequestView,
    claims: Option<ClaimsView>,
    observed: Option<SocketAddr>,
    clock: Reading,
    id: u128,
    k: u128,
)
    requires
        distinct_ulas(s),
        pubkey_of(req.wg_public_key) == Ok::<Seq<u8>, ErrorView>(key),
        !s.by_pubkey.contains_key(key),
        wanted_ula(req.requested_ula) is Some,
        holds_ula(s.roster, wanted_ula(req.requested_ula)->0, k),
        !is_stale(s, k, clock.instant),
    ensures
        admitted(s, req, claims, observed, clock, id).result == Err::<
            (PeerView, RegisterOutcome),
            ErrorView,
        >(
            match ula_refusal(req.requested_ula, identity_of(req, claims).network, claims) {
                Some(e) => e,
                None => ErrorView::UlaConflict(req.requested_ula->0),
            },
        ),
        admitted(s, req, claims, observed, clock, id).state == s,
{
    let addr = wanted_ula(req.requested_ula)->0;
    assert(is_claimed(s.roster, addr));
    lemma_first_holder(s.roster, addr);
    let first = holder_of(s.roster, addr)->0;
    assert(s.roster.contains_key(k) && s.roster.contains_key(first));
    assert(first == k);
}

/// Where some peer has an address, there is a first one that has it.
pub(crate) proof fn lemma_first_holder(roster: Map<u128, PeerView>, addr: Ipv6Addr)
    requires
        is_claimed(roster, addr),
    ensures
        holder_of(roster, addr) is Some,
        is_first_holder(roster, addr, holder_of(roster, addr)->0),
{
    let k = choose|k: u128| #[trigger] holds_ula(roster, addr, k);
    lemma_first_holder_from(roster, addr, k);
}

proof fn lemma_first_holder_from(roster: Map<u128, PeerView>, addr: Ipv6Addr, k: u128)
    requires
        holds_ula(roster, addr, k),
    ensures
        exists|j: u128| is_first_holder(roster, addr, j),
    decreases k,
{
    if forall|j: u128| #[trigger] holds_ula(roster, addr, j) ==> k <= j {
        assert(is_first_holder(roster, addr, k));
    } else {
        let j = choose|j: u128| #[trigger] holds_ula(roster, addr, j) && j < k;
        lemma_first_holder_from(roster, addr, j);
    }
}

/// A public key that joined once keeps its identifier: joining again makes no
/// second peer. Without a token that moves it, it keeps its network and its
/// address too, and is not turned away.
pub proof fn law_joining_again_keeps_the_peer(
    s: CoordView,
    req: RequestView,
    claims: Option<ClaimsView>,
    observed: Option<SocketAddr>,
    clock: Reading,
    id: u128,
    again: RequestView,
    claims_again: Option<ClaimsView>,
    observed_again: Option<SocketAddr>,
    clock_again: Reading,
    id_again: u128,
)
    requires
        consistent(s),
        !s.roster.contains_key(id),
        admitted(s, req, claims, observed, clock, id).result is Ok,
        pubkey_of(again.wg_public_key) == pubkey_of(req.wg_public_key),
    ensures
        ({
            let first = admitted(s, req, claims, observed, clock, id);
            let second = admitted(
                first.state,
                again,
                claims_again,
                observed_again,
                clock_again,
                id_again,
            );
            let e = first.result->Ok_0.0;
            &&& second.state.roster.dom() == first.state.roster.dom()
            &&& second.result is Ok ==> second.result->Ok_0.1 == RegisterOutcome::Existed
                && second.result->Ok_0.0.peer_id == e.peer_id
            &&& claims_again is None || claims_again->0.network == e.network ==> {
                &&& second.result is Ok
                &&& second.result->Ok_0.0.ula == e.ula
                &&& second.result->Ok_0.0.network == e.network
                &&& second.state.slots == first.state.slots
            }
        }),
{
    let first = admitted(s, req, claims, observed, clock, id);
    let e = first.result->Ok_0.0;
    lemma_admitted_consistent(s, req, claims, observed, clock, id);
    let key = pubkey_of(req.wg_public_key)->Ok_0;
    if s.by_pubkey.contains_key(key) {
        assert(s.roster.contains_key(s.by_pubkey[key]));
    }
    assert(first.state.roster.contains_key(e.peer_id));
    assert(first.state.roster[e.peer_id] == e);
    assert(e.wg_public_key == key);
    assert(first.state.by_pubkey[key] == e.peer_id);
    let second = admitted(
        first.state,
        again,
        claims_again,
        observed_again,
        clock_again,
        id_again,
    );
    assert(second.state.roster.dom() =~= first.state.roster.dom());
}

/// Where a token was validated, the peer ends up in the token's network; a
/// peer that moves there gets an address of that network's block.
pub proof fn law_tokens_decide_the_network(
    s: CoordView,
    req: RequestView,
    claims: ClaimsView,
    observed: Option<SocketAddr>,
    clock: Reading,
    id: u128,
)
    requires
        consistent(s),
        admitted(s, req, Some(claims), observed, clock, id).result is Ok,
    ensures
        ({
            let e = admitted(s, req, Some(claims), observed, clock, id).result->Ok_0.0;
            &&& e.network == claims.network
            &&& s.roster.contains_key(e.peer_id) && e.peer_id != id && s.roster[e.peer_id].network
                != claims.network ==> segs(e.ula)[2] == slot_of(claims.network)
        }),
{
    let slot = slot_of(claims.network);
    if issued_in(s.slots, slot) < u16::MAX {
        lemma_from_segs(host_segments(slot, (issued_in(s.slots, slot) + 1) as u16));
    }
    let key = pubkey_of(req.wg_public_key)->Ok_0;
    if s.by_pubkey.contains_key(key) {
        assert(s.roster.contains_key(s.by_pubkey[key]));
    }
}

/// What the durable copy keeps of a peer.
pub open spec fn same_durable(a: PeerView, b: PeerView) -> bool {
    &&& a.peer_id == b.peer_id
    &&& a.wg_public_key == b.wg_public_key
    &&& a.ula == b.ula
    &&& text_or_empty(a.listen_endpoint) == text_or_empty(b.listen_endpoint)
    &&& a.display_name == b.display_name
    &&& a.network == b.network
    &&& a.tags == b.tags
    &&& a.hosted_app_ulas == b.hosted_app_ulas
    &&& a.joined_at_micros == b.joined_at_micros
    &&& a.kind == b.kind
    &&& a.parent == b.parent
    &&& a.app_uuid == b.app_uuid
    &&& a.software_version == b.software_version
    &&& a.mesh_version == b.mesh_version
    &&& a.relay_only == b.relay_only
}

/// A peer's joining event gives the peer back.
pub proof fn law_events_rebuild_peers(e: PeerView, now: Instant)
    ensures
        joined_result(joined_of(e), now) is Ok,
        same_durable(joined_result(joined_of(e), now)->Ok_0, e),
        joined_result(joined_of(e), now)->Ok_0.last_heartbeat == now,
        joined_result(joined_of(e), now)->Ok_0.peer_index == segs(e.ula)[3],
{
    let ev = joined_of(e);
    assert(uuid_value(ev.peer_id) == Some(e.peer_id)) by {
        lemma_uuid_round_trip(e.peer_id);
    }
    assert(ipv6_value(ev.ula) == Some(e.ula)) by {
        lemma_ipv6_round_trip(e.ula);
    }
    assert(0 <= segs(e.ula)[3] <= u16::MAX) by {
        lemma_segs(e.ula);
    }
    let f = joined_entry(ev, e.peer_id, e.ula, now);
    assert(text_or_empty(f.listen_endpoint) =~= text_or_empty(e.listen_endpoint));
    assert(joined_result(ev, now) == Ok::<PeerView, ErrorView>(
        joined_entry(ev, e.peer_id, e.ula, now),
    ));
}

/// What a prefix of a roster's events rebuilds.
proof fn lemma_rebuilt_prefix(
    s: CoordView,
    start: CoordView,
    ids: Seq<u128>,
    n: int,
    now: Instant,
)
    requires
        consistent(s),
        lists(ids, s.roster.dom(), id_rank()),
        listing(s.roster.dom(), id_rank()) == ids,
        start.roster == Map::<u128, PeerView>::empty(),
        start.by_pubkey == Map::<Seq<u8>, u128>::empty(),
        start.slots == Map::<u16, u16>::empty(),
        0 <= n <= ids.len(),
    ensures
        ({
            let t = after_all(start, persisted(s.roster).take(n), now);
            &&& forall|k: u128| #[trigger]
                t.roster.contains_key(k) <==> exists|i: int|
                    0 <= i < n && (#[trigger] ids[i]) == k
            &&& forall|k: u128| #[trigger]
                t.roster.contains_key(k) ==> s.roster.contains_key(k) && same_durable(
                    t.roster[k],
                    s.roster[k],
                ) && t.by_pubkey.contains_key(t.roster[k].wg_public_key)
                    && t.by_pubkey[t.roster[k].wg_public_key] == k
            &&& forall|key: Seq<u8>| #[trigger]
                t.by_pubkey.contains_key(key) ==> t.roster.contains_key(t.by_pubkey[key])
                    && t.roster[t.by_pubkey[key]].wg_public_key == key
            &&& counted(t)
        }),
    decreases n,
{
    let evs = persisted(s.roster);
    assert(by_id(s.roster) == entries_of(s.roster, ids));
    if n == 0 {
        assert(evs.take(0) =~= Seq::<JoinedView>::empty());
    } else {
        lemma_rebuilt_prefix(s, start, ids, n - 1, now);
        assert(evs.take(n).drop_last() =~= evs.take(n - 1));
        let id = ids[n - 1];
        let e = s.roster[id];
        assert(s.roster.dom().contains(id));
        assert(s.roster.contains_key(id) && e.peer_id == id);
        assert(evs.take(n).last() == joined_of(e));
        law_events_rebuild_peers(e, now);
        let before = after_all(start, evs.take(n - 1), now);
        let t = after_all(start, evs.take(n), now);
        let f = joined_result(joined_of(e), now)->Ok_0;
        assert(t == with_peer(before, f));
        assert forall|k: u128| #[trigger] t.roster.contains_key(k) <==> exists|i: int|
            0 <= i < n && (#[trigger] ids[i]) == k by {
            if t.roster.contains_key(k) {
                if k == id {
                    assert(ids[n - 1] == k);
                } else {
                    assert(before.roster.contains_key(k));
                    let i = choose|i: int| 0 <= i < n - 1 && (#[trigger] ids[i]) == k;
                    assert(ids[i] == k);
                }
            }
            if exists|i: int| 0 <= i < n && (#[trigger] ids[i]) == k {
                let i = choose|i: int| 0 <= i < n && (#[trigger] ids[i]) == k;
                if i < n - 1 {
                    assert(before.roster.contains_key(k));
                }
            }
        }
        assert forall|k: u128| #[trigger] t.roster.contains_key(k) implies s.roster.contains_key(k)
            && same_durable(t.roster[k], s.roster[k]) && t.by_pubkey.contains_key(
            t.roster[k].wg_public_key,
        ) && t.by_pubkey[t.roster[k].wg_public_key] == k by {
            if k != id {
                assert(before.roster.contains_key(k));
                assert(s.by_pubkey[s.roster[k].wg_public_key] == k);
                assert(s.by_pubkey[s.roster[id].wg_public_key] == id);
            }
        }
        assert(!before.roster.contains_key(id)) by {
            if before.roster.contains_key(id) {
                let i = choose|i: int| 0 <= i < n - 1 && (#[trigger] ids[i]) == id;
                assert(id_rank()(ids[i]) < id_rank()(ids[n - 1]));
            }
        }
        assert forall|key: Seq<u8>| #[trigger] t.by_pubkey.contains_key(
            key,
        ) implies t.roster.contains_key(t.by_pubkey[key])
            && t.roster[t.by_pubkey[key]].wg_public_key == key by {
            if key != f.wg_public_key {
                assert(before.by_pubkey.contains_key(key));
            }
        }
        lemma_segs(f.ula);
        assert forall|k: u128| #[trigger] t.roster.contains_key(k) implies segs(
            t.roster[k].ula,
        )[3] <= issued_in(t.slots, segs(t.roster[k].ula)[2] as u16) by {
            if k != id {
                assert(before.roster.contains_key(k));
            }
        }
    }
}

/// What was persisted restores the roster: the same peers with the same
/// addresses, keys, networks and tags, known by the same keys, and no address
/// in use is given out again.
pub proof fn law_restoring_rebuilds_the_roster(s: CoordView, start: CoordView, now: Instant)
    requires
        consistent(s),
        start.roster == Map::<u128, PeerView>::empty(),
        start.by_pubkey == Map::<Seq<u8>, u128>::empty(),
        start.slots == Map::<u16, u16>::empty(),
    ensures
        ({
            let t = after_all(start, persisted(s.roster), now);
            &&& t.roster.dom() == s.roster.dom()
            &&& forall|k: u128| #[trigger]
                s.roster.contains_key(k) ==> same_durable(t.roster[k], s.roster[k])
            &&& t.by_pubkey == s.by_pubkey
            &&& consistent(t)
            &&& counted(t)
        }),
{
    lemma_listing_exists(s.roster.dom(), id_rank());
    let ids = listing(s.roster.dom(), id_rank());
    let n = ids.len() as int;
    let evs = persisted(s.roster);
    lemma_rebuilt_prefix(s, start, ids, n, now);
    assert(evs.take(n) =~= evs);
    let t = after_all(start, evs, now);
    assert forall|k: u128| t.roster.contains_key(k) == s.roster.contains_key(k) by {
        if s.roster.contains_key(k) {
            assert(s.roster.dom().contains(k));
            assert(ids.contains(k));
            let i = choose|i: int| 0 <= i < ids.len() && ids[i] == k;
            assert(ids[i] == k);
        }
    }
    assert(t.roster.dom() =~= s.roster.dom());
    assert forall|key: Seq<u8>| t.by_pubkey.contains_key(key) == s.by_pubkey.contains_key(key)
        && (t.by_pubkey.contains_key(key) ==> t.by_pubkey[key] == s.by_pubkey[key]) by {
        if t.by_pubkey.contains_key(key) {
            let k = t.by_pubkey[key];
            assert(t.roster.contains_key(k));
            assert(s.roster[k].wg_public_key == key);
        }
        if s.by_pubkey.contains_key(key) {
            let k = s.by_pubkey[key];
            assert(s.roster.contains_key(k));
            assert(t.roster.contains_key(k));
            assert(t.roster[k].wg_public_key == key);
        }
    }
    assert(t.by_pubkey =~= s.by_pubkey);
}

/// Two peers of which one is relay-only and not flagged for the other are never
/// told to dial each other.
pub proof fn law_relay_only_peers_are_left_alone(
    punches: Seq<PunchRecord>,
    direct_pairs: Seq<(u128, u128)>,
    a: PeerView,
    b: PeerView,
)
    requires
        a.relay_only || b.relay_only,
        !direct_pairs.contains(canonical(a.peer_id, b.peer_id)),
    ensures
        !is_due(punches, direct_pairs, a, b),
{
}

/// A peer that joins as relay-only has no endpoint that others could dial.
pub proof fn law_relay_only_peers_have_no_endpoint(
    s: CoordView,
    req: RequestView,
    bearer: Option<Seq<char>>,
    reply: ReplyView,
    observed: Option<SocketAddr>,
    clock: Reading,
    id: u128,
)
    requires
        req.relay_only,
        registered(s, req, bearer, reply, observed, clock, id).result is Ok,
    ensures
        ({
            let (e, _) = registered(s, req, bearer, reply, observed, clock, id).result->Ok_0;
            e.listen_endpoint is None && !e.endpoint_is_reflexive && e.relay_only
        }),
{
}

/// A heartbeat that reports no version leaves the reported one as it is.
pub proof fn law_versions_are_not_forgotten(
    s: CoordView,
    id: u128,
    ev: HeartbeatView,
    port: Option<u16>,
    relay_only: bool,
    now: Instant,
)
    requires
        s.roster.contains_key(id),
    ensures
        ({
            let after = beat(s, id, ev, port, relay_only, now).state.roster[id];
            &&& ev.software_version is None ==> after.software_version
                == s.roster[id].software_version
            &&& ev.mesh_version is None ==> after.mesh_version == s.roster[id].mesh_version
            &&& ev.software_version is Some ==> after.software_version == ev.software_version
            &&& ev.mesh_version is Some ==> after.mesh_version == ev.mesh_version
        }),
{
}

/// A peer that moves to another network gets an address of that network, and
/// viewers see it leave, with the tags that they knew it by, before they see it
/// join.
pub proof fn law_moving_peers_leave_first(
    s: CoordView,
    id: u128,
    req: RequestView,
    claims: ClaimsView,
    observed: Option<SocketAddr>,
    clock: Reading,
)
    requires
        s.roster.contains_key(id),
        claims.network != s.roster[id].network,
        issued_in(s.slots, slot_of(claims.network)) < u16::MAX,
    ensures
        ({
            let r = resolved(req.listen_endpoint, observed, req.wg_listen_port, req.relay_only);
            let join = refreshed(s, id, req, Some(claims), r, observed, clock);
            &&& join.result matches Ok((e, o)) && o == RegisterOutcome::Existed && e.network
                == claims.network && segs(e.ula)[2] == slot_of(claims.network) && e.peer_id
                == s.roster[id].peer_id && join.effects[1] == EffectView::Broadcast(
                PeerEventView::Added(info_of(e, None, None)),
            )
            &&& join.effects[0] == EffectView::Broadcast(
                PeerEventView::Removed { peer_id: uuid_text(id), tags: s.roster[id].tags },
            )
        }),
{
    let slot = slot_of(claims.network);
    let index = (issued_in(s.slots, slot) + 1) as u16;
    lemma_from_segs(host_segments(slot, index));
}

/// A silent peer that makes room for a joiner is seen to leave before the
/// joiner is seen to join, and is gone then.
pub proof fn law_evicted_peers_leave_first(
    s: CoordView,
    key: Seq<u8>,
    req: RequestView,
    claims: Option<ClaimsView>,
    observed: Option<SocketAddr>,
    clock: Reading,
    id: u128,
    gone: u128,
)
    requires
        evictee(s, req.requested_ula, clock.instant) == Some(gone),
        s.roster.contains_key(gone),
        id != gone,
        ({
            let r = resolved(req.listen_endpoint, observed, req.wg_listen_port, req.relay_only);
            created(s, key, req, claims, r, observed, clock, id).result is Ok
        }),
    ensures
        ({
            let r = resolved(req.listen_endpoint, observed, req.wg_listen_port, req.relay_only);
            let join = created(s, key, req, claims, r, observed, clock, id);
            &&& !join.state.roster.contains_key(gone)
            &&& join.effects.len() == 7
            &&& join.effects[1] == EffectView::Broadcast(
                PeerEventView::Removed { peer_id: uuid_text(gone), tags: s.roster[gone].tags },
            )
            &&& join.effects[2] == EffectView::DropRelay(s.roster[gone].wg_public_key)
            &&& join.effects[5] == EffectView::Broadcast(
                PeerEventView::Added(info_of((join.result->Ok_0).0, None, None)),
            )
        }),
{
}

/// A joiner that asks for an address and may have it, with a public key that is
/// not known.
pub open spec fn asks_for(
    s: CoordView,
    req: RequestView,
    bearer: Option<Seq<char>>,
    reply: ReplyView,
    addr: Ipv6Addr,
) -> bool {
    &&& wanted_ula(req.requested_ula) == Some(addr)
    &&& pubkey_of(req.wg_public_key) matches Ok(key) && !s.by_pubkey.contains_key(key)
    &&& authenticated(question(s.validator, bearer, req.wg_public_key), reply) matches Ok(claims)
        && ula_refusal(req.requested_ula, identity_of(req, claims).network, claims) is None
}

/// Of two joiners with different public keys that ask for the same free address
/// and may both have it, the one that comes first gets it, and the other is
/// turned away over the conflict, unless it comes so late that the first has
/// been silent for too long; then exactly one peer has the address.
pub proof fn law_an_address_is_taken_once(
    s: CoordView,
    addr: Ipv6Addr,
    a: RequestView,
    bearer_a: Option<Seq<char>>,
    reply_a: ReplyView,
    observed_a: Option<SocketAddr>,
    clock_a: Reading,
    id_a: u128,
    b: RequestView,
    bearer_b: Option<Seq<char>>,
    reply_b: ReplyView,
    observed_b: Option<SocketAddr>,
    clock_b: Reading,
    id_b: u128,
)
    requires
        asks_for(s, a, bearer_a, reply_a, addr),
        asks_for(s, b, bearer_b, reply_b, addr),
        pubkey_of(a.wg_public_key) != pubkey_of(b.wg_public_key),
        !is_claimed(s.roster, addr),
        !s.roster.contains_key(id_a),
        since(clock_b.instant, clock_a.instant) <= s.heartbeat_timeout.nanos,
    ensures
        ({
            let first = registered(s, a, bearer_a, reply_a, observed_a, clock_a, id_a);
            let second = registered(
                first.state,
                b,
                bearer_b,
                reply_b,
                observed_b,
                clock_b,
                id_b,
            );
            &&& first.result matches Ok((e, o)) && e.ula == addr && o == RegisterOutcome::Created
            &&& second.result == Err::<(PeerView, RegisterOutcome), ErrorView>(
                ErrorView::UlaConflict(b.requested_ula->0),
            )
            &&& second.state == first.state
            &&& forall|k: u128| #[trigger]
                holds_ula(second.state.roster, addr, k) <==> k == id_a
        }),
{
    let first = registered(s, a, bearer_a, reply_a, observed_a, clock_a, id_a);
    let t = first.state;
    assert(evictee(s, a.requested_ula, clock_a.instant) is None);
    assert forall|k: u128| #[trigger] holds_ula(t.roster, addr, k) <==> k == id_a by {
        if k != id_a {
            assert(!holds_ula(s.roster, addr, k));
        }
    }
    assert(holds_ula(t.roster, addr, id_a));
    assert(is_claimed(t.roster, addr));
    lemma_first_holder(t.roster, addr);
    assert(holder_of(t.roster, addr) == Some(id_a));
    assert(!is_stale(t, id_a, clock_b.instant));
}

/// Where the second of two joiners for the same free address comes so late that
/// the first has been silent for too long, the first makes room and the second
/// gets the address; again exactly one peer has it.
pub proof fn law_an_address_passes_on(
    s: CoordView,
    addr: Ipv6Addr,
    a: RequestView,
    bearer_a: Option<Seq<char>>,
    reply_a: ReplyView,
    observed_a: Option<SocketAddr>,
    clock_a: Reading,
    id_a: u128,
    b: RequestView,
    bearer_b: Option<Seq<char>>,
    reply_b: ReplyView,
    observed_b: Option<SocketAddr>,
    clock_b: Reading,
    id_b: u128,
)
    requires
        asks_for(s, a, bearer_a, reply_a, addr),
        asks_for(s, b, bearer_b, reply_b, addr),
        pubkey_of(a.wg_public_key) != pubkey_of(b.wg_public_key),
        !is_claimed(s.roster, addr),
        !s.roster.contains_key(id_a),
        !s.roster.contains_key(id_b),
        since(clock_b.instant, clock_a.instant) > s.heartbeat_timeout.nanos,
    ensures
        ({
            let first = registered(s, a, bearer_a, reply_a, observed_a, clock_a, id_a);
            let second = registered(
                first.state,
                b,
                bearer_b,
                reply_b,
                observed_b,
                clock_b,
                id_b,
            );
            &&& first.result matches Ok((e, o)) && e.ula == addr && o == RegisterOutcome::Created
            &&& second.result matches Ok((e, o)) && e.ula == addr && o == RegisterOutcome::Created
            &&& forall|k: u128| #[trigger]
                holds_ula(second.state.roster, addr, k) <==> k == id_b
        }),
{
    let first = registered(s, a, bearer_a, reply_a, observed_a, clock_a, id_a);
    let t = first.state;
    assert(evictee(s, a.requested_ula, clock_a.instant) is None);
    assert forall|k: u128| #[trigger] holds_ula(t.roster, addr, k) <==> k == id_a by {
        if k != id_a {
            assert(!holds_ula(s.roster, addr, k));
        }
    }
    assert(holds_ula(t.roster, addr, id_a));
    assert(is_claimed(t.roster, addr));
    lemma_first_holder(t.roster, addr);
    assert(holder_of(t.roster, addr) == Some(id_a));
    assert(is_stale(t, id_a, clock_b.instant));
    let room = without(t, id_a);
    assert forall|k: u128| !#[trigger] holds_ula(room.roster, addr, k) by {
        assert(k != id_a ==> !holds_ula(t.roster, addr, k));
    }
    assert(!is_claimed(room.roster, addr));
    let second = registered(t, b, bearer_b, reply_b, observed_b, clock_b, id_b);
    assert forall|k: u128| #[trigger] holds_ula(second.state.roster, addr, k) <==> k == id_b by {
        if k != id_b {
            assert(!holds_ula(room.roster, addr, k));
        }
    }
}

} // verus!
