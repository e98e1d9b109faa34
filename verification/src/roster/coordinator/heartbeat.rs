//! Signs of life, leaving, and what peers are told to try.

use crate::bindings::ids::{id_text, uuid_text};
use crate::clock::{since, Instant, Reading};
use crate::net::socket::{read_unsigned, socket_value, unsigned_value, SocketAddr};
use crate::net::split::{find_last, last_at, lemma_last_at, slice_chars};
use crate::order::{id_rank, lemma_listing, listing, lists};
use crate::roster::api::{PeerEvent, PeerEventView};
use crate::roster::coordinator::apply::{beaten, entry_result, persisted, without};
use crate::roster::coordinator::effect::{
    ask, effects, CoordinatorError, Effect, EffectView, ErrorView, RosterEvent, RosterEventView,
};
use crate::roster::coordinator::state::{by_id, entry_views, wf, CoordView, Coordinator};
use crate::roster::entry::{info_of, PeerEntry, PeerView};
use crate::roster::events::{
    HeartbeatView, HolePunchInitiate, LeftView, PeerHeartbeat, PeerLeft, PunchView,
};
use crate::text::{chars_of, opt_text, same_text, strs};
use crate::traversal::holepunch::{
    canonical, canonical_pair, is_tracked, PunchPeer, PunchPeerView, PunchRecord,
};
use crate::traversal::reflexive::{
    endpoint_text, is_sticky, is_sticky_explicit_endpoint, reflexive_endpoint,
    resolve_listen_endpoint, resolved,
};
use vstd::prelude::*;

verus! {

/// The port that a tunnel listens on where none is known.
pub const DEFAULT_WG_PORT: u16 = 51820;

/// A peer whose endpoint follows the address that it was seen under.
///
/// An endpoint that the peer chose for itself and that can be dialled from
/// anywhere stays; any other gives way to the observed one.
pub open spec fn rolled(
    e: PeerView,
    observed: Seq<char>,
    port: Option<u16>,
    relay_only: bool,
) -> PeerView {
    if relay_only || socket_value(observed) is None {
        e
    } else if !e.endpoint_is_reflexive && e.listen_endpoint is Some && is_sticky(
        e.listen_endpoint->0,
    ) {
        e
    } else {
        let r = resolved(None, socket_value(observed), port, false);
        if r.reflexive {
            if r.endpoint != e.listen_endpoint {
                PeerView { listen_endpoint: r.endpoint, endpoint_is_reflexive: true, ..e }
            } else {
                e
            }
        } else {
            e
        }
    }
}

/// A peer after a heartbeat.
pub open spec fn heard(
    e: PeerView,
    ev: HeartbeatView,
    port: Option<u16>,
    relay_only: bool,
    now: Instant,
) -> PeerView {
    rolled(
        PeerView { relay_only, ..beaten(e, ev, now) },
        ev.observed_external,
        port,
        relay_only,
    )
}

/// The port of an endpoint: what follows its last colon.
pub open spec fn endpoint_port(endpoint: Option<Seq<char>>) -> int {
    match endpoint {
        Some(s) => match unsigned_value(s.subrange(last_at(s, ':') + 1, s.len() as int), 65535) {
            Some(p) => p,
            None => DEFAULT_WG_PORT as int,
        },
        None => DEFAULT_WG_PORT as int,
    }
}

/// Where `other` could be told to dial a peer directly.
///
/// A peer whose outside address is unknown cannot be dialled. A relay-only peer
/// is dialled only by those it is flagged for, at the address that it was seen
/// under. Any other peer is dialled at its endpoint.
pub open spec fn dialled(
    direct_pairs: Seq<(u128, u128)>,
    e: PeerView,
    other: u128,
) -> Option<PunchPeerView> {
    if e.observed_external.len() == 0 {
        None
    } else if e.relay_only {
        if direct_pairs.contains(canonical(e.peer_id, other)) {
            match socket_value(e.observed_external) {
                Some(a) => Some(
                    PunchPeerView {
                        peer_id: e.peer_id,
                        dial_endpoint: endpoint_text(a.ip, endpoint_port(e.listen_endpoint)),
                    },
                ),
                None => None,
            }
        } else {
            None
        }
    } else {
        match e.listen_endpoint {
            Some(s) => if s.len() == 0 {
                None
            } else {
                Some(PunchPeerView { peer_id: e.peer_id, dial_endpoint: s })
            },
            None => None,
        }
    }
}

/// One peer should dial another.
pub open spec fn punch(from: PunchPeerView, to: PunchPeerView, at_micros: i64) -> PunchView {
    PunchView {
        initiator_peer_id: uuid_text(from.peer_id),
        target_peer_id: uuid_text(to.peer_id),
        target_external_endpoint: to.dial_endpoint,
        timestamp_micros: at_micros,
    }
}

/// What is to be done when two peers should dial each other: both are told.
pub open spec fn punch_effects(a: PunchPeerView, b: PunchPeerView, at_micros: i64) -> Seq<
    EffectView,
> {
    seq![
        EffectView::Publish(RosterEventView::HolePunch(punch(a, b, at_micros))),
        EffectView::Broadcast(PeerEventView::HolePunch(punch(a, b, at_micros))),
        EffectView::Publish(RosterEventView::HolePunch(punch(b, a, at_micros))),
        EffectView::Broadcast(PeerEventView::HolePunch(punch(b, a, at_micros))),
    ]
}

/// Whether `a` and `b` are to be told now: they are two peers, each can be
/// dialled by the other, and they have not been told.
pub open spec fn is_due(
    punches: Seq<PunchRecord>,
    direct_pairs: Seq<(u128, u128)>,
    a: PeerView,
    b: PeerView,
) -> bool {
    &&& a.peer_id != b.peer_id
    &&& dialled(direct_pairs, a, b.peer_id) is Some
    &&& dialled(direct_pairs, b, a.peer_id) is Some
    &&& !is_tracked(punches, canonical(a.peer_id, b.peer_id))
}

/// The told pairs once `a` has been held against each of `others` in turn.
pub open spec fn told(
    punches: Seq<PunchRecord>,
    direct_pairs: Seq<(u128, u128)>,
    a: PeerView,
    others: Seq<PeerView>,
    at_micros: i64,
) -> Seq<PunchRecord>
    decreases others.len(),
{
    if others.len() == 0 {
        punches
    } else {
        let before = told(punches, direct_pairs, a, others.drop_last(), at_micros);
        if is_due(before, direct_pairs, a, others.last()) {
            before.push(
                PunchRecord { pair: canonical(a.peer_id, others.last().peer_id), at_micros },
            )
        } else {
            before
        }
    }
}

/// What is to be done then.
pub open spec fn telling(
    punches: Seq<PunchRecord>,
    direct_pairs: Seq<(u128, u128)>,
    a: PeerView,
    others: Seq<PeerView>,
    at_micros: i64,
) -> Seq<EffectView>
    decreases others.len(),
{
    if others.len() == 0 {
        Seq::empty()
    } else {
        let before = telling(punches, direct_pairs, a, others.drop_last(), at_micros);
        let b = others.last();
        if is_due(
            told(punches, direct_pairs, a, others.drop_last(), at_micros),
            direct_pairs,
            a,
            b,
        ) {
            before + punch_effects(
                dialled(direct_pairs, a, b.peer_id)->0,
                dialled(direct_pairs, b, a.peer_id)->0,
                at_micros,
            )
        } else {
            before
        }
    }
}

/// What a heartbeat comes to.
#[verifier::ext_equal]
pub struct BeatView {
    /// The peer, or why there is none.
    pub result: Result<PeerView, ErrorView>,
    /// The state afterwards.
    pub state: CoordView,
    /// What is to be done.
    pub effects: Seq<EffectView>,
}

/// What a heartbeat of a peer comes to.
pub open spec fn beat(
    s: CoordView,
    id: u128,
    ev: HeartbeatView,
    port: Option<u16>,
    relay_only: bool,
    now: Instant,
) -> BeatView {
    if !s.roster.contains_key(id) {
        BeatView { result: Err(ErrorView::UnknownPeer(id)), state: s, effects: Seq::empty() }
    } else {
        let e = heard(s.roster[id], ev, port, relay_only, now);
        let roster = s.roster.insert(id, e);
        BeatView {
            result: Ok(e),
            state: CoordView {
                roster,
                punches: told(s.punches, s.direct_pairs, e, by_id(roster), ev.at_micros),
                ..s
            },
            effects: seq![
                EffectView::Publish(RosterEventView::Heartbeat(ev)),
                EffectView::Broadcast(PeerEventView::Updated(info_of(e, None, None))),
            ] + telling(s.punches, s.direct_pairs, e, by_id(roster), ev.at_micros),
        }
    }
}

/// What is to be done when a peer leaves.
pub open spec fn leaving(s: CoordView, id: u128, reason: Seq<char>, at_micros: i64) -> Seq<
    EffectView,
> {
    if s.roster.contains_key(id) {
        seq![
            EffectView::Publish(
                RosterEventView::Left(
                    LeftView { peer_id: uuid_text(id), reason, left_at_micros: at_micros },
                ),
            ),
            EffectView::DropRelay(s.roster[id].wg_public_key),
            EffectView::Broadcast(
                PeerEventView::Removed { peer_id: uuid_text(id), tags: s.roster[id].tags },
            ),
            EffectView::Persist(persisted(without(s, id).roster)),
        ]
    } else {
        Seq::empty()
    }
}

/// The peers that have been silent for longer than they may.
pub open spec fn stale_set(s: CoordView, now: Instant) -> Set<u128> {
    Set::new(
        |k: u128|
            s.roster.contains_key(k) && since(now, s.roster[k].last_heartbeat)
                > s.heartbeat_timeout.nanos,
    )
}

fn port_of(endpoint: &Option<String>) -> (r: u16)
    ensures
        r == endpoint_port(opt_text(*endpoint)),
{
    match endpoint {
        Some(s) => {
            let c = chars_of(s.as_str());
            let n = c.len();
            proof {
                lemma_last_at(c@, ':');
            }
            let from = match find_last(c.as_slice(), ':') {
                Some(p) => p + 1,
                None => 0,
            };
            let tail = slice_chars(c.as_slice(), from, n);
            match read_unsigned(tail.as_slice(), 65535) {
                Some(p) => p as u16,
                None => DEFAULT_WG_PORT,
            }
        },
        None => DEFAULT_WG_PORT,
    }
}

fn same_endpoint(a: &Option<String>, b: &Option<String>) -> (r: bool)
    ensures
        r == (opt_text(*a) == opt_text(*b)),
{
    match (a, b) {
        (Some(x), Some(y)) => same_text(x.as_str(), y.as_str()),
        (None, None) => true,
        _ => false,
    }
}

/// Lets a peer's endpoint follow the address that it was seen under.
fn refresh_reflexive_endpoint(
    entry: PeerEntry,
    observed_external: &str,
    wg_listen_port: Option<u16>,
    relay_only: bool,
) -> (r: PeerEntry)
    ensures
        r@ == rolled(entry@, observed_external@, wg_listen_port, relay_only),
{
    let mut e = entry;
    if relay_only {
        return e;
    }
    let observed = match SocketAddr::parse(observed_external) {
        Some(a) => a,
        None => {
            return e;
        },
    };
    if !e.endpoint_is_reflexive {
        if let Some(s) = &e.listen_endpoint {
            if is_sticky_explicit_endpoint(s.as_str()) {
                return e;
            }
        }
    }
    let none: Option<String> = None;
    let r = resolve_listen_endpoint(&none, Some(observed), wg_listen_port, false);
    if r.reflexive && !same_endpoint(&r.endpoint, &e.listen_endpoint) {
        e.listen_endpoint = r.endpoint;
        e.endpoint_is_reflexive = true;
    }
    e
}

/// Tells two peers to dial each other.
fn tell_pair(a: &PunchPeer, b: &PunchPeer, at_micros: i64, out: &mut Vec<Effect>)
    ensures
        effects(final(out)@) == effects(old(out)@) + punch_effects(a@, b@, at_micros),
{
    let a_to_b = HolePunchInitiate {
        initiator_peer_id: id_text(a.peer_id),
        target_peer_id: id_text(b.peer_id),
        target_external_endpoint: b.dial_endpoint.clone(),
        timestamp_micros: at_micros,
    };
    let b_to_a = HolePunchInitiate {
        initiator_peer_id: id_text(b.peer_id),
        target_peer_id: id_text(a.peer_id),
        target_external_endpoint: a.dial_endpoint.clone(),
        timestamp_micros: at_micros,
    };
    ask(out, Effect::Publish(RosterEvent::HolePunch(a_to_b.clone())));
    ask(out, Effect::Broadcast(PeerEvent::HolePunch(a_to_b)));
    ask(out, Effect::Publish(RosterEvent::HolePunch(b_to_a.clone())));
    ask(out, Effect::Broadcast(PeerEvent::HolePunch(b_to_a)));
    assert(effects(out@) =~= effects(old(out)@) + punch_effects(a@, b@, at_micros));
}

impl Coordinator {
    /// Where another peer could be told to dial a peer directly.
    fn punch_peer_for_pair(&self, e: &PeerEntry, other: u128) -> (r: Option<PunchPeer>)
        ensures
            match r {
                Some(p) => dialled(self@.direct_pairs, e@, other) == Some(p@),
                None => dialled(self@.direct_pairs, e@, other) is None,
            },
    {
        if e.observed_external.as_str().is_empty() {
            return None;
        }
        if e.relay_only {
            if !self.direct_pair_flags().is_direct(e.peer_id, other) {
                return None;
            }
            return match SocketAddr::parse(e.observed_external.as_str()) {
                Some(a) => Some(
                    PunchPeer {
                        peer_id: e.peer_id,
                        dial_endpoint: reflexive_endpoint(&a.ip, port_of(&e.listen_endpoint)),
                    },
                ),
                None => None,
            };
        }
        match &e.listen_endpoint {
            Some(s) => if s.as_str().is_empty() {
                None
            } else {
                Some(PunchPeer { peer_id: e.peer_id, dial_endpoint: s.clone() })
            },
            None => None,
        }
    }

    /// Tells a peer and each other one that it can reach directly, once per
    /// pair.
    fn try_emit_holepunch_pairs(&mut self, a: &PeerEntry, at_micros: i64, out: &mut Vec<Effect>)
        requires
            wf(old(self)@),
        ensures
            final(self)@ == (CoordView {
                punches: told(
                    old(self)@.punches,
                    old(self)@.direct_pairs,
                    a@,
                    by_id(old(self)@.roster),
                    at_micros,
                ),
                ..old(self)@
            }),
            effects(final(out)@) == effects(old(out)@) + telling(
                old(self)@.punches,
                old(self)@.direct_pairs,
                a@,
                by_id(old(self)@.roster),
                at_micros,
            ),
    {
        let all = self.ordered(false);
        let ghost others = entry_views(all@);
        let ghost s = self@;
        let mut i: usize = 0;
        assert(others.take(0) =~= Seq::<PeerView>::empty());
        assert(effects(out@) + Seq::<EffectView>::empty() =~= effects(out@));
        while i < all.len()
            invariant
                i <= all@.len(),
                others == entry_views(all@),
                self@ == (CoordView {
                    punches: told(
                        s.punches,
                        s.direct_pairs,
                        a@,
                        others.take(i as int),
                        at_micros,
                    ),
                    ..s
                }),
                effects(out@) == effects(old(out)@) + telling(
                    s.punches,
                    s.direct_pairs,
                    a@,
                    others.take(i as int),
                    at_micros,
                ),
            decreases all@.len() - i,
        {
            let b = &all[i];
            proof {
                assert(others.take(i + 1).drop_last() =~= others.take(i as int));
                assert(others.take(i + 1).last() == b@);
            }
            if b.peer_id != a.peer_id {
                let pa = self.punch_peer_for_pair(a, b.peer_id);
                let pb = self.punch_peer_for_pair(b, a.peer_id);
                if let (Some(pa), Some(pb)) = (pa, pb) {
                    if self.claim_pair(canonical_pair(a.peer_id, b.peer_id), at_micros) {
                        tell_pair(&pa, &pb, at_micros, out);
                        assert(effects(out@) =~= effects(old(out)@) + telling(
                            s.punches,
                            s.direct_pairs,
                            a@,
                            others.take(i + 1),
                            at_micros,
                        ));
                    }
                }
            }
            i = i + 1;
        }
        assert(others.take(others.len() as int) =~= others);
    }

    /// Notes a heartbeat of a peer.
    pub fn heartbeat(
        &mut self,
        peer_id: u128,
        observed_external: String,
        wg_listen_port: Option<u16>,
        hosted_app_ulas: Vec<String>,
        software_version: Option<String>,
        mesh_version: Option<String>,
        relay_only: bool,
        clock: Reading,
        out: &mut Vec<Effect>,
    ) -> (answer: Result<PeerEntry, CoordinatorError>)
        requires
            wf(old(self)@),
        ensures
            ({
                let ev = HeartbeatView {
                    peer_id: uuid_text(peer_id),
                    observed_external: observed_external@,
                    hosted_app_ulas: strs(hosted_app_ulas@),
                    software_version: opt_text(software_version),
                    mesh_version: opt_text(mesh_version),
                    at_micros: clock.unix_micros,
                };
                let b = beat(old(self)@, peer_id, ev, wg_listen_port, relay_only, clock.instant);
                &&& entry_result(answer) == b.result
                &&& final(self)@ == b.state
                &&& effects(final(out)@) == effects(old(out)@) + b.effects
            }),
            wf(final(self)@),
    {
        let ghost s = self@;
        assert(effects(out@) + Seq::<EffectView>::empty() =~= effects(out@));
        if self.entry(peer_id).is_none() {
            return Err(CoordinatorError::UnknownPeer(peer_id));
        }
        let event = PeerHeartbeat {
            peer_id: id_text(peer_id),
            observed_external,
            hosted_app_ulas,
            software_version,
            mesh_version,
            at_micros: clock.unix_micros,
        };
        self.apply_peer_heartbeat(&event, clock.instant);
        match self.entry(peer_id) {
            Some(entry) => {
                let mut e = entry;
                e.relay_only = relay_only;
                let e = refresh_reflexive_endpoint(
                    e,
                    event.observed_external.as_str(),
                    wg_listen_port,
                    relay_only,
                );
                assert(e@ == heard(
                    s.roster[peer_id],
                    event@,
                    wg_listen_port,
                    relay_only,
                    clock.instant,
                ));
                self.put(peer_id, e.clone());
                assert(self@.roster =~= s.roster.insert(peer_id, e@));
                let ghost b = beat(
                    s,
                    peer_id,
                    event@,
                    wg_listen_port,
                    relay_only,
                    clock.instant,
                );
                ask(out, Effect::Publish(RosterEvent::Heartbeat(event)));
                ask(out, Effect::Broadcast(PeerEvent::Updated(e.to_info())));
                self.try_emit_holepunch_pairs(&e, clock.unix_micros, out);
                assert(effects(out@) =~= effects(old(out)@) + b.effects);
                Ok(e)
            },
            None => Err(CoordinatorError::UnknownPeer(peer_id)),
        }
    }

    /// Takes a peer out of the mesh; says whether it was there.
    pub fn deregister(
        &mut self,
        peer_id: u128,
        reason: &str,
        clock: Reading,
        out: &mut Vec<Effect>,
    ) -> (removed: bool)
        requires
            wf(old(self)@),
        ensures
            removed == old(self)@.roster.contains_key(peer_id),
            final(self)@ == without(old(self)@, peer_id),
            effects(final(out)@) == effects(old(out)@) + leaving(
                old(self)@,
                peer_id,
                reason@,
                clock.unix_micros,
            ),
            wf(final(self)@),
    {
        let ghost s = self@;
        match self.entry(peer_id) {
            None => {
                assert(effects(out@) + Seq::<EffectView>::empty() =~= effects(out@));
                false
            },
            Some(entry) => {
                let id = id_text(peer_id);
                let event = PeerLeft {
                    peer_id: id.clone(),
                    reason: reason.to_owned(),
                    left_at_micros: clock.unix_micros,
                };
                let dropped = self.apply_peer_left(&event);
                ask(out, Effect::Publish(RosterEvent::Left(event)));
                if let Some(k) = dropped {
                    ask(out, Effect::DropRelay(k));
                }
                ask(out, Effect::Broadcast(PeerEvent::Removed { peer_id: id, tags: entry.tags }));
                ask(out, Effect::Persist(self.persist_roster()));
                assert(effects(out@) =~= effects(old(out)@) + leaving(
                    s,
                    peer_id,
                    reason@,
                    clock.unix_micros,
                ));
                true
            },
        }
    }

    /// The peers that have been silent for longer than they may, in the order
    /// of their identifiers.
    pub fn stale_peers(&self, now: Instant) -> (r: Vec<u128>)
        requires
            wf(self@),
        ensures
            lists(r@, stale_set(self@, now), id_rank()),
            r@ == listing(stale_set(self@, now), id_rank()),
    {
        let all = self.ordered(false);
        let timeout = self.heartbeat_timeout();
        let ghost stale = stale_set(self@, now);
        let mut r: Vec<u128> = Vec::new();
        let mut i: usize = 0;
        while i < all.len()
            invariant
                i <= all@.len(),
                timeout == self@.heartbeat_timeout,
                stale == stale_set(self@, now),
                forall|k: int|
                    0 <= k < all@.len() ==> self@.roster.contains_key((#[trigger] all@[k]).peer_id)
                        && all@[k]@ == self@.roster[all@[k].peer_id],
                forall|j: int, k: int|
                    0 <= j < k < all@.len() ==> (#[trigger] all@[j]).peer_id < (
                    #[trigger] all@[k]).peer_id,
                forall|j: int, k: int|
                    0 <= j < k < r@.len() ==> (#[trigger] r@[j]) < (#[trigger] r@[k]),
                forall|j: int| 0 <= j < r@.len() ==> stale.contains(#[trigger] r@[j]),
                forall|j: int, k: int|
                    0 <= j < r@.len() && i <= k < all@.len() ==> (#[trigger] r@[j]) < (
                    #[trigger] all@[k]).peer_id,
                forall|k: int|
                    0 <= k < i && stale.contains((#[trigger] all@[k]).peer_id) ==> r@.contains(
                        all@[k].peer_id,
                    ),
            decreases all@.len() - i,
        {
            let e = &all[i];
            assert(e@ == self@.roster[e.peer_id]);
            let ghost before = r@;
            if now.duration_since(e.last_heartbeat).nanos > timeout.nanos {
                r.push(e.peer_id);
                assert(r@[before.len() as int] == e.peer_id);
            }
            assert forall|k: int|
                0 <= k < i + 1 && stale.contains((#[trigger] all@[k]).peer_id) implies r@.contains(
                all@[k].peer_id,
            ) by {
                if k < i {
                    assert(before.contains(all@[k].peer_id));
                    let j = choose|j: int| 0 <= j < before.len() && before[j] == all@[k].peer_id;
                    assert(r@[j] == all@[k].peer_id);
                }
            }
            i = i + 1;
        }
        proof {
            assert forall|k: u128| #[trigger] stale.contains(k) implies r@.contains(k) by {
                assert(self@.roster.contains_key(k));
                let j = choose|j: int| 0 <= j < all@.len() && (#[trigger] all@[j]).peer_id == k;
                assert(stale.contains(all@[j].peer_id));
            }
            lemma_listing(r@, stale, id_rank());
        }
        r
    }
}

} // verus!
