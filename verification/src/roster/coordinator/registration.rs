//! Joining the mesh: who may, as whom, and under which address.

use crate::auth::{
    opt_claims, reply_view, ClaimsView, ReplyView, ValidatedClaims, ValidationError,
};
use crate::bindings::encoding::{base64_error, base64_value, decode_base64};
use crate::bindings::ids::{fresh_uuid, id_text, uuid_text, uuid_value};
use crate::clock::{since, Reading};
use crate::net::addr::{ints, ipv6_text, ipv6_value, segs, Ipv6Addr};
use crate::net::socket::{socket_text, SocketAddr};
use crate::roster::allocator::{
    bumped, host_address, is_host_address, issued_in, network_slot, slot_of, AllocError,
};
use crate::roster::api::{PeerEvent, PeerEventView, RegisterRequest, RequestView};
use crate::roster::coordinator::apply::{
    joined_entry, newer, persisted, with_peer, without, entry_result,
};
use crate::roster::coordinator::effect::{
    ask, effects, CoordinatorError, Effect, EffectView, ErrorView, RegisterOutcome, RosterEvent,
    RosterEventView,
};
use crate::roster::coordinator::state::{wf, CoordView, Coordinator};
use crate::roster::entry::{info_of, PeerEntry, PeerView};
use crate::roster::events::{JoinedView, LeftView, PeerJoined, PeerLeft};
use crate::roster::identity::{identity_of, stamp_identity, IdentityView, NodeIdentity};
use crate::text::{cat, clone_opt, clone_strings, opt_text, same_text, text_or_empty, trim, trimmed};
use crate::traversal::reflexive::{
    resolve_listen_endpoint, resolved, ResolvedEndpoint, ResolvedView,
};
use vstd::prelude::*;

verus! {

/// What there is to ask the auth service about a joiner.
#[derive(Debug)]
pub enum AuthQuestion {
    /// Nothing: no token is validated, and the joiner's own word is taken.
    Trusted,
    /// Nothing: a token is needed, and there is none.
    Missing,
    /// Whether this token is good for this public key, where one is named.
    Ask { token: String, wg_public_key: Option<String> },
}

/// What an `AuthQuestion` holds.
#[verifier::ext_equal]
pub enum QuestionView {
    Trusted,
    Missing,
    Ask { token: Seq<char>, wg_public_key: Option<Seq<char>> },
}

impl View for AuthQuestion {
    type V = QuestionView;

    open spec fn view(&self) -> QuestionView {
        match self {
            AuthQuestion::Trusted => QuestionView::Trusted,
            AuthQuestion::Missing => QuestionView::Missing,
            AuthQuestion::Ask { token, wg_public_key } => QuestionView::Ask {
                token: token@,
                wg_public_key: opt_text(*wg_public_key),
            },
        }
    }
}

/// A text without the space around it, unless nothing is left.
pub open spec fn non_blank(s: Option<Seq<char>>) -> Option<Seq<char>> {
    match s {
        Some(t) => if trimmed(t).len() == 0 {
            None
        } else {
            Some(trimmed(t))
        },
        None => None,
    }
}

/// The text of an optional borrowed string.
pub open spec fn opt_str(o: Option<&str>) -> Option<Seq<char>> {
    match o {
        Some(s) => Some(s@),
        None => None,
    }
}

/// What there is to ask the auth service.
pub open spec fn question(
    validator: bool,
    bearer: Option<Seq<char>>,
    wg_public_key: Seq<char>,
) -> QuestionView {
    if !validator {
        QuestionView::Trusted
    } else {
        match non_blank(bearer) {
            None => QuestionView::Missing,
            Some(token) => QuestionView::Ask { token, wg_public_key: non_blank(Some(wg_public_key)) },
        }
    }
}

/// The claims to go by, or why the joiner is turned away. The service's reply
/// only counts where it was asked.
pub open spec fn authenticated(q: QuestionView, reply: ReplyView) -> Result<
    Option<ClaimsView>,
    ErrorView,
> {
    match (q, reply) {
        (QuestionView::Trusted, _) => Ok(None),
        (QuestionView::Missing, _) => Err(
            ErrorView::Unauthorized("missing join token (Authorization: Bearer)"@),
        ),
        (QuestionView::Ask { .. }, ReplyView::Claims(c)) => if c.valid {
            Ok(Some(c))
        } else {
            Err(ErrorView::Unauthorized("join token invalid or revoked"@))
        },
        (QuestionView::Ask { .. }, ReplyView::WrongKind(k)) => Err(
            ErrorView::Unauthorized("join token has wrong kind: "@ + k),
        ),
        (QuestionView::Ask { .. }, ReplyView::Failed(e)) => Err(
            ErrorView::Unauthorized("join token validation failed: "@ + e),
        ),
    }
}

/// The public key that a text holds, or why it holds none: no base64, or not
/// 32 bytes.
pub open spec fn pubkey_of(s: Seq<char>) -> Result<Seq<u8>, ErrorView> {
    match base64_value(s) {
        None => Err(ErrorView::PubkeyDecode(base64_error(s))),
        Some(k) => if k.len() == 32 {
            Ok(k)
        } else {
            Err(ErrorView::InvalidPubkey(k.len()))
        },
    }
}

/// Whether the peer `k` has the address.
pub open spec fn holds_ula(roster: Map<u128, PeerView>, addr: Ipv6Addr, k: u128) -> bool {
    roster.contains_key(k) && roster[k].ula == addr
}

/// Whether some peer has the address.
pub open spec fn is_claimed(roster: Map<u128, PeerView>, addr: Ipv6Addr) -> bool {
    exists|k: u128| #[trigger] holds_ula(roster, addr, k)
}

/// Whether `k` is the first peer that has the address.
pub open spec fn is_first_holder(roster: Map<u128, PeerView>, addr: Ipv6Addr, k: u128) -> bool {
    holds_ula(roster, addr, k) && forall|j: u128| #[trigger] holds_ula(roster, addr, j) ==> k <= j
}

/// The first peer that has the address.
pub open spec fn holder_of(roster: Map<u128, PeerView>, addr: Ipv6Addr) -> Option<u128> {
    if is_claimed(roster, addr) {
        Some(choose|k: u128| is_first_holder(roster, addr, k))
    } else {
        None
    }
}

/// Whether a peer has been silent for longer than it may.
pub open spec fn is_stale(s: CoordView, id: u128, now: crate::clock::Instant) -> bool {
    since(now, s.roster[id].last_heartbeat) > s.heartbeat_timeout.nanos
}

/// The address that a joiner asks for; a text that is no address asks for none.
pub open spec fn wanted_ula(requested: Option<Seq<char>>) -> Option<Ipv6Addr> {
    match requested {
        Some(raw) => ipv6_value(raw),
        None => None,
    }
}

/// The silent peer that has to make room for a joiner that asks for its
/// address.
pub open spec fn evictee(s: CoordView, requested: Option<Seq<char>>, now: crate::clock::Instant) -> Option<
    u128,
> {
    match wanted_ula(requested) {
        Some(addr) => match holder_of(s.roster, addr) {
            Some(k) => if is_stale(s, k, now) {
                Some(k)
            } else {
                None
            },
            None => None,
        },
        None => None,
    }
}

/// What is to be done when a silent peer makes room.
pub open spec fn eviction_effects(s: CoordView, id: u128, clock: Reading) -> Seq<EffectView> {
    seq![
        EffectView::Publish(
            RosterEventView::Left(
                LeftView {
                    peer_id: uuid_text(id),
                    reason: "evicted_stale_ula_holder"@,
                    left_at_micros: clock.unix_micros,
                },
            ),
        ),
        EffectView::Broadcast(
            PeerEventView::Removed { peer_id: uuid_text(id), tags: s.roster[id].tags },
        ),
        EffectView::DropRelay(s.roster[id].wg_public_key),
        EffectView::Persist(persisted(without(s, id).roster)),
    ]
}

/// Whether the token grants the address.
pub open spec fn grants(claims: ClaimsView, addr: Ipv6Addr) -> bool {
    exists|i: int|
        0 <= i < claims.requested_ulas.len() && ipv6_value(#[trigger] claims.requested_ulas[i])
            == Some(addr)
}

/// Why a joiner may not have the address that it asks for.
///
/// An address that its token grants it may have. An address of a network's
/// block it may have only where that is its own network's. A fixed address of
/// the hosts' prefix takes a grant where tokens are validated.
pub open spec fn ula_refusal(
    requested: Option<Seq<char>>,
    network: Seq<char>,
    claims: Option<ClaimsView>,
) -> Option<ErrorView> {
    match wanted_ula(requested) {
        None => None,
        Some(addr) => if claims is Some && grants(claims->0, addr) {
            None
        } else if is_host_address(addr) {
            if segs(addr)[2] == slot_of(network) {
                None
            } else {
                Some(ErrorView::UlaNetworkMismatch { ula: requested->0, network })
            }
        } else if claims is Some && segs(addr)[0] == 0xfd5a && segs(addr)[1] == 0x1f00 {
            Some(ErrorView::Unauthorized("join token does not grant the requested ULA"@))
        } else {
            None
        },
    }
}

/// The address that a joiner gets and the counters of addresses then: the one
/// it asks for, unless a peer has it; the network's next one where it asks for
/// none.
pub open spec fn placed(s: CoordView, network: Seq<char>, requested: Option<Seq<char>>) -> Result<
    (Ipv6Addr, Map<u16, u16>),
    ErrorView,
> {
    match wanted_ula(requested) {
        Some(addr) => if is_claimed(s.roster, addr) {
            Err(ErrorView::UlaConflict(requested->0))
        } else {
            Ok((addr, bumped(s.slots, segs(addr)[2] as u16, segs(addr)[3] as u16)))
        },
        None => {
            let slot = slot_of(network);
            if issued_in(s.slots, slot) == u16::MAX {
                Err(ErrorView::Allocation(AllocError::Exhausted))
            } else {
                let index = (issued_in(s.slots, slot) + 1) as u16;
                Ok((host_address(slot, index), s.slots.insert(slot, index)))
            }
        },
    }
}

/// The event of a new peer.
pub open spec fn new_event(
    req: RequestView,
    key: Seq<u8>,
    identity: IdentityView,
    r: ResolvedView,
    ula: Ipv6Addr,
    id: u128,
    clock: Reading,
) -> JoinedView {
    JoinedView {
        peer_id: uuid_text(id),
        wg_public_key: key,
        ula: ipv6_text(ula),
        listen_endpoint: text_or_empty(r.endpoint),
        display_name: req.display_name,
        network: identity.network,
        tags: identity.tags,
        hosted_app_ulas: req.hosted_app_ulas,
        joined_at_micros: clock.unix_micros,
        kind: req.kind,
        parent: req.parent,
        app_uuid: req.app_uuid,
        software_version: req.software_version,
        mesh_version: req.mesh_version,
        relay_only: req.relay_only,
    }
}

/// A new peer.
pub open spec fn new_entry(
    ev: JoinedView,
    r: ResolvedView,
    observed: Option<SocketAddr>,
    ula: Ipv6Addr,
    id: u128,
    clock: Reading,
) -> PeerView {
    PeerView {
        endpoint_is_reflexive: r.reflexive,
        observed_external: match observed {
            Some(a) => socket_text(a),
            None => Seq::empty(),
        },
        ..joined_entry(ev, id, ula, clock.instant)
    }
}

/// A known peer after it joined again; `place` is its new place, where it
/// moves to another network.
pub open spec fn renewed_entry(
    e: PeerView,
    req: RequestView,
    identity: IdentityView,
    r: ResolvedView,
    observed: Option<SocketAddr>,
    place: Option<(u16, Ipv6Addr)>,
    clock: Reading,
) -> PeerView {
    PeerView {
        listen_endpoint: r.endpoint,
        endpoint_is_reflexive: r.reflexive,
        display_name: req.display_name,
        tags: identity.tags,
        hosted_app_ulas: req.hosted_app_ulas,
        kind: req.kind,
        parent: req.parent,
        app_uuid: req.app_uuid,
        software_version: newer(req.software_version, e.software_version),
        mesh_version: newer(req.mesh_version, e.mesh_version),
        relay_only: req.relay_only,
        last_heartbeat: clock.instant,
        observed_external: match observed {
            Some(a) => socket_text(a),
            None => e.observed_external,
        },
        network: if place is Some {
            identity.network
        } else {
            e.network
        },
        ula: match place {
            Some(p) => p.1,
            None => e.ula,
        },
        peer_index: match place {
            Some(p) => p.0,
            None => e.peer_index,
        },
        ..e
    }
}

/// What an attempt to join comes to.
#[verifier::ext_equal]
pub struct JoinView {
    /// The peer and whether it is new, or why the joiner is turned away.
    pub result: Result<(PeerView, RegisterOutcome), ErrorView>,
    /// The state afterwards.
    pub state: CoordView,
    /// What is to be done.
    pub effects: Seq<EffectView>,
}

/// Being turned away, with nothing changed and nothing to do.
pub open spec fn turned_away(s: CoordView, e: ErrorView) -> JoinView {
    JoinView { result: Err(e), state: s, effects: Seq::empty() }
}

/// What it comes to when a known public key joins again.
///
/// The peer keeps its identifier. It keeps its network and its address too,
/// unless its token moves it to another network: then it gets the next address
/// there, viewers see it leave and join, and the durable copy is renewed.
pub open spec fn refreshed(
    s: CoordView,
    id: u128,
    req: RequestView,
    claims: Option<ClaimsView>,
    r: ResolvedView,
    observed: Option<SocketAddr>,
    clock: Reading,
) -> JoinView {
    let identity = identity_of(req, claims);
    if !s.roster.contains_key(id) {
        turned_away(s, ErrorView::UnknownPeer(id))
    } else {
        let e = s.roster[id];
        let slot = slot_of(identity.network);
        if claims is Some && identity.network != e.network {
            if issued_in(s.slots, slot) == u16::MAX {
                turned_away(s, ErrorView::Allocation(AllocError::Exhausted))
            } else {
                let index = (issued_in(s.slots, slot) + 1) as u16;
                let place = (index, host_address(slot, index));
                let renewed = renewed_entry(e, req, identity, r, observed, Some(place), clock);
                let roster = s.roster.insert(id, renewed);
                JoinView {
                    result: Ok((renewed, RegisterOutcome::Existed)),
                    state: CoordView { roster, slots: s.slots.insert(slot, index), ..s },
                    effects: seq![
                        EffectView::Broadcast(
                            PeerEventView::Removed { peer_id: uuid_text(id), tags: e.tags },
                        ),
                        EffectView::Broadcast(PeerEventView::Added(info_of(renewed, None, None))),
                        EffectView::Persist(persisted(roster)),
                    ],
                }
            }
        } else {
            let renewed = renewed_entry(e, req, identity, r, observed, None, clock);
            JoinView {
                result: Ok((renewed, RegisterOutcome::Existed)),
                state: CoordView { roster: s.roster.insert(id, renewed), ..s },
                effects: seq![
                    EffectView::Broadcast(PeerEventView::Updated(info_of(renewed, None, None))),
                ],
            }
        }
    }
}

/// What it comes to when an unknown public key joins, with `id` as the
/// identifier that is drawn for it.
pub open spec fn created(
    s: CoordView,
    key: Seq<u8>,
    req: RequestView,
    claims: Option<ClaimsView>,
    r: ResolvedView,
    observed: Option<SocketAddr>,
    clock: Reading,
    id: u128,
) -> JoinView {
    let identity = identity_of(req, claims);
    match ula_refusal(req.requested_ula, identity.network, claims) {
        Some(e) => turned_away(s, e),
        None => {
            let (room, evicted) = match evictee(s, req.requested_ula, clock.instant) {
                Some(k) => (without(s, k), eviction_effects(s, k, clock)),
                None => (s, Seq::empty()),
            };
            match placed(room, identity.network, req.requested_ula) {
                Err(e) => JoinView { result: Err(e), state: room, effects: evicted },
                Ok((ula, slots)) => {
                    let ev = new_event(req, key, identity, r, ula, id, clock);
                    let entry = new_entry(ev, r, observed, ula, id, clock);
                    let after = with_peer(CoordView { slots, ..room }, entry);
                    JoinView {
                        result: Ok((entry, RegisterOutcome::Created)),
                        state: after,
                        effects: evicted + seq![
                            EffectView::Publish(RosterEventView::Joined(ev)),
                            EffectView::Broadcast(PeerEventView::Added(info_of(entry, None, None))),
                            EffectView::Persist(persisted(after.roster)),
                        ],
                    }
                },
            }
        },
    }
}

/// What an attempt to join comes to once it is known which claims to go by.
pub open spec fn admitted(
    s: CoordView,
    req: RequestView,
    claims: Option<ClaimsView>,
    observed: Option<SocketAddr>,
    clock: Reading,
    id: u128,
) -> JoinView {
    match pubkey_of(req.wg_public_key) {
        Err(e) => turned_away(s, e),
        Ok(key) => {
            let r = resolved(req.listen_endpoint, observed, req.wg_listen_port, req.relay_only);
            if s.by_pubkey.contains_key(key) {
                refreshed(s, s.by_pubkey[key], req, claims, r, observed, clock)
            } else {
                created(s, key, req, claims, r, observed, clock, id)
            }
        },
    }
}

/// What an attempt to join comes to.
pub open spec fn registered(
    s: CoordView,
    req: RequestView,
    bearer: Option<Seq<char>>,
    reply: ReplyView,
    observed: Option<SocketAddr>,
    clock: Reading,
    id: u128,
) -> JoinView {
    match authenticated(question(s.validator, bearer, req.wg_public_key), reply) {
        Err(e) => turned_away(s, e),
        Ok(claims) => admitted(s, req, claims, observed, clock, id),
    }
}

/// What an attempt to join has answered.
pub open spec fn join_result(r: Result<(PeerEntry, RegisterOutcome), CoordinatorError>) -> Result<
    (PeerView, RegisterOutcome),
    ErrorView,
> {
    match r {
        Ok((e, o)) => Ok((e@, o)),
        Err(e) => Err(e@),
    }
}

/// Whether an identifier is one that is drawn for a new peer: of version 7,
/// which starts with the time.
pub open spec fn is_time_ordered(id: u128) -> bool {
    (id / 0x1000_0000_0000_0000_0000) % 16 == 7 && (id / 0x4000_0000_0000_0000) % 4 == 2
}

fn blank_to_none(s: &str) -> (r: Option<String>)
    ensures
        opt_text(r) == non_blank(Some(s@)),
{
    let t = trim(s);
    if t.as_str().is_empty() {
        None
    } else {
        Some(t)
    }
}

/// Reads a public key in base64; its length is not looked at.
pub fn decode_pubkey(s: &str) -> (r: Result<Vec<u8>, CoordinatorError>)
    ensures
        match r {
            Ok(k) => base64_value(s@) == Some(k@),
            Err(e) => base64_value(s@) is None && e@ == ErrorView::PubkeyDecode(base64_error(s@)),
        },
{
    match decode_base64(s) {
        Ok(k) => Ok(k),
        Err(e) => Err(CoordinatorError::PubkeyDecode(e)),
    }
}

fn token_grants(claims: &ValidatedClaims, addr: Ipv6Addr) -> (r: bool)
    ensures
        r == grants(claims@, addr),
{
    let mut i: usize = 0;
    while i < claims.requested_ulas.len()
        invariant
            i <= claims.requested_ulas@.len(),
            forall|k: int|
                0 <= k < i ==> ipv6_value(#[trigger] claims@.requested_ulas[k]) != Some(addr),
        decreases claims.requested_ulas@.len() - i,
    {
        assert(claims@.requested_ulas[i as int] == claims.requested_ulas@[i as int]@);
        if let Some(a) = Ipv6Addr::parse(claims.requested_ulas[i].as_str()) {
            if a.bits == addr.bits {
                return true;
            }
        }
        i = i + 1;
    }
    false
}

fn wanted(requested: &Option<String>) -> (r: Option<Ipv6Addr>)
    ensures
        r == wanted_ula(opt_text(*requested)),
{
    match requested {
        Some(raw) => Ipv6Addr::parse(raw.as_str()),
        None => None,
    }
}

fn check_ula(requested: &Option<String>, network: &String, claims: &Option<ValidatedClaims>) -> (r:
    Option<CoordinatorError>)
    ensures
        match r {
            Some(e) => ula_refusal(opt_text(*requested), network@, opt_claims(*claims)) == Some(e@),
            None => ula_refusal(opt_text(*requested), network@, opt_claims(*claims)) is None,
        },
{
    let addr = match wanted(requested) {
        Some(a) => a,
        None => {
            return None;
        },
    };
    if let Some(c) = claims {
        if token_grants(c, addr) {
            return None;
        }
    }
    let s = addr.segments();
    assert(segs(addr) == ints(s@));
    if s[0] == 0xfd5a && s[1] == 0x1f00 && s[3] != 0 && s[4] == 0 && s[5] == 0 && s[6] == 0 && s[7]
        == 1 {
        assert(is_host_address(addr));
        if s[2] == network_slot(network.as_str()) {
            return None;
        }
        let ula = match requested {
            Some(raw) => raw.clone(),
            None => String::new(),
        };
        return Some(CoordinatorError::UlaNetworkMismatch { ula, network: network.clone() });
    }
    assert(!is_host_address(addr));
    if claims.is_some() && s[0] == 0xfd5a && s[1] == 0x1f00 {
        return Some(
            CoordinatorError::Unauthorized(
                "join token does not grant the requested ULA".to_owned(),
            ),
        );
    }
    None
}

/// Brings a peer's entry up to what it said when it joined again.
fn renew(
    entry: PeerEntry,
    req: &RegisterRequest,
    identity: &NodeIdentity,
    r: &ResolvedEndpoint,
    observed: Option<SocketAddr>,
    place: Option<(u16, Ipv6Addr)>,
    clock: Reading,
) -> (renewed: PeerEntry)
    ensures
        renewed@ == renewed_entry(entry@, req@, identity@, r@, observed, place, clock),
{
    let mut e = entry;
    e.listen_endpoint = clone_opt(&r.endpoint);
    e.endpoint_is_reflexive = r.reflexive;
    e.display_name = req.display_name.clone();
    e.tags = clone_strings(&identity.tags);
    e.hosted_app_ulas = clone_strings(&req.hosted_app_ulas);
    e.kind = req.kind.clone();
    e.parent = clone_opt(&req.parent);
    e.app_uuid = clone_opt(&req.app_uuid);
    if req.software_version.is_some() {
        e.software_version = clone_opt(&req.software_version);
    }
    if req.mesh_version.is_some() {
        e.mesh_version = clone_opt(&req.mesh_version);
    }
    e.relay_only = req.relay_only;
    e.last_heartbeat = clock.instant;
    if let Some(a) = observed {
        e.observed_external = a.to_text();
    }
    if let Some((index, ula)) = place {
        e.network = identity.network.clone();
        e.ula = ula;
        e.peer_index = index;
    }
    e
}

/// Writes down that a joiner joined.
fn joining_event(
    req: &RegisterRequest,
    key: Vec<u8>,
    identity: NodeIdentity,
    r: &ResolvedEndpoint,
    ula: Ipv6Addr,
    id: u128,
    clock: Reading,
) -> (event: PeerJoined)
    ensures
        event@ == new_event(req@, key@, identity@, r@, ula, id, clock),
        uuid_value(event@.peer_id) == Some(id),
        ipv6_value(event@.ula) == Some(ula),
{
    let listen_endpoint = match &r.endpoint {
        Some(s) => s.clone(),
        None => String::new(),
    };
    PeerJoined {
        peer_id: id_text(id),
        wg_public_key: key,
        ula: ula.to_text(),
        listen_endpoint,
        display_name: req.display_name.clone(),
        network: identity.network,
        tags: identity.tags,
        hosted_app_ulas: clone_strings(&req.hosted_app_ulas),
        joined_at_micros: clock.unix_micros,
        kind: req.kind.clone(),
        parent: clone_opt(&req.parent),
        app_uuid: clone_opt(&req.app_uuid),
        software_version: clone_opt(&req.software_version),
        mesh_version: clone_opt(&req.mesh_version),
        relay_only: req.relay_only,
    }
}

impl Coordinator {
    /// What there is to ask the auth service before a joiner is registered.
    pub fn auth_question(&self, req: &RegisterRequest, bearer: Option<&str>) -> (r: AuthQuestion)
        ensures
            r@ == question(self@.validator, opt_str(bearer), req.wg_public_key@),
    {
        if !self.validates_tokens() {
            return AuthQuestion::Trusted;
        }
        let token = match bearer {
            Some(t) => blank_to_none(t),
            None => None,
        };
        match token {
            Some(token) => AuthQuestion::Ask {
                token,
                wg_public_key: blank_to_none(req.wg_public_key.as_str()),
            },
            None => AuthQuestion::Missing,
        }
    }

    /// Decides by the auth service's reply which claims to go by.
    fn authenticate(
        &self,
        req: &RegisterRequest,
        bearer: Option<&str>,
        reply: Result<ValidatedClaims, ValidationError>,
    ) -> (r: Result<Option<ValidatedClaims>, CoordinatorError>)
        ensures
            match r {
                Ok(c) => authenticated(
                    question(self@.validator, opt_str(bearer), req.wg_public_key@),
                    reply_view(reply),
                ) == Ok::<Option<ClaimsView>, ErrorView>(opt_claims(c)),
                Err(e) => authenticated(
                    question(self@.validator, opt_str(bearer), req.wg_public_key@),
                    reply_view(reply),
                ) == Err::<Option<ClaimsView>, ErrorView>(e@),
            },
    {
        match self.auth_question(req, bearer) {
            AuthQuestion::Trusted => Ok(None),
            AuthQuestion::Missing => Err(
                CoordinatorError::Unauthorized(
                    "missing join token (Authorization: Bearer)".to_owned(),
                ),
            ),
            AuthQuestion::Ask { .. } => match reply {
                Ok(claims) => if claims.valid {
                    Ok(Some(claims))
                } else {
                    Err(CoordinatorError::Unauthorized("join token invalid or revoked".to_owned()))
                },
                Err(ValidationError::WrongKind(kind)) => Err(
                    CoordinatorError::Unauthorized(
                        cat("join token has wrong kind: ", kind.as_str()),
                    ),
                ),
                Err(ValidationError::Failed(e)) => Err(
                    CoordinatorError::Unauthorized(
                        cat("join token validation failed: ", e.as_str()),
                    ),
                ),
            },
        }
    }

    /// The first peer that has an address.
    pub(crate) fn holder(&self, addr: Ipv6Addr) -> (r: Option<u128>)
        requires
            wf(self@),
        ensures
            r == holder_of(self@.roster, addr),
            r is Some == is_claimed(self@.roster, addr),
            r is Some ==> holds_ula(self@.roster, addr, r->0),
    {
        let all = self.ordered(false);
        let mut i: usize = 0;
        while i < all.len()
            invariant
                i <= all@.len(),
                wf(self@),
                forall|k: int|
                    0 <= k < all@.len() ==> self@.roster.contains_key((#[trigger] all@[k]).peer_id)
                        && all@[k]@ == self@.roster[all@[k].peer_id],
                forall|j: int, k: int|
                    0 <= j < k < all@.len() ==> (#[trigger] all@[j]).peer_id < (
                    #[trigger] all@[k]).peer_id,
                forall|id: u128| #[trigger]
                    self@.roster.contains_key(id) ==> exists|k: int|
                        0 <= k < all@.len() && (#[trigger] all@[k]).peer_id == id,
                forall|k: int| 0 <= k < i ==> (#[trigger] all@[k]).ula != addr,
            decreases all@.len() - i,
        {
            if all[i].ula.bits == addr.bits {
                let id = all[i].peer_id;
                proof {
                    assert(all@[i as int]@ == self@.roster[id]);
                    assert(holds_ula(self@.roster, addr, id));
                    assert forall|j: u128| #[trigger]
                        holds_ula(self@.roster, addr, j) implies id <= j by {
                        let k = choose|k: int| 0 <= k < all@.len() && (#[trigger] all@[k]).peer_id == j;
                        assert(all@[k]@ == self@.roster[j]);
                        assert(all@[k].ula == addr);
                        if k > i {
                            assert(all@[i as int].peer_id < all@[k].peer_id);
                        }
                    }
                    assert(is_first_holder(self@.roster, addr, id));
                    let c = choose|k: u128| is_first_holder(self@.roster, addr, k);
                    assert(is_first_holder(self@.roster, addr, c));
                    assert(c == id);
                }
                return Some(id);
            }
            i = i + 1;
        }
        proof {
            if is_claimed(self@.roster, addr) {
                let j = choose|j: u128| #[trigger] holds_ula(self@.roster, addr, j);
                let k = choose|k: int| 0 <= k < all@.len() && (#[trigger] all@[k]).peer_id == j;
                assert(all@[k]@ == self@.roster[j]);
                assert(all@[k].ula == addr);
            }
        }
        None
    }

    /// Lets a silent peer make room for a joiner that asks for its address, so
    /// that a machine that changed its key gets its address back.
    fn evict_stale_ula_holder(
        &mut self,
        requested_ula: &Option<String>,
        clock: Reading,
        out: &mut Vec<Effect>,
    )
        requires
            wf(old(self)@),
        ensures
            match evictee(old(self)@, opt_text(*requested_ula), clock.instant) {
                Some(k) => {
                    &&& final(self)@ == without(old(self)@, k)
                    &&& effects(final(out)@) == effects(old(out)@) + eviction_effects(
                        old(self)@,
                        k,
                        clock,
                    )
                },
                None => {
                    &&& final(self)@ == old(self)@
                    &&& effects(final(out)@) == effects(old(out)@)
                },
            },
            wf(final(self)@),
    {
        let addr = match wanted(requested_ula) {
            Some(a) => a,
            None => {
                return ;
            },
        };
        let holder_id = match self.holder(addr) {
            Some(k) => k,
            None => {
                return ;
            },
        };
        if let Some(entry) = self.entry(holder_id) {
            if clock.instant.duration_since(entry.last_heartbeat).nanos
                <= self.heartbeat_timeout().nanos {
                return ;
            }
            let peer_id = id_text(holder_id);
            let event = PeerLeft {
                peer_id: peer_id.clone(),
                reason: "evicted_stale_ula_holder".to_owned(),
                left_at_micros: clock.unix_micros,
            };
            let dropped = self.apply_peer_left(&event);
            ask(out, Effect::Publish(RosterEvent::Left(event)));
            ask(out, Effect::Broadcast(PeerEvent::Removed { peer_id, tags: entry.tags }));
            if let Some(k) = dropped {
                ask(out, Effect::DropRelay(k));
            }
            ask(out, Effect::Persist(self.persist_roster()));
            assert(effects(out@) =~= effects(old(out)@) + eviction_effects(
                old(self)@,
                holder_id,
                clock,
            ));
        }
    }

    /// Decides which address a joiner gets.
    fn resolve_ula(&mut self, network: &String, requested_ula: &Option<String>) -> (r: Result<
        (u16, Ipv6Addr),
        CoordinatorError,
    >)
        requires
            wf(old(self)@),
        ensures
            match placed(old(self)@, network@, opt_text(*requested_ula)) {
                Ok((addr, slots)) => {
                    &&& r == Ok::<(u16, Ipv6Addr), CoordinatorError>((segs(addr)[3] as u16, addr))
                    &&& final(self)@ == (CoordView { slots, ..old(self)@ })
                },
                Err(e) => {
                    &&& r is Err
                    &&& r->Err_0@ == e
                    &&& final(self)@ == old(self)@
                },
            },
            wf(final(self)@),
    {
        if let Some(addr) = wanted(requested_ula) {
            if self.holder(addr).is_some() {
                let raw = match requested_ula {
                    Some(raw) => raw.clone(),
                    None => String::new(),
                };
                return Err(CoordinatorError::UlaConflict(raw));
            }
            let s = addr.segments();
            assert(segs(addr) == ints(s@));
            assert(segs(addr)[2] == s@[2] && segs(addr)[3] == s@[3]);
            self.bump(s[2], s[3]);
            return Ok((s[3], addr));
        }
        match self.allocate(network.as_str()) {
            Ok(p) => Ok(p),
            Err(e) => Err(CoordinatorError::Allocation(e)),
        }
    }

    /// Renews the entry of a peer that joins again.
    fn refresh_existing(
        &mut self,
        peer_id: u128,
        req: &RegisterRequest,
        claims: &Option<ValidatedClaims>,
        r: &ResolvedEndpoint,
        observed: Option<SocketAddr>,
        clock: Reading,
        out: &mut Vec<Effect>,
    ) -> (answer: Result<PeerEntry, CoordinatorError>)
        requires
            wf(old(self)@),
        ensures
            ({
                let j = refreshed(
                    old(self)@,
                    peer_id,
                    req@,
                    opt_claims(*claims),
                    r@,
                    observed,
                    clock,
                );
                &&& entry_result(answer) == (match j.result {
                    Ok((e, _)) => Ok(e),
                    Err(e) => Err(e),
                })
                &&& final(self)@ == j.state
                &&& effects(final(out)@) == effects(old(out)@) + j.effects
            }),
            wf(final(self)@),
    {
        let ghost s = self@;
        let ghost j = refreshed(s, peer_id, req@, opt_claims(*claims), r@, observed, clock);
        let identity = stamp_identity(req, claims.as_ref());
        let e = match self.entry(peer_id) {
            Some(e) => e,
            None => {
                assert(effects(out@) =~= effects(old(out)@) + j.effects);
                return Err(CoordinatorError::UnknownPeer(peer_id));
            },
        };
        let rehome = claims.is_some() && !same_text(identity.network.as_str(), e.network.as_str());
        let place = if rehome {
            match self.allocate(identity.network.as_str()) {
                Ok(p) => Some(p),
                Err(a) => {
                    assert(effects(out@) =~= effects(old(out)@) + j.effects);
                    return Err(CoordinatorError::Allocation(a));
                },
            }
        } else {
            None
        };
        let old_tags = clone_strings(&e.tags);
        let e = renew(e, req, &identity, r, observed, place, clock);
        self.put(peer_id, e.clone());
        if rehome {
            ask(
                out,
                Effect::Broadcast(
                    PeerEvent::Removed { peer_id: id_text(peer_id), tags: old_tags },
                ),
            );
            ask(out, Effect::Broadcast(PeerEvent::Added(e.to_info())));
            ask(out, Effect::Persist(self.persist_roster()));
            assert(effects(out@) =~= effects(old(out)@) + j.effects);
        } else {
            ask(out, Effect::Broadcast(PeerEvent::Updated(e.to_info())));
            assert(effects(out@) =~= effects(old(out)@) + j.effects);
        }
        Ok(e)
    }

    /// Takes a joiner with an unknown public key in, under the identifier `id`.
    fn admit_new(
        &mut self,
        key: Vec<u8>,
        req: &RegisterRequest,
        claims: &Option<ValidatedClaims>,
        r: &ResolvedEndpoint,
        observed: Option<SocketAddr>,
        clock: Reading,
        id: u128,
        out: &mut Vec<Effect>,
    ) -> (answer: Result<(PeerEntry, RegisterOutcome), CoordinatorError>)
        requires
            wf(old(self)@),
        ensures
            ({
                let j = created(
                    old(self)@,
                    key@,
                    req@,
                    opt_claims(*claims),
                    r@,
                    observed,
                    clock,
                    id,
                );
                &&& join_result(answer) == j.result
                &&& final(self)@ == j.state
                &&& effects(final(out)@) == effects(old(out)@) + j.effects
            }),
            wf(final(self)@),
    {
        let ghost s = self@;
        let ghost j = created(s, key@, req@, opt_claims(*claims), r@, observed, clock, id);
        let identity = stamp_identity(req, claims.as_ref());
        if let Some(e) = check_ula(&req.requested_ula, &identity.network, claims) {
            assert(effects(out@) =~= effects(old(out)@) + j.effects);
            return Err(e);
        }
        self.evict_stale_ula_holder(&req.requested_ula, clock, out);
        let ghost evicted = match evictee(s, req@.requested_ula, clock.instant) {
            Some(k) => eviction_effects(s, k, clock),
            None => Seq::empty(),
        };
        assert(effects(out@) =~= effects(old(out)@) + evicted);
        let ghost room = self@;
        let (_peer_index, ula) = match self.resolve_ula(&identity.network, &req.requested_ula) {
            Ok(p) => p,
            Err(e) => {
                return Err(e);
            },
        };
        let event = joining_event(req, key, identity, r, ula, id, clock);
        let ghost ev = event@;
        let mut entry = match self.apply_peer_joined(&event, clock.instant) {
            Ok(e) => e,
            Err(e) => {
                assert(false);
                return Err(e);
            },
        };
        entry.endpoint_is_reflexive = r.reflexive;
        if let Some(a) = observed {
            entry.observed_external = a.to_text();
        }
        assert(entry@ =~= new_entry(ev, r@, observed, ula, id, clock));
        self.put(id, entry.clone());
        ask(out, Effect::Publish(RosterEvent::Joined(event)));
        ask(out, Effect::Broadcast(PeerEvent::Added(entry.to_info())));
        assert(self@ =~= j.state);
        ask(out, Effect::Persist(self.persist_roster()));
        assert(effects(out@) =~= effects(old(out)@) + j.effects);
        Ok((entry, RegisterOutcome::Created))
    }

    /// Registers a joiner; a new one under the identifier `id`.
    ///
    /// `reply` is what the auth service answered to `auth_question`; where
    /// there was nothing to ask it does not count. `observed` is the address
    /// that the request came from.
    pub fn register_as(
        &mut self,
        req: &RegisterRequest,
        bearer: Option<&str>,
        reply: Result<ValidatedClaims, ValidationError>,
        observed: Option<SocketAddr>,
        clock: Reading,
        id: u128,
        out: &mut Vec<Effect>,
    ) -> (answer: Result<(PeerEntry, RegisterOutcome), CoordinatorError>)
        requires
            wf(old(self)@),
        ensures
            ({
                let j = registered(
                    old(self)@,
                    req@,
                    opt_str(bearer),
                    reply_view(reply),
                    observed,
                    clock,
                    id,
                );
                &&& join_result(answer) == j.result
                &&& final(self)@ == j.state
                &&& effects(final(out)@) == effects(old(out)@) + j.effects
            }),
            wf(final(self)@),
    {
        assert(effects(out@) + Seq::<EffectView>::empty() =~= effects(out@));
        let claims = match self.authenticate(req, bearer, reply) {
            Ok(c) => c,
            Err(e) => {
                return Err(e);
            },
        };
        let key = match decode_pubkey(req.wg_public_key.as_str()) {
            Ok(k) => k,
            Err(e) => {
                return Err(e);
            },
        };
        if key.len() != 32 {
            return Err(CoordinatorError::InvalidPubkey(key.len()));
        }
        let r = resolve_listen_endpoint(
            &req.listen_endpoint,
            observed,
            req.wg_listen_port,
            req.relay_only,
        );
        if let Some(existing) = self.id_of_key(key.as_slice()) {
            return match self.refresh_existing(existing, req, &claims, &r, observed, clock, out) {
                Ok(e) => Ok((e, RegisterOutcome::Existed)),
                Err(e) => Err(e),
            };
        }
        self.admit_new(key, req, &claims, &r, observed, clock, id, out)
    }

    /// Registers a joiner; a new one under a fresh identifier.
    pub fn register_authenticated(
        &mut self,
        req: &RegisterRequest,
        bearer: Option<&str>,
        reply: Result<ValidatedClaims, ValidationError>,
        observed: Option<SocketAddr>,
        clock: Reading,
        out: &mut Vec<Effect>,
    ) -> (answer: Result<(PeerEntry, RegisterOutcome), CoordinatorError>)
        requires
            wf(old(self)@),
        ensures
            exists|id: u128|
                {
                    let j = #[trigger] registered(
                        old(self)@,
                        req@,
                        opt_str(bearer),
                        reply_view(reply),
                        observed,
                        clock,
                        id,
                    );
                    &&& is_time_ordered(id)
                    &&& join_result(answer) == j.result
                    &&& final(self)@ == j.state
                    &&& effects(final(out)@) == effects(old(out)@) + j.effects
                },
            wf(final(self)@),
    {
        let id = fresh_uuid();
        self.register_as(req, bearer, reply, observed, clock, id, out)
    }

    /// Registers a joiner that shows no token and whose address is unknown.
    pub fn register(&mut self, req: &RegisterRequest, clock: Reading, out: &mut Vec<Effect>) -> (
    answer: Result<(PeerEntry, RegisterOutcome), CoordinatorError>)
        requires
            wf(old(self)@),
        ensures
            exists|id: u128|
                {
                    let j = if old(self)@.validator {
                        turned_away(
                            old(self)@,
                            ErrorView::Unauthorized("missing join token (Authorization: Bearer)"@),
                        )
                    } else {
                        admitted(old(self)@, req@, None, None, clock, id)
                    };
                    &&& #[trigger] is_time_ordered(id)
                    &&& join_result(answer) == j.result
                    &&& final(self)@ == j.state
                    &&& effects(final(out)@) == effects(old(out)@) + j.effects
                },
            wf(final(self)@),
    {
        self.register_authenticated(
            req,
            None,
            Err(ValidationError::Failed(String::new())),
            None,
            clock,
            out,
        )
    }
}

} // verus!
