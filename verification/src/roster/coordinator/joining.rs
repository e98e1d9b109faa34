//! What joining comes to, over what the joiner said, what it was granted and the
//! peers of the roster.

use crate::auth::{ClaimsView, ReplyView};
use crate::bindings::encoding::{base64_text, base64_value, lemma_base64_value};
use crate::bindings::ids::uuid_text;
use crate::clock::{Instant, Reading};
use crate::net::addr::{ipv6_value, lemma_from_segs, segs, Ipv6Addr};
use crate::net::socket::{host_text, is_public, socket_text, socket_value, SocketAddr};
use crate::numeral::decimal;
use crate::roster::allocator::{host_segments, slot_of};
use crate::roster::api::{PeerEventView, RequestView};
use crate::roster::coordinator::apply::without;
use crate::roster::coordinator::connectivity::is_info_of;
use crate::roster::coordinator::effect::{EffectView, ErrorView, RegisterOutcome, RosterEventView};
use crate::roster::coordinator::heartbeat::stale_set;
use crate::roster::coordinator::laws::{
    consistent, distinct_ulas, law_registering_keeps_consistency, lemma_first_holder,
};
use crate::roster::coordinator::outcomes::{
    describes, is_event_of, law_the_durable_copy_has_everybody, law_who_is_silent,
};
use crate::roster::coordinator::registration::{
    admitted, evictee, holder_of, holds_ula, is_claimed, is_first_holder, is_stale, question,
    registered, wanted_ula, QuestionView,
};
use crate::roster::coordinator::state::{wf, CoordView};
use crate::roster::entry::PeerView;
use crate::roster::events::LeftView;
use crate::roster::identity::law_claims_decide_identity;
use crate::text::{is_space, law_trimming_takes_the_space_around, trimmed};
use vstd::prelude::*;

verus! {

/// Whether a text has a character that is no white space.
pub open spec fn is_not_blank(t: Seq<char>) -> bool {
    exists|i: int| 0 <= i < t.len() && !is_space(#[trigger] t[i])
}

/// Whether a joiner is admitted with these claims: with none where no token is
/// validated, and otherwise with those of the auth service, which has to call
/// the joiner's token valid.
pub open spec fn goes_by(
    s: CoordView,
    bearer: Option<Seq<char>>,
    reply: ReplyView,
    claims: Option<ClaimsView>,
) -> bool {
    match claims {
        None => !s.validator,
        Some(c) => {
            &&& s.validator
            &&& bearer is Some && is_not_blank(bearer->0)
            &&& reply == ReplyView::Claims(c)
            &&& c.valid
        },
    }
}

proof fn lemma_blank(t: Seq<char>)
    ensures
        is_not_blank(t) <==> trimmed(t).len() > 0,
{
    law_trimming_takes_the_space_around(t);
}

proof fn lemma_goes_by(
    s: CoordView,
    req: RequestView,
    bearer: Option<Seq<char>>,
    reply: ReplyView,
    observed: Option<SocketAddr>,
    clock: Reading,
    id: u128,
    claims: Option<ClaimsView>,
)
    requires
        goes_by(s, bearer, reply, claims),
    ensures
        registered(s, req, bearer, reply, observed, clock, id) == admitted(
            s,
            req,
            claims,
            observed,
            clock,
            id,
        ),
{
    if bearer is Some {
        lemma_blank(bearer->0);
    }
}

/// Where tokens are validated, a joiner without one, with a blank one, or with
/// one that the auth service does not call valid is turned away as not
/// authorised, and nothing changes.
pub proof fn law_only_valid_tokens_join(
    s: CoordView,
    req: RequestView,
    bearer: Option<Seq<char>>,
    reply: ReplyView,
    observed: Option<SocketAddr>,
    clock: Reading,
    id: u128,
)
    requires
        s.validator,
        bearer is None || !is_not_blank(bearer->0) || !(reply matches ReplyView::Claims(c)
            && c.valid),
    ensures
        ({
            let j = registered(s, req, bearer, reply, observed, clock, id);
            &&& j.result matches Err(e)
            &&& e is Unauthorized
            &&& j.state == s
            &&& j.effects.len() == 0
        }),
{
    if bearer is Some {
        lemma_blank(bearer->0);
    }
}

/// Whether a text holds a public key: 32 bytes in base64.
pub open spec fn holds_key(text: Seq<char>, key: Seq<u8>) -> bool {
    key.len() == 32 && base64_text(key) == text
}

proof fn lemma_holds_key(text: Seq<char>, key: Seq<u8>)
    requires
        holds_key(text, key),
    ensures
        base64_value(text) == Some(key),
{
    lemma_base64_value(key);
}

/// A joiner whose public key is no base64, or not 32 bytes, is turned away over
/// its key, and nothing changes.
pub proof fn law_only_keys_join(
    s: CoordView,
    req: RequestView,
    bearer: Option<Seq<char>>,
    reply: ReplyView,
    observed: Option<SocketAddr>,
    clock: Reading,
    id: u128,
    claims: Option<ClaimsView>,
    bytes: Seq<u8>,
)
    requires
        goes_by(s, bearer, reply, claims),
    ensures
        ({
            let j = registered(s, req, bearer, reply, observed, clock, id);
            &&& base64_text(bytes) == req.wg_public_key && bytes.len() != 32 ==> j.result == Err::<
                (PeerView, RegisterOutcome),
                ErrorView,
            >(ErrorView::InvalidPubkey(bytes.len())) && j.state == s && j.effects.len() == 0
            &&& (forall|b: Seq<u8>| #[trigger] base64_text(b) != req.wg_public_key) ==> j.state == s
                && j.effects.len() == 0 && {
                &&& j.result matches Err(e)
                &&& e is PubkeyDecode
            }
        }),
{
    lemma_goes_by(s, req, bearer, reply, observed, clock, id, claims);
    lemma_base64_value(bytes);
}

/// Every joiner that is answered with a peer is in the roster as that peer,
/// known by its public key, and was heard of when it joined: it is silent for
/// too long only once more than the timeout has passed since then.
pub proof fn law_joiners_are_heard_of(
    s: CoordView,
    req: RequestView,
    bearer: Option<Seq<char>>,
    reply: ReplyView,
    observed: Option<SocketAddr>,
    clock: Reading,
    id: u128,
    later: Instant,
)
    requires
        consistent(s),
        registered(s, req, bearer, reply, observed, clock, id).result is Ok,
    ensures
        ({
            let j = registered(s, req, bearer, reply, observed, clock, id);
            let e = (j.result->Ok_0).0;
            &&& j.state.roster.contains_key(e.peer_id)
            &&& j.state.roster[e.peer_id] == e
            &&& e.last_heartbeat == clock.instant
            &&& !stale_set(j.state, clock.instant).contains(e.peer_id)
            &&& stale_set(j.state, later).contains(e.peer_id) <==> later.nanos > clock.instant.nanos
                + s.heartbeat_timeout.nanos
            &&& holds_key(req.wg_public_key, e.wg_public_key)
            &&& j.state.by_pubkey.contains_key(e.wg_public_key)
            &&& j.state.by_pubkey[e.wg_public_key] == e.peer_id
        }),
{
    let j = registered(s, req, bearer, reply, observed, clock, id);
    let e = (j.result->Ok_0).0;
    let key = base64_value(req.wg_public_key)->0;
    if s.by_pubkey.contains_key(key) {
        assert(s.roster.contains_key(s.by_pubkey[key]));
        assert(s.roster[s.by_pubkey[key]].wg_public_key == key);
    }
    assert(base64_text(key) == req.wg_public_key);
    assert(e.wg_public_key == key);
    law_who_is_silent(j.state, clock.instant, e.peer_id);
    law_who_is_silent(j.state, later, e.peer_id);
}

/// Whether an endpoint is the one that others should dial. A relay-only peer
/// has none. One that the peer reported stays where it is no address or a
/// public one. Otherwise a public address that the peer was seen under counts,
/// with the port that it listens on; where that is lacking, what was reported.
pub open spec fn is_dialled_endpoint(
    endpoint: Option<Seq<char>>,
    reflexive: bool,
    reported: Option<Seq<char>>,
    observed: Option<SocketAddr>,
    port: Option<u16>,
    relay_only: bool,
) -> bool {
    let chosen = reported is Some && (socket_value(reported->0) is None || is_public(
        (socket_value(reported->0)->0).ip,
    ));
    let seen = observed is Some && is_public((observed->0).ip) && port is Some;
    if relay_only {
        endpoint is None && !reflexive
    } else if seen && !chosen {
        &&& endpoint == Some(host_text((observed->0).ip, 0) + seq![':'] + decimal(port->0 as int))
        &&& reflexive
    } else {
        endpoint == reported && !reflexive
    }
}

/// Whether a peer has the network and the tags that it should: those that it
/// named where no token is validated, and otherwise the token's, with what it
/// named of what a node may say of its own abilities.
pub open spec fn has_identity(
    network: Seq<char>,
    tags: Seq<Seq<char>>,
    req: RequestView,
    claims: Option<ClaimsView>,
) -> bool {
    match claims {
        None => network == req.network && tags == req.tags,
        Some(c) => {
            &&& network == c.network
            &&& c.tags.is_prefix_of(tags)
            &&& forall|t: Seq<char>| #[trigger]
                tags.contains(t) <==> c.tags.contains(t) || (req.tags.contains(t) && (t
                    == "supervisor"@ || t == "firecracker"@ || t == "docker"@ || t == "builder"@))
        },
    }
}

proof fn lemma_has_identity(req: RequestView, claims: Option<ClaimsView>)
    ensures
        ({
            let i = crate::roster::identity::identity_of(req, claims);
            has_identity(i.network, i.tags, req, claims)
        }),
{
    if let Some(c) = claims {
        let i = crate::roster::identity::identity_of(req, claims);
        assert forall|t: Seq<char>| #[trigger] i.tags.contains(t) <==> c.tags.contains(t) || (
        req.tags.contains(t) && (t == "supervisor"@ || t == "firecracker"@ || t == "docker"@ || t
            == "builder"@)) by {
            law_claims_decide_identity(req, c, t);
        }
        law_claims_decide_identity(req, c, Seq::empty());
    }
}

/// A public key that was not known makes a new peer, with the identifier that
/// was drawn for it, as the joiner described itself. It starts without paths
/// and commands.
pub proof fn law_what_new_peers_are(
    s: CoordView,
    req: RequestView,
    bearer: Option<Seq<char>>,
    reply: ReplyView,
    observed: Option<SocketAddr>,
    clock: Reading,
    id: u128,
    claims: Option<ClaimsView>,
    key: Seq<u8>,
)
    requires
        goes_by(s, bearer, reply, claims),
        holds_key(req.wg_public_key, key),
        !s.by_pubkey.contains_key(key),
        registered(s, req, bearer, reply, observed, clock, id).result is Ok,
    ensures
        ({
            let (e, outcome) = registered(
                s,
                req,
                bearer,
                reply,
                observed,
                clock,
                id,
            ).result->Ok_0;
            &&& outcome == RegisterOutcome::Created
            &&& e.peer_id == id
            &&& e.wg_public_key == key
            &&& e.peer_index == segs(e.ula)[3]
            &&& e.display_name == req.display_name
            &&& has_identity(e.network, e.tags, req, claims)
            &&& e.hosted_app_ulas == req.hosted_app_ulas
            &&& e.joined_at_micros == clock.unix_micros
            &&& e.last_heartbeat == clock.instant
            &&& e.kind == req.kind
            &&& e.parent == req.parent
            &&& e.app_uuid == req.app_uuid
            &&& e.software_version == req.software_version
            &&& e.mesh_version == req.mesh_version
            &&& e.relay_only == req.relay_only
            &&& observed is Some ==> e.observed_external == socket_text(observed->0)
            &&& observed is None ==> e.observed_external.len() == 0
            &&& req.listen_endpoint != Some(Seq::<char>::empty()) ==> is_dialled_endpoint(
                e.listen_endpoint,
                e.endpoint_is_reflexive,
                req.listen_endpoint,
                observed,
                req.wg_listen_port,
                req.relay_only,
            )
            &&& req.listen_endpoint == Some(Seq::<char>::empty()) ==> e.listen_endpoint is None
            &&& forall|k: u128| !#[trigger] e.paths.contains_key(k)
            &&& e.dataplane_healthy
            &&& e.pending_commands.len() == 0
        }),
{
    lemma_goes_by(s, req, bearer, reply, observed, clock, id, claims);
    lemma_holds_key(req.wg_public_key, key);
    lemma_has_identity(req, claims);
    crate::net::addr::lemma_segs(
        (registered(s, req, bearer, reply, observed, clock, id).result->Ok_0).0.ula,
    );
    if let Some(t) = req.listen_endpoint {
        if t.len() == 0 {
            assert(t =~= Seq::<char>::empty());
            reveal_with_fuel(crate::net::split::last_at, 2);
        }
    }
}

/// Whether addresses of a slot go on from one count to the next.
pub open spec fn counts_up(before: Map<u16, u16>, after: Map<u16, u16>, slot: u16) -> bool {
    &&& after.contains_key(slot)
    &&& before.contains_key(slot) ==> after[slot] == before[slot] + 1
    &&& !before.contains_key(slot) ==> after[slot] == 1
    &&& forall|other: u16| other != slot ==> (#[trigger] after.contains_key(other)
        <==> before.contains_key(other)) && after[other] == before[other]
}

/// Whether an address is the one at an index of a slot.
pub open spec fn is_host_at(addr: Ipv6Addr, slot: u16, index: u16) -> bool {
    segs(addr) == seq![0xfd5a, 0x1f00, slot as int, index as int, 0, 0, 0, 1]
}

/// Whether a slot has an address left.
pub open spec fn has_room(slots: Map<u16, u16>, slot: u16) -> bool {
    slots.contains_key(slot) ==> slots[slot] < 65535
}

/// A public key that is known joins again as the peer that it is. It keeps its
/// identifier, key, the time it joined, paths, health and commands, and is
/// otherwise as it describes itself now; versions that it does not name stay. A
/// token of another network moves it there, to the next address of that
/// network; in every other situation it keeps its network and its address.
pub proof fn law_what_joining_again_changes(
    s: CoordView,
    req: RequestView,
    bearer: Option<Seq<char>>,
    reply: ReplyView,
    observed: Option<SocketAddr>,
    clock: Reading,
    id: u128,
    claims: Option<ClaimsView>,
    key: Seq<u8>,
)
    requires
        consistent(s),
        goes_by(s, bearer, reply, claims),
        holds_key(req.wg_public_key, key),
        s.by_pubkey.contains_key(key),
    ensures
        ({
            let j = registered(s, req, bearer, reply, observed, clock, id);
            let k = s.by_pubkey[key];
            let was = s.roster[k];
            let moves = claims is Some && (claims->0).network != was.network;
            if moves && !has_room(s.slots, slot_of((claims->0).network)) {
                &&& j.result matches Err(e)
                &&& e is Allocation
                &&& j.state == s
            } else {
                &&& j.result matches Ok((e, outcome))
                &&& outcome == RegisterOutcome::Existed
                &&& e.peer_id == k
                &&& e.wg_public_key == key
                &&& e.joined_at_micros == was.joined_at_micros
                &&& e.paths == was.paths
                &&& e.dataplane_healthy == was.dataplane_healthy
                &&& e.pending_commands == was.pending_commands
                &&& e.last_heartbeat == clock.instant
                &&& e.display_name == req.display_name
                &&& has_identity(
                    if claims is Some {
                        e.network
                    } else {
                        req.network
                    },
                    e.tags,
                    req,
                    claims,
                )
                &&& e.hosted_app_ulas == req.hosted_app_ulas
                &&& e.kind == req.kind
                &&& e.parent == req.parent
                &&& e.app_uuid == req.app_uuid
                &&& req.software_version is Some ==> e.software_version == req.software_version
                &&& req.software_version is None ==> e.software_version == was.software_version
                &&& req.mesh_version is Some ==> e.mesh_version == req.mesh_version
                &&& req.mesh_version is None ==> e.mesh_version == was.mesh_version
                &&& e.relay_only == req.relay_only
                &&& observed is Some ==> e.observed_external == socket_text(observed->0)
                &&& observed is None ==> e.observed_external == was.observed_external
                &&& is_dialled_endpoint(
                    e.listen_endpoint,
                    e.endpoint_is_reflexive,
                    req.listen_endpoint,
                    observed,
                    req.wg_listen_port,
                    req.relay_only,
                )
                &&& !moves ==> {
                    &&& e.network == was.network
                    &&& e.ula == was.ula
                    &&& e.peer_index == was.peer_index
                    &&& j.state.slots == s.slots
                }
                &&& moves ==> {
                    let slot = slot_of((claims->0).network);
                    &&& e.network == (claims->0).network
                    &&& counts_up(s.slots, j.state.slots, slot)
                    &&& e.peer_index == j.state.slots[slot]
                    &&& is_host_at(e.ula, slot, e.peer_index)
                }
            }
        }),
{
    lemma_goes_by(s, req, bearer, reply, observed, clock, id, claims);
    lemma_holds_key(req.wg_public_key, key);
    lemma_has_identity(req, claims);
    let k = s.by_pubkey[key];
    assert(s.roster.contains_key(k));
    if claims is Some {
        let slot = slot_of((claims->0).network);
        if has_room(s.slots, slot) {
            let index = (crate::roster::allocator::issued_in(s.slots, slot) + 1) as u16;
            lemma_from_segs(host_segments(slot, index));
        }
    }
}

/// Joining changes the joiner's own peer and no other, but for a silent one that
/// makes room; and nothing besides the peers, their keys, their pairs and the
/// counts of addresses.
pub proof fn law_joining_leaves_others_alone(
    s: CoordView,
    req: RequestView,
    bearer: Option<Seq<char>>,
    reply: ReplyView,
    observed: Option<SocketAddr>,
    clock: Reading,
    id: u128,
    other: u128,
)
    requires
        consistent(s),
        s.roster.contains_key(other),
        other != id,
    ensures
        ({
            let j = registered(s, req, bearer, reply, observed, clock, id);
            let own = j.result is Ok && (j.result->Ok_0).0.peer_id == other;
            let evicted = ipv6_value(req.requested_ula->0) == Some(s.roster[other].ula)
                && req.requested_ula is Some && clock.instant.nanos
                > s.roster[other].last_heartbeat.nanos + s.heartbeat_timeout.nanos;
            &&& !own && !evicted ==> j.state.roster.contains_key(other) && j.state.roster[other]
                == s.roster[other]
            &&& j.state.policy == s.policy
            &&& j.state.validator == s.validator
            &&& j.state.heartbeat_timeout == s.heartbeat_timeout
            &&& j.state.direct_pairs == s.direct_pairs
            &&& j.state.proactive == s.proactive
            &&& j.state.relay_forwarded_bytes == s.relay_forwarded_bytes
            &&& j.state.holepunch_emitted == s.holepunch_emitted
            &&& j.state.relay_wake_emitted == s.relay_wake_emitted
        }),
{
    let key = base64_value(req.wg_public_key)->0;
    if s.by_pubkey.contains_key(key) {
        assert(s.roster.contains_key(s.by_pubkey[key]));
    }
    if let Some(addr) = wanted_ula(req.requested_ula) {
        if is_claimed(s.roster, addr) {
            lemma_first_holder(s.roster, addr);
        }
    }
}

/// Whether a token grants an address by name.
pub open spec fn is_granted(claims: Option<ClaimsView>, addr: Ipv6Addr) -> bool {
    claims matches Some(c) && exists|i: int|
        0 <= i < c.requested_ulas.len() && ipv6_value(#[trigger] c.requested_ulas[i]) == Some(addr)
}

/// Whether an address is one of a network's block: of the form
/// `fd5a:1f00:<slot>:<index>::1`, with an index above zero.
pub open spec fn is_of_a_block(addr: Ipv6Addr) -> bool {
    exists|slot: u16, index: u16| index > 0 && #[trigger] is_host_at(addr, slot, index)
}

proof fn lemma_of_a_block(addr: Ipv6Addr)
    ensures
        is_of_a_block(addr) == crate::roster::allocator::is_host_address(addr),
{
    crate::net::addr::lemma_segs(addr);
    let s = segs(addr);
    if crate::roster::allocator::is_host_address(addr) {
        assert(0 <= s[2] < 65536 && 0 <= s[3] < 65536);
        assert(s =~= seq![0xfd5a, 0x1f00, s[2], s[3], 0, 0, 0, 1]);
        assert(is_host_at(addr, s[2] as u16, s[3] as u16));
    }
    if is_of_a_block(addr) {
        let (slot, index) = choose|slot: u16, index: u16|
            index > 0 && #[trigger] is_host_at(addr, slot, index);
        assert(is_host_at(addr, slot, index));
    }
}

/// Whether a joiner may have an address: where its token grants it; where it is
/// of the block of the joiner's own network; or where it is outside all blocks
/// and either no token is validated or it does not start as the blocks do.
pub open spec fn may_have(addr: Ipv6Addr, network: Seq<char>, claims: Option<ClaimsView>) -> bool {
    ||| is_granted(claims, addr)
    ||| is_of_a_block(addr) && segs(addr)[2] == slot_of(network)
    ||| !is_of_a_block(addr) && (claims is None || segs(addr)[0] != 0xfd5a || segs(addr)[1] != 0x1f00)
}

/// The network that a joiner is in.
pub open spec fn joined_network(req: RequestView, claims: Option<ClaimsView>) -> Seq<char> {
    match claims {
        Some(c) => c.network,
        None => req.network,
    }
}

/// Whether a peer that is not silent has an address.
pub open spec fn is_held(s: CoordView, addr: Ipv6Addr, now: Instant) -> bool {
    exists|k: u128| #[trigger]
        s.roster.contains_key(k) && s.roster[k].ula == addr && now.nanos
            <= s.roster[k].last_heartbeat.nanos + s.heartbeat_timeout.nanos
}

/// A new key that asks for an address gets it exactly if it may have it and no
/// peer that is not silent has it. It is turned away over the network where the
/// address is of another network's block, as not authorised where it lacks a
/// grant, and over the conflict where a peer has the address.
pub proof fn law_who_gets_the_address_asked_for(
    s: CoordView,
    req: RequestView,
    bearer: Option<Seq<char>>,
    reply: ReplyView,
    observed: Option<SocketAddr>,
    clock: Reading,
    id: u128,
    claims: Option<ClaimsView>,
    key: Seq<u8>,
    addr: Ipv6Addr,
)
    requires
        consistent(s),
        distinct_ulas(s),
        goes_by(s, bearer, reply, claims),
        holds_key(req.wg_public_key, key),
        !s.by_pubkey.contains_key(key),
        req.requested_ula is Some,
        ipv6_value(req.requested_ula->0) == Some(addr),
    ensures
        ({
            let j = registered(s, req, bearer, reply, observed, clock, id);
            let network = joined_network(req, claims);
            let held = is_held(s, addr, clock.instant);
            &&& j.result is Ok <==> may_have(addr, network, claims) && !held
            &&& j.result matches Ok((e, _)) ==> e.ula == addr
            &&& j.result matches Err(e) ==> e == (if may_have(addr, network, claims) {
                ErrorView::UlaConflict(req.requested_ula->0)
            } else if is_of_a_block(addr) {
                ErrorView::UlaNetworkMismatch { ula: req.requested_ula->0, network }
            } else {
                ErrorView::Unauthorized("join token does not grant the requested ULA"@)
            })
        }),
{
    lemma_goes_by(s, req, bearer, reply, observed, clock, id, claims);
    lemma_holds_key(req.wg_public_key, key);
    lemma_has_identity(req, claims);
    lemma_of_a_block(addr);
    let j = registered(s, req, bearer, reply, observed, clock, id);
    if is_claimed(s.roster, addr) {
        lemma_first_holder(s.roster, addr);
        let k = holder_of(s.roster, addr)->0;
        assert(holds_ula(s.roster, addr, k));
        law_who_is_silent(s, clock.instant, k);
        if is_stale(s, k, clock.instant) {
            let room = without(s, k);
            if is_claimed(room.roster, addr) {
                let i = choose|i: u128| #[trigger] holds_ula(room.roster, addr, i);
                assert(s.roster.contains_key(i) && s.roster.contains_key(k));
            }
            if is_held(s, addr, clock.instant) {
                let i = choose|i: u128| #[trigger]
                    s.roster.contains_key(i) && s.roster[i].ula == addr && clock.instant.nanos
                        <= s.roster[i].last_heartbeat.nanos + s.heartbeat_timeout.nanos;
                assert(i == k);
            }
        } else {
            assert(is_held(s, addr, clock.instant));
        }
    } else {
        if is_held(s, addr, clock.instant) {
            let i = choose|i: u128| #[trigger]
                s.roster.contains_key(i) && s.roster[i].ula == addr && clock.instant.nanos
                    <= s.roster[i].last_heartbeat.nanos + s.heartbeat_timeout.nanos;
            assert(holds_ula(s.roster, addr, i));
        }
    }
}

/// A new key that asks for no address gets the next one of its network, and is
/// turned away only where there is none left.
pub proof fn law_who_gets_the_next_address(
    s: CoordView,
    req: RequestView,
    bearer: Option<Seq<char>>,
    reply: ReplyView,
    observed: Option<SocketAddr>,
    clock: Reading,
    id: u128,
    claims: Option<ClaimsView>,
    key: Seq<u8>,
)
    requires
        goes_by(s, bearer, reply, claims),
        holds_key(req.wg_public_key, key),
        !s.by_pubkey.contains_key(key),
        req.requested_ula is None || ipv6_value(req.requested_ula->0) is None,
    ensures
        ({
            let j = registered(s, req, bearer, reply, observed, clock, id);
            let slot = slot_of(joined_network(req, claims));
            if has_room(s.slots, slot) {
                &&& j.result matches Ok((e, _))
                &&& counts_up(s.slots, j.state.slots, slot)
                &&& e.peer_index == j.state.slots[slot]
                &&& is_host_at(e.ula, slot, e.peer_index)
            } else {
                &&& j.result matches Err(e)
                &&& e is Allocation
                &&& j.state == s
            }
        }),
{
    lemma_goes_by(s, req, bearer, reply, observed, clock, id, claims);
    lemma_holds_key(req.wg_public_key, key);
    lemma_has_identity(req, claims);
    let slot = slot_of(joined_network(req, claims));
    if has_room(s.slots, slot) {
        let index = (crate::roster::allocator::issued_in(s.slots, slot) + 1) as u16;
        lemma_from_segs(host_segments(slot, index));
    }
}

/// An address that was asked for moves the count of its slot to its index where
/// that is greater, and no other count.
pub proof fn law_asked_addresses_are_counted(
    s: CoordView,
    req: RequestView,
    bearer: Option<Seq<char>>,
    reply: ReplyView,
    observed: Option<SocketAddr>,
    clock: Reading,
    id: u128,
    claims: Option<ClaimsView>,
    key: Seq<u8>,
    addr: Ipv6Addr,
    other: u16,
)
    requires
        goes_by(s, bearer, reply, claims),
        holds_key(req.wg_public_key, key),
        !s.by_pubkey.contains_key(key),
        req.requested_ula is Some,
        ipv6_value(req.requested_ula->0) == Some(addr),
        registered(s, req, bearer, reply, observed, clock, id).result is Ok,
    ensures
        ({
            let before = s.slots;
            let after = registered(s, req, bearer, reply, observed, clock, id).state.slots;
            let slot = segs(addr)[2] as u16;
            &&& after.contains_key(slot)
            &&& after[slot] >= segs(addr)[3]
            &&& before.contains_key(slot) ==> after[slot] >= before[slot]
            &&& after[slot] == segs(addr)[3] || (before.contains_key(slot) && after[slot]
                == before[slot])
            &&& other != slot ==> (after.contains_key(other) <==> before.contains_key(other))
                && after[other] == before[other]
        }),
{
    lemma_goes_by(s, req, bearer, reply, observed, clock, id, claims);
    lemma_holds_key(req.wg_public_key, key);
    crate::net::addr::lemma_segs(addr);
}

/// What is asked for when a key joins. For a new one its joining is published,
/// viewers see it added, and the durable copy is replaced by one of everybody.
/// For a known one that stays viewers see it updated, and nothing else; for one
/// that moves they see it gone, with the tags that it had, and added, and the
/// durable copy is replaced.
pub proof fn law_joiners_are_announced(
    s: CoordView,
    req: RequestView,
    bearer: Option<Seq<char>>,
    reply: ReplyView,
    observed: Option<SocketAddr>,
    clock: Reading,
    id: u128,
)
    requires
        consistent(s),
        !s.roster.contains_key(id),
        registered(s, req, bearer, reply, observed, clock, id).result is Ok,
    ensures
        ({
            let j = registered(s, req, bearer, reply, observed, clock, id);
            let (e, outcome) = j.result->Ok_0;
            let n = j.effects.len() as int;
            match outcome {
                RegisterOutcome::Created => {
                    &&& n == 3 || n == 7
                    &&& n == 7 ==> exists|k: u128| #[trigger]
                        s.roster.contains_key(k) && s.roster[k].ula == e.ula
                    &&& j.effects[n - 3] matches EffectView::Publish(RosterEventView::Joined(ev))
                    &&& is_event_of(ev, e)
                    &&& j.effects[n - 2] matches EffectView::Broadcast(PeerEventView::Added(info))
                    &&& is_info_of(info, e)
                    &&& info.connectivity is None && info.connectivity_age_ms is None
                    &&& j.effects[n - 1] matches EffectView::Persist(evs)
                    &&& describes(evs, j.state.roster)
                },
                RegisterOutcome::Existed => if e.network == s.roster[e.peer_id].network {
                    &&& n == 1
                    &&& j.effects[0] matches EffectView::Broadcast(PeerEventView::Updated(info))
                    &&& is_info_of(info, e)
                    &&& info.connectivity is None && info.connectivity_age_ms is None
                } else {
                    &&& n == 3
                    &&& j.effects[0] == EffectView::Broadcast(
                        PeerEventView::Removed {
                            peer_id: uuid_text(e.peer_id),
                            tags: s.roster[e.peer_id].tags,
                        },
                    )
                    &&& j.effects[1] matches EffectView::Broadcast(PeerEventView::Added(info))
                    &&& is_info_of(info, e)
                    &&& info.connectivity is None && info.connectivity_age_ms is None
                    &&& j.effects[2] matches EffectView::Persist(evs)
                    &&& describes(evs, j.state.roster)
                },
            }
        }),
{
    let j = registered(s, req, bearer, reply, observed, clock, id);
    law_registering_keeps_consistency(s, req, bearer, reply, observed, clock, id);
    law_the_durable_copy_has_everybody(j.state);
    let key = base64_value(req.wg_public_key)->0;
    if s.by_pubkey.contains_key(key) {
        assert(s.roster.contains_key(s.by_pubkey[key]));
    } else if let Some(k) = evictee(s, req.requested_ula, clock.instant) {
        let addr = wanted_ula(req.requested_ula)->0;
        assert(is_claimed(s.roster, addr));
        lemma_first_holder(s.roster, addr);
        assert(holds_ula(s.roster, addr, k));
        assert(s.roster.contains_key(k));
    }
}

/// A silent peer that has the address that a new key gets is gone, and that is
/// announced before the joiner is: its departure is published with the reason,
/// viewers are told with the tags that it had, and its relay connection is
/// closed.
pub proof fn law_silent_holders_make_room(
    s: CoordView,
    req: RequestView,
    bearer: Option<Seq<char>>,
    reply: ReplyView,
    observed: Option<SocketAddr>,
    clock: Reading,
    id: u128,
    claims: Option<ClaimsView>,
    key: Seq<u8>,
    gone: u128,
)
    requires
        consistent(s),
        distinct_ulas(s),
        goes_by(s, bearer, reply, claims),
        holds_key(req.wg_public_key, key),
        !s.by_pubkey.contains_key(key),
        req.requested_ula is Some,
        s.roster.contains_key(gone),
        gone != id,
        ipv6_value(req.requested_ula->0) == Some(s.roster[gone].ula),
        registered(s, req, bearer, reply, observed, clock, id).result is Ok,
    ensures
        ({
            let j = registered(s, req, bearer, reply, observed, clock, id);
            &&& !j.state.roster.contains_key(gone)
            &&& !j.state.by_pubkey.contains_key(s.roster[gone].wg_public_key)
            &&& j.effects.take(4).contains(
                EffectView::Publish(
                    RosterEventView::Left(
                        LeftView {
                            peer_id: uuid_text(gone),
                            reason: "evicted_stale_ula_holder"@,
                            left_at_micros: clock.unix_micros,
                        },
                    ),
                ),
            )
            &&& j.effects.take(4).contains(
                EffectView::Broadcast(
                    PeerEventView::Removed { peer_id: uuid_text(gone), tags: s.roster[gone].tags },
                ),
            )
            &&& j.effects.take(4).contains(EffectView::DropRelay(s.roster[gone].wg_public_key))
            &&& j.effects[3] matches EffectView::Persist(evs)
            &&& describes(evs, s.roster.remove(gone))
            &&& j.effects.len() == 7
        }),
{
    lemma_goes_by(s, req, bearer, reply, observed, clock, id, claims);
    lemma_holds_key(req.wg_public_key, key);
    let addr = s.roster[gone].ula;
    assert(holds_ula(s.roster, addr, gone));
    assert(is_claimed(s.roster, addr));
    lemma_first_holder(s.roster, addr);
    let first = holder_of(s.roster, addr)->0;
    assert(is_first_holder(s.roster, addr, first));
    assert(s.roster.contains_key(first));
    assert(first == gone);
    let j = registered(s, req, bearer, reply, observed, clock, id);
    if evictee(s, req.requested_ula, clock.instant) is None {
        assert(is_claimed(s.roster, addr));
    }
    let room = without(s, gone);
    assert(wf(room));
    law_the_durable_copy_has_everybody(room);
    assert(room.roster == s.roster.remove(gone));
    let head = j.effects.take(4);
    assert(head[0] is Publish && head[1] is Broadcast && head[2] is DropRelay);
}

/// What the auth service is asked before a joiner is registered: nothing where
/// no token is validated or the joiner has none; otherwise whether its token,
/// without the space around it, is good for its public key, without the space
/// around that, or for any where the key is blank.
pub proof fn law_what_is_asked(validator: bool, bearer: Option<Seq<char>>, key: Seq<char>)
    ensures
        ({
            let q = question(validator, bearer, key);
            let has_token = bearer is Some && is_not_blank(bearer->0);
            &&& q is Trusted <==> !validator
            &&& q is Missing <==> validator && !has_token
            &&& q is Ask <==> validator && has_token
            &&& q matches QuestionView::Ask { token, wg_public_key } ==> {
                &&& token == trimmed(bearer->0)
                &&& is_not_blank(key) ==> wg_public_key == Some(trimmed(key))
                &&& !is_not_blank(key) ==> wg_public_key is None
            }
        }),
{
    if bearer is Some {
        lemma_blank(bearer->0);
    }
    lemma_blank(key);
}

/// What a joiner is told that is turned away over its token: that it is missing,
/// that it is not valid, or what the auth service said.
pub proof fn law_what_is_said_of_tokens(
    s: CoordView,
    req: RequestView,
    bearer: Option<Seq<char>>,
    reply: ReplyView,
    observed: Option<SocketAddr>,
    clock: Reading,
    id: u128,
)
    requires
        s.validator,
    ensures
        ({
            let j = registered(s, req, bearer, reply, observed, clock, id);
            let has_token = bearer is Some && is_not_blank(bearer->0);
            &&& !has_token ==> j.result == Err::<(PeerView, RegisterOutcome), ErrorView>(
                ErrorView::Unauthorized("missing join token (Authorization: Bearer)"@),
            )
            &&& has_token ==> match reply {
                ReplyView::Claims(c) => !c.valid ==> j.result == Err::<
                    (PeerView, RegisterOutcome),
                    ErrorView,
                >(ErrorView::Unauthorized("join token invalid or revoked"@)),
                ReplyView::WrongKind(k) => j.result == Err::<
                    (PeerView, RegisterOutcome),
                    ErrorView,
                >(ErrorView::Unauthorized("join token has wrong kind: "@ + k)),
                ReplyView::Failed(e) => j.result == Err::<
                    (PeerView, RegisterOutcome),
                    ErrorView,
                >(ErrorView::Unauthorized("join token validation failed: "@ + e)),
            }
        }),
{
    if bearer is Some {
        lemma_blank(bearer->0);
    }
}

} // verus!
