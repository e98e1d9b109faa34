//! What the coordinator can answer, and what it asks for.

use crate::bindings::ids::{id_text, uuid_text};
use crate::numeral::{decimal, decimal_text};
use crate::roster::allocator::{AllocError, EXHAUSTED_TEXT};
use crate::roster::api::{PeerEvent, PeerEventView};
use crate::roster::events::{
    HeartbeatView, HolePunchInitiate, JoinedView, LeftView, PeerHeartbeat, PeerJoined, PeerLeft,
    PunchView,
};
use crate::text::{cat, cat3};
use vstd::prelude::*;

verus! {

/// Why the coordinator refused.
#[derive(Debug)]
pub enum CoordinatorError {
    /// An identifier or address could not be read.
    InvalidPeerId(String),
    /// The public key is not 32 bytes long, but as many as named.
    InvalidPubkey(usize),
    /// The public key is no base64.
    PubkeyDecode(String),
    /// The address that was asked for is no address.
    InvalidRequestedUla(String),
    /// There is no address left.
    Allocation(AllocError),
    /// There is no such peer.
    UnknownPeer(u128),
    /// The join token does not permit it.
    Unauthorized(String),
    /// Another peer holds the address that was asked for.
    UlaConflict(String),
    /// The address that was asked for is outside the network's block.
    UlaNetworkMismatch { ula: String, network: String },
}

/// What a `CoordinatorError` holds.
#[verifier::ext_equal]
pub enum ErrorView {
    InvalidPeerId(Seq<char>),
    InvalidPubkey(nat),
    PubkeyDecode(Seq<char>),
    InvalidRequestedUla(Seq<char>),
    Allocation(AllocError),
    UnknownPeer(u128),
    Unauthorized(Seq<char>),
    UlaConflict(Seq<char>),
    UlaNetworkMismatch { ula: Seq<char>, network: Seq<char> },
}

impl View for CoordinatorError {
    type V = ErrorView;

    open spec fn view(&self) -> ErrorView {
        match self {
            CoordinatorError::InvalidPeerId(s) => ErrorView::InvalidPeerId(s@),
            CoordinatorError::InvalidPubkey(n) => ErrorView::InvalidPubkey(*n as nat),
            CoordinatorError::PubkeyDecode(s) => ErrorView::PubkeyDecode(s@),
            CoordinatorError::InvalidRequestedUla(s) => ErrorView::InvalidRequestedUla(s@),
            CoordinatorError::Allocation(e) => ErrorView::Allocation(*e),
            CoordinatorError::UnknownPeer(id) => ErrorView::UnknownPeer(*id),
            CoordinatorError::Unauthorized(s) => ErrorView::Unauthorized(s@),
            CoordinatorError::UlaConflict(s) => ErrorView::UlaConflict(s@),
            CoordinatorError::UlaNetworkMismatch { ula, network } => ErrorView::UlaNetworkMismatch {
                ula: ula@,
                network: network@,
            },
        }
    }
}

/// A refusal in words.
pub open spec fn refusal_text(e: ErrorView) -> Seq<char> {
    match e {
        ErrorView::InvalidPeerId(s) => "invalid peer id: "@ + s,
        ErrorView::InvalidPubkey(n) => "invalid wireguard public key (expected 32 bytes, got "@
            + decimal(n as int) + ")"@,
        ErrorView::PubkeyDecode(s) => "invalid base64 in wg_public_key: "@ + s,
        ErrorView::InvalidRequestedUla(s) => "invalid requested ULA: "@ + s,
        ErrorView::Allocation(_) => EXHAUSTED_TEXT@,
        ErrorView::UnknownPeer(id) => "peer not found: "@ + uuid_text(id),
        ErrorView::Unauthorized(s) => "unauthorized join: "@ + s,
        ErrorView::UlaConflict(s) => "requested ULA already claimed by another peer: "@ + s,
        ErrorView::UlaNetworkMismatch { ula, network } => "requested ULA "@ + ula
            + " is outside network `"@ + network + "`'s address block"@,
    }
}

impl CoordinatorError {
    /// The refusal in words.
    pub fn to_text(&self) -> (r: String)
        ensures
            r@ == refusal_text(self@),
    {
        match self {
            CoordinatorError::InvalidPeerId(s) => cat("invalid peer id: ", s.as_str()),
            CoordinatorError::InvalidPubkey(n) => cat3(
                "invalid wireguard public key (expected 32 bytes, got ",
                decimal_text(*n as u64).as_str(),
                ")",
            ),
            CoordinatorError::PubkeyDecode(s) => cat(
                "invalid base64 in wg_public_key: ",
                s.as_str(),
            ),
            CoordinatorError::InvalidRequestedUla(s) => cat("invalid requested ULA: ", s.as_str()),
            CoordinatorError::Allocation(_) => EXHAUSTED_TEXT.to_owned(),
            CoordinatorError::UnknownPeer(id) => cat("peer not found: ", id_text(*id).as_str()),
            CoordinatorError::Unauthorized(s) => cat("unauthorized join: ", s.as_str()),
            CoordinatorError::UlaConflict(s) => cat(
                "requested ULA already claimed by another peer: ",
                s.as_str(),
            ),
            CoordinatorError::UlaNetworkMismatch { ula, network } => {
                let mut r = cat3("requested ULA ", ula.as_str(), " is outside network `");
                r.append(network.as_str());
                r.append("`'s address block");
                r
            },
        }
    }
}

/// Whether a joiner was new.
#[derive(Debug, Clone, Copy, PartialEq, Eq, Structural)]
pub enum RegisterOutcome {
    /// Its public key was not known.
    Created,
    /// Its public key was known; it keeps its identifier.
    Existed,
}

/// An event of the roster.
#[derive(Debug)]
pub enum RosterEvent {
    Joined(PeerJoined),
    Heartbeat(PeerHeartbeat),
    Left(PeerLeft),
    HolePunch(HolePunchInitiate),
}

/// What a `RosterEvent` holds.
#[verifier::ext_equal]
pub enum RosterEventView {
    Joined(JoinedView),
    Heartbeat(HeartbeatView),
    Left(LeftView),
    HolePunch(PunchView),
}

impl View for RosterEvent {
    type V = RosterEventView;

    open spec fn view(&self) -> RosterEventView {
        match self {
            RosterEvent::Joined(e) => RosterEventView::Joined(e@),
            RosterEvent::Heartbeat(e) => RosterEventView::Heartbeat(e@),
            RosterEvent::Left(e) => RosterEventView::Left(e@),
            RosterEvent::HolePunch(e) => RosterEventView::HolePunch(e@),
        }
    }
}

/// Something that is to be done outside the coordinator.
#[derive(Debug)]
pub enum Effect {
    /// Publish an event.
    Publish(RosterEvent),
    /// Tell viewers.
    Broadcast(PeerEvent),
    /// Replace the durable copy of the roster.
    Persist(Vec<PeerJoined>),
    /// Close the relay connection of a public key.
    DropRelay(Vec<u8>),
}

/// What a list of joining events holds.
pub open spec fn joined_views(v: Seq<PeerJoined>) -> Seq<JoinedView> {
    Seq::new(v.len(), |i: int| v[i]@)
}

/// What an `Effect` holds.
#[verifier::ext_equal]
pub enum EffectView {
    Publish(RosterEventView),
    Broadcast(PeerEventView),
    Persist(Seq<JoinedView>),
    DropRelay(Seq<u8>),
}

impl View for Effect {
    type V = EffectView;

    open spec fn view(&self) -> EffectView {
        match self {
            Effect::Publish(e) => EffectView::Publish(e@),
            Effect::Broadcast(e) => EffectView::Broadcast(e@),
            Effect::Persist(v) => EffectView::Persist(joined_views(v@)),
            Effect::DropRelay(k) => EffectView::DropRelay(k@),
        }
    }
}

/// What a list of effects holds.
pub open spec fn effects(v: Seq<Effect>) -> Seq<EffectView> {
    Seq::new(v.len(), |i: int| v[i]@)
}

/// Adds an effect to a list.
pub fn ask(out: &mut Vec<Effect>, e: Effect)
    ensures
        effects(final(out)@) == effects(old(out)@).push(e@),
{
    out.push(e);
    assert(effects(out@) =~= effects(old(out)@).push(e@));
}

/// What refusals say: why, then what it is about, as it was given.
pub proof fn law_what_refusals_say(s: Seq<char>, n: nat, id: u128, network: Seq<char>)
    ensures
        refusal_text(ErrorView::InvalidPeerId(s)) == "invalid peer id: "@ + s,
        refusal_text(ErrorView::InvalidPubkey(n))
            == "invalid wireguard public key (expected 32 bytes, got "@ + decimal(n as int) + ")"@,
        refusal_text(ErrorView::PubkeyDecode(s)) == "invalid base64 in wg_public_key: "@ + s,
        refusal_text(ErrorView::InvalidRequestedUla(s)) == "invalid requested ULA: "@ + s,
        refusal_text(ErrorView::Allocation(AllocError::Exhausted))
            == "ULA index space exhausted (65535 peers per network)"@,
        refusal_text(ErrorView::UnknownPeer(id)) == "peer not found: "@ + uuid_text(id),
        refusal_text(ErrorView::Unauthorized(s)) == "unauthorized join: "@ + s,
        refusal_text(ErrorView::UlaConflict(s))
            == "requested ULA already claimed by another peer: "@ + s,
        refusal_text(ErrorView::UlaNetworkMismatch { ula: s, network }) == "requested ULA "@ + s
            + " is outside network `"@ + network + "`'s address block"@,
{
}

} // verus!
