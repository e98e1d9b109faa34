//! What each event does to the roster, and the roster as a list of events.
//!
//! Nothing here publishes or shows anything: the state is what its events
//! make of it, and a list of joining events is enough to rebuild it.

use crate::bindings::ids::{parse_uuid, uuid_error, uuid_value};
use crate::clock::Instant;
use crate::net::addr::{ints, ipv6_value, segs, Ipv6Addr};
use crate::roster::allocator::bumped;
use crate::roster::coordinator::effect::{joined_views, CoordinatorError, ErrorView};
use crate::roster::coordinator::state::{
    by_id, can_be_listed, entry_views, law_peers_can_be_listed, wf, CoordView, Coordinator,
};
use crate::roster::entry::{joined_of, PeerEntry, PeerView};
use crate::roster::events::{
    HeartbeatView, JoinedView, LeftView, PeerHeartbeat, PeerJoined, PeerLeft,
};
use crate::text::{clone_bytes, clone_opt, clone_strings};
use crate::traversal::holepunch::without_peer;
use std::collections::HashMap;
use vstd::prelude::*;

verus! {

/// What a function that gives a peer or refuses has answered.
pub open spec fn entry_result(r: Result<PeerEntry, CoordinatorError>) -> Result<
    PeerView,
    ErrorView,
> {
    match r {
        Ok(e) => Ok(e@),
        Err(e) => Err(e@),
    }
}

/// The peer that a joining event describes.
pub open spec fn joined_entry(ev: JoinedView, id: u128, ula: Ipv6Addr, now: Instant) -> PeerView {
    PeerView {
        peer_id: id,
        wg_public_key: ev.wg_public_key,
        ula,
        peer_index: segs(ula)[3] as u16,
        listen_endpoint: if ev.listen_endpoint.len() == 0 {
            None
        } else {
            Some(ev.listen_endpoint)
        },
        display_name: ev.display_name,
        network: ev.network,
        tags: ev.tags,
        hosted_app_ulas: ev.hosted_app_ulas,
        joined_at_micros: ev.joined_at_micros,
        last_heartbeat: now,
        observed_external: Seq::empty(),
        endpoint_is_reflexive: false,
        kind: ev.kind,
        parent: ev.parent,
        app_uuid: ev.app_uuid,
        software_version: ev.software_version,
        mesh_version: ev.mesh_version,
        relay_only: ev.relay_only,
        paths: Map::empty(),
        dataplane_healthy: true,
        pending_commands: Seq::empty(),
    }
}

/// The peer that a joining event describes, or why it describes none: its
/// identifier or its address cannot be read.
pub open spec fn joined_result(ev: JoinedView, now: Instant) -> Result<PeerView, ErrorView> {
    match (uuid_value(ev.peer_id), ipv6_value(ev.ula)) {
        (None, _) => Err(ErrorView::InvalidPeerId(uuid_error(ev.peer_id))),
        (Some(_), None) => Err(ErrorView::InvalidPeerId("invalid IPv6 address syntax"@)),
        (Some(id), Some(ula)) => Ok(joined_entry(ev, id, ula, now)),
    }
}

/// The state with a peer in it: known by its identifier and by its public key,
/// its address taken.
pub open spec fn with_peer(s: CoordView, e: PeerView) -> CoordView {
    CoordView {
        roster: s.roster.insert(e.peer_id, e),
        by_pubkey: s.by_pubkey.insert(e.wg_public_key, e.peer_id),
        slots: bumped(s.slots, segs(e.ula)[2] as u16, segs(e.ula)[3] as u16),
        ..s
    }
}

/// The state after a joining event.
pub open spec fn after_joined(s: CoordView, ev: JoinedView, now: Instant) -> CoordView {
    match joined_result(ev, now) {
        Ok(e) => with_peer(s, e),
        Err(_) => s,
    }
}

/// The newer value, where there is one.
pub open spec fn newer<T>(reported: Option<T>, known: Option<T>) -> Option<T> {
    if reported is Some {
        reported
    } else {
        known
    }
}

/// A peer after a sign of life.
pub open spec fn beaten(e: PeerView, ev: HeartbeatView, now: Instant) -> PeerView {
    PeerView {
        last_heartbeat: now,
        observed_external: ev.observed_external,
        hosted_app_ulas: ev.hosted_app_ulas,
        software_version: newer(ev.software_version, e.software_version),
        mesh_version: newer(ev.mesh_version, e.mesh_version),
        ..e
    }
}

/// The state after a sign of life; one of an unknown peer changes nothing.
pub open spec fn after_heartbeat(s: CoordView, ev: HeartbeatView, now: Instant) -> CoordView {
    match uuid_value(ev.peer_id) {
        Some(id) => if s.roster.contains_key(id) {
            CoordView { roster: s.roster.insert(id, beaten(s.roster[id], ev, now)), ..s }
        } else {
            s
        },
        None => s,
    }
}

/// The state without a peer, its public key and its told pairs.
pub open spec fn without(s: CoordView, id: u128) -> CoordView {
    if s.roster.contains_key(id) {
        CoordView {
            roster: s.roster.remove(id),
            by_pubkey: s.by_pubkey.remove(s.roster[id].wg_public_key),
            punches: without_peer(s.punches, id),
            ..s
        }
    } else {
        s
    }
}

/// The state after a peer left; a peer that is not there changes nothing.
pub open spec fn after_left(s: CoordView, ev: LeftView) -> CoordView {
    match uuid_value(ev.peer_id) {
        Some(id) => without(s, id),
        None => s,
    }
}

/// The public key of the peer that left, whose relay connection is to go too.
pub open spec fn left_key(s: CoordView, ev: LeftView) -> Option<Seq<u8>> {
    match uuid_value(ev.peer_id) {
        Some(id) => if s.roster.contains_key(id) {
            Some(s.roster[id].wg_public_key)
        } else {
            None
        },
        None => None,
    }
}

/// The state after a list of joining events; those that describe no peer are
/// skipped.
pub open spec fn after_all(s: CoordView, evs: Seq<JoinedView>, now: Instant) -> CoordView
    decreases evs.len(),
{
    if evs.len() == 0 {
        s
    } else {
        after_joined(after_all(s, evs.drop_last(), now), evs.last(), now)
    }
}

/// How many of a list of joining events describe a peer.
pub open spec fn readable(evs: Seq<JoinedView>, now: Instant) -> nat
    decreases evs.len(),
{
    if evs.len() == 0 {
        0
    } else {
        readable(evs.drop_last(), now) + (if joined_result(evs.last(), now) is Ok {
            1nat
        } else {
            0nat
        })
    }
}

/// The events that a roster can be rebuilt from, in the order of the
/// identifiers.
pub open spec fn persisted(roster: Map<u128, PeerView>) -> Seq<JoinedView> {
    Seq::new(by_id(roster).len(), |i: int| joined_of(by_id(roster)[i]))
}

impl Coordinator {
    /// Takes the peer of a joining event into the roster.
    pub fn apply_peer_joined(&mut self, event: &PeerJoined, now: Instant) -> (r: Result<
        PeerEntry,
        CoordinatorError,
    >)
        requires
            wf(old(self)@),
        ensures
            entry_result(r) == joined_result(event@, now),
            final(self)@ == after_joined(old(self)@, event@, now),
            wf(final(self)@),
    {
        let peer_id = match parse_uuid(event.peer_id.as_str()) {
            Ok(id) => id,
            Err(e) => {
                return Err(CoordinatorError::InvalidPeerId(e));
            },
        };
        let ula = match Ipv6Addr::parse(event.ula.as_str()) {
            Some(a) => a,
            None => {
                return Err(
                    CoordinatorError::InvalidPeerId("invalid IPv6 address syntax".to_owned()),
                );
            },
        };
        let s = ula.segments();
        let network_slot = s[2];
        let peer_index = s[3];
        assert(segs(ula) == ints(s@));
        assert(segs(ula)[2] == network_slot && segs(ula)[3] == peer_index);
        let entry = PeerEntry {
            peer_id,
            wg_public_key: clone_bytes(&event.wg_public_key),
            ula,
            peer_index,
            listen_endpoint: if event.listen_endpoint.as_str().is_empty() {
                None
            } else {
                Some(event.listen_endpoint.clone())
            },
            display_name: event.display_name.clone(),
            network: event.network.clone(),
            tags: clone_strings(&event.tags),
            hosted_app_ulas: clone_strings(&event.hosted_app_ulas),
            joined_at_micros: event.joined_at_micros,
            last_heartbeat: now,
            observed_external: String::new(),
            endpoint_is_reflexive: false,
            kind: event.kind.clone(),
            parent: clone_opt(&event.parent),
            app_uuid: clone_opt(&event.app_uuid),
            software_version: clone_opt(&event.software_version),
            mesh_version: clone_opt(&event.mesh_version),
            relay_only: event.relay_only,
            paths: HashMap::new(),
            dataplane_healthy: true,
            pending_commands: Vec::new(),
        };
        assert(entry@ =~= joined_entry(event@, peer_id, ula, now));
        self.put(peer_id, entry.clone());
        self.know_key(clone_bytes(&event.wg_public_key), peer_id);
        self.bump(network_slot, peer_index);
        Ok(entry)
    }

    /// Notes a sign of life of a peer.
    pub fn apply_peer_heartbeat(&mut self, event: &PeerHeartbeat, now: Instant)
        requires
            wf(old(self)@),
        ensures
            final(self)@ == after_heartbeat(old(self)@, event@, now),
            wf(final(self)@),
    {
        let peer_id = match parse_uuid(event.peer_id.as_str()) {
            Ok(id) => id,
            Err(_) => {
                return ;
            },
        };
        if let Some(entry) = self.entry(peer_id) {
            let mut e = entry;
            e.last_heartbeat = now;
            e.observed_external = event.observed_external.clone();
            e.hosted_app_ulas = clone_strings(&event.hosted_app_ulas);
            if event.software_version.is_some() {
                e.software_version = clone_opt(&event.software_version);
            }
            if event.mesh_version.is_some() {
                e.mesh_version = clone_opt(&event.mesh_version);
            }
            assert(e@ =~= beaten(old(self)@.roster[peer_id], event@, now));
            self.put(peer_id, e);
        }
    }

    /// Takes a peer that left out of the roster; says whose relay connection
    /// is to go.
    pub fn apply_peer_left(&mut self, event: &PeerLeft) -> (r: Option<Vec<u8>>)
        requires
            wf(old(self)@),
        ensures
            final(self)@ == after_left(old(self)@, event@),
            match r {
                Some(k) => left_key(old(self)@, event@) == Some(k@),
                None => left_key(old(self)@, event@) is None,
            },
            wf(final(self)@),
    {
        let peer_id = match parse_uuid(event.peer_id.as_str()) {
            Ok(id) => id,
            Err(_) => {
                return None;
            },
        };
        let taken = self.take(peer_id);
        match taken {
            Some(entry) => {
                self.forget_key(entry.wg_public_key.as_slice());
                self.forget_pairs_of(peer_id);
                Some(entry.wg_public_key)
            },
            None => {
                assert(self@.roster =~= old(self)@.roster);
                None
            },
        }
    }

    /// Rebuilds the roster from a list of joining events; says how many
    /// describe a peer.
    pub fn restore(&mut self, peers: &Vec<PeerJoined>, now: Instant) -> (r: usize)
        requires
            wf(old(self)@),
        ensures
            final(self)@ == after_all(old(self)@, joined_views(peers@), now),
            r == readable(joined_views(peers@), now),
            wf(final(self)@),
    {
        let ghost evs = joined_views(peers@);
        let mut restored: usize = 0;
        let mut i: usize = 0;
        assert(evs.take(0) =~= Seq::<JoinedView>::empty());
        while i < peers.len()
            invariant
                i <= peers@.len(),
                restored <= i,
                evs == joined_views(peers@),
                self@ == after_all(old(self)@, evs.take(i as int), now),
                restored == readable(evs.take(i as int), now),
                wf(self@),
            decreases peers@.len() - i,
        {
            assert(evs.take(i + 1).drop_last() =~= evs.take(i as int));
            assert(evs.take(i + 1).last() == peers@[i as int]@);
            match self.apply_peer_joined(&peers[i], now) {
                Ok(_) => {
                    restored = restored + 1;
                },
                Err(_) => {},
            }
            i = i + 1;
        }
        assert(evs.take(evs.len() as int) =~= evs);
        restored
    }

    /// The events that the roster can be rebuilt from.
    pub fn persist_roster(&self) -> (r: Vec<PeerJoined>)
        requires
            wf(self@),
        ensures
            can_be_listed(self@.roster),
            joined_views(r@) == persisted(self@.roster),
    {
        proof {
            law_peers_can_be_listed(self@);
        }
        let all = self.ordered(false);
        let mut r: Vec<PeerJoined> = Vec::new();
        let mut i: usize = 0;
        while i < all.len()
            invariant
                i <= all@.len(),
                r@.len() == i,
                entry_views(all@) == by_id(self@.roster),
                forall|k: int| 0 <= k < i ==> (#[trigger] r@[k])@ == joined_of(all@[k]@),
            decreases all@.len() - i,
        {
            r.push(all[i].to_joined_event());
            i = i + 1;
        }
        proof {
            assert forall|k: int| 0 <= k < r@.len() implies joined_views(r@)[k] == persisted(
                self@.roster,
            )[k] by {
                assert(entry_views(all@)[k] == all@[k]@);
            }
            assert(entry_views(all@).len() == all@.len());
            assert(joined_views(r@) =~= persisted(self@.roster));
        }
        r
    }
}

/// A joining event whose identifier and address can be read describes the peer
/// that it names, as it names it, heard of now. It is then known by identifier
/// and key, and the count of its slot has reached its index. Any other event is
/// refused over what cannot be read, and changes nothing.
pub proof fn law_what_joining_events_do(s: CoordView, ev: JoinedView, now: Instant)
    ensures
        match (uuid_value(ev.peer_id), ipv6_value(ev.ula)) {
            (Some(id), Some(ula)) => {
                let t = after_joined(s, ev, now);
                let slot = segs(ula)[2] as u16;
                &&& joined_result(ev, now) matches Ok(e)
                &&& e.peer_id == id
                &&& e.ula == ula
                &&& e.peer_index == segs(ula)[3]
                &&& e.wg_public_key == ev.wg_public_key
                &&& ev.listen_endpoint.len() == 0 ==> e.listen_endpoint is None
                &&& ev.listen_endpoint.len() > 0 ==> e.listen_endpoint == Some(ev.listen_endpoint)
                &&& !e.endpoint_is_reflexive
                &&& e.observed_external.len() == 0
                &&& e.display_name == ev.display_name
                &&& e.network == ev.network
                &&& e.tags == ev.tags
                &&& e.hosted_app_ulas == ev.hosted_app_ulas
                &&& e.joined_at_micros == ev.joined_at_micros
                &&& e.last_heartbeat == now
                &&& e.kind == ev.kind
                &&& e.parent == ev.parent
                &&& e.app_uuid == ev.app_uuid
                &&& e.software_version == ev.software_version
                &&& e.mesh_version == ev.mesh_version
                &&& e.relay_only == ev.relay_only
                &&& e.paths == Map::<u128, (bool, u64)>::empty()
                &&& e.dataplane_healthy
                &&& e.pending_commands.len() == 0
                &&& t.roster == s.roster.insert(id, e)
                &&& t.by_pubkey == s.by_pubkey.insert(ev.wg_public_key, id)
                &&& t.slots.contains_key(slot)
                &&& t.slots[slot] >= segs(ula)[3]
                &&& t.slots[slot] == segs(ula)[3] || (s.slots.contains_key(slot) && t.slots[slot]
                    == s.slots[slot])
                &&& s.slots.contains_key(slot) ==> t.slots[slot] >= s.slots[slot]
                &&& t.slots.remove(slot) == s.slots.remove(slot)
                &&& t == (CoordView {
                    roster: t.roster,
                    by_pubkey: t.by_pubkey,
                    slots: t.slots,
                    ..s
                })
            },
            _ => {
                &&& joined_result(ev, now) matches Err(e)
                &&& e is InvalidPeerId
                &&& after_joined(s, ev, now) == s
            },
        },
{
    if let (Some(id), Some(ula)) = (uuid_value(ev.peer_id), ipv6_value(ev.ula)) {
        crate::net::addr::lemma_segs(ula);
        let slot = segs(ula)[2] as u16;
        let t = after_joined(s, ev, now);
        assert(t.slots.remove(slot) =~= s.slots.remove(slot));
    }
}

/// A heartbeat event of a peer that is there brings what it carries into that
/// peer, with versions only where it names them, and changes nothing else.
pub proof fn law_what_heartbeat_events_do(s: CoordView, ev: HeartbeatView, now: Instant, id: u128)
    requires
        uuid_value(ev.peer_id) == Some(id),
    ensures
        ({
            let t = after_heartbeat(s, ev, now);
            &&& !s.roster.contains_key(id) ==> t == s
            &&& s.roster.contains_key(id) ==> {
                let was = s.roster[id];
                let e = t.roster[id];
                &&& t == (CoordView { roster: s.roster.insert(id, e), ..s })
                &&& e == (PeerView {
                    last_heartbeat: now,
                    observed_external: ev.observed_external,
                    hosted_app_ulas: ev.hosted_app_ulas,
                    software_version: e.software_version,
                    mesh_version: e.mesh_version,
                    ..was
                })
                &&& ev.software_version is Some ==> e.software_version == ev.software_version
                &&& ev.software_version is None ==> e.software_version == was.software_version
                &&& ev.mesh_version is Some ==> e.mesh_version == ev.mesh_version
                &&& ev.mesh_version is None ==> e.mesh_version == was.mesh_version
            }
        }),
{
}

/// A leaving event takes out the peer that it names, and gives its public key
/// where it was there.
pub proof fn law_what_leaving_events_do(s: CoordView, ev: LeftView, id: u128)
    requires
        uuid_value(ev.peer_id) == Some(id),
    ensures
        after_left(s, ev).roster == s.roster.remove(id),
        s.roster.contains_key(id) ==> left_key(s, ev) == Some(s.roster[id].wg_public_key),
        !s.roster.contains_key(id) ==> left_key(s, ev) is None && after_left(s, ev) == s,
{
    assert(after_left(s, ev).roster =~= s.roster.remove(id));
}

/// Restoring from two lists, one behind the other, is restoring from the one and
/// then from the other, and counts the events of both that describe a peer.
pub proof fn law_restoring_goes_event_by_event(
    s: CoordView,
    a: Seq<JoinedView>,
    b: Seq<JoinedView>,
    ev: JoinedView,
    now: Instant,
)
    ensures
        after_all(s, a + b, now) == after_all(after_all(s, a, now), b, now),
        readable(a + b, now) == readable(a, now) + readable(b, now),
        after_all(s, seq![ev], now) == after_joined(s, ev, now),
        after_all(s, Seq::empty(), now) == s,
        readable(seq![ev], now) == (if uuid_value(ev.peer_id) is Some && ipv6_value(ev.ula) is Some {
            1nat
        } else {
            0nat
        }),
    decreases b.len(),
{
    reveal_with_fuel(after_all, 2);
    reveal_with_fuel(readable, 2);
    assert(seq![ev].drop_last() =~= Seq::<JoinedView>::empty());
    if b.len() == 0 {
        assert(a + b =~= a);
    } else {
        law_restoring_goes_event_by_event(s, a, b.drop_last(), ev, now);
        assert((a + b).drop_last() =~= a + b.drop_last());
        assert((a + b).last() == b.last());
    }
}

} // verus!
