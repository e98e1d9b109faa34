//! The coordinator's state, and the steps that everything else is made of.

use crate::bindings::maps::{
    index_contents, index_get, index_insert, index_new, index_remove, roster_contents, roster_get,
    roster_insert, roster_new, roster_remove, roster_walk,
};
use crate::clock::Duration;
use crate::net::addr::{segs, Ipv6Addr};
use crate::order::{id_rank, lemma_listing, lemma_listing_exists, listing, lists};
use crate::policy::{Policy, RuleView};
use crate::roster::allocator::{
    bumped, host_address, host_segments, issued_in, slot_of, AllocError, UlaAllocator,
};
use crate::roster::entry::{PeerEntry, PeerView};
use crate::traversal::holepunch::{
    canonical, is_tracked, not_older, without_peer, DirectPairFlags, PunchRecord, PunchTracker,
};
use dashmap::DashMap;
use vstd::prelude::*;

verus! {

/// The coordinator of a mesh.
pub struct Coordinator {
    roster: DashMap<u128, PeerEntry>,
    by_pubkey: DashMap<Vec<u8>, u128>,
    allocator: UlaAllocator,
    policy: Policy,
    validator: bool,
    heartbeat_timeout: Duration,
    punch_tracker: PunchTracker,
    direct_pair_flags: DirectPairFlags,
    proactive: bool,
    relay_forwarded_bytes: u64,
    holepunch_emitted: u64,
    relay_wake_emitted: u64,
}

/// What a coordinator holds.
#[verifier::ext_equal]
pub struct CoordView {
    /// The peers, by identifier.
    pub roster: Map<u128, PeerView>,
    /// The identifiers, by public key.
    pub by_pubkey: Map<Seq<u8>, u128>,
    /// How many addresses of each slot have been given out.
    pub slots: Map<u16, u16>,
    /// Who may see whom.
    pub policy: Seq<RuleView>,
    /// Whether join tokens are validated.
    pub validator: bool,
    /// How long a peer may stay silent.
    pub heartbeat_timeout: Duration,
    /// The pairs that have been told to reach each other directly.
    pub punches: Seq<PunchRecord>,
    /// The pairs that may do so although one is relay-only.
    pub direct_pairs: Seq<(u128, u128)>,
    /// The switch for reaching every peer directly.
    pub proactive: bool,
    pub relay_forwarded_bytes: u64,
    pub holepunch_emitted: u64,
    pub relay_wake_emitted: u64,
}

impl View for Coordinator {
    type V = CoordView;

    closed spec fn view(&self) -> CoordView {
        CoordView {
            roster: roster_contents(self.roster),
            by_pubkey: index_contents(self.by_pubkey),
            slots: self.allocator@,
            policy: self.policy@,
            validator: self.validator,
            heartbeat_timeout: self.heartbeat_timeout,
            punches: self.punch_tracker@,
            direct_pairs: self.direct_pair_flags@,
            proactive: self.proactive,
            relay_forwarded_bytes: self.relay_forwarded_bytes,
            holepunch_emitted: self.holepunch_emitted,
            relay_wake_emitted: self.relay_wake_emitted,
        }
    }
}

/// Whether there are finitely many peers, each held under its own identifier.
pub open spec fn wf(s: CoordView) -> bool {
    &&& s.roster.dom().finite()
    &&& forall|k: u128| #[trigger] s.roster.contains_key(k) ==> s.roster[k].peer_id == k
}

/// What a list of entries holds.
pub open spec fn entry_views(v: Seq<PeerEntry>) -> Seq<PeerView> {
    Seq::new(v.len(), |i: int| v[i]@)
}

/// The rank that orders peers by their index, and by identifier where that is
/// the same.
pub open spec fn index_rank(roster: Map<u128, PeerView>) -> spec_fn(u128) -> int {
    |k: u128| roster[k].peer_index * 0x1_0000_0000_0000_0000_0000_0000_0000_0000 + k
}

/// The entries of the given identifiers.
pub open spec fn entries_of(roster: Map<u128, PeerView>, ids: Seq<u128>) -> Seq<PeerView> {
    Seq::new(ids.len(), |i: int| roster[ids[i]])
}

/// The peers in the order of their identifiers.
pub open spec fn by_id(roster: Map<u128, PeerView>) -> Seq<PeerView> {
    entries_of(roster, listing(roster.dom(), id_rank()))
}

/// The peers in the order of their index.
pub open spec fn by_index(roster: Map<u128, PeerView>) -> Seq<PeerView> {
    entries_of(roster, listing(roster.dom(), index_rank(roster)))
}

/// Whether the peers are finitely many, so that there is a list of them in
/// either order, which has each of them once.
pub open spec fn can_be_listed(roster: Map<u128, PeerView>) -> bool {
    &&& roster.dom().finite()
    &&& lists(listing(roster.dom(), id_rank()), roster.dom(), id_rank())
    &&& lists(listing(roster.dom(), index_rank(roster)), roster.dom(), index_rank(roster))
}

/// The peers of a coordinator can always be listed.
pub proof fn law_peers_can_be_listed(s: CoordView)
    requires
        wf(s),
    ensures
        can_be_listed(s.roster),
{
    lemma_listing_exists(s.roster.dom(), id_rank());
    lemma_listing_exists(s.roster.dom(), index_rank(s.roster));
}

/// Either order.
pub open spec fn rank_of(roster: Map<u128, PeerView>, indexed: bool) -> spec_fn(u128) -> int {
    if indexed {
        index_rank(roster)
    } else {
        id_rank()
    }
}

/// A coordinator of no peer.
pub open spec fn fresh_state(
    heartbeat_timeout: Duration,
    policy: Seq<RuleView>,
    validator: bool,
) -> CoordView {
    CoordView {
        roster: Map::empty(),
        by_pubkey: Map::empty(),
        slots: Map::empty(),
        policy,
        validator,
        heartbeat_timeout,
        punches: Seq::empty(),
        direct_pairs: Seq::empty(),
        proactive: false,
        relay_forwarded_bytes: 0,
        holepunch_emitted: 0,
        relay_wake_emitted: 0,
    }
}

/// Whether `a` comes before `b`.
fn comes_before(a: &PeerEntry, b: &PeerEntry, indexed: bool) -> (r: bool)
    ensures
        r == (if indexed {
            a.peer_index < b.peer_index || (a.peer_index == b.peer_index && a.peer_id < b.peer_id)
        } else {
            a.peer_id < b.peer_id
        }),
{
    if indexed {
        a.peer_index < b.peer_index || (a.peer_index == b.peer_index && a.peer_id < b.peer_id)
    } else {
        a.peer_id < b.peer_id
    }
}

/// Whether the entries are peers of the roster in order.
spec fn is_ordered(out: Seq<PeerEntry>, roster: Map<u128, PeerView>, indexed: bool) -> bool {
    &&& forall|i: int|
        0 <= i < out.len() ==> roster.contains_key((#[trigger] out[i]).peer_id) && out[i]@
            == roster[out[i].peer_id]
    &&& forall|i: int, j: int|
        0 <= i < j < out.len() ==> rank_of(roster, indexed)((#[trigger] out[i]).peer_id) < rank_of(
            roster,
            indexed,
        )((#[trigger] out[j]).peer_id)
}

/// Puts an entry into its place.
fn insert_ordered(
    out: &mut Vec<PeerEntry>,
    e: PeerEntry,
    indexed: bool,
    Ghost(roster): Ghost<Map<u128, PeerView>>,
)
    requires
        is_ordered(old(out)@, roster, indexed),
        roster.contains_key(e.peer_id),
        roster[e.peer_id] == e@,
        forall|i: int| 0 <= i < old(out)@.len() ==> (#[trigger] old(out)@[i]).peer_id != e.peer_id,
    ensures
        is_ordered(final(out)@, roster, indexed),
        exists|p: int|
            0 <= p <= old(out)@.len() && final(out)@ == #[trigger] old(out)@.insert(p, e),
{
    let ghost rank = rank_of(roster, indexed);
    let mut p: usize = 0;
    while p < out.len() && comes_before(&out[p], &e, indexed)
        invariant
            p <= out@.len(),
            out@ == old(out)@,
            rank == rank_of(roster, indexed),
            is_ordered(out@, roster, indexed),
            roster.contains_key(e.peer_id),
            roster[e.peer_id] == e@,
            forall|i: int| 0 <= i < p ==> rank((#[trigger] out@[i]).peer_id) < rank(e.peer_id),
        decreases out@.len() - p,
    {
        assert(out@[p as int]@ == roster[out@[p as int].peer_id]);
        p = p + 1;
    }
    proof {
        if p < out@.len() {
            assert(out@[p as int]@ == roster[out@[p as int].peer_id]);
            assert(rank(e.peer_id) < rank(out@[p as int].peer_id));
        }
    }
    let ghost before = out@;
    out.insert(p, e);
    proof {
        let after = out@;
        assert(after == before.insert(p as int, e));
        assert forall|i: int| 0 <= i < after.len() implies roster.contains_key(
            (#[trigger] after[i]).peer_id,
        ) && after[i]@ == roster[after[i].peer_id] by {
            if i < p {
                assert(after[i] == before[i]);
            } else if i > p {
                assert(after[i] == before[i - 1]);
            }
        }
        assert forall|i: int, j: int| 0 <= i < j < after.len() implies rank(
            (#[trigger] after[i]).peer_id,
        ) < rank((#[trigger] after[j]).peer_id) by {
            if i < p {
                assert(after[i] == before[i]);
            } else if i > p {
                assert(after[i] == before[i - 1]);
            }
            if j < p {
                assert(after[j] == before[j]);
            } else if j > p {
                assert(after[j] == before[j - 1]);
                if j - 1 > p {
                    assert(rank(before[p as int].peer_id) < rank(before[j - 1].peer_id));
                }
            }
        }
    }
}

/// Whether the entry of `k` is in `out`.
#[verifier::opaque]
spec fn holds_entry(out: Seq<PeerEntry>, k: u128) -> bool {
    exists|i: int| 0 <= i < out.len() && (#[trigger] out[i]).peer_id == k
}

/// Whether `k` is before `n` in `all`.
#[verifier::opaque]
spec fn is_before(all: Seq<(u128, PeerEntry)>, n: int, k: u128) -> bool {
    exists|m: int| 0 <= m < n && (#[trigger] all[m]).0 == k
}

/// Whether `out` holds what is before `n` in `all`, and nothing else.
spec fn collected(all: Seq<(u128, PeerEntry)>, n: int, out: Seq<PeerEntry>) -> bool {
    &&& forall|m: int| 0 <= m < n ==> holds_entry(out, (#[trigger] all[m]).0)
    &&& forall|i: int| 0 <= i < out.len() ==> is_before(all, n, (#[trigger] out[i]).peer_id)
}

proof fn lemma_not_collected(all: Seq<(u128, PeerEntry)>, n: int, out: Seq<PeerEntry>)
    requires
        collected(all, n, out),
        0 <= n < all.len(),
        forall|i: int, j: int|
            0 <= i < j < all.len() ==> (#[trigger] all[i]).0 != (#[trigger] all[j]).0,
    ensures
        forall|i: int| 0 <= i < out.len() ==> (#[trigger] out[i]).peer_id != all[n].0,
{
    assert forall|i: int| 0 <= i < out.len() implies (#[trigger] out[i]).peer_id != all[n].0 by {
        reveal(is_before);
        assert(is_before(all, n, out[i].peer_id));
    }
}

proof fn lemma_collected_step(
    all: Seq<(u128, PeerEntry)>,
    n: int,
    before: Seq<PeerEntry>,
    p: int,
    e: PeerEntry,
    after: Seq<PeerEntry>,
)
    requires
        collected(all, n, before),
        0 <= n < all.len(),
        0 <= p <= before.len(),
        after == before.insert(p, e),
        e.peer_id == all[n].0,
    ensures
        collected(all, n + 1, after),
{
    assert(after[p] == e);
    assert forall|m: int| 0 <= m < n + 1 implies holds_entry(after, (#[trigger] all[m]).0) by {
        reveal(holds_entry);
        if m < n {
            assert(holds_entry(before, all[m].0));
            let i = choose|i: int|
                0 <= i < before.len() && (#[trigger] before[i]).peer_id == all[m].0;
            if i < p {
                assert(after[i] == before[i]);
            } else {
                assert(after[i + 1] == before[i]);
            }
        } else {
            assert(after[p].peer_id == all[m].0);
        }
    }
    assert forall|i: int| 0 <= i < after.len() implies is_before(
        all,
        n + 1,
        (#[trigger] after[i]).peer_id,
    ) by {
        reveal(is_before);
        if i < p {
            assert(after[i] == before[i]);
            assert(is_before(all, n, before[i].peer_id));
        } else if i > p {
            assert(after[i] == before[i - 1]);
            assert(is_before(all, n, before[i - 1].peer_id));
        } else {
            assert(all[n].0 == after[i].peer_id);
        }
    }
}

impl Coordinator {
    /// A coordinator of no peer that permits nothing and validates no token.
    pub fn new(heartbeat_timeout: Duration) -> (r: Self)
        ensures
            r@ == fresh_state(heartbeat_timeout, Seq::empty(), false),
            wf(r@),
    {
        let policy = Policy::empty();
        assert(policy@ =~= Seq::<RuleView>::empty());
        Self::with_policy(heartbeat_timeout, policy)
    }

    /// A coordinator of no peer that validates no token.
    pub fn with_policy(heartbeat_timeout: Duration, policy: Policy) -> (r: Self)
        ensures
            r@ == fresh_state(heartbeat_timeout, policy@, false),
            wf(r@),
    {
        Self::with_policy_and_validator(heartbeat_timeout, policy, false)
    }

    /// A coordinator of no peer; `validator` says whether join tokens are
    /// validated.
    pub fn with_policy_and_validator(
        heartbeat_timeout: Duration,
        policy: Policy,
        validator: bool,
    ) -> (r: Self)
        ensures
            r@ == fresh_state(heartbeat_timeout, policy@, validator),
            wf(r@),
    {
        let r = Coordinator {
            roster: roster_new(),
            by_pubkey: index_new(),
            allocator: UlaAllocator::new(),
            policy,
            validator,
            heartbeat_timeout,
            punch_tracker: PunchTracker::new(),
            direct_pair_flags: DirectPairFlags::new(),
            proactive: false,
            relay_forwarded_bytes: 0,
            holepunch_emitted: 0,
            relay_wake_emitted: 0,
        };
        assert(r@ =~= fresh_state(heartbeat_timeout, policy@, validator));
        r
    }

    /// The peer with the given identifier.
    pub(crate) fn entry(&self, id: u128) -> (r: Option<PeerEntry>)
        ensures
            match r {
                Some(e) => self@.roster.contains_key(id) && e@ == self@.roster[id],
                None => !self@.roster.contains_key(id),
            },
    {
        roster_get(&self.roster, id)
    }

    /// Holds a peer under an identifier.
    pub(crate) fn put(&mut self, id: u128, e: PeerEntry)
        ensures
            final(self)@ == (CoordView {
                roster: old(self)@.roster.insert(id, e@),
                ..old(self)@
            }),
    {
        roster_insert(&mut self.roster, id, e);
    }

    /// Takes a peer out.
    pub(crate) fn take(&mut self, id: u128) -> (r: Option<PeerEntry>)
        ensures
            final(self)@ == (CoordView { roster: old(self)@.roster.remove(id), ..old(self)@ }),
            match r {
                Some(e) => old(self)@.roster.contains_key(id) && e@ == old(self)@.roster[id],
                None => !old(self)@.roster.contains_key(id),
            },
    {
        roster_remove(&mut self.roster, id)
    }

    /// The identifier that a public key is known under.
    pub(crate) fn id_of_key(&self, key: &[u8]) -> (r: Option<u128>)
        ensures
            match r {
                Some(id) => self@.by_pubkey.contains_key(key@) && id == self@.by_pubkey[key@],
                None => !self@.by_pubkey.contains_key(key@),
            },
    {
        index_get(&self.by_pubkey, key)
    }

    /// Makes a public key known under an identifier.
    pub(crate) fn know_key(&mut self, key: Vec<u8>, id: u128)
        ensures
            final(self)@ == (CoordView {
                by_pubkey: old(self)@.by_pubkey.insert(key@, id),
                ..old(self)@
            }),
    {
        index_insert(&mut self.by_pubkey, key, id);
    }

    /// Forgets a public key.
    pub(crate) fn forget_key(&mut self, key: &[u8])
        ensures
            final(self)@ == (CoordView {
                by_pubkey: old(self)@.by_pubkey.remove(key@),
                ..old(self)@
            }),
    {
        index_remove(&mut self.by_pubkey, key);
    }

    /// Gives out the next address of a network.
    pub(crate) fn allocate(&mut self, network: &str) -> (r: Result<(u16, Ipv6Addr), AllocError>)
        ensures
            match r {
                Ok((index, address)) => {
                    let slot = slot_of(network@);
                    &&& issued_in(old(self)@.slots, slot) < u16::MAX
                    &&& index == issued_in(old(self)@.slots, slot) + 1
                    &&& address == host_address(slot, index)
                    &&& segs(address) == host_segments(slot, index)
                    &&& final(self)@ == (CoordView {
                        slots: old(self)@.slots.insert(slot, index),
                        ..old(self)@
                    })
                },
                Err(e) => {
                    &&& e == AllocError::Exhausted
                    &&& issued_in(old(self)@.slots, slot_of(network@)) == u16::MAX
                    &&& final(self)@ == old(self)@
                },
            },
    {
        self.allocator.allocate(network)
    }

    /// Moves a slot's counter to at least `idx`.
    pub(crate) fn bump(&mut self, slot: u16, idx: u16)
        ensures
            final(self)@ == (CoordView {
                slots: bumped(old(self)@.slots, slot, idx),
                ..old(self)@
            }),
    {
        self.allocator.bump_slot_at_least(slot, idx);
    }

    /// Records a pair as told, unless it is recorded already.
    pub(crate) fn claim_pair(&mut self, pair: (u128, u128), at_micros: i64) -> (r: bool)
        ensures
            r == !is_tracked(old(self)@.punches, pair),
            final(self)@ == (CoordView {
                punches: if r {
                    old(self)@.punches.push(PunchRecord { pair, at_micros })
                } else {
                    old(self)@.punches
                },
                ..old(self)@
            }),
    {
        self.punch_tracker.claim(pair, at_micros)
    }

    /// Forgets every told pair that involves a peer.
    pub(crate) fn forget_pairs_of(&mut self, id: u128)
        ensures
            final(self)@ == (CoordView {
                punches: without_peer(old(self)@.punches, id),
                ..old(self)@
            }),
    {
        self.punch_tracker.remove_peer(id);
    }

    /// Forgets every pair that was told longer ago than `ttl_micros`; says how
    /// many.
    pub fn reap_stale_resources(&mut self, now_micros: i64, ttl_micros: i64) -> (r: usize)
        requires
            i64::MIN <= now_micros - ttl_micros <= i64::MAX,
        ensures
            final(self)@ == (CoordView {
                punches: not_older(old(self)@.punches, (now_micros - ttl_micros) as i64),
                ..old(self)@
            }),
            r == old(self)@.punches.len() - final(self)@.punches.len(),
    {
        self.punch_tracker.reap_older_than(now_micros - ttl_micros)
    }

    /// All peers, in the order of their identifiers or of their index.
    pub(crate) fn ordered(&self, indexed: bool) -> (r: Vec<PeerEntry>)
        requires
            wf(self@),
        ensures
            entry_views(r@) == (if indexed {
                by_index(self@.roster)
            } else {
                by_id(self@.roster)
            }),
            forall|i: int|
                0 <= i < r@.len() ==> self@.roster.contains_key((#[trigger] r@[i]).peer_id)
                    && r@[i]@ == self@.roster[r@[i].peer_id],
            forall|i: int, j: int|
                0 <= i < j < r@.len() ==> (#[trigger] r@[i]).peer_id != (#[trigger] r@[j]).peer_id,
            !indexed ==> forall|i: int, j: int|
                0 <= i < j < r@.len() ==> (#[trigger] r@[i]).peer_id < (#[trigger] r@[j]).peer_id,
            forall|k: u128| #[trigger]
                self@.roster.contains_key(k) ==> exists|i: int|
                    0 <= i < r@.len() && (#[trigger] r@[i]).peer_id == k,
    {
        let all = roster_walk(&self.roster);
        let ghost roster = self@.roster;
        let mut out: Vec<PeerEntry> = Vec::new();
        let mut n: usize = 0;
        while n < all.len()
            invariant
                n <= all@.len(),
                roster == self@.roster,
                wf(self@),
                is_ordered(out@, roster, indexed),
                forall|i: int|
                    0 <= i < all@.len() ==> roster.contains_key((#[trigger] all@[i]).0)
                        && all@[i].1@ == roster[all@[i].0],
                forall|i: int, j: int|
                    0 <= i < j < all@.len() ==> (#[trigger] all@[i]).0 != (#[trigger] all@[j]).0,
                collected(all@, n as int, out@),
            decreases all@.len() - n,
        {
            let e = all[n].1.clone();
            assert(e@ == all@[n as int].1@);
            assert(e.peer_id == all@[n as int].0) by {
                assert(e.peer_id == e@.peer_id);
                assert(roster.contains_key(all@[n as int].0));
            }
            let ghost before = out@;
            proof {
                lemma_not_collected(all@, n as int, out@);
            }
            insert_ordered(&mut out, e, indexed, Ghost(roster));
            proof {
                let p = choose|p: int|
                    0 <= p <= before.len() && out@ == #[trigger] before.insert(p, e);
                lemma_collected_step(all@, n as int, before, p, e, out@);
            }
            n = n + 1;
        }
        proof {
            let rank = rank_of(roster, indexed);
            let ids = Seq::new(out@.len(), |i: int| out@[i].peer_id);
            assert forall|i: int, j: int| 0 <= i < j < ids.len() implies rank(#[trigger] ids[i])
                < rank(#[trigger] ids[j]) by {
                assert(ids[i] == out@[i].peer_id && ids[j] == out@[j].peer_id);
            }
            assert forall|k: u128| #[trigger] roster.contains_key(k) implies exists|i: int|
                0 <= i < out@.len() && (#[trigger] out@[i]).peer_id == k by {
                let m = choose|m: int| 0 <= m < all@.len() && (#[trigger] all@[m]).0 == k;
                assert(holds_entry(out@, all@[m].0));
                reveal(holds_entry);
            }
            assert forall|k: u128| #[trigger] roster.dom().contains(k) implies ids.contains(k) by {
                assert(roster.contains_key(k));
                let i = choose|i: int| 0 <= i < out@.len() && (#[trigger] out@[i]).peer_id == k;
                assert(ids[i] == k);
            }
            assert(lists(ids, roster.dom(), rank));
            lemma_listing(ids, roster.dom(), rank);
            assert(entry_views(out@) =~= entries_of(roster, ids));
        }
        out
    }

    /// Who may see whom.
    pub fn policy(&self) -> (r: &Policy)
        ensures
            r@ == self@.policy,
    {
        &self.policy
    }

    /// Replaces the policy.
    pub fn set_policy(&mut self, policy: Policy)
        ensures
            final(self)@ == (CoordView { policy: policy@, ..old(self)@ }),
    {
        self.policy = policy;
    }

    /// Whether join tokens are validated.
    pub fn validates_tokens(&self) -> (r: bool)
        ensures
            r == self@.validator,
    {
        self.validator
    }

    /// How long a peer may stay silent.
    pub fn heartbeat_timeout(&self) -> (r: Duration)
        ensures
            r == self@.heartbeat_timeout,
    {
        self.heartbeat_timeout
    }

    /// The pairs that have been told to reach each other directly.
    pub fn punch_tracker(&self) -> (r: &PunchTracker)
        ensures
            r@ == self@.punches,
    {
        &self.punch_tracker
    }

    /// The pairs that may do so although one is relay-only.
    pub fn direct_pair_flags(&self) -> (r: &DirectPairFlags)
        ensures
            r@ == self@.direct_pairs,
    {
        &self.direct_pair_flags
    }

    /// Flags a pair as direct, or takes the flag away.
    pub fn set_direct_pair(&mut self, a: u128, b: u128, on: bool)
        ensures
            final(self)@ == (CoordView {
                direct_pairs: final(self)@.direct_pairs,
                ..old(self)@
            }),
            forall|p: (u128, u128)| #[trigger]
                final(self)@.direct_pairs.contains(p) <==> if p == canonical(a, b) {
                    on
                } else {
                    old(self)@.direct_pairs.contains(p)
                },
    {
        self.direct_pair_flags.set_direct(a, b, on);
    }

    /// Whether the switch for reaching every peer directly is on. The switch is
    /// kept for those who ask; nothing that the coordinator does depends on it.
    pub fn proactive_on(&self) -> (r: bool)
        ensures
            r == self@.proactive,
    {
        self.proactive
    }

    /// Turns the switch for reaching every peer directly, on which nothing that
    /// the coordinator does depends.
    pub fn set_proactive(&mut self, on: bool)
        ensures
            final(self)@ == (CoordView { proactive: on, ..old(self)@ }),
    {
        self.proactive = on;
    }

    /// The three counters: bytes relayed, direct attempts asked for, wake-ups
    /// sent.
    pub(crate) fn counters(&self) -> (r: (u64, u64, u64))
        ensures
            r.0 == self@.relay_forwarded_bytes,
            r.1 == self@.holepunch_emitted,
            r.2 == self@.relay_wake_emitted,
    {
        (self.relay_forwarded_bytes, self.holepunch_emitted, self.relay_wake_emitted)
    }

    /// Counts bytes that were relayed; the counter wraps.
    pub fn note_relay_forwarded(&mut self, bytes: usize)
        ensures
            final(self)@ == (CoordView {
                relay_forwarded_bytes: ((old(self)@.relay_forwarded_bytes + bytes)
                    % 0x1_0000_0000_0000_0000) as u64,
                ..old(self)@
            }),
    {
        self.relay_forwarded_bytes = self.relay_forwarded_bytes.wrapping_add(bytes as u64);
    }

    /// Counts a direct attempt that was asked for; the counter wraps.
    pub fn note_holepunch_emitted(&mut self)
        ensures
            final(self)@ == (CoordView {
                holepunch_emitted: ((old(self)@.holepunch_emitted + 1) % 0x1_0000_0000_0000_0000)
                    as u64,
                ..old(self)@
            }),
    {
        self.holepunch_emitted = self.holepunch_emitted.wrapping_add(1);
    }

    /// Counts a wake-up that was sent; the counter wraps.
    pub fn note_relay_wake_emitted(&mut self)
        ensures
            final(self)@ == (CoordView {
                relay_wake_emitted: ((old(self)@.relay_wake_emitted + 1) % 0x1_0000_0000_0000_0000)
                    as u64,
                ..old(self)@
            }),
    {
        self.relay_wake_emitted = self.relay_wake_emitted.wrapping_add(1);
    }
}

/// A coordinator starts with nobody: no peer, no key, no address given out, no
/// pair told or flagged, nothing counted and its switch off. What it was made
/// with is what it goes by.
pub proof fn law_coordinators_start_empty(
    heartbeat_timeout: Duration,
    policy: Seq<RuleView>,
    validator: bool,
)
    ensures
        ({
            let s = fresh_state(heartbeat_timeout, policy, validator);
            &&& forall|k: u128| !#[trigger] s.roster.contains_key(k)
            &&& forall|key: Seq<u8>| !#[trigger] s.by_pubkey.contains_key(key)
            &&& forall|slot: u16| !#[trigger] s.slots.contains_key(slot)
            &&& s.policy == policy
            &&& s.validator == validator
            &&& s.heartbeat_timeout == heartbeat_timeout
            &&& s.punches.len() == 0
            &&& s.direct_pairs.len() == 0
            &&& !s.proactive
            &&& s.relay_forwarded_bytes == 0
            &&& s.holepunch_emitted == 0
            &&& s.relay_wake_emitted == 0
            &&& wf(s)
        }),
{
}

} // verus!
