//! Which pairs of peers have been told to reach each other directly, and which
//! pairs may do so although one of them is relay-only.

use crate::text::{keep_if, lemma_keep_members, lemma_keep_order, lemma_keep_step};
use vstd::prelude::*;

verus! {

/// A peer that another one can be told to dial.
#[derive(Debug)]
pub struct PunchPeer {
    /// The peer.
    pub peer_id: u128,
    /// Where to dial it.
    pub dial_endpoint: String,
}

/// What a `PunchPeer` holds.
#[verifier::ext_equal]
pub struct PunchPeerView {
    pub peer_id: u128,
    pub dial_endpoint: Seq<char>,
}

impl View for PunchPeer {
    type V = PunchPeerView;

    open spec fn view(&self) -> PunchPeerView {
        PunchPeerView { peer_id: self.peer_id, dial_endpoint: self.dial_endpoint@ }
    }
}

/// Two peers, in the order of their identifiers.
pub open spec fn canonical(a: u128, b: u128) -> (u128, u128) {
    if a <= b {
        (a, b)
    } else {
        (b, a)
    }
}

/// Two peers, in the order of their identifiers.
pub fn canonical_pair(a: u128, b: u128) -> (r: (u128, u128))
    ensures
        r == canonical(a, b),
{
    if a <= b {
        (a, b)
    } else {
        (b, a)
    }
}

/// A pair that has been told, and when, in wall-clock microseconds.
#[derive(Clone, Copy, Debug)]
pub struct PunchRecord {
    pub pair: (u128, u128),
    pub at_micros: i64,
}

/// Whether the pair is among the records.
pub open spec fn is_tracked(records: Seq<PunchRecord>, pair: (u128, u128)) -> bool {
    exists|i: int| 0 <= i < records.len() && (#[trigger] records[i]).pair == pair
}

/// Whether no pair is recorded twice.
pub open spec fn no_pair_twice(records: Seq<PunchRecord>) -> bool {
    forall|i: int, j: int|
        0 <= i < j < records.len() ==> (#[trigger] records[i]).pair != (#[trigger] records[j]).pair
}

/// Tells which records do not involve a peer.
pub open spec fn spares(id: u128) -> spec_fn(PunchRecord) -> bool {
    |r: PunchRecord| r.pair.0 != id && r.pair.1 != id
}

/// The records that do not involve a peer.
pub open spec fn without_peer(records: Seq<PunchRecord>, id: u128) -> Seq<PunchRecord> {
    keep_if(records, spares(id))
}

/// The records from `cutoff` on.
pub open spec fn not_older(records: Seq<PunchRecord>, cutoff: i64) -> Seq<PunchRecord> {
    keep_if(records, |r: PunchRecord| r.at_micros >= cutoff)
}

/// The pairs that have been told to reach each other directly.
#[derive(Debug)]
pub struct PunchTracker {
    records: Vec<PunchRecord>,
}

impl View for PunchTracker {
    type V = Seq<PunchRecord>;

    closed spec fn view(&self) -> Seq<PunchRecord> {
        self.records@
    }
}

impl PunchTracker {
    /// A tracker of no pair.
    pub fn new() -> (r: Self)
        ensures
            r@.len() == 0,
    {
        PunchTracker { records: Vec::new() }
    }

    /// How many pairs have been told.
    pub fn len(&self) -> (r: usize)
        ensures
            r == self@.len(),
    {
        self.records.len()
    }

    /// Whether no pair has been told.
    pub fn is_empty(&self) -> (r: bool)
        ensures
            r == (self@.len() == 0),
    {
        self.records.len() == 0
    }

    /// Whether a pair has been told.
    pub fn contains(&self, pair: (u128, u128)) -> (r: bool)
        ensures
            r == is_tracked(self@, pair),
    {
        let mut i: usize = 0;
        while i < self.records.len()
            invariant
                i <= self.records@.len(),
                forall|k: int| 0 <= k < i ==> (#[trigger] self.records@[k]).pair != pair,
            decreases self.records@.len() - i,
        {
            let p = self.records[i].pair;
            if p.0 == pair.0 && p.1 == pair.1 {
                assert(self@[i as int].pair == pair);
                return true;
            }
            i = i + 1;
        }
        false
    }

    /// Records a pair, unless it is recorded already; says whether it was new.
    pub fn claim(&mut self, pair: (u128, u128), at_micros: i64) -> (r: bool)
        ensures
            r == !is_tracked(old(self)@, pair),
            final(self)@ == (if r {
                old(self)@.push(PunchRecord { pair, at_micros })
            } else {
                old(self)@
            }),
    {
        if self.contains(pair) {
            return false;
        }
        self.records.push(PunchRecord { pair, at_micros });
        true
    }

    /// Forgets every pair that involves a peer.
    pub fn remove_peer(&mut self, id: u128)
        ensures
            final(self)@ == without_peer(old(self)@, id),
    {
        let ghost f = spares(id);
        let mut kept: Vec<PunchRecord> = Vec::new();
        let mut i: usize = 0;
        assert(self.records@.take(0) =~= Seq::<PunchRecord>::empty());
        while i < self.records.len()
            invariant
                i <= self.records@.len(),
                f == spares(id),
                kept@ == keep_if(self.records@.take(i as int), f),
            decreases self.records@.len() - i,
        {
            let rec = self.records[i];
            proof {
                lemma_keep_step(self.records@, f, i as int);
            }
            if rec.pair.0 != id && rec.pair.1 != id {
                kept.push(rec);
            }
            i = i + 1;
        }
        assert(self.records@.take(self.records@.len() as int) =~= self.records@);
        self.records = kept;
    }

    /// Forgets every pair that was told before `cutoff`; says how many.
    pub fn reap_older_than(&mut self, cutoff: i64) -> (r: usize)
        ensures
            final(self)@ == not_older(old(self)@, cutoff),
            r == old(self)@.len() - final(self)@.len(),
    {
        let ghost f = |r: PunchRecord| r.at_micros >= cutoff;
        let before = self.records.len();
        let mut kept: Vec<PunchRecord> = Vec::new();
        let mut i: usize = 0;
        assert(self.records@.take(0) =~= Seq::<PunchRecord>::empty());
        while i < self.records.len()
            invariant
                i <= self.records@.len(),
                kept@.len() <= i,
                f == (|r: PunchRecord| r.at_micros >= cutoff),
                kept@ == keep_if(self.records@.take(i as int), f),
            decreases self.records@.len() - i,
        {
            let rec = self.records[i];
            proof {
                lemma_keep_step(self.records@, f, i as int);
            }
            if rec.at_micros >= cutoff {
                kept.push(rec);
            }
            i = i + 1;
        }
        assert(self.records@.take(self.records@.len() as int) =~= self.records@);
        self.records = kept;
        before - self.records.len()
    }
}

/// The pairs that may reach each other directly although one is relay-only.
#[derive(Debug)]
pub struct DirectPairFlags {
    pairs: Vec<(u128, u128)>,
}

impl View for DirectPairFlags {
    type V = Seq<(u128, u128)>;

    closed spec fn view(&self) -> Seq<(u128, u128)> {
        self.pairs@
    }
}

impl DirectPairFlags {
    /// Flags for no pair.
    pub fn new() -> (r: Self)
        ensures
            r@.len() == 0,
    {
        DirectPairFlags { pairs: Vec::new() }
    }

    /// Whether the pair is flagged, in either order.
    pub fn is_direct(&self, a: u128, b: u128) -> (r: bool)
        ensures
            r == self@.contains(canonical(a, b)),
    {
        let pair = canonical_pair(a, b);
        let mut i: usize = 0;
        while i < self.pairs.len()
            invariant
                i <= self.pairs@.len(),
                pair == canonical(a, b),
                forall|k: int| 0 <= k < i ==> #[trigger] self.pairs@[k] != pair,
            decreases self.pairs@.len() - i,
        {
            if self.pairs[i].0 == pair.0 && self.pairs[i].1 == pair.1 {
                assert(self@[i as int] == pair);
                return true;
            }
            i = i + 1;
        }
        false
    }

    /// Flags the pair, or takes the flag away.
    pub fn set_direct(&mut self, a: u128, b: u128, on: bool)
        ensures
            forall|p: (u128, u128)| #[trigger]
                final(self)@.contains(p) <==> if p == canonical(a, b) {
                    on
                } else {
                    old(self)@.contains(p)
                },
    {
        let pair = canonical_pair(a, b);
        let ghost f = |p: (u128, u128)| p != pair;
        let mut kept: Vec<(u128, u128)> = Vec::new();
        let mut i: usize = 0;
        assert(self.pairs@.take(0) =~= Seq::<(u128, u128)>::empty());
        while i < self.pairs.len()
            invariant
                i <= self.pairs@.len(),
                f == (|p: (u128, u128)| p != pair),
                kept@ == keep_if(self.pairs@.take(i as int), f),
            decreases self.pairs@.len() - i,
        {
            let p = self.pairs[i];
            proof {
                lemma_keep_step(self.pairs@, f, i as int);
            }
            if p.0 != pair.0 || p.1 != pair.1 {
                kept.push(p);
            }
            i = i + 1;
        }
        assert(self.pairs@.take(self.pairs@.len() as int) =~= self.pairs@);
        let ghost before = kept@;
        if on {
            kept.push(pair);
        }
        proof {
            let all = self.pairs@;
            assert forall|p: (u128, u128)| #[trigger]
                kept@.contains(p) <==> if p == pair {
                    on
                } else {
                    all.contains(p)
                } by {
                lemma_keep_members(all, f, p);
                if before.contains(p) {
                    let i = choose|i: int| 0 <= i < before.len() && before[i] == p;
                    assert(kept@[i] == p);
                }
                if kept@.contains(p) {
                    let i = choose|i: int| 0 <= i < kept@.len() && kept@[i] == p;
                    if i < before.len() {
                        assert(before[i] == p);
                    }
                }
                if on {
                    assert(kept@[before.len() as int] == pair);
                }
            }
        }
        self.pairs = kept;
    }
}

/// A flag is for the pair, whichever way round it is named.
pub proof fn law_pairs_are_unordered(a: u128, b: u128)
    ensures
        canonical(a, b) == canonical(b, a),
{
}

/// Claiming keeps every pair recorded once.
pub proof fn law_claiming_records_once(
    records: Seq<PunchRecord>,
    pair: (u128, u128),
    at_micros: i64,
)
    requires
        no_pair_twice(records),
        !is_tracked(records, pair),
    ensures
        no_pair_twice(records.push(PunchRecord { pair, at_micros })),
        is_tracked(records.push(PunchRecord { pair, at_micros }), pair),
{
    let after = records.push(PunchRecord { pair, at_micros });
    assert(after[records.len() as int].pair == pair);
}

/// A pair is the two peers, the smaller identifier first.
pub proof fn law_what_a_pair_is(a: u128, b: u128)
    ensures
        canonical(a, b).0 <= canonical(a, b).1,
        canonical(a, b) == (a, b) || canonical(a, b) == (b, a),
{
}

/// A pair counts as told exactly if a record is of it.
pub proof fn law_when_a_pair_was_told(records: Seq<PunchRecord>, a: u128, b: u128)
    ensures
        is_tracked(records, (a, b)) <==> exists|i: int|
            0 <= i < records.len() && (#[trigger] records[i]).pair.0 == a && records[i].pair.1 == b,
{
}

/// What is left once old records are dropped, or those of a peer: exactly those
/// from the given time on, or of two other peers, in the order they had.
pub proof fn law_which_records_are_left(
    records: Seq<PunchRecord>,
    cutoff: i64,
    id: u128,
    r: PunchRecord,
    i: int,
    j: int,
)
    ensures
        not_older(records, cutoff).contains(r) <==> records.contains(r) && r.at_micros >= cutoff,
        without_peer(records, id).contains(r) <==> records.contains(r) && r.pair.0 != id && r.pair.1
            != id,
        0 <= i < j < not_older(records, cutoff).len() ==> exists|p: int, q: int|
            0 <= p < q < records.len() && #[trigger] records[p] == not_older(records, cutoff)[i]
                && #[trigger] records[q] == not_older(records, cutoff)[j],
        0 <= i < j < without_peer(records, id).len() ==> exists|p: int, q: int|
            0 <= p < q < records.len() && #[trigger] records[p] == without_peer(records, id)[i]
                && #[trigger] records[q] == without_peer(records, id)[j],
{
    let f = |r: PunchRecord| r.at_micros >= cutoff;
    lemma_keep_members(records, f, r);
    lemma_keep_members(records, spares(id), r);
    assert(not_older(records, cutoff) == keep_if(records, f));
    if 0 <= i < j < not_older(records, cutoff).len() {
        let x = lemma_keep_order(records, f, i, j);
        assert(records[x.0] == not_older(records, cutoff)[i] && records[x.1] == not_older(
            records,
            cutoff,
        )[j]);
    }
    if 0 <= i < j < without_peer(records, id).len() {
        let x = lemma_keep_order(records, spares(id), i, j);
        assert(records[x.0] == without_peer(records, id)[i] && records[x.1] == without_peer(
            records,
            id,
        )[j]);
    }
}

} // verus!
