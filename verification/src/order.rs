//! Listing the members of a set in a fixed order.

use vstd::prelude::*;

verus! {

/// Whether the ranks of the members grow from each to the next.
pub open spec fn increasing<A>(s: Seq<A>, rank: spec_fn(A) -> int) -> bool {
    forall|i: int, j: int| 0 <= i < j < s.len() ==> rank(#[trigger] s[i]) < rank(#[trigger] s[j])
}

/// Whether `s` lists exactly the members of `keep`, by growing rank.
pub open spec fn lists<A>(s: Seq<A>, keep: Set<A>, rank: spec_fn(A) -> int) -> bool {
    &&& increasing(s, rank)
    &&& forall|i: int| 0 <= i < s.len() ==> keep.contains(#[trigger] s[i])
    &&& forall|k: A| #[trigger] keep.contains(k) ==> s.contains(k)
}

/// The members of `keep` by growing rank.
pub open spec fn listing<A>(keep: Set<A>, rank: spec_fn(A) -> int) -> Seq<A> {
    choose|s: Seq<A>| lists(s, keep, rank)
}

/// The rank that orders identifiers by themselves.
pub open spec fn id_rank() -> spec_fn(u128) -> int {
    |k: u128| k as int
}

/// There is only one listing.
pub proof fn lemma_listing<A>(s: Seq<A>, keep: Set<A>, rank: spec_fn(A) -> int)
    requires
        lists(s, keep, rank),
    ensures
        listing(keep, rank) == s,
{
    let t = listing(keep, rank);
    assert(lists(t, keep, rank));
    lemma_lists_unique(s, t, keep, rank);
}

proof fn lemma_lists_prefix<A>(
    s: Seq<A>,
    t: Seq<A>,
    keep: Set<A>,
    rank: spec_fn(A) -> int,
    n: int,
)
    requires
        lists(s, keep, rank),
        lists(t, keep, rank),
        0 <= n <= s.len(),
    ensures
        n <= t.len(),
        forall|i: int| 0 <= i < n ==> s[i] == t[i],
    decreases n,
{
    if n > 0 {
        lemma_lists_prefix(s, t, keep, rank, n - 1);
        let m = n - 1;
        assert(keep.contains(s[m]));
        assert(t.contains(s[m]));
        let j = choose|j: int| 0 <= j < t.len() && t[j] == s[m];
        if j < m {
            assert(s[j] == t[j]);
            assert(rank(s[j]) < rank(s[m]));
        }
        assert(m < t.len());
        assert(keep.contains(t[m]));
        assert(s.contains(t[m]));
        let i = choose|i: int| 0 <= i < s.len() && s[i] == t[m];
        if i < m {
            assert(t[i] == s[i]);
            assert(rank(t[i]) < rank(t[m]));
        }
        if s[m] != t[m] {
            assert(i > m && j > m);
            assert(rank(s[m]) < rank(s[i]));
            assert(rank(t[m]) < rank(t[j]));
        }
    }
}

proof fn lemma_lists_unique<A>(
    s: Seq<A>,
    t: Seq<A>,
    keep: Set<A>,
    rank: spec_fn(A) -> int,
)
    requires
        lists(s, keep, rank),
        lists(t, keep, rank),
    ensures
        s == t,
{
    lemma_lists_prefix(s, t, keep, rank, s.len() as int);
    lemma_lists_prefix(t, s, keep, rank, t.len() as int);
    assert(s =~= t);
}

/// Whether no two members have the same rank.
pub open spec fn is_ranked<A>(keep: Set<A>, rank: spec_fn(A) -> int) -> bool {
    forall|a: A, b: A| #[trigger]
        keep.contains(a) && #[trigger] keep.contains(b) && a != b ==> rank(a) != rank(b)
}

/// A finite set whose members have different ranks can be listed.
pub proof fn lemma_listing_exists<A>(keep: Set<A>, rank: spec_fn(A) -> int)
    requires
        keep.finite(),
        is_ranked(keep, rank),
    ensures
        lists(listing(keep, rank), keep, rank),
{
    lemma_some_listing(keep, rank);
}

proof fn lemma_some_listing<A>(keep: Set<A>, rank: spec_fn(A) -> int)
    requires
        keep.finite(),
        is_ranked(keep, rank),
    ensures
        exists|s: Seq<A>| lists(s, keep, rank),
    decreases keep.len(),
{
    if keep.len() == 0 {
        let s = Seq::<A>::empty();
        assert(keep =~= Set::<A>::empty());
        assert(lists(s, keep, rank));
    } else {
        let k = lemma_greatest(keep, rank);
        let rest = keep.remove(k);
        assert(is_ranked(rest, rank)) by {
            assert forall|a: A, b: A| #[trigger]
                rest.contains(a) && #[trigger] rest.contains(b) && a != b implies rank(a) != rank(
                b,
            ) by {
                assert(keep.contains(a) && keep.contains(b));
            }
        }
        lemma_some_listing(rest, rank);
        let s = choose|s: Seq<A>| lists(s, rest, rank);
        let t = s.push(k);
        assert forall|i: int, j: int| 0 <= i < j < t.len() implies rank(#[trigger] t[i]) < rank(
            #[trigger] t[j],
        ) by {
            assert(t[i] == s[i]);
            assert(rest.contains(s[i]));
            assert(keep.contains(s[i]) && keep.contains(k));
            if j < s.len() {
                assert(t[j] == s[j]);
            }
        }
        assert forall|i: int| 0 <= i < t.len() implies keep.contains(#[trigger] t[i]) by {
            if i < s.len() {
                assert(rest.contains(s[i]));
            }
        }
        assert forall|x: A| #[trigger] keep.contains(x) implies t.contains(x) by {
            if x == k {
                assert(t[s.len() as int] == x);
            } else {
                assert(rest.contains(x));
                let i = choose|i: int| 0 <= i < s.len() && s[i] == x;
                assert(t[i] == x);
            }
        }
        assert(lists(t, keep, rank));
    }
}

proof fn lemma_greatest<A>(keep: Set<A>, rank: spec_fn(A) -> int) -> (k: A)
    requires
        keep.finite(),
        keep.len() > 0,
    ensures
        keep.contains(k),
        forall|x: A| #[trigger] keep.contains(x) ==> rank(x) <= rank(k),
    decreases keep.len(),
{
    let a = keep.choose();
    let rest = keep.remove(a);
    if rest.len() == 0 {
        assert forall|x: A| #[trigger] keep.contains(x) implies rank(x) <= rank(a) by {
            if x != a {
                assert(rest.contains(x));
            }
        }
        a
    } else {
        let b = lemma_greatest(rest, rank);
        let k = if rank(a) <= rank(b) {
            b
        } else {
            a
        };
        assert forall|x: A| #[trigger] keep.contains(x) implies rank(x) <= rank(k) by {
            if x != a {
                assert(rest.contains(x));
            }
        }
        k
    }
}

} // verus!
