//! Fixed-width positional notation: a number as a sequence of digits in some
//! base, most significant first. Addresses, identifiers and length fields are
//! all laid out this way.

use vstd::arithmetic::div_mod::{
    lemma_div_denominator, lemma_fundamental_div_mod, lemma_fundamental_div_mod_converse,
};
use vstd::prelude::*;

verus! {

/// The lowest `n` digits of `v` in `base`, most significant first.
pub open spec fn digits(v: int, base: int, n: nat) -> Seq<int>
    decreases n,
{
    if n == 0 {
        Seq::empty()
    } else {
        digits(v / base, base, (n - 1) as nat).push(v % base)
    }
}

/// The number that a sequence of digits stands for.
pub open spec fn undigits(s: Seq<int>, base: int) -> int
    decreases s.len(),
{
    if s.len() == 0 {
        0
    } else {
        base * undigits(s.drop_last(), base) + s.last()
    }
}

/// Whether every item is a digit of the base.
pub open spec fn are_digits(s: Seq<int>, base: int) -> bool {
    forall|i: int| 0 <= i < s.len() ==> 0 <= #[trigger] s[i] < base
}

/// `base` to the power `n`.
pub open spec fn exp(base: int, n: nat) -> int
    decreases n,
{
    if n == 0 {
        1
    } else {
        base * exp(base, (n - 1) as nat)
    }
}

pub proof fn lemma_digits_len(v: int, base: int, n: nat)
    requires
        base > 0,
    ensures
        digits(v, base, n).len() == n,
        are_digits(digits(v, base, n), base),
    decreases n,
{
    if n > 0 {
        lemma_digits_len(v / base, base, (n - 1) as nat);
    }
}

/// Reading the digits of a number that fits gives the number back.
pub proof fn lemma_undigits_of_digits(v: int, base: int, n: nat)
    requires
        base > 1,
        0 <= v < exp(base, n),
    ensures
        undigits(digits(v, base, n), base) == v,
    decreases n,
{
    if n > 0 {
        let q = v / base;
        let p = exp(base, (n - 1) as nat);
        assert(0 <= q < p) by (nonlinear_arith)
            requires
                base > 1,
                0 <= v < base * p,
                q == v / base,
        ;
        lemma_undigits_of_digits(q, base, (n - 1) as nat);
        lemma_fundamental_div_mod(v, base);
        let d = digits(v, base, n);
        assert(d.drop_last() =~= digits(q, base, (n - 1) as nat));
    }
}

/// The digits of what a sequence of digits stands for are that sequence.
pub proof fn lemma_digits_of_undigits(s: Seq<int>, base: int)
    requires
        base > 1,
        are_digits(s, base),
    ensures
        0 <= undigits(s, base) < exp(base, s.len()),
        digits(undigits(s, base), base, s.len()) == s,
    decreases s.len(),
{
    if s.len() > 0 {
        let t = s.drop_last();
        assert(are_digits(t, base)) by {
            assert forall|i: int| 0 <= i < t.len() implies 0 <= #[trigger] t[i] < base by {
                assert(t[i] == s[i]);
            }
        }
        lemma_digits_of_undigits(t, base);
        let u = undigits(t, base);
        let v = undigits(s, base);
        let p = exp(base, t.len());
        assert(0 <= s.last() < base);
        assert(v == base * u + s.last());
        assert(0 <= v < base * p) by (nonlinear_arith)
            requires
                base > 1,
                0 <= u < p,
                0 <= s.last() < base,
                v == base * u + s.last(),
        ;
        assert(u * base == base * u) by (nonlinear_arith);
        lemma_fundamental_div_mod_converse(v, base, u, s.last());
        assert(digits(v, base, s.len()) =~= s);
    }
}

/// Two numbers that fit compare as their digits do: by the first digit in
/// which they differ.
pub proof fn lemma_digits_order(a: int, b: int, base: int, n: nat)
    requires
        base > 1,
        0 <= a < exp(base, n),
        0 <= b < exp(base, n),
        a < b,
    ensures
        exists|k: int|
            #![trigger digits(a, base, n)[k]]
            0 <= k < n && digits(a, base, n)[k] < digits(b, base, n)[k] && (forall|j: int|
                0 <= j < k ==> digits(a, base, n)[j] == digits(b, base, n)[j]),
    decreases n,
{
    if n == 0 {
        assert(exp(base, 0) == 1);
    } else {
        let m = (n - 1) as nat;
        let qa = a / base;
        let qb = b / base;
        let p = exp(base, m);
        assert(0 <= qa < p && 0 <= qb < p && qa <= qb) by (nonlinear_arith)
            requires
                base > 1,
                0 <= a < base * p,
                0 <= b < base * p,
                a < b,
                qa == a / base,
                qb == b / base,
        ;
        lemma_digits_len(qa, base, m);
        lemma_digits_len(qb, base, m);
        let da = digits(a, base, n);
        let db = digits(b, base, n);
        if qa < qb {
            lemma_digits_order(qa, qb, base, m);
            let k = choose|k: int|
                #![trigger digits(qa, base, m)[k]]
                0 <= k < m && digits(qa, base, m)[k] < digits(qb, base, m)[k] && (forall|j: int|
                    0 <= j < k ==> digits(qa, base, m)[j] == digits(qb, base, m)[j]);
            assert(da[k] == digits(qa, base, m)[k]);
            assert(db[k] == digits(qb, base, m)[k]);
            assert forall|j: int| 0 <= j < k implies da[j] == db[j] by {
                assert(da[j] == digits(qa, base, m)[j]);
                assert(db[j] == digits(qb, base, m)[j]);
            }
        } else {
            lemma_fundamental_div_mod(a, base);
            lemma_fundamental_div_mod(b, base);
            assert(da[m as int] < db[m as int]);
            assert forall|j: int| 0 <= j < m implies da[j] == db[j] by {
                assert(da[j] == digits(qa, base, m)[j]);
                assert(db[j] == digits(qb, base, m)[j]);
            }
        }
    }
}

/// The bytes of a sequence as digits.
pub open spec fn byte_digits(s: Seq<u8>) -> Seq<int> {
    Seq::new(s.len(), |i: int| s[i] as int)
}

/// `v` as `n` bytes, most significant first.
pub open spec fn be_bytes(v: int, n: nat) -> Seq<u8> {
    Seq::new(n, |i: int| digits(v, 256, n)[i] as u8)
}

/// The number that big-endian bytes stand for.
pub open spec fn be_value(s: Seq<u8>) -> int {
    undigits(byte_digits(s), 256)
}

pub proof fn lemma_be_value_of_bytes(v: int, n: nat)
    requires
        0 <= v < exp(256, n),
    ensures
        be_value(be_bytes(v, n)) == v,
{
    lemma_digits_len(v, 256, n);
    lemma_undigits_of_digits(v, 256, n);
    assert(byte_digits(be_bytes(v, n)) =~= digits(v, 256, n));
}

pub proof fn lemma_be_bytes_of_value(s: Seq<u8>)
    ensures
        0 <= be_value(s) < exp(256, s.len()),
        be_bytes(be_value(s), s.len()) == s,
{
    lemma_digits_of_undigits(byte_digits(s), 256);
    assert(be_bytes(be_value(s), s.len()) =~= s);
}

/// The powers of 256 that field widths need.
pub proof fn lemma_exp_256()
    ensures
        exp(256, 2) == 0x1_0000,
        exp(256, 8) == 0x1_0000_0000_0000_0000,
        exp(256, 16) == 0x1_0000_0000_0000_0000_0000_0000_0000_0000,
        exp(65536, 8) == 0x1_0000_0000_0000_0000_0000_0000_0000_0000,
        exp(16, 32) == 0x1_0000_0000_0000_0000_0000_0000_0000_0000,
{
    reveal_with_fuel(exp, 33);
}

/// The big-endian bytes of `v`, `n` of them.
pub fn write_be(v: u128, n: usize) -> (r: Vec<u8>)
    ensures
        r@ == be_bytes(v as int, n as nat),
    decreases n,
{
    if n == 0 {
        let r: Vec<u8> = Vec::new();
        assert(r@ =~= be_bytes(v as int, 0));
        r
    } else {
        let mut r = write_be(v / 256, n - 1);
        r.push((v % 256) as u8);
        proof {
            lemma_digits_len(v as int / 256, 256, (n - 1) as nat);
            assert(r@ =~= be_bytes(v as int, n as nat));
        }
        r
    }
}

/// Reads at most sixteen big-endian bytes.
pub fn read_be(s: &[u8]) -> (r: u128)
    requires
        s@.len() <= 16,
    ensures
        r == be_value(s@),
{
    let mut v: u128 = 0;
    let mut i: usize = 0;
    assert(byte_digits(s@.take(0)) =~= Seq::<int>::empty());
    while i < s.len()
        invariant
            i <= s@.len() <= 16,
            v == be_value(s@.take(i as int)),
        decreases s@.len() - i,
    {
        let ghost before = byte_digits(s@.take(i as int));
        let ghost after = byte_digits(s@.take(i + 1));
        proof {
            assert(after.drop_last() =~= before);
            assert(after.last() == s@[i as int]);
            lemma_digits_of_undigits(after, 256);
            lemma_exp_mono(i as nat + 1, 16);
            lemma_exp_256();
        }
        v = 256 * v + s[i] as u128;
        i = i + 1;
    }
    assert(s@.take(s@.len() as int) =~= s@);
    v
}

pub proof fn lemma_exp_mono(m: nat, n: nat)
    requires
        m <= n,
    ensures
        exp(256, m) <= exp(256, n),
        exp(256, m) > 0,
    decreases n,
{
    if m == n {
        if m > 0 {
            lemma_exp_mono((m - 1) as nat, (n - 1) as nat);
        }
    } else {
        lemma_exp_mono(m, (n - 1) as nat);
    }
}

/// A digit is worth its place: the last counts once, and each one before it
/// `base` times as much as the next.
pub proof fn law_digits_count_by_their_place(v: int, base: int, n: nat, i: int)
    requires
        v >= 0,
        base > 0,
        0 <= i < n,
    ensures
        exp(base, (n - 1 - i) as nat) > 0,
        digits(v, base, n).len() == n,
        digits(v, base, n)[i] == (v / exp(base, (n - 1 - i) as nat)) % base,
    decreases n,
{
    lemma_digits_len(v, base, n);
    if i == n - 1 {
        assert(v / 1 == v);
    } else {
        let m = (n - 1) as nat;
        let e = exp(base, (n - 2 - i) as nat);
        let q = v / base;
        assert(q >= 0) by (nonlinear_arith)
            requires
                v >= 0,
                base > 0,
                q == v / base,
        ;
        law_digits_count_by_their_place(q, base, m, i);
        lemma_digits_len(q, base, m);
        assert(base * e > 0) by (nonlinear_arith)
            requires
                base > 0,
                e > 0,
        ;
        lemma_div_denominator(v, base, e);
        assert(exp(base, (n - 1 - i) as nat) == base * e);
    }
}

/// Bytes that stand for a number are its digits in base 256, the most
/// significant first.
pub proof fn law_bytes_are_most_significant_first(v: int, n: nat, i: int)
    requires
        v >= 0,
        0 <= i < n,
    ensures
        be_bytes(v, n).len() == n,
        be_bytes(v, n)[i] == (v / exp(256, (n - 1 - i) as nat)) % 256,
{
    law_digits_count_by_their_place(v, 256, n, i);
}

} // verus!
