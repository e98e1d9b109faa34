//! IPv4 and IPv6 addresses and their textual forms.

use crate::net::split::split;
use crate::numeral::{decimal, hex, is_number, number};
use crate::radix::{
    are_digits, be_bytes, be_value, digits, exp, lemma_be_bytes_of_value, lemma_digits_len,
    lemma_digits_of_undigits, lemma_exp_256, lemma_undigits_of_digits, read_be, undigits, write_be,
};
use vstd::prelude::*;

verus! {

/// An IPv6 address, as the 128-bit number it is.
#[derive(Clone, Copy, Debug, PartialEq, Eq, Structural, Hash)]
pub struct Ipv6Addr {
    /// The address, most significant bit first.
    pub bits: u128,
}

/// An address of either family.
#[derive(Clone, Copy, Debug, PartialEq, Eq, Structural, Hash)]
pub enum IpAddr {
    /// An IPv4 address, as the 32-bit number it is.
    V4(u32),
    /// An IPv6 address.
    V6(Ipv6Addr),
}

/// The eight 16-bit segments of an address.
pub open spec fn segs(a: Ipv6Addr) -> Seq<int> {
    digits(a.bits as int, 65536, 8)
}

/// The address with the given eight segments.
pub open spec fn from_segs(s: Seq<int>) -> Ipv6Addr {
    Ipv6Addr { bits: undigits(s, 65536) as u128 }
}

pub proof fn lemma_segs(a: Ipv6Addr)
    ensures
        segs(a).len() == 8,
        are_digits(segs(a), 65536),
        from_segs(segs(a)) == a,
{
    lemma_exp_256();
    lemma_digits_len(a.bits as int, 65536, 8);
    lemma_undigits_of_digits(a.bits as int, 65536, 8);
}

pub proof fn lemma_from_segs(s: Seq<int>)
    requires
        s.len() == 8,
        are_digits(s, 65536),
    ensures
        segs(from_segs(s)) == s,
{
    lemma_exp_256();
    lemma_digits_of_undigits(s, 65536);
}

/// The segments of a list of 16-bit numbers.
pub open spec fn ints(s: Seq<u16>) -> Seq<int> {
    Seq::new(s.len(), |i: int| s[i] as int)
}

impl Ipv6Addr {
    /// The unspecified address, `::`.
    pub fn unspecified() -> (r: Self)
        ensures
            r == (Ipv6Addr { bits: 0 }),
    {
        Ipv6Addr { bits: 0 }
    }

    /// The address made of eight segments.
    pub fn new(a: u16, b: u16, c: u16, d: u16, e: u16, f: u16, g: u16, h: u16) -> (r: Self)
        ensures
            segs(r) == seq![
                a as int,
                b as int,
                c as int,
                d as int,
                e as int,
                f as int,
                g as int,
                h as int,
            ],
            r == from_segs(segs(r)),
    {
        let mut v: Vec<u16> = Vec::new();
        v.push(a);
        v.push(b);
        v.push(c);
        v.push(d);
        v.push(e);
        v.push(f);
        v.push(g);
        v.push(h);
        let r = join_segments(&v);
        assert(ints(v@) =~= seq![
            a as int,
            b as int,
            c as int,
            d as int,
            e as int,
            f as int,
            g as int,
            h as int,
        ]);
        r
    }

    /// The eight segments of the address.
    pub fn segments(&self) -> (r: [u16; 8])
        ensures
            ints(r@) == segs(*self),
    {
        let b = self.bits;
        let s7: u16 = (b % 65536) as u16;
        let b6: u128 = b / 65536;
        let s6: u16 = (b6 % 65536) as u16;
        let b5: u128 = b6 / 65536;
        let s5: u16 = (b5 % 65536) as u16;
        let b4: u128 = b5 / 65536;
        let s4: u16 = (b4 % 65536) as u16;
        let b3: u128 = b4 / 65536;
        let s3: u16 = (b3 % 65536) as u16;
        let b2: u128 = b3 / 65536;
        let s2: u16 = (b2 % 65536) as u16;
        let b1: u128 = b2 / 65536;
        let s1: u16 = (b1 % 65536) as u16;
        let b0: u128 = b1 / 65536;
        let s0: u16 = (b0 % 65536) as u16;
        let r = [s0, s1, s2, s3, s4, s5, s6, s7];
        proof {
            reveal_with_fuel(digits, 9);
            assert(ints(r@) =~= segs(*self));
        }
        r
    }

    /// The sixteen octets of the address, in network order.
    pub fn octets(&self) -> (r: Vec<u8>)
        ensures
            r@ == be_bytes(self.bits as int, 16),
    {
        write_be(self.bits, 16)
    }

    /// The address with the given sixteen octets.
    pub fn from_octets(o: &[u8]) -> (r: Self)
        requires
            o@.len() == 16,
        ensures
            r.bits == be_value(o@),
            be_bytes(r.bits as int, 16) == o@,
    {
        proof {
            lemma_be_bytes_of_value(o@);
        }
        Ipv6Addr { bits: read_be(o) }
    }
}

/// The address made of a list of eight segments.
fn join_segments(v: &Vec<u16>) -> (r: Ipv6Addr)
    requires
        v@.len() == 8,
    ensures
        segs(r) == ints(v@),
        r == from_segs(ints(v@)),
{
    let ghost all = ints(v@);
    let mut bits: u128 = 0;
    let mut i: usize = 0;
    assert(all.take(0) =~= Seq::<int>::empty());
    proof {
        lemma_exp_256();
    }
    while i < 8
        invariant
            i <= 8,
            v@.len() == 8,
            all == ints(v@),
            bits == undigits(all.take(i as int), 65536),
            exp(65536, 8) == 0x1_0000_0000_0000_0000_0000_0000_0000_0000,
        decreases 8 - i,
    {
        let ghost after = all.take(i + 1);
        proof {
            assert(after.drop_last() =~= all.take(i as int));
            assert(after.last() == v@[i as int]);
            lemma_digits_of_undigits(after, 65536);
            lemma_exp_65536(i as nat + 1);
        }
        bits = 65536 * bits + v[i] as u128;
        i = i + 1;
    }
    assert(all.take(8) =~= all);
    proof {
        lemma_from_segs(all);
    }
    Ipv6Addr { bits }
}

proof fn lemma_exp_65536(n: nat)
    requires
        n <= 8,
    ensures
        exp(65536, n) <= exp(65536, 8),
{
    reveal_with_fuel(exp, 9);
}

// ---------------------------------------------------------------------------
// Textual forms
// ---------------------------------------------------------------------------

/// One group of an IPv6 address: one to four hexadecimal digits.
pub open spec fn is_group(s: Seq<char>) -> bool {
    s.len() <= 4 && is_number(s, 16)
}

/// One part of a dotted IPv4 address: a decimal number up to 255, in at most
/// three digits and without a leading zero.
pub open spec fn is_octet(s: Seq<char>) -> bool {
    s.len() <= 3 && is_number(s, 10) && number(s, 10) <= 255 && (s.len() > 1 ==> s[0] != '0')
}

/// The address that a dotted IPv4 text stands for.
pub open spec fn ipv4_value(s: Seq<char>) -> Option<int> {
    let p = split(s, '.');
    if p.len() == 4 && is_octet(p[0]) && is_octet(p[1]) && is_octet(p[2]) && is_octet(p[3]) {
        Some(
            ((number(p[0], 10) * 256 + number(p[1], 10)) * 256 + number(p[2], 10)) * 256 + number(
                p[3],
                10,
            ),
        )
    } else {
        None
    }
}

/// Whether the first `n` pieces are all groups.
pub open spec fn are_groups(p: Seq<Seq<char>>, n: int) -> bool {
    forall|i: int| 0 <= i < n ==> is_group(#[trigger] p[i])
}

/// The values of the first `n` pieces.
pub open spec fn group_values(p: Seq<Seq<char>>, n: int) -> Seq<int> {
    Seq::new(n as nat, |i: int| number(p[i], 16))
}

/// The segments that colon-separated groups stand for. The last piece may be
/// a dotted IPv4 address, worth two segments, where that is allowed. An empty
/// text stands for no segments.
pub open spec fn text_groups(s: Seq<char>, dotted: bool) -> Option<Seq<int>> {
    let p = split(s, ':');
    let n = p.len() as int;
    if s.len() == 0 {
        Some(Seq::empty())
    } else if are_groups(p, n) {
        Some(group_values(p, n))
    } else if dotted && are_groups(p, n - 1) && ipv4_value(p[n - 1]) is Some {
        let v = ipv4_value(p[n - 1])->0;
        Some(group_values(p, n - 1).push(v / 65536).push(v % 65536))
    } else {
        None
    }
}

/// Where `::` occurs first at or behind `i`, or -1 where it does not.
pub open spec fn double_colon(s: Seq<char>, i: int) -> int
    decreases s.len() - i,
{
    if i < 0 || i + 1 >= s.len() {
        -1
    } else if s[i] == ':' && s[i + 1] == ':' {
        i
    } else {
        double_colon(s, i + 1)
    }
}

/// The eight segments that an IPv6 text stands for: eight groups, or fewer
/// than eight with one `::` that stands for the zeros in between. A dotted
/// IPv4 address may only stand at the very end.
pub open spec fn ipv6_segments(s: Seq<char>) -> Option<Seq<int>> {
    let p = double_colon(s, 0);
    if p < 0 {
        match text_groups(s, true) {
            Some(g) => if g.len() == 8 {
                Some(g)
            } else {
                None
            },
            None => None,
        }
    } else {
        match (
            text_groups(s.take(p), false),
            text_groups(s.subrange(p + 2, s.len() as int), true),
        ) {
            (Some(h), Some(t)) => if h.len() + t.len() <= 7 {
                Some(h + Seq::new((8 - h.len() - t.len()) as nat, |i: int| 0int) + t)
            } else {
                None
            },
            _ => None,
        }
    }
}

/// The address that an IPv6 text stands for.
pub open spec fn ipv6_value(s: Seq<char>) -> Option<Ipv6Addr> {
    match ipv6_segments(s) {
        Some(g) => Some(from_segs(g)),
        None => None,
    }
}

/// Groups in hexadecimal, joined by colons.
pub open spec fn join_groups(s: Seq<int>) -> Seq<char>
    decreases s.len(),
{
    if s.len() == 0 {
        Seq::empty()
    } else if s.len() == 1 {
        hex(s[0])
    } else {
        join_groups(s.drop_last()) + seq![':'] + hex(s.last())
    }
}

/// A 32-bit number as a dotted IPv4 address.
pub open spec fn ipv4_text(v: int) -> Seq<char> {
    decimal(v / 16777216) + seq!['.'] + decimal((v / 65536) % 256) + seq!['.'] + decimal(
        (v / 256) % 256,
    ) + seq!['.'] + decimal(v % 256)
}

/// How many zero segments follow one another from `i` on.
pub open spec fn zero_run(s: Seq<int>, i: int) -> int
    decreases s.len() - i,
{
    if i < 0 || i >= s.len() || s[i] != 0 {
        0
    } else {
        1 + zero_run(s, i + 1)
    }
}

/// The longest run of zero segments that starts before `n`, as its start and
/// length; the first of several.
pub open spec fn longest_run(s: Seq<int>, n: int) -> (int, int)
    decreases n,
{
    if n <= 0 {
        (0, 0)
    } else {
        let best = longest_run(s, n - 1);
        if zero_run(s, n - 1) > best.1 {
            (n - 1, zero_run(s, n - 1))
        } else {
            best
        }
    }
}

/// Whether the address carries an IPv4 address (`::ffff:0:0/96`).
pub open spec fn is_mapped(s: Seq<int>) -> bool {
    s[0] == 0 && s[1] == 0 && s[2] == 0 && s[3] == 0 && s[4] == 0 && s[5] == 0xffff
}

/// An IPv6 address in its canonical form: lower-case groups without leading
/// zeros, the longest run of two or more zero groups as `::`, and an
/// IPv4-mapped address with its IPv4 part dotted.
pub open spec fn ipv6_text(a: Ipv6Addr) -> Seq<char> {
    let s = segs(a);
    if is_mapped(s) {
        seq![':', ':', 'f', 'f', 'f', 'f', ':'] + ipv4_text(s[6] * 65536 + s[7])
    } else {
        let run = longest_run(s, 8);
        if run.1 >= 2 {
            join_groups(s.take(run.0)) + seq![':', ':'] + join_groups(s.skip(run.0 + run.1))
        } else {
            join_groups(s)
        }
    }
}

} // verus!
