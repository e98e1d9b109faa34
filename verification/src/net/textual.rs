//! Reading and writing IPv6 text, and the proof that an address survives
//! being written and read back.

use crate::net::addr::{
    are_groups, double_colon, from_segs, group_values, ints, ipv4_text, ipv4_value, ipv6_segments,
    ipv6_text, ipv6_value, is_group, is_mapped, is_octet, join_groups, lemma_segs, longest_run, segs,
    text_groups, zero_run, Ipv6Addr,
};
use crate::net::split::{
    joined, lacks, law_split_pieces_join_again, lemma_split_append, lemma_split_nonempty,
    lemma_split_single, pieces, slice_chars, split, split_chars,
};
use crate::numeral::{
    decimal, decimal_text, digit_of, hex, hex_text, is_number, lemma_number_nonneg,
    lemma_number_of_numeral, lemma_numeral_chars, lemma_numeral_len, lemma_numeral_no_leading_zero,
    lemma_numeral_of_number, number, power, read_number,
};
use crate::radix::are_digits;
use crate::text::chars_of;
use vstd::prelude::*;

verus! {

// ---------------------------------------------------------------------------
// Reading
// ---------------------------------------------------------------------------

/// Reads one part of a dotted IPv4 address.
fn read_octet(s: &Vec<char>) -> (r: Option<u64>)
    ensures
        r == (if is_octet(s@) {
            Some(number(s@, 10) as u64)
        } else {
            None
        }),
        r is Some ==> r->0 <= 255 && r->0 == number(s@, 10),
{
    if s.len() > 3 || (s.len() > 1 && s[0] == '0') {
        return None;
    }
    proof {
        lemma_number_nonneg(s@, 10);
    }
    read_number(s.as_slice(), 10, 255)
}

/// Reads a dotted IPv4 address.
pub fn read_ipv4(s: &[char]) -> (r: Option<u32>)
    ensures
        match r {
            Some(v) => ipv4_value(s@) == Some(v as int),
            None => ipv4_value(s@) is None,
        },
{
    let p = split_chars(s, '.');
    let ghost q = split(s@, '.');
    assert(pieces(p@).len() == q.len());
    if p.len() != 4 {
        return None;
    }
    assert(pieces(p@)[0] == p@[0]@ && pieces(p@)[1] == p@[1]@ && pieces(p@)[2] == p@[2]@ && pieces(
        p@,
    )[3] == p@[3]@);
    match (read_octet(&p[0]), read_octet(&p[1]), read_octet(&p[2]), read_octet(&p[3])) {
        (Some(a), Some(b), Some(c), Some(d)) => {
            Some((((a * 256 + b) * 256 + c) * 256 + d) as u32)
        },
        _ => None,
    }
}

/// Reads one group.
fn read_group(s: &Vec<char>) -> (r: Option<u16>)
    ensures
        match r {
            Some(v) => is_group(s@) && v == number(s@, 16),
            None => !is_group(s@),
        },
{
    if s.len() > 4 {
        return None;
    }
    proof {
        if is_group(s@) {
            lemma_group_bound(s@);
        }
        lemma_number_nonneg(s@, 16);
    }
    match read_number(s.as_slice(), 16, 65535) {
        Some(v) => Some(v as u16),
        None => None,
    }
}

/// Four hexadecimal digits make at most 65535.
proof fn lemma_group_bound(s: Seq<char>)
    requires
        is_group(s),
    ensures
        number(s, 16) <= 65535,
{
    reveal_with_fuel(number, 5);
    assert(forall|i: int| 0 <= i < s.len() ==> digit_of(#[trigger] s[i]) < 16);
    let a = s.drop_last();
    assert(s.last() == s[s.len() - 1]);
    if a.len() > 0 {
        assert(a.last() == s[a.len() - 1]);
        let b = a.drop_last();
        if b.len() > 0 {
            assert(b.last() == s[b.len() - 1]);
            let c = b.drop_last();
            if c.len() > 0 {
                assert(c.last() == s[c.len() - 1]);
            }
        }
    }
}

/// Reads colon-separated groups.
fn read_groups(s: &[char], dotted: bool) -> (r: Option<Vec<u16>>)
    ensures
        match r {
            Some(v) => text_groups(s@, dotted) == Some(ints(v@)),
            None => text_groups(s@, dotted) is None,
        },
{
    let mut out: Vec<u16> = Vec::new();
    if s.len() == 0 {
        assert(ints(out@) =~= Seq::<int>::empty());
        return Some(out);
    }
    let p = split_chars(s, ':');
    let ghost q = split(s@, ':');
    proof {
        lemma_split_nonempty(s@, ':');
        assert(pieces(p@).len() == q.len());
    }
    let n = p.len();
    let mut i: usize = 0;
    while i < n
        invariant
            i <= n,
            n == p@.len(),
            n >= 1,
            s@.len() > 0,
            q == split(s@, ':'),
            q == pieces(p@),
            are_groups(q, i as int),
            ints(out@) == group_values(q, i as int),
        decreases n - i,
    {
        assert(q[i as int] == p@[i as int]@);
        match read_group(&p[i]) {
            Some(v) => {
                proof {
                    lemma_ints_push(out@, v);
                }
                out.push(v);
                i = i + 1;
                assert(group_values(q, i as int) =~= group_values(q, i - 1).push(v as int));
            },
            None => {
                assert(!are_groups(q, n as int)) by {
                    assert(!is_group(q[i as int]));
                }
                if !dotted || i + 1 != n {
                    assert(!are_groups(q, n - 1) || !dotted) by {
                        if i + 1 != n {
                            assert(!is_group(q[i as int]));
                        }
                    }
                    return None;
                }
                match read_ipv4(p[i].as_slice()) {
                    Some(v) => {
                        let high: u16 = (v / 65536) as u16;
                        let low: u16 = (v % 65536) as u16;
                        proof {
                            lemma_ints_push(out@, high);
                            lemma_ints_push(out@.push(high), low);
                        }
                        out.push(high);
                        out.push(low);
                        return Some(out);
                    },
                    None => {
                        return None;
                    },
                }
            },
        }
    }
    Some(out)
}

/// The first `::`.
fn find_double_colon(s: &[char]) -> (r: Option<usize>)
    ensures
        match r {
            Some(p) => p == double_colon(s@, 0) && p + 2 <= s@.len(),
            None => double_colon(s@, 0) == -1,
        },
{
    let n = s.len();
    if n == 0 {
        return None;
    }
    let mut i: usize = 0;
    while i < n - 1
        invariant
            i < n,
            n == s@.len(),
            double_colon(s@, 0) == double_colon(s@, i as int),
        decreases s@.len() - i,
    {
        if s[i] == ':' && s[i + 1] == ':' {
            return Some(i);
        }
        i = i + 1;
    }
    None
}

proof fn lemma_ints_push(v: Seq<u16>, x: u16)
    ensures
        ints(v.push(x)) == ints(v).push(x as int),
{
    assert(ints(v.push(x)) =~= ints(v).push(x as int));
}

impl Ipv6Addr {
    /// Reads an address from text; `None` where the text is no IPv6 address.
    pub fn parse(s: &str) -> (r: Option<Self>)
        ensures
            r == ipv6_value(s@),
    {
        let c = chars_of(s);
        read_ipv6(c.as_slice())
    }

    /// The address in its canonical textual form.
    pub fn to_text(&self) -> (r: String)
        ensures
            r@ == ipv6_text(*self),
            ipv6_value(r@) == Some(*self),
    {
        proof {
            lemma_ipv6_round_trip(*self);
            lemma_segs(*self);
        }
        let s = self.segments();
        let ghost all = segs(*self);
        assert(ints(s@)[0] == s@[0] && ints(s@)[1] == s@[1] && ints(s@)[2] == s@[2] && ints(s@)[3]
            == s@[3] && ints(s@)[4] == s@[4] && ints(s@)[5] == s@[5] && ints(s@)[6] == s@[6]
            && ints(s@)[7] == s@[7]);
        if s[0] == 0 && s[1] == 0 && s[2] == 0 && s[3] == 0 && s[4] == 0 && s[5] == 0xffff {
            proof {
                reveal_strlit("::ffff:");
            }
            let mut r = "::ffff:".to_owned();
            assert(r@ =~= seq![':', ':', 'f', 'f', 'f', 'f', ':']);
            let v: u32 = s[6] as u32 * 65536 + s[7] as u32;
            let tail = write_ipv4(v);
            r.append(tail.as_str());
            r
        } else {
            let run = find_longest_run(&s);
            proof {
                lemma_longest_run(all, 8);
            }
            if run.1 >= 2 {
                let mut r = write_groups(&s, 0, run.0);
                proof {
                    reveal_strlit("::");
                    assert("::"@ =~= seq![':', ':']);
                    assert(all.take(run.0 as int) =~= all.subrange(0, run.0 as int));
                    assert(all.skip(run.0 + run.1) =~= all.subrange(run.0 + run.1, 8));
                }
                r.append("::");
                let tail = write_groups(&s, run.0 + run.1, 8);
                r.append(tail.as_str());
                r
            } else {
                assert(all =~= all.subrange(0, 8));
                write_groups(&s, 0, 8)
            }
        }
    }
}

/// Reads an IPv6 address from characters.
pub fn read_ipv6(s: &[char]) -> (r: Option<Ipv6Addr>)
    ensures
        r == ipv6_value(s@),
{
    match find_double_colon(s) {
        None => {
            match read_groups(s, true) {
                Some(g) => {
                    if g.len() == 8 {
                        Some(address_of(&g))
                    } else {
                        None
                    }
                },
                None => None,
            }
        },
        Some(p) => {
            let head = slice_chars(s, 0, p);
            let n = s.len();
            let tail = slice_chars(s, p + 2, n);
            assert(head@ =~= s@.take(p as int));
            match (read_groups(head.as_slice(), false), read_groups(tail.as_slice(), true)) {
                (Some(mut h), Some(t)) => {
                    let hn = h.len();
                    let tn = t.len();
                    if hn > 7 || tn > 7 || hn + tn > 7 {
                        return None;
                    }
                    let ghost hs = ints(h@);
                    let ghost zeros = Seq::new((8 - hn - tn) as nat, |i: int| 0int);
                    let mut k: usize = 0;
                    while k < 8 - hn - tn
                        invariant
                            hn + tn <= 7,
                            k <= 8 - hn - tn,
                            h@.len() == hn + k,
                            hs.len() == hn,
                            zeros == Seq::new((8 - hn - tn) as nat, |i: int| 0int),
                            ints(h@) == hs + zeros.take(k as int),
                        decreases 8 - hn - tn - k,
                    {
                        proof {
                            lemma_ints_push(h@, 0);
                        }
                        h.push(0);
                        k = k + 1;
                        assert(zeros.take(k as int) =~= zeros.take(k - 1).push(0));
                        assert(hs + zeros.take(k as int) =~= (hs + zeros.take(k - 1)).push(0));
                    }
                    assert(zeros.take(k as int) =~= zeros);
                    let ghost front = ints(h@);
                    let mut j: usize = 0;
                    while j < tn
                        invariant
                            tn == t@.len(),
                            hn + tn <= 7,
                            j <= tn,
                            front.len() == 8 - tn,
                            h@.len() == 8 - tn + j,
                            ints(h@) == front + ints(t@).take(j as int),
                        decreases tn - j,
                    {
                        proof {
                            lemma_ints_push(h@, t@[j as int]);
                        }
                        h.push(t[j]);
                        j = j + 1;
                        assert(front + ints(t@).take(j as int) =~= (front + ints(t@).take(
                            j - 1,
                        )).push(ints(t@)[j - 1]));
                    }
                    assert(ints(t@).take(tn as int) =~= ints(t@));
                    assert(ints(h@) =~= hs + zeros + ints(t@));
                    Some(address_of(&h))
                },
                _ => None,
            }
        },
    }
}

/// The address with the given eight segments.
fn address_of(g: &Vec<u16>) -> (r: Ipv6Addr)
    requires
        g@.len() == 8,
    ensures
        r == from_segs(ints(g@)),
{
    let r = Ipv6Addr::new(g[0], g[1], g[2], g[3], g[4], g[5], g[6], g[7]);
    assert(segs(r) =~= ints(g@));
    r
}

// ---------------------------------------------------------------------------
// Writing
// ---------------------------------------------------------------------------

/// Writes a dotted IPv4 address.
pub fn write_ipv4(v: u32) -> (r: String)
    ensures
        r@ == ipv4_text(v as int),
{
    let mut r = decimal_text((v / 16777216) as u64);
    r.push('.');
    r.append(decimal_text(((v / 65536) % 256) as u64).as_str());
    r.push('.');
    r.append(decimal_text(((v / 256) % 256) as u64).as_str());
    r.push('.');
    r.append(decimal_text((v % 256) as u64).as_str());
    assert(r@ =~= ipv4_text(v as int));
    r
}

/// Writes the groups from `from` up to `to`.
fn write_groups(s: &[u16; 8], from: usize, to: usize) -> (r: String)
    requires
        from <= to <= 8,
    ensures
        r@ == join_groups(ints(s@).subrange(from as int, to as int)),
    decreases to - from,
{
    let ghost part = ints(s@).subrange(from as int, to as int);
    if from == to {
        String::new()
    } else if from + 1 == to {
        assert(part[0] == s@[from as int]);
        hex_text(s[from] as u64)
    } else {
        let mut r = write_groups(s, from, to - 1);
        r.push(':');
        r.append(hex_text(s[to - 1] as u64).as_str());
        assert(part.drop_last() =~= ints(s@).subrange(from as int, to - 1));
        assert(r@ =~= join_groups(part));
        r
    }
}

/// How many zero segments follow one another from `i` on.
fn count_zeros(s: &[u16; 8], i: usize) -> (r: usize)
    requires
        i <= 8,
    ensures
        r == zero_run(ints(s@), i as int),
        r <= 8 - i,
    decreases 8 - i,
{
    if i == 8 {
        0
    } else {
        assert(ints(s@)[i as int] == s@[i as int]);
        if s[i] != 0 {
            0
        } else {
            1 + count_zeros(s, i + 1)
        }
    }
}

/// The longest run of zero segments; the first of several.
fn find_longest_run(s: &[u16; 8]) -> (r: (usize, usize))
    ensures
        r.0 == longest_run(ints(s@), 8).0,
        r.1 == longest_run(ints(s@), 8).1,
        r.0 + r.1 <= 8,
{
    let mut best: (usize, usize) = (0, 0);
    let mut n: usize = 0;
    while n < 8
        invariant
            n <= 8,
            best.0 == longest_run(ints(s@), n as int).0,
            best.1 == longest_run(ints(s@), n as int).1,
            best.0 + best.1 <= 8,
        decreases 8 - n,
    {
        let run = count_zeros(s, n);
        if run > best.1 {
            best = (n, run);
        }
        n = n + 1;
    }
    best
}

// ---------------------------------------------------------------------------
// Round trip
// ---------------------------------------------------------------------------

proof fn lemma_zero_run(s: Seq<int>, i: int)
    requires
        0 <= i <= s.len(),
    ensures
        0 <= zero_run(s, i) <= s.len() - i,
        forall|k: int| i <= k < i + zero_run(s, i) ==> #[trigger] s[k] == 0,
    decreases s.len() - i,
{
    if i < s.len() && s[i] == 0 {
        lemma_zero_run(s, i + 1);
    }
}

proof fn lemma_longest_run(s: Seq<int>, n: int)
    requires
        0 <= n <= s.len(),
    ensures
        0 <= longest_run(s, n).0,
        0 <= longest_run(s, n).1,
        longest_run(s, n).0 + longest_run(s, n).1 <= s.len(),
        forall|k: int|
            longest_run(s, n).0 <= k < longest_run(s, n).0 + longest_run(s, n).1 ==> #[trigger] s[k]
                == 0,
    decreases n,
{
    if n > 0 {
        lemma_longest_run(s, n - 1);
        lemma_zero_run(s, n - 1);
    }
}

/// What a group looks like once it is written.
proof fn lemma_hex_group(v: int)
    requires
        0 <= v < 65536,
    ensures
        is_group(hex(v)),
        number(hex(v), 16) == v,
        lacks(hex(v), ':'),
        hex(v).len() > 0,
{
    lemma_number_of_numeral(v as nat, 16);
    lemma_numeral_chars(v as nat, 16);
    assert(power(16, 4) == 65536) by {
        reveal_with_fuel(power, 5);
    }
    lemma_numeral_len(v as nat, 16, 4);
}

/// Joined groups split into the groups again.
proof fn lemma_split_join(s: Seq<int>)
    requires
        s.len() > 0,
        are_digits(s, 65536),
    ensures
        split(join_groups(s), ':') == Seq::new(s.len(), |i: int| hex(s[i])),
        join_groups(s).len() > 0,
        join_groups(s)[0] != ':',
        join_groups(s).last() != ':',
        forall|i: int|
            0 <= i < join_groups(s).len() - 1 ==> !(#[trigger] join_groups(s)[i] == ':'
                && join_groups(s)[i + 1] == ':'),
    decreases s.len(),
{
    let all = Seq::new(s.len(), |i: int| hex(s[i]));
    let j = join_groups(s);
    assert(0 <= s.last() < 65536);
    lemma_hex_group(s.last());
    let h = hex(s.last());
    assert(h[0] != ':' && h.last() != ':');
    if s.len() == 1 {
        lemma_split_single(j, ':');
        assert(all =~= seq![j]);
    } else {
        let t = s.drop_last();
        assert(are_digits(t, 65536)) by {
            assert forall|i: int| 0 <= i < t.len() implies 0 <= #[trigger] t[i] < 65536 by {
                assert(t[i] == s[i]);
            }
        }
        lemma_split_join(t);
        let jt = join_groups(t);
        lemma_split_append(jt, h, ':');
        assert(all =~= Seq::new(t.len(), |i: int| hex(t[i])).push(h));
        assert(j == jt + seq![':'] + h);
        assert(j[0] == jt[0]);
        assert(j.last() == h.last());
        assert forall|i: int| 0 <= i < j.len() - 1 implies !(#[trigger] j[i] == ':' && j[i + 1]
            == ':') by {
            if i < jt.len() - 1 {
                assert(j[i] == jt[i] && j[i + 1] == jt[i + 1]);
            } else if i == jt.len() - 1 {
                assert(j[i] == jt.last());
            } else if i == jt.len() {
                assert(j[i + 1] == h[0]);
            } else {
                assert(j[i] == h[i - jt.len() - 1]);
            }
        }
    }
}

/// Joined groups stand for the segments they were made from.
proof fn lemma_groups_of_join(s: Seq<int>, dotted: bool)
    requires
        are_digits(s, 65536),
    ensures
        text_groups(join_groups(s), dotted) == Some(s),
{
    if s.len() == 0 {
        assert(s =~= Seq::<int>::empty());
    } else {
        lemma_split_join(s);
        let p = split(join_groups(s), ':');
        assert forall|i: int| 0 <= i < p.len() implies is_group(#[trigger] p[i]) by {
            assert(p[i] == hex(s[i]));
            assert(0 <= s[i] < 65536);
            lemma_hex_group(s[i]);
        }
        assert forall|i: int| 0 <= i < s.len() implies #[trigger] group_values(p, p.len() as int)[i]
            == s[i] by {
            assert(p[i] == hex(s[i]));
            assert(0 <= s[i] < 65536);
            lemma_hex_group(s[i]);
        }
        assert(group_values(p, p.len() as int) =~= s);
    }
}

/// Where the first `::` is found.
proof fn lemma_double_colon_at(s: Seq<char>, i: int, p: int)
    requires
        0 <= i <= p,
        p + 1 < s.len(),
        s[p] == ':' && s[p + 1] == ':',
        forall|k: int| i <= k < p ==> !(#[trigger] s[k] == ':' && s[k + 1] == ':'),
    ensures
        double_colon(s, i) == p,
    decreases p - i,
{
    if i < p {
        assert(!(s[i] == ':' && s[i + 1] == ':'));
        lemma_double_colon_at(s, i + 1, p);
    }
}

proof fn lemma_no_double_colon(s: Seq<char>, i: int)
    requires
        0 <= i,
        forall|k: int| i <= k < s.len() - 1 ==> !(#[trigger] s[k] == ':' && s[k + 1] == ':'),
    ensures
        double_colon(s, i) == -1,
    decreases s.len() - i,
{
    if i + 1 < s.len() {
        assert(!(s[i] == ':' && s[i + 1] == ':'));
        lemma_no_double_colon(s, i + 1);
    }
}

/// A part of a dotted address, written and read back.
proof fn lemma_octet(v: int)
    requires
        0 <= v < 256,
    ensures
        is_octet(decimal(v)),
        number(decimal(v), 10) == v,
        lacks(decimal(v), '.'),
        lacks(decimal(v), ':'),
        decimal(v).len() > 0,
{
    lemma_number_of_numeral(v as nat, 10);
    lemma_numeral_chars(v as nat, 10);
    lemma_numeral_no_leading_zero(v as nat, 10);
    assert(power(10, 3) == 1000) by {
        reveal_with_fuel(power, 4);
    }
    lemma_numeral_len(v as nat, 10, 3);
}

/// A dotted address, written and read back.
pub proof fn lemma_ipv4_round_trip(v: int)
    requires
        0 <= v < 0x1_0000_0000,
    ensures
        ipv4_value(ipv4_text(v)) == Some(v),
        lacks(ipv4_text(v), ':'),
        !is_number(ipv4_text(v), 16),
        ipv4_text(v).len() > 0,
        ipv4_text(v)[0] != '[',
{
    let a = v / 16777216;
    let b = (v / 65536) % 256;
    let c = (v / 256) % 256;
    let d = v % 256;
    lemma_octet(a);
    lemma_octet(b);
    lemma_octet(c);
    lemma_octet(d);
    let p1 = decimal(a);
    let p2 = p1 + seq!['.'] + decimal(b);
    let p3 = p2 + seq!['.'] + decimal(c);
    let p4 = p3 + seq!['.'] + decimal(d);
    lemma_split_single(p1, '.');
    lemma_split_append(p1, decimal(b), '.');
    lemma_split_append(p2, decimal(c), '.');
    lemma_split_append(p3, decimal(d), '.');
    assert(p4 =~= ipv4_text(v));
    let p = split(p4, '.');
    assert(p =~= seq![decimal(a), decimal(b), decimal(c), decimal(d)]);
    assert(((a * 256 + b) * 256 + c) * 256 + d == v);
    assert forall|i: int| 0 <= i < p4.len() implies #[trigger] p4[i] != ':' by {
        let la = p1.len();
        let lb = p2.len();
        let lc = p3.len();
        if i < la {
            assert(p4[i] == decimal(a)[i]);
        } else if i == la {
            assert(p4[i] == '.');
        } else if i < lb {
            assert(p4[i] == decimal(b)[i - la - 1]);
        } else if i == lb {
            assert(p4[i] == '.');
        } else if i < lc {
            assert(p4[i] == decimal(c)[i - lb - 1]);
        } else if i == lc {
            assert(p4[i] == '.');
        } else {
            assert(p4[i] == decimal(d)[i - lc - 1]);
        }
    }
    let dot = p1.len() as int;
    assert(p4[dot] == '.');
    assert(digit_of('.') == 16);
    assert(!is_number(p4, 16)) by {
        if is_number(p4, 16) {
            assert(digit_of(p4[dot]) < 16);
        }
    }
    assert(p4[0] == p1[0]);
    assert(digit_of(p1[0]) < 10);
}

/// The segments of an IPv4-mapped address, written and read back.
proof fn lemma_mapped_round_trip(s: Seq<int>)
    requires
        s.len() == 8,
        are_digits(s, 65536),
        is_mapped(s),
    ensures
        ipv6_segments(seq![':', ':', 'f', 'f', 'f', 'f', ':'] + ipv4_text(s[6] * 65536 + s[7]))
            == Some(s),
{
    let t = seq![':', ':', 'f', 'f', 'f', 'f', ':'] + ipv4_text(s[6] * 65536 + s[7]);
    let v = s[6] * 65536 + s[7];
    assert(0 <= s[6] < 65536 && 0 <= s[7] < 65536);
    lemma_ipv4_round_trip(v);
    let quad = ipv4_text(v);
    let ffff = seq!['f', 'f', 'f', 'f'];
    let tail = ffff + seq![':'] + quad;
    assert(t =~= seq![':', ':'] + tail);
    lemma_double_colon_at(t, 0, 0);
    assert(t.take(0) =~= Seq::<char>::empty());
    assert(t.subrange(2, t.len() as int) =~= tail);
    assert(lacks(ffff, ':'));
    lemma_split_single(ffff, ':');
    lemma_split_append(ffff, quad, ':');
    let p = split(tail, ':');
    assert(p =~= seq![ffff, quad]);
    assert(digit_of('f') == 15);
    assert(number(ffff, 16) == 65535) by {
        reveal_with_fuel(number, 5);
        assert(ffff.drop_last() =~= seq!['f', 'f', 'f']);
        assert(ffff.drop_last().drop_last() =~= seq!['f', 'f']);
        assert(ffff.drop_last().drop_last().drop_last() =~= seq!['f']);
    }
    assert(is_group(ffff));
    assert(!is_group(p[1]));
    assert(!are_groups(p, 2));
    assert(are_groups(p, 1));
    let g = group_values(p, 1).push(v / 65536).push(v % 65536);
    assert(text_groups(tail, true) == Some(g));
    let zeros = Seq::new(5, |i: int| 0int);
    assert(text_groups(t.take(0), false) == Some(Seq::<int>::empty()));
    assert(Seq::<int>::empty() + zeros + g =~= s);
}

/// An address that is written out and read back is the same address.
pub proof fn lemma_ipv6_round_trip(a: Ipv6Addr)
    ensures
        ipv6_value(ipv6_text(a)) == Some(a),
{
    lemma_segs(a);
    let s = segs(a);
    let t = ipv6_text(a);
    if is_mapped(s) {
        lemma_mapped_round_trip(s);
    } else {
        let run = longest_run(s, 8);
        lemma_longest_run(s, 8);
        if run.1 >= 2 {
            let head = s.take(run.0);
            let tail = s.skip(run.0 + run.1);
            assert(are_digits(head, 65536)) by {
                assert forall|i: int| 0 <= i < head.len() implies 0 <= #[trigger] head[i] < 65536 by {
                    assert(head[i] == s[i]);
                }
            }
            assert(are_digits(tail, 65536)) by {
                assert forall|i: int| 0 <= i < tail.len() implies 0 <= #[trigger] tail[i] < 65536 by {
                    assert(tail[i] == s[run.0 + run.1 + i]);
                }
            }
            lemma_groups_of_join(head, false);
            lemma_groups_of_join(tail, true);
            let jh = join_groups(head);
            let jt = join_groups(tail);
            assert(t == jh + seq![':', ':'] + jt);
            let p = jh.len() as int;
            if head.len() > 0 {
                lemma_split_join(head);
            }
            assert forall|k: int| 0 <= k < p implies !(#[trigger] t[k] == ':' && t[k + 1] == ':') by {
                assert(t[k] == jh[k]);
                if k == p - 1 {
                    assert(jh[k] == jh.last());
                } else {
                    assert(t[k + 1] == jh[k + 1]);
                }
            }
            lemma_double_colon_at(t, 0, p);
            assert(t.take(p) =~= jh);
            assert(t.subrange(p + 2, t.len() as int) =~= jt);
            let zeros = Seq::new((8 - head.len() - tail.len()) as nat, |i: int| 0int);
            assert(head + zeros + tail =~= s);
        } else {
            lemma_split_join(s);
            lemma_no_double_colon(t, 0);
            lemma_groups_of_join(s, true);
        }
    }
}

/// A dotted address is read from exactly one text: that which it is written as.
pub proof fn law_dotted_addresses_have_one_text(s: Seq<char>, v: int)
    requires
        ipv4_value(s) == Some(v),
    ensures
        0 <= v < 0x1_0000_0000,
        s == ipv4_text(v),
{
    let p = split(s, '.');
    law_split_pieces_join_again(s, '.');
    reveal_with_fuel(joined, 4);
    let p3 = p.drop_last();
    let p2 = p3.drop_last();
    let p1 = p2.drop_last();
    assert(p1 =~= seq![p[0]]);
    lemma_numeral_of_number(p[0]);
    lemma_numeral_of_number(p[1]);
    lemma_numeral_of_number(p[2]);
    lemma_numeral_of_number(p[3]);
    let a = number(p[0], 10);
    let b = number(p[1], 10);
    let c = number(p[2], 10);
    let d = number(p[3], 10);
    assert(v / 16777216 == a && (v / 65536) % 256 == b && (v / 256) % 256 == c && v % 256 == d);
    assert(s =~= ipv4_text(v));
}

proof fn lemma_join_chars(s: Seq<int>)
    requires
        are_digits(s, 65536),
    ensures
        forall|i: int|
            0 <= i < join_groups(s).len() ==> digit_of(#[trigger] join_groups(s)[i]) < 16
                || join_groups(s)[i] == ':',
    decreases s.len(),
{
    let j = join_groups(s);
    if s.len() == 1 {
        assert(0 <= s[0] < 65536);
        lemma_numeral_chars(s[0] as nat, 16);
    } else if s.len() > 1 {
        let t = s.drop_last();
        assert(0 <= s.last() < 65536) by {
            assert(s.last() == s[s.len() - 1]);
        }
        assert(are_digits(t, 65536)) by {
            assert forall|i: int| 0 <= i < t.len() implies 0 <= #[trigger] t[i] < 65536 by {
                assert(t[i] == s[i]);
            }
        }
        lemma_join_chars(t);
        lemma_numeral_chars(s.last() as nat, 16);
        let jt = join_groups(t);
        let h = hex(s.last());
        assert forall|i: int| 0 <= i < j.len() implies digit_of(#[trigger] j[i]) < 16 || j[i]
            == ':' by {
            if i < jt.len() {
                assert(j[i] == jt[i]);
            } else if i > jt.len() {
                assert(j[i] == h[i - jt.len() - 1]);
            }
        }
    }
}

proof fn lemma_dotted_chars(v: int)
    requires
        0 <= v < 0x1_0000_0000,
    ensures
        forall|i: int|
            0 <= i < ipv4_text(v).len() ==> digit_of(#[trigger] ipv4_text(v)[i]) < 10
                || ipv4_text(v)[i] == '.',
{
    lemma_numeral_chars((v / 16777216) as nat, 10);
    lemma_numeral_chars(((v / 65536) % 256) as nat, 10);
    lemma_numeral_chars(((v / 256) % 256) as nat, 10);
    lemma_numeral_chars((v % 256) as nat, 10);
    let a = decimal(v / 16777216);
    let b = a + seq!['.'] + decimal((v / 65536) % 256);
    let c = b + seq!['.'] + decimal((v / 256) % 256);
    let t = ipv4_text(v);
    assert forall|i: int| 0 <= i < t.len() implies digit_of(#[trigger] t[i]) < 10 || t[i] == '.' by {
        if i < a.len() {
            assert(t[i] == a[i]);
        } else if i == a.len() {
        } else if i < b.len() {
            assert(t[i] == decimal((v / 65536) % 256)[i - a.len() - 1]);
        } else if i == b.len() {
        } else if i < c.len() {
            assert(t[i] == decimal((v / 256) % 256)[i - b.len() - 1]);
        } else if i > c.len() {
            assert(t[i] == decimal(v % 256)[i - c.len() - 1]);
        }
    }
}

/// An IPv6 address is written with hexadecimal digits, colons and dots alone.
pub proof fn lemma_ipv6_chars(a: Ipv6Addr)
    ensures
        forall|i: int|
            0 <= i < ipv6_text(a).len() ==> digit_of(#[trigger] ipv6_text(a)[i]) < 16 || ipv6_text(
                a,
            )[i] == ':' || ipv6_text(a)[i] == '.',
{
    lemma_segs(a);
    let s = segs(a);
    let t = ipv6_text(a);
    if is_mapped(s) {
        let v = s[6] * 65536 + s[7];
        assert(0 <= s[6] < 65536 && 0 <= s[7] < 65536);
        lemma_dotted_chars(v);
        assert forall|i: int| 0 <= i < t.len() implies digit_of(#[trigger] t[i]) < 16 || t[i] == ':'
            || t[i] == '.' by {
            if i >= 7 {
                assert(t[i] == ipv4_text(v)[i - 7]);
            }
        }
    } else {
        let run = longest_run(s, 8);
        lemma_longest_run(s, 8);
        if run.1 >= 2 {
            let head = s.take(run.0);
            let tail = s.skip(run.0 + run.1);
            assert(are_digits(head, 65536)) by {
                assert forall|i: int| 0 <= i < head.len() implies 0 <= #[trigger] head[i] < 65536 by {
                    assert(head[i] == s[i]);
                }
            }
            assert(are_digits(tail, 65536)) by {
                assert forall|i: int| 0 <= i < tail.len() implies 0 <= #[trigger] tail[i] < 65536 by {
                    assert(tail[i] == s[run.0 + run.1 + i]);
                }
            }
            lemma_join_chars(head);
            lemma_join_chars(tail);
            let jh = join_groups(head);
            let jt = join_groups(tail);
            assert forall|i: int| 0 <= i < t.len() implies digit_of(#[trigger] t[i]) < 16 || t[i]
                == ':' || t[i] == '.' by {
                if i < jh.len() {
                    assert(t[i] == jh[i]);
                } else if i >= jh.len() + 2 {
                    assert(t[i] == jt[i - jh.len() - 2]);
                }
            }
        } else {
            lemma_join_chars(s);
        }
    }
}

/// Whether every piece is a group: one to four hexadecimal digits, in either
/// case.
pub open spec fn are_all_groups(p: Seq<Seq<char>>) -> bool {
    forall|i: int|
        0 <= i < p.len() ==> 1 <= (#[trigger] p[i]).len() <= 4 && forall|k: int|
            0 <= k < p[i].len() ==> 0 <= digit_of(#[trigger] p[i][k]) < 16
}

proof fn lemma_all_groups(p: Seq<Seq<char>>)
    requires
        are_all_groups(p),
    ensures
        are_groups(p, p.len() as int),
        forall|i: int| 0 <= i < p.len() ==> lacks(#[trigger] p[i], ':'),
        forall|i: int| 0 <= i < p.len() ==> (#[trigger] p[i]).len() > 0,
{
    assert forall|i: int| 0 <= i < p.len() implies lacks(#[trigger] p[i], ':') by {
        assert forall|k: int| 0 <= k < p[i].len() implies #[trigger] p[i][k] != ':' by {
            assert(digit_of(p[i][k]) < 16);
        }
    }
}

/// Joined pieces split into the pieces again, and have no `::` between them.
proof fn lemma_split_joined(p: Seq<Seq<char>>)
    requires
        p.len() > 0,
        forall|i: int| 0 <= i < p.len() ==> lacks(#[trigger] p[i], ':'),
        forall|i: int| 0 <= i < p.len() ==> (#[trigger] p[i]).len() > 0,
    ensures
        split(joined(p, ':'), ':') == p,
        joined(p, ':').len() > 0,
        joined(p, ':')[0] != ':',
        joined(p, ':').last() != ':',
        forall|i: int|
            0 <= i < joined(p, ':').len() - 1 ==> !(#[trigger] joined(p, ':')[i] == ':' && joined(
                p,
                ':',
            )[i + 1] == ':'),
    decreases p.len(),
{
    let j = joined(p, ':');
    let h = p.last();
    assert(h == p[p.len() - 1]);
    assert(h[0] != ':' && h[h.len() - 1] != ':');
    if p.len() == 1 {
        lemma_split_single(j, ':');
        assert(p =~= seq![j]);
    } else {
        let t = p.drop_last();
        assert forall|i: int| 0 <= i < t.len() implies lacks(#[trigger] t[i], ':') by {
            assert(t[i] == p[i]);
        }
        assert forall|i: int| 0 <= i < t.len() implies (#[trigger] t[i]).len() > 0 by {
            assert(t[i] == p[i]);
        }
        lemma_split_joined(t);
        let jt = joined(t, ':');
        lemma_split_append(jt, h, ':');
        assert(p =~= t.push(h));
        assert(j == jt + seq![':'] + h);
        assert(j[0] == jt[0]);
        assert(j.last() == h.last());
        assert forall|i: int| 0 <= i < j.len() - 1 implies !(#[trigger] j[i] == ':' && j[i + 1]
            == ':') by {
            if i < jt.len() - 1 {
                assert(j[i] == jt[i] && j[i + 1] == jt[i + 1]);
            } else if i == jt.len() - 1 {
                assert(j[i] == jt.last());
            } else if i == jt.len() {
                assert(j[i + 1] == h[0]);
            } else {
                assert(j[i] == h[i - jt.len() - 1]);
            }
        }
    }
}

/// Eight groups with colons between them are read as the address with those
/// segments. Fewer than eight with `::` once, anywhere, are read as the address
/// with zeros in its place.
pub proof fn law_how_addresses_are_read(
    all: Seq<Seq<char>>,
    head: Seq<Seq<char>>,
    tail: Seq<Seq<char>>,
)
    requires
        are_all_groups(all),
        are_all_groups(head),
        are_all_groups(tail),
        all.len() == 8,
        head.len() + tail.len() <= 7,
    ensures
        ipv6_value(joined(all, ':')) == Some(
            from_segs(Seq::new(8, |i: int| number(all[i], 16))),
        ),
        ipv6_value(joined(head, ':') + seq![':', ':'] + joined(tail, ':')) == Some(
            from_segs(
                Seq::new(
                    8,
                    |i: int|
                        if i < head.len() {
                            number(head[i], 16)
                        } else if i < 8 - tail.len() {
                            0
                        } else {
                            number(tail[i - (8 - tail.len())], 16)
                        },
                ),
            ),
        ),
{
    lemma_all_groups(all);
    lemma_split_joined(all);
    let t = joined(all, ':');
    lemma_no_double_colon(t, 0);
    assert(group_values(all, 8) =~= Seq::new(8, |i: int| number(all[i], 16)));
    let jh = joined(head, ':');
    let jt = joined(tail, ':');
    lemma_all_groups(head);
    lemma_all_groups(tail);
    if head.len() > 0 {
        lemma_split_joined(head);
    }
    if tail.len() > 0 {
        lemma_split_joined(tail);
    }
    let u = jh + seq![':', ':'] + jt;
    let p = jh.len() as int;
    assert forall|k: int| 0 <= k < p implies !(#[trigger] u[k] == ':' && u[k + 1] == ':') by {
        assert(u[k] == jh[k]);
        if k == p - 1 {
            assert(jh[k] == jh.last());
        } else {
            assert(u[k + 1] == jh[k + 1]);
        }
    }
    lemma_double_colon_at(u, 0, p);
    assert(u.take(p) =~= jh);
    assert(u.subrange(p + 2, u.len() as int) =~= jt);
    let gh = group_values(head, head.len() as int);
    let gt = group_values(tail, tail.len() as int);
    if head.len() == 0 {
        assert(gh =~= Seq::<int>::empty());
    }
    if tail.len() == 0 {
        assert(gt =~= Seq::<int>::empty());
    }
    assert(text_groups(jh, false) == Some(gh));
    assert(text_groups(jt, true) == Some(gt));
    let zeros = Seq::new((8 - gh.len() - gt.len()) as nat, |i: int| 0int);
    assert(gh + zeros + gt =~= Seq::new(
        8,
        |i: int|
            if i < head.len() {
                number(head[i], 16)
            } else if i < 8 - tail.len() {
                0
            } else {
                number(tail[i - (8 - tail.len())], 16)
            },
    ));
}

/// Whether the segments from `i` on are zero, `n` of them.
pub open spec fn are_zeros(s: Seq<int>, i: int, n: int) -> bool {
    0 <= i && 0 <= n && i + n <= s.len() && forall|k: int| i <= k < i + n ==> #[trigger] s[k] == 0
}

proof fn lemma_zero_run_is_all(s: Seq<int>, i: int, n: int)
    requires
        0 <= i < s.len(),
        are_zeros(s, i, n),
    ensures
        n <= zero_run(s, i),
    decreases n,
{
    if n > 0 {
        assert(s[i] == 0);
        if n > 1 {
            assert(are_zeros(s, i + 1, n - 1));
            lemma_zero_run_is_all(s, i + 1, n - 1);
        } else {
            lemma_zero_run(s, i + 1);
        }
    } else {
        lemma_zero_run(s, i);
    }
}

proof fn lemma_longest_run_is_first(s: Seq<int>, n: int, i: int, m: int)
    requires
        0 <= i < n <= s.len(),
        are_zeros(s, i, m),
    ensures
        m <= longest_run(s, n).1,
        m == longest_run(s, n).1 && m > 0 ==> longest_run(s, n).0 <= i,
    decreases n,
{
    lemma_longest_run(s, n - 1);
    if i < n - 1 {
        lemma_longest_run_is_first(s, n - 1, i, m);
    } else {
        lemma_zero_run_is_all(s, i, m);
        lemma_longest_run_starts_before(s, n);
    }
}

proof fn lemma_longest_run_starts_before(s: Seq<int>, n: int)
    requires
        0 < n <= s.len(),
    ensures
        longest_run(s, n).0 < n,
    decreases n,
{
    reveal_with_fuel(longest_run, 2);
    if n > 1 {
        lemma_longest_run_starts_before(s, n - 1);
    }
}

/// How an address is written. One that carries an IPv4 address ends with that,
/// dotted. Any other is its segments in hexadecimal with colons between them;
/// where two or more zeros follow each other, the longest such run, the first of
/// several, is written as `::`.
pub proof fn law_how_addresses_are_written(a: Ipv6Addr, i: int, n: int)
    ensures
        ({
            let s = segs(a);
            let t = ipv6_text(a);
            let mapped = s[0] == 0 && s[1] == 0 && s[2] == 0 && s[3] == 0 && s[4] == 0 && s[5]
                == 0xffff;
            let run = longest_run(s, 8);
            &&& mapped ==> t == seq![':', ':', 'f', 'f', 'f', 'f', ':'] + ipv4_text(
                s[6] * 65536 + s[7],
            )
            &&& !mapped && run.1 < 2 ==> t == joined(Seq::new(8, |k: int| hex(s[k])), ':')
            &&& !mapped && run.1 >= 2 ==> t == joined(
                Seq::new(run.0 as nat, |k: int| hex(s[k])),
                ':',
            ) + seq![':', ':'] + joined(
                Seq::new((8 - run.0 - run.1) as nat, |k: int| hex(s[run.0 + run.1 + k])),
                ':',
            )
            &&& are_zeros(s, run.0, run.1)
            &&& are_zeros(s, i, n) && i < 8 ==> n < run.1 || (n == run.1 && (n == 0 || run.0 <= i))
        }),
{
    lemma_segs(a);
    let s = segs(a);
    let run = longest_run(s, 8);
    lemma_longest_run(s, 8);
    if are_zeros(s, i, n) && i < 8 {
        lemma_longest_run_is_first(s, 8, i, n);
    }
    lemma_join_groups(s);
    assert(Seq::new(s.len(), |k: int| hex(s[k])) =~= Seq::new(8, |k: int| hex(s[k])));
    let head = s.take(run.0);
    let tail = s.skip(run.0 + run.1);
    lemma_join_groups(head);
    lemma_join_groups(tail);
    assert(Seq::new(head.len(), |k: int| hex(head[k])) =~= Seq::new(
        run.0 as nat,
        |k: int| hex(s[k]),
    ));
    assert(Seq::new(tail.len(), |k: int| hex(tail[k])) =~= Seq::new(
        (8 - run.0 - run.1) as nat,
        |k: int| hex(s[run.0 + run.1 + k]),
    ));
}

proof fn lemma_join_groups(s: Seq<int>)
    ensures
        join_groups(s) == joined(Seq::new(s.len(), |k: int| hex(s[k])), ':'),
    decreases s.len(),
{
    let p = Seq::new(s.len(), |k: int| hex(s[k]));
    if s.len() > 1 {
        let t = s.drop_last();
        lemma_join_groups(t);
        assert(p.drop_last() =~= Seq::new(t.len(), |k: int| hex(t[k])));
    }
}

/// A dotted address behind six groups, or behind `::` alone, is read as the last
/// two segments.
pub proof fn law_how_dotted_endings_are_read(six: Seq<Seq<char>>, v: u32)
    requires
        are_all_groups(six),
        six.len() == 6,
    ensures
        ipv6_value(joined(six, ':') + seq![':'] + ipv4_text(v as int)) == Some(
            from_segs(
                Seq::new(6, |i: int| number(six[i], 16)).push(v as int / 65536).push(
                    v as int % 65536,
                ),
            ),
        ),
        ipv6_value(seq![':', ':'] + ipv4_text(v as int)) == Some(
            from_segs(seq![0, 0, 0, 0, 0, 0, v as int / 65536, v as int % 65536]),
        ),
{
    let quad = ipv4_text(v as int);
    lemma_ipv4_round_trip(v as int);
    lemma_all_groups(six);
    lemma_split_joined(six);
    let j = joined(six, ':');
    let t = j + seq![':'] + quad;
    lemma_split_append(j, quad, ':');
    let p = split(t, ':');
    assert(p =~= six.push(quad));
    assert forall|i: int| 0 <= i < t.len() - 1 implies !(#[trigger] t[i] == ':' && t[i + 1]
        == ':') by {
        if i < j.len() - 1 {
            assert(t[i] == j[i] && t[i + 1] == j[i + 1]);
        } else if i == j.len() - 1 {
            assert(t[i] == j.last());
        } else if i == j.len() {
            assert(t[i + 1] == quad[0]);
        } else {
            assert(t[i] == quad[i - j.len() - 1]);
        }
    }
    lemma_no_double_colon(t, 0);
    assert(!is_group(p[6]));
    assert(!are_groups(p, 7));
    assert forall|i: int| 0 <= i < 6 implies is_group(#[trigger] p[i]) by {
        assert(p[i] == six[i]);
    }
    assert(are_groups(p, 6));
    let g = group_values(p, 6);
    assert(g =~= Seq::new(6, |i: int| number(six[i], 16)));
    assert(text_groups(t, true) == Some(g.push(v as int / 65536).push(v as int % 65536)));
    let u = seq![':', ':'] + quad;
    lemma_double_colon_at(u, 0, 0);
    assert(u.take(0) =~= Seq::<char>::empty());
    assert(u.subrange(2, u.len() as int) =~= quad);
    lemma_split_single(quad, ':');
    let q = split(quad, ':');
    assert(q =~= seq![quad]);
    assert(!is_group(q[0]));
    assert(!are_groups(q, 1));
    assert(are_groups(q, 0));
    let h = group_values(q, 0).push(v as int / 65536).push(v as int % 65536);
    assert(text_groups(quad, true) == Some(h));
    let zeros = Seq::new(6, |i: int| 0int);
    assert(Seq::<int>::empty() + zeros + h =~= seq![
        0,
        0,
        0,
        0,
        0,
        0,
        v as int / 65536,
        v as int % 65536,
    ]);
}

} // verus!
