//! Base64, from the `base64` crate.

use base64::Engine;
use vstd::prelude::*;

verus! {

/// The character that stands for six bits.
pub open spec fn base64_char(v: int) -> char {
    if v < 26 {
        ('A' as int + v) as char
    } else if v < 52 {
        ('a' as int + v - 26) as char
    } else if v < 62 {
        ('0' as int + v - 52) as char
    } else if v == 62 {
        '+'
    } else {
        '/'
    }
}

/// The 24 bits that start at byte `q`; bytes past the end count as zero.
pub open spec fn base64_word(b: Seq<u8>, q: int) -> int {
    let b1 = if q + 1 < b.len() {
        b[q + 1] as int
    } else {
        0
    };
    let b2 = if q + 2 < b.len() {
        b[q + 2] as int
    } else {
        0
    };
    b[q] as int * 65536 + b1 * 256 + b2
}

/// Character `k` of the base64 form: every three bytes give four characters,
/// and `=` fills up the last four.
pub open spec fn base64_at(b: Seq<u8>, k: int) -> char {
    let q = k / 4 * 3;
    let w = base64_word(b, q);
    if k % 4 == 0 {
        base64_char(w / 262144)
    } else if k % 4 == 1 {
        base64_char((w / 4096) % 64)
    } else if k % 4 == 2 {
        if q + 1 < b.len() {
            base64_char((w / 64) % 64)
        } else {
            '='
        }
    } else {
        if q + 2 < b.len() {
            base64_char(w % 64)
        } else {
            '='
        }
    }
}

/// Bytes in the standard base64 alphabet, with padding.
pub open spec fn base64_text(b: Seq<u8>) -> Seq<char> {
    Seq::new(((b.len() + 2) / 3 * 4) as nat, |k: int| base64_at(b, k))
}

/// The bytes that a base64 text stands for: those whose base64 form it is.
pub open spec fn base64_value(s: Seq<char>) -> Option<Seq<u8>> {
    if exists|b: Seq<u8>| #[trigger] base64_text(b) == s {
        Some(choose|b: Seq<u8>| #[trigger] base64_text(b) == s)
    } else {
        None
    }
}

/// The message that `base64` gives for a text that it cannot decode.
pub uninterp spec fn base64_error(s: Seq<char>) -> Seq<char>;

/// Encodes with `Engine::encode` of `base64`'s `STANDARD` engine: the standard
/// alphabet, padded.
#[verifier::external_body]
pub(crate) fn encode_base64(b: &[u8]) -> (r: String)
    ensures
        r@ == base64_text(b@),
{
    base64::engine::general_purpose::STANDARD.encode(b)
}

/// Decodes with `Engine::decode` of `base64`'s `STANDARD` engine, which takes
/// exactly the texts that `encode` writes: padding has to be complete, and no
/// bit may be set behind the last byte. The message of a failure is the text
/// of the crate's error, a function of the input alone.
#[verifier::external_body]
fn decode_base64_text(s: &str) -> (r: Result<Vec<u8>, String>)
    ensures
        match r {
            Ok(b) => base64_text(b@) == s@,
            Err(e) => e@ == base64_error(s@) && forall|b: Seq<u8>| #[trigger] base64_text(b) != s@,
        },
{
    match base64::engine::general_purpose::STANDARD.decode(s) {
        Ok(b) => Ok(b),
        Err(e) => Err(e.to_string()),
    }
}

/// Decodes base64.
pub fn decode_base64(s: &str) -> (r: Result<Vec<u8>, String>)
    ensures
        match r {
            Ok(b) => base64_value(s@) == Some(b@),
            Err(e) => base64_value(s@) is None && e@ == base64_error(s@),
        },
{
    match decode_base64_text(s) {
        Ok(b) => {
            proof {
                lemma_base64_value(b@);
            }
            Ok(b)
        },
        Err(e) => Err(e),
    }
}

proof fn lemma_base64_char(v: int, w: int)
    requires
        0 <= v < 64,
        0 <= w < 64,
        base64_char(v) == base64_char(w),
    ensures
        v == w,
{
}

proof fn lemma_base64_char_no_pad(v: int)
    requires
        0 <= v < 64,
    ensures
        base64_char(v) != '=',
{
}

/// A 24-bit word is made of its four sextets.
proof fn lemma_sextets(v: int, w: int)
    requires
        0 <= v < 16777216,
        0 <= w < 16777216,
        v / 262144 == w / 262144,
        (v / 4096) % 64 == (w / 4096) % 64,
        (v / 64) % 64 == (w / 64) % 64,
        v % 64 == w % 64,
    ensures
        v == w,
{
}

/// A 24-bit word is made of its three bytes.
proof fn lemma_bytes_of_word(a0: int, a1: int, a2: int, b0: int, b1: int, b2: int)
    requires
        0 <= a0 < 256,
        0 <= a1 < 256,
        0 <= a2 < 256,
        0 <= b0 < 256,
        0 <= b1 < 256,
        0 <= b2 < 256,
        a0 * 65536 + a1 * 256 + a2 == b0 * 65536 + b1 * 256 + b2,
    ensures
        a0 == b0,
        a1 == b1,
        a2 == b2,
{
}

/// The padding tells how many bytes were encoded.
proof fn lemma_base64_len(a: Seq<u8>, b: Seq<u8>)
    requires
        base64_text(a) == base64_text(b),
    ensures
        a.len() == b.len(),
{
    let s = base64_text(a);
    let n = (a.len() + 2) / 3;
    assert(s.len() == n * 4);
    assert(base64_text(b).len() == (b.len() + 2) / 3 * 4);
    assert(n == (b.len() + 2) / 3);
    if n > 0 {
        let q = (n - 1) * 3;
        let k2 = (n - 1) * 4 + 2;
        let k3 = (n - 1) * 4 + 3;
        assert(k2 / 4 == n - 1 && k3 / 4 == n - 1 && k2 % 4 == 2 && k3 % 4 == 3);
        assert(s[k2] == base64_at(a, k2) && base64_text(b)[k2] == base64_at(b, k2));
        assert(s[k3] == base64_at(a, k3) && base64_text(b)[k3] == base64_at(b, k3));
        lemma_base64_char_no_pad((base64_word(a, q) / 64) % 64);
        lemma_base64_char_no_pad((base64_word(b, q) / 64) % 64);
        lemma_base64_char_no_pad(base64_word(a, q) % 64);
        lemma_base64_char_no_pad(base64_word(b, q) % 64);
    }
}

/// Every three bytes can be told from their four characters.
proof fn lemma_base64_quad(a: Seq<u8>, b: Seq<u8>, n: int)
    requires
        base64_text(a) == base64_text(b),
        a.len() == b.len(),
        0 <= n,
        n * 3 < a.len(),
    ensures
        base64_word(a, n * 3) == base64_word(b, n * 3),
{
    let s = base64_text(a);
    let t = base64_text(b);
    let q = n * 3;
    let k = n * 4;
    let wa = base64_word(a, q);
    let wb = base64_word(b, q);
    assert(0 <= wa < 16777216 && 0 <= wb < 16777216);
    assert(k + 3 < s.len());
    assert(k / 4 == n && (k + 1) / 4 == n && (k + 2) / 4 == n && (k + 3) / 4 == n);
    assert(k % 4 == 0 && (k + 1) % 4 == 1 && (k + 2) % 4 == 2 && (k + 3) % 4 == 3);
    assert(s[k] == base64_at(a, k) && t[k] == base64_at(b, k));
    assert(s[k + 1] == base64_at(a, k + 1) && t[k + 1] == base64_at(b, k + 1));
    assert(s[k + 2] == base64_at(a, k + 2) && t[k + 2] == base64_at(b, k + 2));
    assert(s[k + 3] == base64_at(a, k + 3) && t[k + 3] == base64_at(b, k + 3));
    lemma_base64_char(wa / 262144, wb / 262144);
    lemma_base64_char((wa / 4096) % 64, (wb / 4096) % 64);
    if q + 1 < a.len() {
        lemma_base64_char((wa / 64) % 64, (wb / 64) % 64);
    }
    if q + 2 < a.len() {
        lemma_base64_char(wa % 64, wb % 64);
    }
    lemma_sextets(wa, wb);
}

/// Different bytes have different base64 forms.
pub proof fn lemma_base64_injective(a: Seq<u8>, b: Seq<u8>)
    requires
        base64_text(a) == base64_text(b),
    ensures
        a == b,
{
    lemma_base64_len(a, b);
    assert forall|i: int| 0 <= i < a.len() implies a[i] == b[i] by {
        let n = i / 3;
        let q = n * 3;
        assert(0 <= q <= i < q + 3);
        lemma_base64_quad(a, b, n);
        lemma_bytes_of_word(
            a[q] as int,
            if q + 1 < a.len() {
                a[q + 1] as int
            } else {
                0
            },
            if q + 2 < a.len() {
                a[q + 2] as int
            } else {
                0
            },
            b[q] as int,
            if q + 1 < b.len() {
                b[q + 1] as int
            } else {
                0
            },
            if q + 2 < b.len() {
                b[q + 2] as int
            } else {
                0
            },
        );
    }
    assert(a =~= b);
}

/// What `encode` writes stands for the bytes that were encoded.
pub proof fn lemma_base64_value(b: Seq<u8>)
    ensures
        base64_value(base64_text(b)) == Some(b),
{
    let s = base64_text(b);
    let c = choose|c: Seq<u8>| #[trigger] base64_text(c) == s;
    assert(base64_text(c) == s);
    lemma_base64_injective(b, c);
}

} // verus!
