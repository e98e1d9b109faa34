//! Peer identifiers: 128-bit UUIDs and their textual form, from the `uuid`
//! crate.

use crate::numeral::{digit_char, digit_of, is_number, lemma_digit_char, number};
use crate::radix::{
    digits, lemma_digits_len, lemma_digits_order, lemma_exp_256, lemma_undigits_of_digits, undigits,
};
use vstd::prelude::*;

verus! {

/// Whether position `i` of a hyphenated UUID holds a hyphen.
pub open spec fn is_hyphen_at(i: int) -> bool {
    i == 8 || i == 13 || i == 18 || i == 23
}

/// Which of the 32 digits stands at position `i` of a hyphenated UUID.
pub open spec fn digit_index(i: int) -> int {
    if i < 8 {
        i
    } else if i < 13 {
        i - 1
    } else if i < 18 {
        i - 2
    } else if i < 23 {
        i - 3
    } else {
        i - 4
    }
}

/// Where digit `k` stands in a hyphenated UUID.
pub open spec fn digit_place(k: int) -> int {
    if k < 8 {
        k
    } else if k < 12 {
        k + 1
    } else if k < 16 {
        k + 2
    } else if k < 20 {
        k + 3
    } else {
        k + 4
    }
}

/// A UUID as 32 lower-case hexadecimal digits in groups of 8, 4, 4, 4 and 12,
/// joined by hyphens.
pub open spec fn uuid_text(id: u128) -> Seq<char> {
    Seq::new(
        36,
        |i: int|
            if is_hyphen_at(i) {
                '-'
            } else {
                digit_char(digits(id as int, 16, 32)[digit_index(i)])
            },
    )
}

/// The digits of a hyphenated UUID without the hyphens.
pub open spec fn without_hyphens(s: Seq<char>) -> Seq<char> {
    Seq::new(32, |k: int| s[digit_place(k)])
}

/// The UUID that a hyphenated text stands for.
pub open spec fn hyphenated_value(s: Seq<char>) -> Option<u128> {
    if s.len() == 36 && s[8] == '-' && s[13] == '-' && s[18] == '-' && s[23] == '-' && is_number(
        without_hyphens(s),
        16,
    ) {
        Some(number(without_hyphens(s), 16) as u128)
    } else {
        None
    }
}

/// An ASCII letter in lower case; any other character as it is.
pub open spec fn ascii_lower(c: char) -> char {
    if 'A' <= c && c <= 'Z' {
        ((c as int) + 32) as char
    } else {
        c
    }
}

/// Whether `s` starts with `urn:uuid:`, in letters of either case.
pub open spec fn is_urn(s: Seq<char>) -> bool {
    s.len() >= 9 && Seq::new(9, |i: int| ascii_lower(s[i])) == seq![
        'u',
        'r',
        'n',
        ':',
        'u',
        'u',
        'i',
        'd',
        ':',
    ]
}

/// The UUID that a text stands for: 32 digits, or a hyphenated UUID, which may
/// stand in braces or behind `urn:uuid:`.
pub open spec fn uuid_value(s: Seq<char>) -> Option<u128> {
    if s.len() == 32 && is_number(s, 16) {
        Some(number(s, 16) as u128)
    } else if s.len() == 36 {
        hyphenated_value(s)
    } else if s.len() == 38 && s[0] == '{' && s[37] == '}' {
        hyphenated_value(s.subrange(1, 37))
    } else if s.len() == 45 && is_urn(s) {
        hyphenated_value(s.subrange(9, 45))
    } else {
        None
    }
}

/// The message that `uuid` gives for a text that is no UUID.
pub uninterp spec fn uuid_error(s: Seq<char>) -> Seq<char>;

/// Reads a UUID with `uuid::Uuid::parse_str`, which takes the simple,
/// hyphenated, braced and URN forms in letters of either case. The message of
/// a failure is the text of the crate's error, a function of the input alone.
#[verifier::external_body]
pub(crate) fn parse_uuid(s: &str) -> (r: Result<u128, String>)
    ensures
        match r {
            Ok(id) => uuid_value(s@) == Some(id),
            Err(e) => uuid_value(s@) is None && e@ == uuid_error(s@),
        },
{
    match uuid::Uuid::parse_str(s) {
        Ok(id) => Ok(id.as_u128()),
        Err(e) => Err(e.to_string()),
    }
}

/// Writes a UUID with the `Display` of `uuid::Uuid`, which is the hyphenated
/// form in lower case.
#[verifier::external_body]
fn format_uuid(id: u128) -> (r: String)
    ensures
        r@ == uuid_text(id),
{
    uuid::Uuid::from_u128(id).to_string()
}

/// Draws a new identifier with `uuid::Uuid::now_v7`. It depends on the clock
/// and on chance; what holds of every outcome is its version and its variant.
#[verifier::external_body]
pub(crate) fn fresh_uuid() -> (r: u128)
    ensures
        (r / 0x1000_0000_0000_0000_0000) % 16 == 7,
        (r / 0x4000_0000_0000_0000) % 4 == 2,
{
    uuid::Uuid::now_v7().as_u128()
}

/// The hyphenated form of an identifier, which reads back as the identifier.
pub fn id_text(id: u128) -> (r: String)
    ensures
        r@ == uuid_text(id),
        uuid_value(r@) == Some(id),
{
    proof {
        lemma_uuid_round_trip(id);
    }
    format_uuid(id)
}

proof fn lemma_number_is_undigits(s: Seq<char>)
    requires
        is_number(s, 16) || s.len() == 0,
    ensures
        number(s, 16) == undigits(Seq::new(s.len(), |i: int| digit_of(s[i])), 16),
    decreases s.len(),
{
    if s.len() > 0 {
        let t = s.drop_last();
        assert(is_number(t, 16) || t.len() == 0) by {
            assert forall|i: int| 0 <= i < t.len() implies digit_of(#[trigger] t[i]) < 16 by {
                assert(t[i] == s[i]);
            }
        }
        lemma_number_is_undigits(t);
        let d = Seq::new(s.len(), |i: int| digit_of(s[i]));
        assert(d.drop_last() =~= Seq::new(t.len(), |i: int| digit_of(t[i])));
    }
}

/// An identifier that is written out and read back is the same identifier.
pub proof fn lemma_uuid_round_trip(id: u128)
    ensures
        uuid_value(uuid_text(id)) == Some(id),
{
    let d = digits(id as int, 16, 32);
    lemma_digits_len(id as int, 16, 32);
    lemma_exp_256();
    lemma_undigits_of_digits(id as int, 16, 32);
    let t = uuid_text(id);
    let w = without_hyphens(t);
    assert forall|k: int| 0 <= k < 32 implies digit_of(#[trigger] w[k]) == d[k] by {
        let i = digit_place(k);
        assert(0 <= i < 36);
        assert(!is_hyphen_at(i));
        assert(digit_index(i) == k);
        assert(w[k] == t[i]);
        assert(t[i] == digit_char(d[k]));
        assert(0 <= d[k] < 16);
        lemma_digit_char(d[k]);
    }
    assert(is_number(w, 16)) by {
        assert forall|k: int| 0 <= k < w.len() implies digit_of(#[trigger] w[k]) < 16 by {
            assert(0 <= d[k] < 16);
        }
    }
    lemma_number_is_undigits(w);
    assert(Seq::new(w.len(), |i: int| digit_of(w[i])) =~= d);
}

/// Whether `a` stands before `b` in the order of texts: at the first place
/// where they differ, `a` has the smaller character, or `a` ends there.
pub open spec fn text_before(a: Seq<char>, b: Seq<char>) -> bool {
    exists|k: int|
        #![trigger a.take(k)]
        0 <= k <= a.len() && k <= b.len() && a.take(k) == b.take(k) && k < b.len() && (k == a.len()
            || (k < a.len() && a[k] < b[k]))
}

/// Identifiers compare as their texts do.
pub proof fn lemma_uuid_order(a: u128, b: u128)
    requires
        a < b,
    ensures
        text_before(uuid_text(a), uuid_text(b)),
{
    lemma_exp_256();
    lemma_digits_len(a as int, 16, 32);
    lemma_digits_len(b as int, 16, 32);
    lemma_digits_order(a as int, b as int, 16, 32);
    let da = digits(a as int, 16, 32);
    let db = digits(b as int, 16, 32);
    let k = choose|k: int|
        #![trigger digits(a as int, 16, 32)[k]]
        0 <= k < 32 && da[k] < db[k] && (forall|j: int| 0 <= j < k ==> da[j] == db[j]);
    let p = digit_place(k);
    let ta = uuid_text(a);
    let tb = uuid_text(b);
    assert(!is_hyphen_at(p) && digit_index(p) == k && 0 <= p < 36);
    assert(0 <= da[k] < 16 && 0 <= db[k] < 16);
    assert(ta[p] < tb[p]);
    assert forall|i: int| 0 <= i < p implies ta[i] == tb[i] by {
        if !is_hyphen_at(i) {
            assert(digit_index(i) < k);
        }
    }
    assert(ta.take(p) =~= tb.take(p));
}

} // verus!
