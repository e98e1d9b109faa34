//! Numbers written out in decimal or hexadecimal, and read back.

use vstd::arithmetic::div_mod::lemma_fundamental_div_mod;
use vstd::prelude::*;

verus! {

/// What a digit stands for; 16 for a character that is no digit.
pub open spec fn digit_of(c: char) -> int {
    if '0' <= c && c <= '9' {
        c as int - '0' as int
    } else if 'a' <= c && c <= 'f' {
        c as int - 'a' as int + 10
    } else if 'A' <= c && c <= 'F' {
        c as int - 'A' as int + 10
    } else {
        16
    }
}

/// The digit that stands for `d`, in lower case.
pub open spec fn digit_char(d: int) -> char {
    if d < 10 {
        ('0' as int + d) as char
    } else {
        ('a' as int + d - 10) as char
    }
}

/// Whether `s` is one or more digits of the radix.
pub open spec fn is_number(s: Seq<char>, radix: int) -> bool {
    &&& s.len() > 0
    &&& forall|i: int| 0 <= i < s.len() ==> digit_of(#[trigger] s[i]) < radix
}

/// The value of a sequence of digits.
pub open spec fn number(s: Seq<char>, radix: int) -> int
    decreases s.len(),
{
    if s.len() == 0 {
        0
    } else {
        radix * number(s.drop_last(), radix) + digit_of(s.last())
    }
}

/// `n` written without leading zeros.
pub open spec fn numeral(n: nat, radix: nat) -> Seq<char>
    decreases n,
    when radix >= 2
{
    if n < radix {
        seq![digit_char(n as int)]
    } else {
        proof {
            assert(n / radix < n) by (nonlinear_arith)
                requires
                    radix >= 2,
                    n >= radix,
            ;
        }
        numeral(n / radix, radix).push(digit_char((n % radix) as int))
    }
}

/// `n` in decimal.
pub open spec fn decimal(n: int) -> Seq<char> {
    numeral(n as nat, 10)
}

/// `n` in lower-case hexadecimal.
pub open spec fn hex(n: int) -> Seq<char> {
    numeral(n as nat, 16)
}

pub proof fn lemma_digit_char(d: int)
    requires
        0 <= d < 16,
    ensures
        digit_of(digit_char(d)) == d,
        digit_char(d) != ':',
        digit_char(d) != '.',
        digit_char(d) == '0' ==> d == 0,
{
}

/// A number that is written out and read back is the same number.
pub proof fn lemma_number_of_numeral(n: nat, radix: nat)
    requires
        radix == 10 || radix == 16,
    ensures
        is_number(numeral(n, radix), radix as int),
        number(numeral(n, radix), radix as int) == n,
    decreases n,
{
    reveal_with_fuel(number, 2);
    if n < radix {
        lemma_digit_char(n as int);
        let s = seq![digit_char(n as int)];
        assert(s.drop_last() =~= Seq::<char>::empty());
        assert(number(s, radix as int) == radix * 0 + digit_of(s.last()));
        assert(radix * 0 == 0) by (nonlinear_arith);
    } else {
        let q = n / radix;
        let d = (n % radix) as int;
        assert(q < n) by (nonlinear_arith)
            requires
                radix >= 2,
                n >= radix,
                q == n / radix,
        ;
        lemma_number_of_numeral(q, radix);
        lemma_digit_char(d);
        let s = numeral(n, radix);
        assert(s == numeral(q, radix).push(digit_char(d)));
        assert(s.drop_last() =~= numeral(q, radix));
        lemma_fundamental_div_mod(n as int, radix as int);
        assert forall|i: int| 0 <= i < s.len() implies digit_of(#[trigger] s[i]) < radix by {
            if i < s.len() - 1 {
                assert(s[i] == numeral(q, radix)[i]);
            }
        }
    }
}

/// What numerals are made of: only digits, so neither colons nor dots.
pub proof fn lemma_numeral_chars(n: nat, radix: nat)
    requires
        radix == 10 || radix == 16,
    ensures
        numeral(n, radix).len() > 0,
        forall|i: int|
            0 <= i < numeral(n, radix).len() ==> #[trigger] numeral(n, radix)[i] != ':'
                && numeral(n, radix)[i] != '.' && digit_of(numeral(n, radix)[i]) < radix,
{
    lemma_number_of_numeral(n, radix);
    let s = numeral(n, radix);
    assert forall|i: int| 0 <= i < s.len() implies #[trigger] s[i] != ':' && s[i] != '.' && digit_of(
        s[i],
    ) < radix by {
        assert(digit_of(s[i]) < radix);
    }
}

/// How long a numeral is: at most `k` digits below the `k`-th power.
pub proof fn lemma_numeral_len(n: nat, radix: nat, k: nat)
    requires
        radix == 10 || radix == 16,
        k >= 1,
        n < power(radix, k),
    ensures
        numeral(n, radix).len() <= k,
    decreases k,
{
    if n >= radix {
        assert(k > 1) by {
            reveal_with_fuel(power, 2);
            if k == 1 {
                assert(power(radix, 1) == radix * power(radix, 0));
                assert(radix * 1 == radix) by (nonlinear_arith);
            }
        }
        let q = n / radix;
        assert(q < power(radix, (k - 1) as nat)) by {
            let p = power(radix, (k - 1) as nat);
            assert(power(radix, k) == radix * p);
            assert(q < p) by (nonlinear_arith)
                requires
                    radix > 0,
                    n < radix * p,
                    q == n / radix,
            ;
        }
        lemma_numeral_len(q, radix, (k - 1) as nat);
    }
}

/// Only zero is written with a leading zero.
pub proof fn lemma_numeral_no_leading_zero(n: nat, radix: nat)
    requires
        radix == 10 || radix == 16,
    ensures
        numeral(n, radix)[0] == '0' ==> n == 0,
        n == 0 ==> numeral(n, radix).len() == 1,
    decreases n,
{
    if n < radix {
        lemma_digit_char(n as int);
    } else {
        let q = n / radix;
        assert(0 < q < n) by (nonlinear_arith)
            requires
                radix >= 2,
                n >= radix,
                q == n / radix,
        ;
        lemma_numeral_no_leading_zero(q, radix);
        lemma_numeral_chars(q, radix);
        assert(numeral(n, radix)[0] == numeral(q, radix)[0]);
    }
}

/// `base` to the power `k`.
pub open spec fn power(base: nat, k: nat) -> nat
    decreases k,
{
    if k == 0 {
        1
    } else {
        base * power(base, (k - 1) as nat)
    }
}

/// A digit more never makes a number smaller.
pub proof fn lemma_number_prefix(s: Seq<char>, k: int, radix: int)
    requires
        radix == 10 || radix == 16,
        0 <= k <= s.len(),
        forall|i: int| 0 <= i < s.len() ==> digit_of(#[trigger] s[i]) < radix,
    ensures
        0 <= number(s.take(k), radix) <= number(s, radix),
    decreases s.len(),
{
    if k == s.len() {
        assert(s.take(k) =~= s);
        lemma_number_nonneg(s, radix);
    } else {
        let t = s.drop_last();
        assert(t.take(k) =~= s.take(k));
        lemma_number_prefix(t, k, radix);
        let v = number(t, radix);
        assert(radix * v >= v) by (nonlinear_arith)
            requires
                v >= 0,
                radix >= 1,
        ;
        assert(digit_of(s.last()) >= 0);
    }
}

pub proof fn lemma_number_nonneg(s: Seq<char>, radix: int)
    requires
        radix == 10 || radix == 16,
    ensures
        number(s, radix) >= 0,
    decreases s.len(),
{
    if s.len() > 0 {
        lemma_number_nonneg(s.drop_last(), radix);
        let v = number(s.drop_last(), radix);
        assert(radix * v >= 0) by (nonlinear_arith)
            requires
                v >= 0,
                radix >= 1,
        ;
    }
}

/// What a digit stands for, as `digit_of`.
pub fn digit_value(c: char) -> (r: u64)
    ensures
        r == digit_of(c),
{
    if '0' <= c && c <= '9' {
        c as u64 - 48
    } else if 'a' <= c && c <= 'f' {
        c as u64 - 87
    } else if 'A' <= c && c <= 'F' {
        c as u64 - 55
    } else {
        16
    }
}

/// The digit that stands for `d`, as `digit_char`.
pub fn digit_for(d: u8) -> (r: char)
    requires
        d < 16,
    ensures
        r == digit_char(d as int),
{
    if d < 10 {
        (48 + d) as char
    } else {
        (87 + d) as char
    }
}

/// Reads `s` as digits of the radix: the value, where there is at least one
/// character, all of them digits, and the value is no greater than `max`.
pub fn read_number(s: &[char], radix: u64, max: u64) -> (r: Option<u64>)
    requires
        radix == 10 || radix == 16,
        max <= 0xffff_ffff,
    ensures
        r == (if is_number(s@, radix as int) && number(s@, radix as int) <= max {
            Some(number(s@, radix as int) as u64)
        } else {
            None
        }),
{
    if s.len() == 0 {
        return None;
    }
    let mut value: u64 = 0;
    let mut i: usize = 0;
    assert(s@.take(0) =~= Seq::<char>::empty());
    while i < s.len()
        invariant
            i <= s@.len(),
            s@.len() > 0,
            radix == 10 || radix == 16,
            max <= 0xffff_ffff,
            value <= max,
            value == number(s@.take(i as int), radix as int),
            forall|k: int| 0 <= k < i ==> digit_of(#[trigger] s@[k]) < radix,
        decreases s@.len() - i,
    {
        let d = digit_value(s[i]);
        if d >= radix {
            assert(!is_number(s@, radix as int));
            return None;
        }
        let ghost before = s@.take(i as int);
        let ghost after = s@.take(i + 1);
        assert(after.drop_last() =~= before);
        assert(after.last() == s@[i as int]);
        assert(radix * value <= 16 * 0xffff_ffff) by (nonlinear_arith)
            requires
                radix <= 16,
                value <= 0xffff_ffff,
        ;
        value = radix * value + d;
        i = i + 1;
        if value > max {
            proof {
                if is_number(s@, radix as int) {
                    lemma_number_prefix(s@, i as int, radix as int);
                }
            }
            return None;
        }
    }
    assert(s@.take(s@.len() as int) =~= s@);
    Some(value)
}

/// Writes `n` in the radix, without leading zeros.
pub fn write_number(n: u64, radix: u64) -> (r: String)
    requires
        radix == 10 || radix == 16,
    ensures
        r@ == numeral(n as nat, radix as nat),
    decreases n,
{
    if n < radix {
        let mut r = String::new();
        r.push(digit_for(n as u8));
        assert(r@ =~= seq![digit_char(n as int)]);
        r
    } else {
        assert(n / radix < n) by (nonlinear_arith)
            requires
                radix >= 2,
                n >= radix,
        ;
        let mut r = write_number(n / radix, radix);
        r.push(digit_for((n % radix) as u8));
        r
    }
}

/// `n` in decimal.
pub fn decimal_text(n: u64) -> (r: String)
    ensures
        r@ == decimal(n as int),
{
    write_number(n, 10)
}

/// `n` in lower-case hexadecimal.
pub fn hex_text(n: u64) -> (r: String)
    ensures
        r@ == hex(n as int),
{
    write_number(n, 16)
}

/// A decimal number without leading zeros is how the number that it stands for
/// is written.
pub proof fn lemma_numeral_of_number(s: Seq<char>)
    requires
        is_number(s, 10),
        s.len() > 1 ==> s[0] != '0',
    ensures
        number(s, 10) >= 0,
        s[0] != '0' ==> number(s, 10) > 0,
        numeral(number(s, 10) as nat, 10) == s,
    decreases s.len(),
{
    reveal_with_fuel(number, 2);
    let c = s.last();
    let d = digit_of(c);
    assert(c == s[s.len() - 1]);
    assert(d < 10);
    assert(digit_char(d) == c);
    if s.len() == 1 {
        assert(s.drop_last() =~= Seq::<char>::empty());
        assert(s =~= seq![c]);
    } else {
        let t = s.drop_last();
        assert forall|i: int| 0 <= i < t.len() implies digit_of(#[trigger] t[i]) < 10 by {
            assert(t[i] == s[i]);
        }
        assert(t[0] == s[0]);
        lemma_numeral_of_number(t);
        let n = number(s, 10);
        assert(n == 10 * number(t, 10) + d);
        assert(n / 10 == number(t, 10) && n % 10 == d);
        assert(t.push(c) =~= s);
    }
}

/// What digits stand for: `0` to `9` for themselves, and the letters `a` to `f`
/// in either case for ten to fifteen. Nothing else is a digit.
pub proof fn law_what_digits_stand_for(c: char, d: int)
    ensures
        0 <= d < 10 ==> digit_of(('0' as int + d) as char) == d,
        10 <= d < 16 ==> digit_of(('a' as int + d - 10) as char) == d,
        10 <= d < 16 ==> digit_of(('A' as int + d - 10) as char) == d,
        digit_of(c) >= 0,
        digit_of(c) < 16 ==> '0' <= c <= '9' || 'a' <= c <= 'f' || 'A' <= c <= 'F',
        0 <= d < 10 ==> digit_char(d) == ('0' as int + d) as char,
        10 <= d < 16 ==> digit_char(d) == ('a' as int + d - 10) as char,
{
}

/// What digits are worth together: a further digit counts once, and makes those
/// before it count as often more as the radix says. A number is made of one
/// digit or more, each below the radix, whatever zeros it starts with.
pub proof fn law_what_numbers_are_worth(s: Seq<char>, c: char, radix: int)
    ensures
        number(Seq::empty(), radix) == 0,
        number(s.push(c), radix) == radix * number(s, radix) + digit_of(c),
        is_number(seq![c], radix) <==> digit_of(c) < radix,
        s.len() > 0 ==> (is_number(s.push(c), radix) <==> is_number(s, radix) && digit_of(c) < radix),
        !is_number(Seq::empty(), radix),
{
    let t = s.push(c);
    assert(t.drop_last() =~= s);
    assert(seq![c][0] == c);
    if is_number(t, radix) && s.len() > 0 {
        assert(digit_of(t[s.len() as int]) < radix);
        assert forall|i: int| 0 <= i < s.len() implies digit_of(#[trigger] s[i]) < radix by {
            assert(t[i] == s[i]);
        }
    }
    if is_number(s, radix) && digit_of(c) < radix {
        assert forall|i: int| 0 <= i < t.len() implies digit_of(#[trigger] t[i]) < radix by {
            if i < s.len() {
                assert(t[i] == s[i]);
            }
        }
    }
}

} // verus!
