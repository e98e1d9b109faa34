//! Text as sequences of characters: the views that contracts speak of, and
//! the small string operations that the rest of the library is built from.

use vstd::prelude::*;

verus! {

/// The texts of a sequence of strings.
pub open spec fn strs(v: Seq<String>) -> Seq<Seq<char>> {
    Seq::new(v.len(), |i: int| v[i]@)
}

/// The text of an optional string.
pub open spec fn opt_text(o: Option<String>) -> Option<Seq<char>> {
    match o {
        Some(s) => Some(s@),
        None => None,
    }
}

/// An optional text, or the empty text where there is none.
pub open spec fn text_or_empty(o: Option<Seq<char>>) -> Seq<char> {
    match o {
        Some(s) => s,
        None => Seq::empty(),
    }
}

/// Copies a list of strings.
pub fn clone_strings(v: &Vec<String>) -> (r: Vec<String>)
    ensures
        strs(r@) == strs(v@),
{
    let r = v.clone();
    assert(strs(r@) =~= strs(v@));
    r
}

/// Copies an optional string.
pub fn clone_opt(o: &Option<String>) -> (r: Option<String>)
    ensures
        opt_text(r) == opt_text(*o),
{
    match o {
        Some(s) => Some(s.clone()),
        None => None,
    }
}

/// Copies a byte string.
pub fn clone_bytes(v: &Vec<u8>) -> (r: Vec<u8>)
    ensures
        r@ == v@,
{
    let r = v.clone();
    assert(r@ =~= v@);
    r
}

/// Copies bytes.
pub fn copy_bytes(s: &[u8]) -> (r: Vec<u8>)
    ensures
        r@ == s@,
{
    let mut r: Vec<u8> = Vec::new();
    r.extend_from_slice(s);
    assert(r@ =~= s@);
    r
}

/// Whether two texts are the same.
pub fn same_text(a: &str, b: &str) -> (r: bool)
    ensures
        r == (a@ == b@),
{
    a.to_owned() == b.to_owned()
}

/// Whether `s` occurs in the list.
pub fn contains_text(v: &Vec<String>, s: &str) -> (r: bool)
    ensures
        r == strs(v@).contains(s@),
{
    let mut i: usize = 0;
    while i < v.len()
        invariant
            i <= v.len(),
            forall|k: int| 0 <= k < i ==> strs(v@)[k] != s@,
        decreases v.len() - i,
    {
        if same_text(v[i].as_str(), s) {
            assert(strs(v@)[i as int] == s@);
            return true;
        }
        i = i + 1;
    }
    false
}

/// Appends a copy of `other` to a list of strings.
pub fn push_text(v: &mut Vec<String>, other: &String)
    ensures
        strs(final(v)@) == strs(old(v)@).push(other@),
{
    v.push(other.clone());
    assert(strs(v@) =~= strs(old(v)@).push(other@));
}

/// The characters of a text.
pub fn chars_of(s: &str) -> (r: Vec<char>)
    ensures
        r@ == s@,
{
    let mut r: Vec<char> = Vec::new();
    for c in it: s.chars()
        invariant
            r@ == s@.take(it.index() as int),
            it.seq() == s@,
    {
        r.push(c);
        assert(s@.take(it.index() as int + 1) =~= s@.take(it.index() as int).push(s@[it.index() as int]));
    }
    assert(s@.take(s@.len() as int) =~= s@);
    r
}

/// The text made of the given characters.
pub fn text_of(v: &Vec<char>) -> (r: String)
    ensures
        r@ == v@,
{
    let mut r = String::new();
    let mut i: usize = 0;
    while i < v.len()
        invariant
            i <= v.len(),
            r@ == v@.take(i as int),
        decreases v.len() - i,
    {
        r.push(v[i]);
        i = i + 1;
        assert(v@.take(i as int) =~= v@.take(i - 1).push(v@[i - 1]));
    }
    assert(v@.take(v@.len() as int) =~= v@);
    r
}

/// Two texts, one behind the other.
pub fn cat(a: &str, b: &str) -> (r: String)
    ensures
        r@ == a@ + b@,
{
    let mut r = a.to_owned();
    r.append(b);
    r
}

/// Three texts, one behind the other.
pub fn cat3(a: &str, b: &str, c: &str) -> (r: String)
    ensures
        r@ == a@ + b@ + c@,
{
    let mut r = cat(a, b);
    r.append(c);
    r
}

/// Whether a character counts as white space.
pub open spec fn is_space(c: char) -> bool {
    let n = c as int;
    ||| 0x9 <= n <= 0xd
    ||| n == 0x20
    ||| n == 0x85
    ||| n == 0xa0
    ||| n == 0x1680
    ||| 0x2000 <= n <= 0x200a
    ||| n == 0x2028
    ||| n == 0x2029
    ||| n == 0x202f
    ||| n == 0x205f
    ||| n == 0x3000
}

/// A text without the white space that it starts with.
pub open spec fn trim_front(s: Seq<char>) -> Seq<char>
    decreases s.len(),
{
    if s.len() > 0 && is_space(s[0]) {
        trim_front(s.skip(1))
    } else {
        s
    }
}

/// A text without the white space that it ends with.
pub open spec fn trim_back(s: Seq<char>) -> Seq<char>
    decreases s.len(),
{
    if s.len() > 0 && is_space(s.last()) {
        trim_back(s.drop_last())
    } else {
        s
    }
}

/// A text without the white space around it.
pub open spec fn trimmed(s: Seq<char>) -> Seq<char> {
    trim_back(trim_front(s))
}

fn space(c: char) -> (r: bool)
    ensures
        r == is_space(c),
{
    let n: u32 = c as u32;
    (0x9 <= n && n <= 0xd) || n == 0x20 || n == 0x85 || n == 0xa0 || n == 0x1680 || (0x2000 <= n
        && n <= 0x200a) || n == 0x2028 || n == 0x2029 || n == 0x202f || n == 0x205f || n == 0x3000
}

/// A text without the white space around it.
pub fn trim(s: &str) -> (r: String)
    ensures
        r@ == trimmed(s@),
{
    let c = chars_of(s);
    let n = c.len();
    let mut from: usize = 0;
    assert(c@.skip(0) =~= c@);
    while from < n && space(c[from])
        invariant
            from <= n,
            n == c@.len(),
            trim_front(c@) == trim_front(c@.skip(from as int)),
        decreases n - from,
    {
        assert(c@.skip(from as int)[0] == c@[from as int]);
        assert(c@.skip(from as int).skip(1) =~= c@.skip(from + 1));
        from = from + 1;
    }
    let ghost front = c@.skip(from as int);
    assert(trim_front(c@) == front) by {
        if from < n {
            assert(front[0] == c@[from as int]);
        }
    }
    let mut to: usize = n;
    assert(c@.subrange(from as int, n as int) =~= front);
    while from < to && space(c[to - 1])
        invariant
            from <= to <= n,
            n == c@.len(),
            trim_back(front) == trim_back(c@.subrange(from as int, to as int)),
        decreases to - from,
    {
        let ghost part = c@.subrange(from as int, to as int);
        assert(part.last() == c@[to - 1]);
        assert(part.drop_last() =~= c@.subrange(from as int, to - 1));
        to = to - 1;
    }
    let ghost part = c@.subrange(from as int, to as int);
    assert(trim_back(part) == part) by {
        if from < to {
            assert(part.last() == c@[to - 1]);
        }
    }
    text_of(&crate::net::split::slice_chars(c.as_slice(), from, to))
}

/// The members that `f` holds of, in their order.
pub open spec fn keep_if<A>(s: Seq<A>, f: spec_fn(A) -> bool) -> Seq<A>
    decreases s.len(),
{
    if s.len() == 0 {
        Seq::empty()
    } else if f(s.last()) {
        keep_if(s.drop_last(), f).push(s.last())
    } else {
        keep_if(s.drop_last(), f)
    }
}

/// What is kept of a longer prefix.
pub proof fn lemma_keep_step<A>(s: Seq<A>, f: spec_fn(A) -> bool, i: int)
    requires
        0 <= i < s.len(),
    ensures
        keep_if(s.take(i + 1), f) == (if f(s[i]) {
            keep_if(s.take(i), f).push(s[i])
        } else {
            keep_if(s.take(i), f)
        }),
{
    assert(s.take(i + 1).drop_last() =~= s.take(i));
}

/// What is kept is among what was there, and all of it that should be kept.
pub proof fn lemma_keep_members<A>(s: Seq<A>, f: spec_fn(A) -> bool, x: A)
    ensures
        keep_if(s, f).contains(x) <==> s.contains(x) && f(x),
    decreases s.len(),
{
    if s.len() > 0 {
        let t = s.drop_last();
        lemma_keep_members(t, f, x);
        let k = keep_if(t, f);
        let whole = keep_if(s, f);
        if s.contains(x) {
            let i = choose|i: int| 0 <= i < s.len() && s[i] == x;
            if i < t.len() {
                assert(t[i] == x);
            }
        }
        if t.contains(x) {
            let i = choose|i: int| 0 <= i < t.len() && t[i] == x;
            assert(s[i] == x);
        }
        if k.contains(x) {
            let i = choose|i: int| 0 <= i < k.len() && k[i] == x;
            assert(whole[i] == x);
        }
        if f(s.last()) {
            assert(whole[whole.len() - 1] == s.last());
            if whole.contains(x) {
                let i = choose|i: int| 0 <= i < whole.len() && whole[i] == x;
                if i < k.len() {
                    assert(k[i] == x);
                } else {
                    assert(s[s.len() - 1] == x);
                }
            }
        }
    }
}

/// What is kept stands in the order in which it stood.
pub proof fn lemma_keep_order<A>(s: Seq<A>, f: spec_fn(A) -> bool, i: int, j: int) -> (r: (int, int))
    requires
        0 <= i < j < keep_if(s, f).len(),
    ensures
        0 <= r.0 < r.1 < s.len(),
        s[r.0] == keep_if(s, f)[i],
        s[r.1] == keep_if(s, f)[j],
    decreases s.len(),
{
    let t = s.drop_last();
    if f(s.last()) && j == keep_if(s, f).len() - 1 {
        let k = keep_if(t, f);
        assert(k.contains(k[i]));
        lemma_keep_members(t, f, k[i]);
        let p = choose|p: int| 0 <= p < t.len() && t[p] == k[i];
        assert(s[p] == t[p]);
        (p, s.len() - 1)
    } else {
        let r = lemma_keep_order(t, f, i, j);
        assert(s[r.0] == t[r.0] && s[r.1] == t[r.1]);
        r
    }
}

/// Keeping from two lists, one behind the other, is keeping from each. A single
/// member is kept or not.
pub proof fn law_keeping_goes_member_by_member<A>(a: Seq<A>, b: Seq<A>, f: spec_fn(A) -> bool, x: A)
    ensures
        keep_if(a + b, f) == keep_if(a, f) + keep_if(b, f),
        keep_if(seq![x], f) == (if f(x) {
            seq![x]
        } else {
            Seq::empty()
        }),
        keep_if(Seq::<A>::empty(), f) == Seq::<A>::empty(),
    decreases b.len(),
{
    reveal_with_fuel(keep_if, 2);
    assert(seq![x].drop_last() =~= Seq::<A>::empty());
    assert(keep_if(seq![x], f) =~= (if f(x) {
        seq![x]
    } else {
        Seq::empty()
    }));
    if b.len() == 0 {
        assert(a + b =~= a);
        assert(keep_if(a + b, f) =~= keep_if(a, f) + keep_if(b, f));
    } else {
        law_keeping_goes_member_by_member(a, b.drop_last(), f, x);
        assert((a + b).drop_last() =~= a + b.drop_last());
        assert((a + b).last() == b.last());
        assert(keep_if(a + b, f) =~= keep_if(a, f) + keep_if(b, f));
    }
}

/// Which characters are white space.
pub proof fn law_which_characters_are_space(c: char)
    ensures
        is_space(c) <==> set![
            0x9int,
            0xa,
            0xb,
            0xc,
            0xd,
            0x20,
            0x85,
            0xa0,
            0x1680,
            0x2000,
            0x2001,
            0x2002,
            0x2003,
            0x2004,
            0x2005,
            0x2006,
            0x2007,
            0x2008,
            0x2009,
            0x200a,
            0x2028,
            0x2029,
            0x202f,
            0x205f,
            0x3000,
        ].contains(c as int),
{
}

/// Whether `t` is what stands in `s` from `a` to `b`, with nothing but white
/// space around it and none at its ends.
pub open spec fn is_trimmed(s: Seq<char>, t: Seq<char>, a: int, b: int) -> bool {
    &&& 0 <= a <= b <= s.len()
    &&& t == s.subrange(a, b)
    &&& forall|i: int| 0 <= i < a || b <= i < s.len() ==> is_space(#[trigger] s[i])
    &&& a < b ==> !is_space(s[a]) && !is_space(s[b - 1])
}

proof fn lemma_trim_front(s: Seq<char>) -> (a: int)
    ensures
        0 <= a <= s.len(),
        trim_front(s) == s.skip(a),
        forall|i: int| 0 <= i < a ==> is_space(#[trigger] s[i]),
        a < s.len() ==> !is_space(s[a]),
    decreases s.len(),
{
    if s.len() > 0 && is_space(s[0]) {
        let t = s.skip(1);
        let a = lemma_trim_front(t);
        assert(t.skip(a) =~= s.skip(a + 1));
        assert forall|i: int| 0 <= i < a + 1 implies is_space(#[trigger] s[i]) by {
            if i > 0 {
                assert(is_space(t[i - 1]));
            }
        }
        a + 1
    } else {
        assert(s.skip(0) =~= s);
        0
    }
}

proof fn lemma_trim_back(s: Seq<char>) -> (b: int)
    ensures
        0 <= b <= s.len(),
        trim_back(s) == s.take(b),
        forall|i: int| b <= i < s.len() ==> is_space(#[trigger] s[i]),
        b > 0 ==> !is_space(s[b - 1]),
    decreases s.len(),
{
    if s.len() > 0 && is_space(s.last()) {
        let t = s.drop_last();
        let b = lemma_trim_back(t);
        assert(t.take(b) =~= s.take(b));
        assert forall|i: int| b <= i < s.len() implies is_space(#[trigger] s[i]) by {
            if i < t.len() {
                assert(is_space(t[i]));
            }
        }
        b
    } else {
        assert(s.take(s.len() as int) =~= s);
        s.len() as int
    }
}

/// Trimming takes white space from both ends, all of it, and nothing else. It
/// leaves nothing exactly if there is nothing but white space.
pub proof fn law_trimming_takes_the_space_around(s: Seq<char>)
    ensures
        exists|a: int, b: int| #[trigger] is_trimmed(s, trimmed(s), a, b),
        trimmed(s).len() == 0 <==> forall|i: int| 0 <= i < s.len() ==> is_space(#[trigger] s[i]),
{
    let a = lemma_trim_front(s);
    let t = s.skip(a);
    let n = lemma_trim_back(t);
    let b = a + n;
    assert(t.take(n) =~= s.subrange(a, b));
    assert forall|i: int| 0 <= i < a || b <= i < s.len() implies is_space(#[trigger] s[i]) by {
        if i >= b {
            assert(is_space(t[i - a]));
        }
    }
    if a < b {
        assert(t[0] == s[a] && t[n - 1] == s[b - 1]);
    }
    assert(is_trimmed(s, trimmed(s), a, b));
}

} // verus!
