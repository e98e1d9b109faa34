//! Splitting and joining text at a separator.

use vstd::prelude::*;

verus! {

/// The pieces of `s` between separators; one more than there are separators.
pub open spec fn split(s: Seq<char>, sep: char) -> Seq<Seq<char>>
    decreases s.len(),
{
    if s.len() == 0 {
        seq![Seq::<char>::empty()]
    } else {
        let before = split(s.drop_last(), sep);
        if s.last() == sep {
            before.push(Seq::empty())
        } else {
            before.drop_last().push(before.last().push(s.last()))
        }
    }
}

/// Whether `sep` does not occur in `s`.
pub open spec fn lacks(s: Seq<char>, sep: char) -> bool {
    forall|i: int| 0 <= i < s.len() ==> #[trigger] s[i] != sep
}

pub proof fn lemma_split_nonempty(s: Seq<char>, sep: char)
    ensures
        split(s, sep).len() >= 1,
    decreases s.len(),
{
    if s.len() > 0 {
        lemma_split_nonempty(s.drop_last(), sep);
    }
}

/// A text without a separator is one piece.
pub proof fn lemma_split_single(s: Seq<char>, sep: char)
    requires
        lacks(s, sep),
    ensures
        split(s, sep) == seq![s],
    decreases s.len(),
{
    if s.len() > 0 {
        let t = s.drop_last();
        assert(lacks(t, sep)) by {
            assert forall|i: int| 0 <= i < t.len() implies #[trigger] t[i] != sep by {
                assert(t[i] == s[i]);
            }
        }
        lemma_split_single(t, sep);
        assert(s.last() != sep);
        assert(t.push(s.last()) =~= s);
        assert(split(s, sep) =~= seq![s]);
    } else {
        assert(s =~= Seq::<char>::empty());
        assert(split(s, sep) =~= seq![s]);
    }
}

/// A separator followed by a piece adds that piece.
pub proof fn lemma_split_append(a: Seq<char>, b: Seq<char>, sep: char)
    requires
        lacks(b, sep),
    ensures
        split(a + seq![sep] + b, sep) == split(a, sep).push(b),
    decreases b.len(),
{
    lemma_split_nonempty(a, sep);
    let whole = a + seq![sep] + b;
    if b.len() == 0 {
        assert(whole.drop_last() =~= a);
        assert(whole.last() == sep);
        assert(b =~= Seq::<char>::empty());
        assert(split(whole, sep) =~= split(a, sep).push(b));
    } else {
        let c = b.drop_last();
        assert(lacks(c, sep)) by {
            assert forall|i: int| 0 <= i < c.len() implies #[trigger] c[i] != sep by {
                assert(c[i] == b[i]);
            }
        }
        lemma_split_append(a, c, sep);
        assert(whole.drop_last() =~= a + seq![sep] + c);
        assert(whole.last() == b.last());
        assert(b.last() != sep);
        assert(c.push(b.last()) =~= b);
        assert(split(a, sep).push(c).drop_last() =~= split(a, sep));
        assert(split(whole, sep) =~= split(a, sep).push(b));
    }
}

/// The pieces held by a list of lists.
pub open spec fn pieces(v: Seq<Vec<char>>) -> Seq<Seq<char>> {
    Seq::new(v.len(), |i: int| v[i]@)
}

/// Splits the characters at every separator.
pub fn split_chars(s: &[char], sep: char) -> (r: Vec<Vec<char>>)
    ensures
        pieces(r@) == split(s@, sep),
{
    let mut done: Vec<Vec<char>> = Vec::new();
    let mut current: Vec<char> = Vec::new();
    let mut i: usize = 0;
    assert(s@.take(0) =~= Seq::<char>::empty());
    assert(pieces(done@).push(current@) =~= split(s@.take(0), sep));
    while i < s.len()
        invariant
            i <= s@.len(),
            pieces(done@).push(current@) == split(s@.take(i as int), sep),
        decreases s@.len() - i,
    {
        let c = s[i];
        let ghost before = s@.take(i as int);
        let ghost after = s@.take(i + 1);
        let ghost held = pieces(done@);
        assert(after.drop_last() =~= before);
        assert(after.last() == c);
        if c == sep {
            let ghost old_done = done@;
            let ghost piece = current@;
            done.push(current);
            current = Vec::new();
            assert(pieces(done@) =~= held.push(piece));
            assert(pieces(done@).push(current@) =~= split(after, sep));
        } else {
            let ghost piece = current@;
            current.push(c);
            assert(held.push(piece).drop_last() =~= held);
            assert(pieces(done@).push(current@) =~= split(after, sep));
        }
        i = i + 1;
    }
    assert(s@.take(s@.len() as int) =~= s@);
    let ghost held = pieces(done@);
    let ghost piece = current@;
    done.push(current);
    assert(pieces(done@) =~= held.push(piece));
    done
}

/// Where `sep` occurs last, or -1 where it does not occur.
pub open spec fn last_at(s: Seq<char>, sep: char) -> int
    decreases s.len(),
{
    if s.len() == 0 {
        -1
    } else if s.last() == sep {
        s.len() - 1
    } else {
        last_at(s.drop_last(), sep)
    }
}

/// Where `sep` occurs first at or behind `i`, or -1 where it does not.
pub open spec fn first_at(s: Seq<char>, sep: char, i: int) -> int
    decreases s.len() - i,
{
    if i < 0 || i >= s.len() {
        -1
    } else if s[i] == sep {
        i
    } else {
        first_at(s, sep, i + 1)
    }
}

pub proof fn lemma_last_at(s: Seq<char>, sep: char)
    ensures
        -1 <= last_at(s, sep) < s.len(),
        last_at(s, sep) >= 0 ==> s[last_at(s, sep)] == sep,
        forall|k: int| last_at(s, sep) < k < s.len() ==> #[trigger] s[k] != sep,
    decreases s.len(),
{
    if s.len() > 0 && s.last() != sep {
        let t = s.drop_last();
        lemma_last_at(t, sep);
        assert forall|k: int| last_at(s, sep) < k < s.len() implies #[trigger] s[k] != sep by {
            if k < t.len() {
                assert(t[k] == s[k]);
            }
        }
    }
}

/// The last separator of a text whose end lacks it.
pub proof fn lemma_last_at_found(a: Seq<char>, b: Seq<char>, sep: char)
    requires
        lacks(b, sep),
    ensures
        last_at(a + seq![sep] + b, sep) == a.len(),
    decreases b.len(),
{
    let whole = a + seq![sep] + b;
    if b.len() > 0 {
        let c = b.drop_last();
        assert(lacks(c, sep)) by {
            assert forall|i: int| 0 <= i < c.len() implies #[trigger] c[i] != sep by {
                assert(c[i] == b[i]);
            }
        }
        lemma_last_at_found(a, c, sep);
        assert(whole.drop_last() =~= a + seq![sep] + c);
        assert(whole.last() == b.last());
        assert(b.last() != sep);
    } else {
        assert(whole.last() == sep);
    }
}

/// The last occurrence of `sep`.
pub fn find_last(s: &[char], sep: char) -> (r: Option<usize>)
    ensures
        match r {
            Some(p) => p == last_at(s@, sep),
            None => last_at(s@, sep) == -1,
        },
{
    let mut n: usize = s.len();
    assert(s@.take(n as int) =~= s@);
    while n > 0
        invariant
            n <= s@.len(),
            last_at(s@, sep) == last_at(s@.take(n as int), sep),
        decreases n,
    {
        let ghost t = s@.take(n as int);
        assert(t.last() == s@[n - 1]);
        assert(t.drop_last() =~= s@.take(n - 1));
        if s[n - 1] == sep {
            return Some(n - 1);
        }
        n = n - 1;
    }
    None
}

/// The first occurrence of `sep`.
pub fn find_first(s: &[char], sep: char) -> (r: Option<usize>)
    ensures
        match r {
            Some(p) => p == first_at(s@, sep, 0) && p < s@.len(),
            None => first_at(s@, sep, 0) == -1,
        },
{
    let mut i: usize = 0;
    while i < s.len()
        invariant
            i <= s@.len(),
            first_at(s@, sep, 0) == first_at(s@, sep, i as int),
        decreases s@.len() - i,
    {
        if s[i] == sep {
            return Some(i);
        }
        i = i + 1;
    }
    None
}

/// The characters from `from` up to `to`.
pub fn slice_chars(s: &[char], from: usize, to: usize) -> (r: Vec<char>)
    requires
        from <= to <= s@.len(),
    ensures
        r@ == s@.subrange(from as int, to as int),
{
    let mut r: Vec<char> = Vec::new();
    let mut i: usize = from;
    while i < to
        invariant
            from <= i <= to <= s@.len(),
            r@ == s@.subrange(from as int, i as int),
        decreases to - i,
    {
        r.push(s[i]);
        i = i + 1;
        assert(s@.subrange(from as int, i as int) =~= s@.subrange(from as int, i - 1).push(
            s@[i - 1],
        ));
    }
    r
}

/// Pieces with a separator between each two.
pub open spec fn joined(p: Seq<Seq<char>>, sep: char) -> Seq<char>
    decreases p.len(),
{
    if p.len() == 0 {
        Seq::empty()
    } else if p.len() == 1 {
        p[0]
    } else {
        joined(p.drop_last(), sep) + seq![sep] + p.last()
    }
}

/// Splitting takes a text apart, and joining puts it together again. No piece
/// has a separator in it.
pub proof fn law_split_pieces_join_again(s: Seq<char>, sep: char)
    ensures
        joined(split(s, sep), sep) == s,
        split(s, sep).len() >= 1,
        forall|i: int| 0 <= i < split(s, sep).len() ==> lacks(#[trigger] split(s, sep)[i], sep),
    decreases s.len(),
{
    reveal_with_fuel(joined, 2);
    if s.len() == 0 {
        assert(s =~= Seq::<char>::empty());
    } else {
        let t = s.drop_last();
        let before = split(t, sep);
        let p = split(s, sep);
        law_split_pieces_join_again(t, sep);
        if s.last() == sep {
            assert(p.drop_last() =~= before);
            assert(joined(p, sep) =~= s);
            assert forall|i: int| 0 <= i < p.len() implies lacks(#[trigger] p[i], sep) by {
                if i < before.len() {
                    assert(p[i] == before[i]);
                }
            }
        } else {
            let last = before.last().push(s.last());
            assert(p.drop_last() =~= before.drop_last());
            assert(p.last() == last);
            if before.len() == 1 {
                assert(p[0] == last);
                assert(before.last() == t);
                assert(joined(p, sep) == last);
            } else {
                let front = joined(before.drop_last(), sep);
                assert(t == front + seq![sep] + before.last());
                assert(joined(p, sep) == front + seq![sep] + last);
                assert(front + seq![sep] + last =~= t.push(s.last()));
            }
            assert(t.push(s.last()) =~= s);
            assert forall|i: int| 0 <= i < p.len() implies lacks(#[trigger] p[i], sep) by {
                if i < before.len() - 1 {
                    assert(p[i] == before[i]);
                } else {
                    assert(lacks(before[before.len() - 1], sep));
                }
            }
        }
    }
}

/// Where the first separator is, or that there is none.
pub proof fn lemma_first_at(s: Seq<char>, sep: char, from: int)
    requires
        0 <= from <= s.len(),
    ensures
        ({
            let p = first_at(s, sep, from);
            &&& p == -1 || from <= p < s.len()
            &&& p >= 0 ==> s[p] == sep
            &&& forall|k: int|
                from <= k < (if p < 0 {
                    s.len() as int
                } else {
                    p
                }) ==> #[trigger] s[k] != sep
        }),
    decreases s.len() - from,
{
    if from < s.len() && s[from] != sep {
        lemma_first_at(s, sep, from + 1);
    }
}

} // verus!
