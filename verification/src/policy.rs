//! Who may see whom.

use crate::text::{chars_of, clone_strings, strs};
use vstd::prelude::*;

verus! {

/// One permission: peers with a tag that matches `src` and peers with a tag
/// that matches `dst` may see each other.
#[derive(Debug)]
pub struct AclRule {
    pub src: Vec<String>,
    pub dst: Vec<String>,
}

/// What an `AclRule` holds.
#[verifier::ext_equal]
pub struct RuleView {
    pub src: Seq<Seq<char>>,
    pub dst: Seq<Seq<char>>,
}

impl View for AclRule {
    type V = RuleView;

    open spec fn view(&self) -> RuleView {
        RuleView { src: strs(self.src@), dst: strs(self.dst@) }
    }
}

/// What a list of rules holds.
pub open spec fn rule_views(v: Seq<AclRule>) -> Seq<RuleView> {
    Seq::new(v.len(), |i: int| v[i]@)
}

/// Whether a tag matches a pattern: a final `*` stands for any ending.
pub open spec fn tag_matches(pattern: Seq<char>, tag: Seq<char>) -> bool {
    if pattern.len() > 0 && pattern.last() == '*' {
        pattern.drop_last().is_prefix_of(tag)
    } else {
        pattern == tag
    }
}

/// Whether a peer with these tags matches a pattern: any of its tags does. The
/// pattern `*` stands for every peer, even for one without tags.
pub open spec fn peer_matches(pattern: Seq<char>, tags: Seq<Seq<char>>) -> bool {
    pattern == "*"@ || exists|j: int| 0 <= j < tags.len() && tag_matches(pattern, #[trigger] tags[j])
}

/// Whether a peer with these tags matches any of the patterns.
pub open spec fn any_matches(patterns: Seq<Seq<char>>, tags: Seq<Seq<char>>) -> bool {
    exists|i: int| 0 <= i < patterns.len() && peer_matches(#[trigger] patterns[i], tags)
}

/// Whether a rule permits the pair, in either direction.
pub open spec fn rule_permits(r: RuleView, a: Seq<Seq<char>>, b: Seq<Seq<char>>) -> bool {
    (any_matches(r.src, a) && any_matches(r.dst, b)) || (any_matches(r.src, b) && any_matches(
        r.dst,
        a,
    ))
}

/// Whether any rule permits the pair.
pub open spec fn permits(rules: Seq<RuleView>, a: Seq<Seq<char>>, b: Seq<Seq<char>>) -> bool {
    exists|i: int| 0 <= i < rules.len() && rule_permits(#[trigger] rules[i], a, b)
}

/// A set of permissions; what none of them permits is denied.
#[derive(Debug)]
pub struct Policy {
    pub rules: Vec<AclRule>,
}

impl View for Policy {
    type V = Seq<RuleView>;

    open spec fn view(&self) -> Seq<RuleView> {
        rule_views(self.rules@)
    }
}

/// Whether a tag matches a pattern.
fn matches_tag(pattern: &str, tag: &str) -> (r: bool)
    ensures
        r == tag_matches(pattern@, tag@),
{
    let p = chars_of(pattern);
    let t = chars_of(tag);
    let n = p.len();
    if n > 0 && p[n - 1] == '*' {
        if t.len() < n - 1 {
            return false;
        }
        let ghost prefix = p@.drop_last();
        let mut i: usize = 0;
        while i < n - 1
            invariant
                n == p@.len(),
                n > 0,
                i <= n - 1,
                t@.len() >= n - 1,
                prefix == p@.drop_last(),
                p@ == pattern@,
                t@ == tag@,
                p@.last() == '*',
                forall|k: int| 0 <= k < i ==> p@[k] == t@[k],
            decreases n - i,
        {
            if p[i] != t[i] {
                assert(prefix[i as int] != t@.subrange(0, prefix.len() as int)[i as int]);
                return false;
            }
            i = i + 1;
        }
        assert(prefix =~= t@.subrange(0, prefix.len() as int));
        true
    } else {
        crate::text::same_text(pattern, tag)
    }
}

/// Whether a peer with these tags matches a pattern.
fn matches_peer(pattern: &str, tags: &Vec<String>) -> (r: bool)
    ensures
        r == peer_matches(pattern@, strs(tags@)),
{
    if crate::text::same_text(pattern, "*") {
        return true;
    }
    let ghost ts = strs(tags@);
    let mut j: usize = 0;
    while j < tags.len()
        invariant
            j <= tags@.len(),
            ts == strs(tags@),
            forall|b: int| 0 <= b < j ==> !tag_matches(pattern@, #[trigger] ts[b]),
        decreases tags@.len() - j,
    {
        if matches_tag(pattern, tags[j].as_str()) {
            assert(tag_matches(pattern@, ts[j as int]));
            return true;
        }
        j = j + 1;
    }
    false
}

/// Whether a peer with these tags matches any of the patterns.
fn matches_any(patterns: &Vec<String>, tags: &Vec<String>) -> (r: bool)
    ensures
        r == any_matches(strs(patterns@), strs(tags@)),
{
    let ghost ps = strs(patterns@);
    let mut i: usize = 0;
    while i < patterns.len()
        invariant
            i <= patterns@.len(),
            ps == strs(patterns@),
            forall|a: int| 0 <= a < i ==> !peer_matches(#[trigger] ps[a], strs(tags@)),
        decreases patterns@.len() - i,
    {
        if matches_peer(patterns[i].as_str(), tags) {
            assert(peer_matches(ps[i as int], strs(tags@)));
            return true;
        }
        i = i + 1;
    }
    false
}

impl AclRule {
    /// A permission between what matches `src` and what matches `dst`.
    pub fn accept(src: &Vec<String>, dst: &Vec<String>) -> (r: Self)
        ensures
            r@ == (RuleView { src: strs(src@), dst: strs(dst@) }),
    {
        AclRule { src: clone_strings(src), dst: clone_strings(dst) }
    }
}

impl Policy {
    /// A policy of the given rules.
    pub fn new(rules: Vec<AclRule>) -> (r: Self)
        ensures
            r@ == rule_views(rules@),
    {
        Policy { rules }
    }

    /// The policy that permits nothing.
    pub fn empty() -> (r: Self)
        ensures
            r@.len() == 0,
    {
        Policy { rules: Vec::new() }
    }

    /// Whether peers with these tags may see each other.
    pub fn can_see(&self, viewer_tags: &Vec<String>, peer_tags: &Vec<String>) -> (r: bool)
        ensures
            r == permits(self@, strs(viewer_tags@), strs(peer_tags@)),
    {
        let ghost a = strs(viewer_tags@);
        let ghost b = strs(peer_tags@);
        let mut i: usize = 0;
        while i < self.rules.len()
            invariant
                i <= self.rules@.len(),
                a == strs(viewer_tags@),
                b == strs(peer_tags@),
                forall|k: int| 0 <= k < i ==> !rule_permits(#[trigger] self@[k], a, b),
            decreases self.rules@.len() - i,
        {
            let rule = &self.rules[i];
            assert(self@[i as int] == rule@);
            if (matches_any(&rule.src, viewer_tags) && matches_any(&rule.dst, peer_tags)) || (
            matches_any(&rule.src, peer_tags) && matches_any(&rule.dst, viewer_tags)) {
                assert(rule_permits(self@[i as int], a, b));
                return true;
            }
            i = i + 1;
        }
        false
    }
}

impl Default for Policy {
    fn default() -> (r: Self)
        ensures
            r@.len() == 0,
    {
        Policy::empty()
    }
}

/// Seeing is mutual.
pub proof fn law_visibility_is_symmetric(
    rules: Seq<RuleView>,
    a: Seq<Seq<char>>,
    b: Seq<Seq<char>>,
)
    ensures
        permits(rules, a, b) == permits(rules, b, a),
{
    if permits(rules, a, b) {
        let i = choose|i: int| 0 <= i < rules.len() && rule_permits(#[trigger] rules[i], a, b);
        assert(rule_permits(rules[i], b, a));
    }
    if permits(rules, b, a) {
        let i = choose|i: int| 0 <= i < rules.len() && rule_permits(#[trigger] rules[i], b, a);
        assert(rule_permits(rules[i], a, b));
    }
}

/// Without rules nobody sees anybody.
pub proof fn law_default_is_deny(rules: Seq<RuleView>, a: Seq<Seq<char>>, b: Seq<Seq<char>>)
    requires
        rules.len() == 0,
    ensures
        !permits(rules, a, b),
{
}

/// A rule from everybody to everybody lets everybody see everybody.
pub proof fn law_everybody_may_be_permitted(
    rules: Seq<RuleView>,
    i: int,
    a: Seq<Seq<char>>,
    b: Seq<Seq<char>>,
)
    requires
        0 <= i < rules.len(),
        rules[i].src.contains("*"@),
        rules[i].dst.contains("*"@),
    ensures
        permits(rules, a, b),
{
    let s = choose|k: int| 0 <= k < rules[i].src.len() && rules[i].src[k] == "*"@;
    let d = choose|k: int| 0 <= k < rules[i].dst.len() && rules[i].dst[k] == "*"@;
    assert(peer_matches(rules[i].src[s], a));
    assert(peer_matches(rules[i].dst[d], b));
    assert(rule_permits(rules[i], a, b));
}

/// What patterns match tags: one that ends in `*` matches every tag that starts
/// with what is before it, and no other; one that does not matches itself only.
pub proof fn law_what_patterns_match(start: Seq<char>, rest: Seq<char>, tag: Seq<char>)
    ensures
        tag_matches(start.push('*'), start + rest),
        tag_matches(start.push('*'), tag) ==> tag.len() >= start.len() && tag == start + tag.skip(
            start.len() as int,
        ),
        start.len() == 0 || start.last() != '*' ==> (tag_matches(start, tag) <==> start == tag),
{
    assert(start.push('*').drop_last() =~= start);
    assert(start =~= (start + rest).subrange(0, start.len() as int));
    if tag_matches(start.push('*'), tag) {
        assert(start =~= tag.subrange(0, start.len() as int));
        assert(tag =~= start + tag.skip(start.len() as int));
    }
}

/// Whether a pattern is for a peer: it is for everybody, or it is one of the
/// peer's tags, or one of them starts with what is before its final `*`.
pub open spec fn is_for(pattern: Seq<char>, tags: Seq<Seq<char>>) -> bool {
    ||| pattern == seq!['*']
    ||| exists|j: int|
        0 <= j < tags.len() && (if pattern.len() > 0 && pattern.last() == '*' {
            exists|rest: Seq<char>| #[trigger] tags[j] == #[trigger] (pattern.drop_last() + rest)
        } else {
            #[trigger] tags[j] == pattern
        })
}

proof fn lemma_is_for(pattern: Seq<char>, tags: Seq<Seq<char>>)
    ensures
        is_for(pattern, tags) == peer_matches(pattern, tags),
{
    reveal_strlit("*");
    assert("*"@ =~= seq!['*']);
    let start = pattern.drop_last();
    let starred = pattern.len() > 0 && pattern.last() == '*';
    if starred {
        assert(start.push('*') =~= pattern);
    }
    if is_for(pattern, tags) && pattern != seq!['*'] {
        let j = choose|j: int|
            0 <= j < tags.len() && (if pattern.len() > 0 && pattern.last() == '*' {
                exists|rest: Seq<char>| #[trigger] tags[j] == #[trigger] (pattern.drop_last()
                    + rest)
            } else {
                #[trigger] tags[j] == pattern
            });
        if starred {
            let rest = choose|rest: Seq<char>| tags[j] == #[trigger] (pattern.drop_last() + rest);
            law_what_patterns_match(start, rest, tags[j]);
        }
        assert(tag_matches(pattern, tags[j]));
    }
    if peer_matches(pattern, tags) && pattern != "*"@ {
        let j = choose|j: int| 0 <= j < tags.len() && tag_matches(pattern, #[trigger] tags[j]);
        if starred {
            law_what_patterns_match(start, Seq::empty(), tags[j]);
            let rest = tags[j].skip(start.len() as int);
            assert(tags[j] == pattern.drop_last() + rest);
        }
        assert(tags[j] == tags[j]);
    }
}

/// Whether a rule is from one peer to another.
pub open spec fn is_from_to(r: RuleView, a: Seq<Seq<char>>, b: Seq<Seq<char>>) -> bool {
    exists|m: int, n: int|
        {
            &&& 0 <= m < r.src.len()
            &&& 0 <= n < r.dst.len()
            &&& is_for(#[trigger] r.src[m], a)
            &&& is_for(#[trigger] r.dst[n], b)
        }
}

/// Two peers may see each other exactly if some rule is from the one to the
/// other, whichever that is.
pub proof fn law_who_may_see_whom(rules: Seq<RuleView>, a: Seq<Seq<char>>, b: Seq<Seq<char>>)
    ensures
        permits(rules, a, b) <==> exists|i: int|
            0 <= i < rules.len() && (#[trigger] is_from_to(rules[i], a, b) || is_from_to(
                rules[i],
                b,
                a,
            )),
{
    assert forall|i: int| 0 <= i < rules.len() implies rule_permits(#[trigger] rules[i], a, b) == (
    is_from_to(rules[i], a, b) || is_from_to(rules[i], b, a)) by {
        lemma_from_to(rules[i], a, b);
        lemma_from_to(rules[i], b, a);
    }
    if permits(rules, a, b) {
        let i = choose|i: int| 0 <= i < rules.len() && rule_permits(#[trigger] rules[i], a, b);
        assert(is_from_to(rules[i], a, b) || is_from_to(rules[i], b, a));
    }
    if exists|i: int|
        0 <= i < rules.len() && (#[trigger] is_from_to(rules[i], a, b) || is_from_to(
            rules[i],
            b,
            a,
        )) {
        let i = choose|i: int|
            0 <= i < rules.len() && (#[trigger] is_from_to(rules[i], a, b) || is_from_to(
                rules[i],
                b,
                a,
            ));
        assert(rule_permits(rules[i], a, b));
    }
}

proof fn lemma_from_to(r: RuleView, a: Seq<Seq<char>>, b: Seq<Seq<char>>)
    ensures
        is_from_to(r, a, b) == (any_matches(r.src, a) && any_matches(r.dst, b)),
{
    assert forall|p: Seq<char>, t: Seq<Seq<char>>| is_for(p, t) == peer_matches(p, t) by {
        lemma_is_for(p, t);
    }
    if any_matches(r.src, a) && any_matches(r.dst, b) {
        let m = choose|m: int| 0 <= m < r.src.len() && peer_matches(#[trigger] r.src[m], a);
        let n = choose|n: int| 0 <= n < r.dst.len() && peer_matches(#[trigger] r.dst[n], b);
        assert(is_for(r.src[m], a) && is_for(r.dst[n], b));
    }
    if is_from_to(r, a, b) {
        let (m, n) = choose|m: int, n: int|
            {
                &&& 0 <= m < r.src.len()
                &&& 0 <= n < r.dst.len()
                &&& is_for(#[trigger] r.src[m], a)
                &&& is_for(#[trigger] r.dst[n], b)
            };
        assert(peer_matches(r.src[m], a) && peer_matches(r.dst[n], b));
    }
}

} // verus!
