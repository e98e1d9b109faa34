//! Which network and tags a joiner really has.
//!
//! Where its join token was validated, the token's claims decide, and the
//! joiner can only add tags that describe what it is able to do. Where there
//! is no token to validate, its own word is taken.

use crate::auth::{ClaimsView, ValidatedClaims};
use crate::roster::api::{RegisterRequest, RequestView};
use crate::text::{clone_strings, contains_text, push_text, same_text, strs};
use vstd::prelude::*;

verus! {

/// The network and the tags of a joiner.
#[derive(Debug, Clone, PartialEq, Eq)]
pub struct NodeIdentity {
    /// The network, which selects the block of addresses.
    pub network: String,
    /// The tags, which decide who sees the peer.
    pub tags: Vec<String>,
}

/// What a `NodeIdentity` holds.
#[verifier::ext_equal]
pub struct IdentityView {
    pub network: Seq<char>,
    pub tags: Seq<Seq<char>>,
}

impl View for NodeIdentity {
    type V = IdentityView;

    open spec fn view(&self) -> IdentityView {
        IdentityView { network: self.network@, tags: strs(self.tags@) }
    }
}

/// Whether a tag only describes what a node is able to do, so that a node may
/// claim it for itself.
pub open spec fn is_capability(tag: Seq<char>) -> bool {
    tag == "supervisor"@ || tag == "firecracker"@ || tag == "docker"@ || tag == "builder"@
}

/// The tags of `base`, then the capabilities among `added` that are not there
/// yet, in their order.
pub open spec fn merged_tags(base: Seq<Seq<char>>, added: Seq<Seq<char>>) -> Seq<Seq<char>>
    decreases added.len(),
{
    if added.len() == 0 {
        base
    } else {
        let before = merged_tags(base, added.drop_last());
        if is_capability(added.last()) && !before.contains(added.last()) {
            before.push(added.last())
        } else {
            before
        }
    }
}

/// The identity of a joiner.
pub open spec fn identity_of(req: RequestView, claims: Option<ClaimsView>) -> IdentityView {
    match claims {
        None => IdentityView { network: req.network, tags: req.tags },
        Some(c) => IdentityView { network: c.network, tags: merged_tags(c.tags, req.tags) },
    }
}

fn capability(tag: &str) -> (r: bool)
    ensures
        r == is_capability(tag@),
{
    same_text(tag, "supervisor") || same_text(tag, "firecracker") || same_text(tag, "docker")
        || same_text(tag, "builder")
}

/// Decides the identity of a joiner.
pub fn stamp_identity(req: &RegisterRequest, claims: Option<&ValidatedClaims>) -> (r: NodeIdentity)
    ensures
        r@ == identity_of(
            req@,
            match claims {
                Some(c) => Some(c@),
                None => None,
            },
        ),
{
    match claims {
        None => NodeIdentity { network: req.network.clone(), tags: clone_strings(&req.tags) },
        Some(c) => {
            let mut tags = clone_strings(&c.tags);
            let ghost added = strs(req.tags@);
            let mut i: usize = 0;
            assert(added.take(0) =~= Seq::<Seq<char>>::empty());
            while i < req.tags.len()
                invariant
                    i <= req.tags@.len(),
                    added == strs(req.tags@),
                    strs(tags@) == merged_tags(strs(c.tags@), added.take(i as int)),
                decreases req.tags@.len() - i,
            {
                let t = &req.tags[i];
                assert(added.take(i + 1).drop_last() =~= added.take(i as int));
                assert(added.take(i + 1).last() == t@);
                if capability(t.as_str()) && !contains_text(&tags, t.as_str()) {
                    push_text(&mut tags, t);
                }
                i = i + 1;
            }
            assert(added.take(added.len() as int) =~= added);
            NodeIdentity { network: c.network.clone(), tags }
        },
    }
}

/// With validated claims the network is the token's, the token's tags all
/// count, and every other tag is a capability that the joiner named: it cannot
/// give itself any other tag.
pub proof fn law_claims_decide_identity(req: RequestView, claims: ClaimsView, tag: Seq<char>)
    ensures
        identity_of(req, Some(claims)).network == claims.network,
        claims.tags.is_prefix_of(identity_of(req, Some(claims)).tags),
        identity_of(req, Some(claims)).tags.contains(tag) <==> claims.tags.contains(tag) || (
        is_capability(tag) && req.tags.contains(tag)),
{
    lemma_merged(claims.tags, req.tags, tag);
}

/// Merging adds no tag twice.
pub proof fn law_merging_adds_no_duplicates(base: Seq<Seq<char>>, added: Seq<Seq<char>>)
    requires
        base.no_duplicates(),
    ensures
        merged_tags(base, added).no_duplicates(),
    decreases added.len(),
{
    if added.len() > 0 {
        law_merging_adds_no_duplicates(base, added.drop_last());
    }
}

proof fn lemma_merged(base: Seq<Seq<char>>, added: Seq<Seq<char>>, tag: Seq<char>)
    ensures
        base.is_prefix_of(merged_tags(base, added)),
        merged_tags(base, added).contains(tag) <==> base.contains(tag) || (is_capability(tag)
            && added.contains(tag)),
    decreases added.len(),
{
    let m = merged_tags(base, added);
    if added.len() > 0 {
        let front = added.drop_last();
        lemma_merged(base, front, tag);
        let before = merged_tags(base, front);
        if before.contains(tag) {
            let i = choose|i: int| 0 <= i < before.len() && before[i] == tag;
            assert(m[i] == tag);
        }
        if m.contains(tag) {
            let i = choose|i: int| 0 <= i < m.len() && m[i] == tag;
            if i < before.len() {
                assert(before[i] == tag);
            }
        }
        if front.contains(tag) {
            let i = choose|i: int| 0 <= i < front.len() && front[i] == tag;
            assert(added[i] == tag);
        }
        if added.contains(tag) {
            let i = choose|i: int| 0 <= i < added.len() && added[i] == tag;
            if i < front.len() {
                assert(front[i] == tag);
            } else if is_capability(tag) && !before.contains(tag) {
                assert(m[m.len() - 1] == tag);
            }
        }
        if tag == added.last() {
            assert(added[added.len() - 1] == tag);
        }
        assert(base =~= m.subrange(0, base.len() as int)) by {
            assert(base =~= before.subrange(0, base.len() as int));
        }
    } else {
        assert(base =~= m.subrange(0, base.len() as int));
    }
}

/// What a joiner adds to the tags of its token goes tag by tag: one of the four
/// abilities that is not there yet is put behind the others, and any other tag
/// changes nothing.
pub proof fn law_tags_are_added_one_by_one(
    base: Seq<Seq<char>>,
    a: Seq<Seq<char>>,
    b: Seq<Seq<char>>,
    tag: Seq<char>,
)
    ensures
        merged_tags(base, Seq::empty()) == base,
        merged_tags(base, a + b) == merged_tags(merged_tags(base, a), b),
        (tag == "supervisor"@ || tag == "firecracker"@ || tag == "docker"@ || tag == "builder"@)
            && !base.contains(tag) ==> merged_tags(base, seq![tag]) == base.push(tag),
        !(tag == "supervisor"@ || tag == "firecracker"@ || tag == "docker"@ || tag == "builder"@)
            || base.contains(tag) ==> merged_tags(base, seq![tag]) == base,
    decreases b.len(),
{
    reveal_with_fuel(merged_tags, 2);
    assert(seq![tag].drop_last() =~= Seq::<Seq<char>>::empty());
    if b.len() == 0 {
        assert(a + b =~= a);
    } else {
        law_tags_are_added_one_by_one(base, a, b.drop_last(), tag);
        assert((a + b).drop_last() =~= a + b.drop_last());
        assert((a + b).last() == b.last());
    }
}

/// Without a token a joiner is in the network that it names, with the tags that
/// it names.
pub proof fn law_without_a_token_the_joiner_decides(req: RequestView)
    ensures
        identity_of(req, None).network == req.network,
        identity_of(req, None).tags == req.tags,
{
}

} // verus!
