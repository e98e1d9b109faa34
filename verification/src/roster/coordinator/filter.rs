//! Who sees whom.

use crate::bindings::ids::{lemma_uuid_round_trip, uuid_text};
use crate::order::listing;
use crate::policy::permits;
use crate::roster::api::{infos, InfoView, PeerEvent, PeerEventView, PeerInfo};
use crate::roster::coordinator::connectivity::{
    is_info_of, law_every_peer_is_shown, own_link, seen_link, shown,
};
use crate::roster::coordinator::effect::{ask, effects, Effect, EffectView};
use crate::roster::coordinator::state::{
    by_index, can_be_listed, entry_views, index_rank, law_peers_can_be_listed, wf, CoordView,
    Coordinator,
};
use crate::roster::entry::{info_of, PeerView};
use crate::text::{keep_if, lemma_keep_members, lemma_keep_order, lemma_keep_step, strs};
use vstd::prelude::*;

verus! {

/// Tells which peers a viewer sees: the others that the policy permits.
pub open spec fn seen_by(s: CoordView, viewer: u128, tags: Seq<Seq<char>>) -> spec_fn(
    PeerView,
) -> bool {
    |e: PeerView| e.peer_id != viewer && permits(s.policy, tags, e.tags)
}

/// What a viewer sees, in the order of the index.
pub open spec fn visible(s: CoordView, viewer: u128, tags: Seq<Seq<char>>) -> Seq<InfoView> {
    let kept = keep_if(by_index(s.roster), seen_by(s, viewer, tags));
    Seq::new(kept.len(), |i: int| info_of(kept[i], None, None))
}

/// Showing every peer anew.
pub open spec fn resync(s: CoordView) -> Seq<EffectView> {
    Seq::new(
        shown(s, None).len(),
        |i: int| EffectView::Broadcast(PeerEventView::Updated(shown(s, None)[i])),
    )
}

impl Coordinator {
    /// Shows every peer anew, for viewers that may have missed something.
    pub fn resync_all_peers(&self, out: &mut Vec<Effect>)
        requires
            wf(self@),
        ensures
            can_be_listed(self@.roster),
            effects(final(out)@) == effects(old(out)@) + resync(self@),
    {
        let all = self.snapshot();
        let n = all.len();
        let ghost views = infos(all@);
        let ghost total = resync(self@);
        let mut rest = all;
        let mut i: usize = 0;
        assert(rest@ =~= all@.skip(0));
        assert(effects(out@) =~= effects(old(out)@) + total.take(0));
        while i < n
            invariant
                i <= n,
                n == all@.len(),
                views == infos(all@),
                views == shown(self@, None),
                total == resync(self@),
                rest@ == all@.skip(i as int),
                effects(out@) == effects(old(out)@) + total.take(i as int),
            decreases n - i,
        {
            let info = rest.remove(0);
            assert(rest@ =~= all@.skip(i + 1));
            assert(views[i as int] == info@);
            ask(out, Effect::Broadcast(PeerEvent::Updated(info)));
            assert(total.take(i + 1) =~= total.take(i as int).push(total[i as int]));
            assert(effects(out@) =~= effects(old(out)@) + total.take(i + 1));
            i = i + 1;
        }
        assert(views.len() == all@.len());
        assert(total.take(total.len() as int) =~= total);
    }

    /// The tags of a peer.
    pub fn peer_tags(&self, peer_id: u128) -> (r: Option<Vec<String>>)
        ensures
            match r {
                Some(t) => self@.roster.contains_key(peer_id) && strs(t@)
                    == self@.roster[peer_id].tags,
                None => !self@.roster.contains_key(peer_id),
            },
    {
        match self.entry(peer_id) {
            Some(e) => Some(e.tags),
            None => None,
        }
    }

    /// Whether a viewer with these tags may see a peer with those.
    pub fn viewer_can_see(&self, viewer_tags: &Vec<String>, peer_tags: &Vec<String>) -> (r: bool)
        ensures
            r == permits(self@.policy, strs(viewer_tags@), strs(peer_tags@)),
    {
        self.policy().can_see(viewer_tags, peer_tags)
    }

    /// What a viewer sees.
    pub fn visible_peers(&self, viewer_id: u128, viewer_tags: &Vec<String>) -> (r: Vec<PeerInfo>)
        requires
            wf(self@),
        ensures
            can_be_listed(self@.roster),
            infos(r@) == visible(self@, viewer_id, strs(viewer_tags@)),
    {
        proof {
            law_peers_can_be_listed(self@);
        }
        let all = self.ordered(true);
        let ghost views = entry_views(all@);
        let ghost f = seen_by(self@, viewer_id, strs(viewer_tags@));
        let mut r: Vec<PeerInfo> = Vec::new();
        let mut i: usize = 0;
        assert(views.take(0) =~= Seq::<PeerView>::empty());
        while i < all.len()
            invariant
                i <= all@.len(),
                views == entry_views(all@),
                views == by_index(self@.roster),
                f == seen_by(self@, viewer_id, strs(viewer_tags@)),
                r@.len() == keep_if(views.take(i as int), f).len(),
                forall|k: int|
                    0 <= k < r@.len() ==> (#[trigger] r@[k])@ == info_of(
                        keep_if(views.take(i as int), f)[k],
                        None,
                        None,
                    ),
            decreases all@.len() - i,
        {
            let e = &all[i];
            proof {
                lemma_keep_step(views, f, i as int);
                assert(views[i as int] == e@);
            }
            if e.peer_id != viewer_id && self.policy().can_see(viewer_tags, &e.tags) {
                r.push(e.to_info());
            }
            i = i + 1;
        }
        assert(views.take(views.len() as int) =~= views);
        assert(infos(r@) =~= visible(self@, viewer_id, strs(viewer_tags@)));
        r
    }
}

/// Whether a viewer may see a peer of the roster: another one, which the policy
/// permits it to see.
pub open spec fn may_see(s: CoordView, viewer: u128, tags: Seq<Seq<char>>, k: u128) -> bool {
    s.roster.contains_key(k) && k != viewer && permits(s.policy, tags, s.roster[k].tags)
}

/// Whether this is how a peer is shown that a viewer may see.
pub open spec fn is_of_seen(
    s: CoordView,
    viewer: u128,
    tags: Seq<Seq<char>>,
    info: InfoView,
) -> bool {
    exists|k: u128| #[trigger]
        may_see(s, viewer, tags, k) && info == info_of(s.roster[k], None, None)
}

/// Whatever a viewer sees is a peer of the roster that it may see, and it sees
/// all of these.
pub proof fn law_viewers_see_what_is_permitted(
    s: CoordView,
    viewer: u128,
    tags: Seq<Seq<char>>,
)
    requires
        wf(s),
    ensures
        forall|k: u128| #[trigger]
            may_see(s, viewer, tags, k) ==> visible(s, viewer, tags).contains(
                info_of(s.roster[k], None, None),
            ),
        forall|i: int|
            0 <= i < visible(s, viewer, tags).len() ==> is_of_seen(
                s,
                viewer,
                tags,
                #[trigger] visible(s, viewer, tags)[i],
            ),
{
    law_peers_can_be_listed(s);
    let all = by_index(s.roster);
    let ids = listing(s.roster.dom(), index_rank(s.roster));
    let f = seen_by(s, viewer, tags);
    let kept = keep_if(all, f);
    let seen = visible(s, viewer, tags);
    assert forall|k: u128| #[trigger] may_see(s, viewer, tags, k) implies seen.contains(
        info_of(s.roster[k], None, None),
    ) by {
        assert(s.roster.dom().contains(k));
        let i = choose|i: int| 0 <= i < ids.len() && ids[i] == k;
        assert(all[i] == s.roster[k]);
        lemma_keep_members(all, f, s.roster[k]);
        let j = choose|j: int| 0 <= j < kept.len() && kept[j] == s.roster[k];
        assert(seen[j] == info_of(s.roster[k], None, None));
    }
    assert forall|i: int| 0 <= i < seen.len() implies is_of_seen(
        s,
        viewer,
        tags,
        #[trigger] seen[i],
    ) by {
        let e = kept[i];
        assert(kept.contains(e));
        lemma_keep_members(all, f, e);
        let j = choose|j: int| 0 <= j < all.len() && all[j] == e;
        assert(s.roster.dom().contains(ids[j]));
        assert(may_see(s, viewer, tags, ids[j]));
    }
}

/// Every peer that a viewer may see is among what it sees, as the roster has it.
pub proof fn law_seen_peers_are_shown_as_they_are(
    s: CoordView,
    viewer: u128,
    tags: Seq<Seq<char>>,
    k: u128,
)
    requires
        wf(s),
        s.roster.contains_key(k),
    ensures
        (k != viewer && permits(s.policy, tags, s.roster[k].tags)) <==> exists|i: int|
            0 <= i < visible(s, viewer, tags).len() && is_info_of(
                #[trigger] visible(s, viewer, tags)[i],
                s.roster[k],
            ),
{
    law_viewers_see_what_is_permitted(s, viewer, tags);
    let seen = visible(s, viewer, tags);
    if may_see(s, viewer, tags, k) {
        let x = info_of(s.roster[k], None, None);
        assert(seen.contains(x));
        let i = choose|i: int| 0 <= i < seen.len() && seen[i] == x;
        assert(is_info_of(seen[i], s.roster[k]));
    }
    if exists|i: int| 0 <= i < seen.len() && is_info_of(#[trigger] seen[i], s.roster[k]) {
        let i = choose|i: int| 0 <= i < seen.len() && is_info_of(#[trigger] seen[i], s.roster[k]);
        assert(is_of_seen(s, viewer, tags, seen[i]));
        let m = choose|m: u128| #[trigger]
            may_see(s, viewer, tags, m) && seen[i] == info_of(s.roster[m], None, None);
        lemma_uuid_round_trip(m);
        lemma_uuid_round_trip(k);
        assert(m == k);
    }
}

/// What a viewer sees stands in the order of the index, and of the identifier
/// where that is the same, so that it sees no peer twice.
pub proof fn law_seen_peers_are_sorted(
    s: CoordView,
    viewer: u128,
    tags: Seq<Seq<char>>,
    i: int,
    j: int,
)
    requires
        wf(s),
        0 <= i < j < visible(s, viewer, tags).len(),
    ensures
        exists|a: u128, b: u128|
            {
                &&& #[trigger] s.roster.contains_key(a)
                &&& #[trigger] s.roster.contains_key(b)
                &&& visible(s, viewer, tags)[i].peer_id == uuid_text(a)
                &&& visible(s, viewer, tags)[j].peer_id == uuid_text(b)
                &&& s.roster[a].peer_index < s.roster[b].peer_index || (s.roster[a].peer_index
                    == s.roster[b].peer_index && a < b)
            },
{
    law_peers_can_be_listed(s);
    let ids = listing(s.roster.dom(), index_rank(s.roster));
    let all = by_index(s.roster);
    let r = lemma_keep_order(all, seen_by(s, viewer, tags), i, j);
    let a = ids[r.0];
    let b = ids[r.1];
    assert(s.roster.dom().contains(a) && s.roster.dom().contains(b));
    assert(index_rank(s.roster)(a) < index_rank(s.roster)(b));
    assert(s.roster.contains_key(a) && s.roster.contains_key(b));
}

/// Showing every peer anew broadcasts an update of each, as the roster has it
/// and with how it is connected by its own reports, and nothing else.
pub proof fn law_resyncing_shows_everybody(s: CoordView, k: u128)
    requires
        wf(s),
        s.roster.contains_key(k),
    ensures
        resync(s).len() == shown(s, None).len(),
        exists|i: int|
            {
                &&& 0 <= i < resync(s).len()
                &&& (#[trigger] resync(s)[i]) matches EffectView::Broadcast(
                    PeerEventView::Updated(info),
                )
                &&& is_info_of(info, s.roster[k])
                &&& info.connectivity == own_link(s, k).0
                &&& info.connectivity_age_ms == own_link(s, k).1
            },
        forall|i: int|
            0 <= i < resync(s).len() ==> (#[trigger] resync(s)[i]) matches EffectView::Broadcast(
                PeerEventView::Updated(info),
            ),
{
    law_every_peer_is_shown(s, None, k);
    let all = shown(s, None);
    let j = choose|j: int|
        {
            &&& 0 <= j < all.len()
            &&& is_info_of(#[trigger] all[j], s.roster[k])
            &&& all[j].connectivity == seen_link(s, None, k).0
            &&& all[j].connectivity_age_ms == seen_link(s, None, k).1
        };
    assert(resync(s)[j] == EffectView::Broadcast(PeerEventView::Updated(all[j])));
}

} // verus!
