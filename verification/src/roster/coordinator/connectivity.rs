//! How peers are connected, as far as they say, and the roster as viewers see
//! it.

use crate::bindings::encoding::base64_text;
use crate::bindings::ids::{parse_uuid, uuid_text, uuid_value};
use crate::net::addr::{ipv6_text, Ipv6Addr};
use crate::order::listing;
use crate::roster::api::{infos, path_views, PathView, PeerInfo, PeerPathDto, InfoView};
use crate::roster::coordinator::state::{
    by_index, can_be_listed, entry_views, index_rank, law_peers_can_be_listed, wf, CoordView,
    Coordinator,
};
use crate::roster::entry::{info_of, PeerView};
use crate::text::opt_text;
use crate::traversal::holepunch::{canonical, canonical_pair};
use std::collections::HashMap;
use vstd::prelude::*;

verus! {

/// The paths that a report lists, by the peer that they lead to; the last
/// one counts, and one to no peer does not.
pub open spec fn reported_paths(paths: Seq<PathView>) -> Map<u128, (bool, u64)>
    decreases paths.len(),
{
    if paths.len() == 0 {
        Map::empty()
    } else {
        let before = reported_paths(paths.drop_last());
        let p = paths.last();
        match uuid_value(p.peer_id) {
            Some(k) => before.insert(k, (p.direct, p.last_rx_age_ms)),
            None => before,
        }
    }
}

/// The pairs that a report confirms as direct, in its order.
pub open spec fn confirmed_pairs(reporter: u128, paths: Seq<PathView>) -> Seq<(u128, u128)>
    decreases paths.len(),
{
    if paths.len() == 0 {
        Seq::empty()
    } else {
        let before = confirmed_pairs(reporter, paths.drop_last());
        let p = paths.last();
        match uuid_value(p.peer_id) {
            Some(k) => if p.direct {
                before.push(canonical(reporter, k))
            } else {
                before
            },
            None => before,
        }
    }
}

/// The state with what a peer reports of its paths, in place of what it
/// reported before; a report of an unknown peer changes nothing.
pub open spec fn with_paths(s: CoordView, reporter: u128, paths: Seq<PathView>) -> CoordView {
    if s.roster.contains_key(reporter) {
        CoordView {
            roster: s.roster.insert(
                reporter,
                PeerView { paths: reported_paths(paths), ..s.roster[reporter] },
            ),
            ..s
        }
    } else {
        s
    }
}

/// The state with what a peer says of whether its tunnels carry data; a word of
/// an unknown peer changes nothing.
pub open spec fn with_health(s: CoordView, reporter: u128, healthy: bool) -> CoordView {
    if s.roster.contains_key(reporter) {
        CoordView {
            roster: s.roster.insert(
                reporter,
                PeerView { dataplane_healthy: healthy, ..s.roster[reporter] },
            ),
            ..s
        }
    } else {
        s
    }
}

/// Whether any of the paths is direct.
pub open spec fn any_direct(paths: Map<u128, (bool, u64)>) -> bool {
    exists|k: u128| #[trigger] paths.contains_key(k) && paths[k].0
}

/// Whether `age` is the smallest age of the paths.
pub open spec fn is_least_age(paths: Map<u128, (bool, u64)>, age: u64) -> bool {
    &&& exists|k: u128| #[trigger] paths.contains_key(k) && paths[k].1 == age
    &&& forall|k: u128| #[trigger] paths.contains_key(k) ==> age <= paths[k].1
}

/// The smallest age of the paths.
pub open spec fn least_age(paths: Map<u128, (bool, u64)>) -> u64 {
    choose|age: u64| is_least_age(paths, age)
}

/// A word for a path.
pub open spec fn link_word(direct: bool) -> Seq<char> {
    if direct {
        "direct"@
    } else {
        "relay"@
    }
}

/// The path that one peer reported to another.
pub open spec fn edge_of(s: CoordView, vantage: u128, target: u128) -> Option<(bool, u64)> {
    if s.roster.contains_key(vantage) && s.roster[vantage].paths.contains_key(target) {
        Some(s.roster[vantage].paths[target])
    } else {
        None
    }
}

/// How a peer is connected by its own reports: directly where any path of it
/// is; nothing is known of a peer that reported no path.
pub open spec fn own_word(s: CoordView, id: u128) -> Option<Seq<char>> {
    if s.roster.contains_key(id) && s.roster[id].paths.dom() != Set::<u128>::empty() {
        Some(link_word(any_direct(s.roster[id].paths)))
    } else {
        None
    }
}

/// How a peer is connected by its own reports, and how fresh they are. A peer
/// whose tunnels carry no data counts as dead, whatever its paths say.
pub open spec fn own_link(s: CoordView, id: u128) -> (Option<Seq<char>>, Option<u64>) {
    if !s.roster.contains_key(id) {
        (None, None)
    } else if !s.roster[id].dataplane_healthy {
        (Some("dead"@), None)
    } else if s.roster[id].paths.dom() == Set::<u128>::empty() {
        (None, None)
    } else {
        (own_word(s, id), Some(least_age(s.roster[id].paths)))
    }
}

/// How a peer is connected as seen from `vantage`, or by its own reports
/// where there is no vantage.
pub open spec fn seen_link(s: CoordView, vantage: Option<u128>, id: u128) -> (
    Option<Seq<char>>,
    Option<u64>,
) {
    match vantage {
        None => own_link(s, id),
        Some(v) => match edge_of(s, v, id) {
            Some((direct, age)) => (Some(link_word(direct)), Some(age)),
            None => (None, None),
        },
    }
}

/// The roster as viewers see it, in the order of the index.
pub open spec fn shown(s: CoordView, vantage: Option<u128>) -> Seq<InfoView> {
    Seq::new(
        by_index(s.roster).len(),
        |i: int|
            {
                let e = by_index(s.roster)[i];
                let link = seen_link(s, vantage, e.peer_id);
                info_of(e, link.0, link.1)
            },
    )
}

/// The targets of paths.
pub(crate) fn path_targets(m: &HashMap<u128, (bool, u64)>) -> (r: Vec<u128>)
    ensures
        forall|i: int| 0 <= i < r@.len() ==> m@.contains_key(#[trigger] r@[i]),
        forall|k: u128| #[trigger] m@.contains_key(k) ==> r@.contains(k),
        r@.len() == 0 <==> m@.dom() == Set::<u128>::empty(),
{
    let mut r: Vec<u128> = Vec::new();
    for k in it: m.keys()
        invariant
            r@ == it.seq().unref().take(it.index() as int),
            it.seq().unref().to_set() == m@.dom(),
    {
        r.push(*k);
        assert(it.seq().unref().take(it.index() as int + 1) =~= it.seq().unref().take(
            it.index() as int,
        ).push(*k));
    }
    proof {
        let all = vstd::std_specs::iter::IteratorSpec::remaining(&m.keys()).unref();
        assert(r@ =~= all);
        assert(r@.to_set() == m@.dom());
        assert forall|i: int| 0 <= i < r@.len() implies m@.contains_key(#[trigger] r@[i]) by {
            assert(r@.to_set().contains(r@[i]));
        }
        assert forall|k: u128| #[trigger] m@.contains_key(k) implies r@.contains(k) by {
            assert(r@.to_set().contains(k));
        }
        if r@.len() == 0 {
            assert(m@.dom() =~= Set::<u128>::empty());
        } else {
            assert(m@.contains_key(r@[0]));
        }
    }
    r
}

fn has_direct(m: &HashMap<u128, (bool, u64)>) -> (r: bool)
    ensures
        r == any_direct(m@),
{
    let targets = path_targets(m);
    let mut i: usize = 0;
    while i < targets.len()
        invariant
            i <= targets@.len(),
            forall|j: int| 0 <= j < targets@.len() ==> m@.contains_key(#[trigger] targets@[j]),
            forall|j: int| 0 <= j < i ==> !m@[#[trigger] targets@[j]].0,
        decreases targets@.len() - i,
    {
        assert(m@.contains_key(targets@[i as int]));
        if let Some(p) = m.get(&targets[i]) {
            if p.0 {
                return true;
            }
        }
        i = i + 1;
    }
    proof {
        assert forall|k: u128| #[trigger] m@.contains_key(k) implies !m@[k].0 by {
            let j = choose|j: int| 0 <= j < targets@.len() && targets@[j] == k;
            assert(!m@[targets@[j]].0);
        }
    }
    false
}

fn freshest(m: &HashMap<u128, (bool, u64)>) -> (r: Option<u64>)
    ensures
        match r {
            Some(a) => m@.dom() != Set::<u128>::empty() && a == least_age(m@),
            None => m@.dom() == Set::<u128>::empty(),
        },
{
    let targets = path_targets(m);
    if targets.len() == 0 {
        return None;
    }
    assert(m@.contains_key(targets@[0]));
    let mut least: u64 = match m.get(&targets[0]) {
        Some(p) => p.1,
        None => 0,
    };
    let mut i: usize = 1;
    while i < targets.len()
        invariant
            1 <= i <= targets@.len(),
            forall|j: int| 0 <= j < targets@.len() ==> m@.contains_key(#[trigger] targets@[j]),
            exists|k: u128| #[trigger] m@.contains_key(k) && m@[k].1 == least,
            forall|j: int| 0 <= j < i ==> least <= m@[#[trigger] targets@[j]].1,
        decreases targets@.len() - i,
    {
        assert(m@.contains_key(targets@[i as int]));
        if let Some(p) = m.get(&targets[i]) {
            if p.1 < least {
                least = p.1;
            }
        }
        i = i + 1;
    }
    proof {
        assert forall|k: u128| #[trigger] m@.contains_key(k) implies least <= m@[k].1 by {
            let j = choose|j: int| 0 <= j < targets@.len() && targets@[j] == k;
            assert(least <= m@[targets@[j]].1);
        }
        assert(is_least_age(m@, least));
        let c = least_age(m@);
        assert(is_least_age(m@, c));
        assert(c == least);
    }
    Some(least)
}

fn word_for(direct: bool) -> (r: String)
    ensures
        r@ == link_word(direct),
{
    if direct {
        "direct".to_owned()
    } else {
        "relay".to_owned()
    }
}

impl Coordinator {
    /// Replaces the paths that a peer reports; says which pairs the report
    /// confirms as direct. A report of an unknown peer is ignored.
    pub fn record_peer_paths(&mut self, reporter: u128, paths: &Vec<PeerPathDto>) -> (r: Vec<
        (u128, u128),
    >)
        requires
            wf(old(self)@),
        ensures
            final(self)@ == with_paths(old(self)@, reporter, path_views(paths@)),
            r@ == (if old(self)@.roster.contains_key(reporter) {
                confirmed_pairs(reporter, path_views(paths@))
            } else {
                Seq::empty()
            }),
            wf(final(self)@),
    {
        let mut confirmed: Vec<(u128, u128)> = Vec::new();
        if let Some(entry) = self.entry(reporter) {
            let mut e = entry;
            let ghost all = path_views(paths@);
            let mut edges: HashMap<u128, (bool, u64)> = HashMap::new();
            let mut i: usize = 0;
            assert(all.take(0) =~= Seq::<PathView>::empty());
            while i < paths.len()
                invariant
                    i <= paths@.len(),
                    all == path_views(paths@),
                    edges@ == reported_paths(all.take(i as int)),
                    confirmed@ == confirmed_pairs(reporter, all.take(i as int)),
                decreases paths@.len() - i,
            {
                let p = &paths[i];
                proof {
                    assert(all.take(i + 1).drop_last() =~= all.take(i as int));
                    assert(all.take(i + 1).last() == p@);
                }
                match parse_uuid(p.peer_id.as_str()) {
                    Ok(target) => {
                        edges.insert(target, (p.direct, p.last_rx_age_ms));
                        if p.direct {
                            confirmed.push(canonical_pair(reporter, target));
                        }
                    },
                    Err(_) => {},
                }
                i = i + 1;
            }
            assert(all.take(all.len() as int) =~= all);
            e.paths = edges;
            self.put(reporter, e);
        }
        confirmed
    }

    /// Notes whether a peer says that its tunnels carry data.
    pub fn record_dataplane_health(&mut self, reporter: u128, healthy: bool)
        requires
            wf(old(self)@),
        ensures
            final(self)@ == with_health(old(self)@, reporter, healthy),
            wf(final(self)@),
    {
        if let Some(entry) = self.entry(reporter) {
            let mut e = entry;
            e.dataplane_healthy = healthy;
            self.put(reporter, e);
        }
    }

    /// The path that one peer reported to another.
    pub fn edge(&self, vantage: u128, target: u128) -> (r: Option<(bool, u64)>)
        ensures
            r == edge_of(self@, vantage, target),
    {
        match self.entry(vantage) {
            Some(e) => match e.paths.get(&target) {
                Some(p) => Some(*p),
                None => None,
            },
            None => None,
        }
    }

    /// How a peer is connected by its own reports.
    pub fn self_connectivity(&self, peer_id: u128) -> (r: Option<String>)
        ensures
            opt_text(r) == own_word(self@, peer_id),
    {
        match self.entry(peer_id) {
            Some(e) => if freshest(&e.paths).is_none() {
                None
            } else {
                Some(word_for(has_direct(&e.paths)))
            },
            None => None,
        }
    }

    /// How a peer is connected by its own reports, and how fresh they are.
    pub fn self_connectivity_aged(&self, peer_id: u128) -> (r: (Option<String>, Option<u64>))
        ensures
            opt_text(r.0) == own_link(self@, peer_id).0,
            r.1 == own_link(self@, peer_id).1,
    {
        match self.entry(peer_id) {
            None => (None, None),
            Some(e) => {
                if !e.dataplane_healthy {
                    return (Some("dead".to_owned()), None);
                }
                match freshest(&e.paths) {
                    None => (None, None),
                    Some(age) => (Some(word_for(has_direct(&e.paths))), Some(age)),
                }
            },
        }
    }

    /// The roster as viewers see it, by the peers' own reports.
    pub fn snapshot(&self) -> (r: Vec<PeerInfo>)
        requires
            wf(self@),
        ensures
            can_be_listed(self@.roster),
            infos(r@) == shown(self@, None),
    {
        self.snapshot_with_vantage(None)
    }

    /// The roster as viewers see it, with connections as seen from a peer.
    pub fn snapshot_with_vantage(&self, vantage: Option<u128>) -> (r: Vec<PeerInfo>)
        requires
            wf(self@),
        ensures
            can_be_listed(self@.roster),
            infos(r@) == shown(self@, vantage),
    {
        proof {
            law_peers_can_be_listed(self@);
        }
        let all = self.ordered(true);
        let mut r: Vec<PeerInfo> = Vec::new();
        let mut i: usize = 0;
        while i < all.len()
            invariant
                i <= all@.len(),
                r@.len() == i,
                entry_views(all@) == by_index(self@.roster),
                forall|k: int| 0 <= k < i ==> (#[trigger] r@[k])@ == shown(self@, vantage)[k],
            decreases all@.len() - i,
        {
            let e = &all[i];
            assert(entry_views(all@)[i as int] == e@);
            let (connectivity, age) = match vantage {
                None => self.self_connectivity_aged(e.peer_id),
                Some(v) => match self.edge(v, e.peer_id) {
                    Some((direct, age)) => (Some(word_for(direct)), Some(age)),
                    None => (None, None),
                },
            };
            r.push(e.to_info_with_connectivity(connectivity, age));
            i = i + 1;
        }
        assert(entry_views(all@).len() == all@.len());
        assert(infos(r@) =~= shown(self@, vantage));
        r
    }

    /// Whether a public key is known.
    pub fn is_registered_pubkey(&self, pk: &[u8]) -> (r: bool)
        ensures
            r == self@.by_pubkey.contains_key(pk@),
    {
        self.id_of_key(pk).is_some()
    }

    /// The peer with a public key, and its address.
    pub fn peer_for_pubkey(&self, pk: &[u8]) -> (r: Option<(u128, Ipv6Addr)>)
        ensures
            r == (if self@.by_pubkey.contains_key(pk@) && self@.roster.contains_key(
                self@.by_pubkey[pk@],
            ) {
                Some((self@.by_pubkey[pk@], self@.roster[self@.by_pubkey[pk@]].ula))
            } else {
                None
            }),
    {
        match self.id_of_key(pk) {
            Some(id) => match self.entry(id) {
                Some(e) => Some((id, e.ula)),
                None => None,
            },
            None => None,
        }
    }
}

/// Whether the path at `i` of a report leads to `k`.
pub open spec fn leads_to(paths: Seq<PathView>, i: int, k: u128) -> bool {
    0 <= i < paths.len() && uuid_value(paths[i].peer_id) == Some(k)
}

/// Whether the path at `i` of a report leads to `k`, and none after it does.
pub open spec fn leads_last_to(paths: Seq<PathView>, i: int, k: u128) -> bool {
    &&& leads_to(paths, i, k)
    &&& forall|j: int| i < j < paths.len() ==> uuid_value(#[trigger] paths[j].peer_id) != Some(k)
}

/// What counts of a report is the last path that it lists to a peer, with what
/// it says there.
pub proof fn law_the_last_path_counts(paths: Seq<PathView>, i: int, k: u128)
    requires
        leads_last_to(paths, i, k),
    ensures
        reported_paths(paths).contains_key(k),
        reported_paths(paths)[k] == (paths[i].direct, paths[i].last_rx_age_ms),
    decreases paths.len(),
{
    let front = paths.drop_last();
    let n = front.len() as int;
    if i < n {
        assert(uuid_value(paths[n].peer_id) != Some(k));
        assert(front[i] == paths[i]);
        assert forall|j: int| i < j < n implies uuid_value(#[trigger] front[j].peer_id) != Some(
            k,
        ) by {
            assert(front[j] == paths[j]);
        }
        law_the_last_path_counts(front, i, k);
    }
}

/// No path counts but those that a report lists.
pub proof fn law_only_listed_paths_count(paths: Seq<PathView>, k: u128)
    requires
        reported_paths(paths).contains_key(k),
    ensures
        exists|i: int| #[trigger] leads_to(paths, i, k),
    decreases paths.len(),
{
    let front = paths.drop_last();
    let n = front.len() as int;
    if uuid_value(paths[n].peer_id) == Some(k) {
        assert(leads_to(paths, n, k));
    } else {
        law_only_listed_paths_count(front, k);
        let i = choose|i: int| #[trigger] leads_to(front, i, k);
        assert(front[i] == paths[i]);
        assert(leads_to(paths, i, k));
    }
}

/// A report confirms a pair exactly if it lists a direct path to the other one
/// of the two; the one with the smaller identifier comes first.
pub proof fn law_direct_paths_are_confirmed(reporter: u128, paths: Seq<PathView>, x: u128, y: u128)
    ensures
        confirmed_pairs(reporter, paths).contains((x, y)) <==> exists|i: int, k: u128|
            {
                &&& #[trigger] leads_to(paths, i, k)
                &&& paths[i].direct
                &&& x <= y
                &&& (x == reporter && y == k) || (x == k && y == reporter)
            },
    decreases paths.len(),
{
    let all = confirmed_pairs(reporter, paths);
    if paths.len() > 0 {
        let front = paths.drop_last();
        let n = front.len() as int;
        let before = confirmed_pairs(reporter, front);
        law_direct_paths_are_confirmed(reporter, front, x, y);
        assert forall|i: int, k: u128| 0 <= i < n implies leads_to(front, i, k) == leads_to(
            paths,
            i,
            k,
        ) by {
            assert(front[i] == paths[i]);
        }
        if before.contains((x, y)) {
            let m = choose|m: int| 0 <= m < before.len() && before[m] == (x, y);
            assert(all[m] == (x, y));
            let (i, k) = choose|i: int, k: u128|
                {
                    &&& #[trigger] leads_to(front, i, k)
                    &&& front[i].direct
                    &&& x <= y
                    &&& (x == reporter && y == k) || (x == k && y == reporter)
                };
            assert(leads_to(paths, i, k) && paths[i].direct);
        } else if all.contains((x, y)) {
            let m = choose|m: int| 0 <= m < all.len() && all[m] == (x, y);
            if m < before.len() {
                assert(before[m] == (x, y));
            }
            let k = uuid_value(paths.last().peer_id)->0;
            assert(leads_to(paths, n, k) && paths[n].direct);
        }
        if exists|i: int, k: u128|
            {
                &&& #[trigger] leads_to(paths, i, k)
                &&& paths[i].direct
                &&& x <= y
                &&& (x == reporter && y == k) || (x == k && y == reporter)
            } {
            let (i, k) = choose|i: int, k: u128|
                {
                    &&& #[trigger] leads_to(paths, i, k)
                    &&& paths[i].direct
                    &&& x <= y
                    &&& (x == reporter && y == k) || (x == k && y == reporter)
                };
            if i < n {
                assert(leads_to(front, i, k) && front[i].direct);
            } else {
                assert(all.last() == (x, y));
            }
        }
    }
}

/// A report that is made of two is worth what the two are worth, in their
/// order: the later one counts where both list a path to a peer.
pub proof fn law_reports_go_path_by_path(reporter: u128, a: Seq<PathView>, b: Seq<PathView>)
    ensures
        confirmed_pairs(reporter, a + b) == confirmed_pairs(reporter, a) + confirmed_pairs(
            reporter,
            b,
        ),
        reported_paths(a + b) == reported_paths(a).union_prefer_right(reported_paths(b)),
    decreases b.len(),
{
    if b.len() == 0 {
        assert(a + b =~= a);
        assert(confirmed_pairs(reporter, a) =~= confirmed_pairs(reporter, a) + confirmed_pairs(
            reporter,
            b,
        ));
        assert(reported_paths(a) =~= reported_paths(a).union_prefer_right(reported_paths(b)));
    } else {
        law_reports_go_path_by_path(reporter, a, b.drop_last());
        assert((a + b).drop_last() =~= a + b.drop_last());
        assert((a + b).last() == b.last());
        assert(confirmed_pairs(reporter, a + b) =~= confirmed_pairs(reporter, a) + confirmed_pairs(
            reporter,
            b,
        ));
        assert(reported_paths(a + b) =~= reported_paths(a).union_prefer_right(reported_paths(b)));
    }
}

proof fn lemma_some_least_age(paths: Map<u128, (bool, u64)>, k: u128)
    requires
        paths.contains_key(k),
    ensures
        exists|age: u64| #[trigger] is_least_age(paths, age),
    decreases paths[k].1,
{
    if forall|j: u128| #[trigger] paths.contains_key(j) ==> paths[k].1 <= paths[j].1 {
        assert(is_least_age(paths, paths[k].1));
    } else {
        let j = choose|j: u128| #[trigger] paths.contains_key(j) && paths[j].1 < paths[k].1;
        lemma_some_least_age(paths, j);
    }
}

/// What is said of how a peer is connected by its own reports. A peer whose
/// tunnels carry no data is dead. Of one that reported no path nothing is said.
/// Any other is connected directly exactly if one of its paths is direct, and
/// otherwise by relay, and its age is the least of the ages of its paths.
pub proof fn law_what_own_reports_say(s: CoordView, id: u128)
    requires
        s.roster.contains_key(id),
    ensures
        ({
            let e = s.roster[id];
            let link = own_link(s, id);
            &&& !e.dataplane_healthy ==> link == (Some("dead"@), None::<u64>)
            &&& e.dataplane_healthy && (forall|k: u128| !#[trigger] e.paths.contains_key(k)) ==> link
                == (None::<Seq<char>>, None::<u64>)
            &&& forall|k: u128|
                e.dataplane_healthy && #[trigger] e.paths.contains_key(k) ==> {
                    &&& link.0 is Some
                    &&& link.1 is Some
                    &&& e.paths[k].0 ==> link.0 == Some("direct"@)
                    &&& link.1->0 <= e.paths[k].1
                }
            &&& link.0 == Some("direct"@) ==> exists|k: u128| #[trigger]
                e.paths.contains_key(k) && e.paths[k].0
            &&& e.dataplane_healthy ==> link.0 is None || link.0 == Some("direct"@) || link.0
                == Some("relay"@)
            &&& link.1 is Some ==> exists|k: u128| #[trigger]
                e.paths.contains_key(k) && e.paths[k].1 == link.1->0
            &&& own_word(s, id) is None <==> (forall|k: u128| !#[trigger] e.paths.contains_key(k))
            &&& own_word(s, id) == Some("direct"@) <==> exists|k: u128| #[trigger]
                e.paths.contains_key(k) && e.paths[k].0
            &&& own_word(s, id) is Some ==> own_word(s, id) == Some("direct"@) || own_word(s, id)
                == Some("relay"@)
        }),
{
    reveal_strlit("dead");
    reveal_strlit("direct");
    reveal_strlit("relay");
    assert("dead"@.len() == 4 && "direct"@.len() == 6 && "relay"@.len() == 5);
    let e = s.roster[id];
    let link = own_link(s, id);
    if forall|k: u128| !#[trigger] e.paths.contains_key(k) {
        assert(e.paths.dom() =~= Set::<u128>::empty());
    } else {
        let k = choose|k: u128| #[trigger] e.paths.contains_key(k);
        assert(e.paths.dom().contains(k));
        assert(e.paths.dom() != Set::<u128>::empty());
        lemma_some_least_age(e.paths, k);
        assert(is_least_age(e.paths, least_age(e.paths)));
    }
    assert forall|k: u128| e.dataplane_healthy && #[trigger] e.paths.contains_key(k) implies {
        &&& link.0 is Some
        &&& link.1 is Some
        &&& e.paths[k].0 ==> link.0 == Some("direct"@)
        &&& link.1->0 <= e.paths[k].1
    } by {
        assert(e.paths.dom().contains(k));
        assert(e.paths.dom() != Set::<u128>::empty());
    }
}

/// Seen from a peer, another is connected as that peer reported it and in no
/// other way: by the path that it listed, or nothing is known. Without a peer
/// to see it from, its own reports are what is said of it.
pub proof fn law_what_a_vantage_sees(s: CoordView, v: u128, id: u128)
    ensures
        s.roster.contains_key(v) && s.roster[v].paths.contains_key(id) ==> {
            let p = s.roster[v].paths[id];
            &&& seen_link(s, Some(v), id).1 == Some(p.1)
            &&& p.0 ==> seen_link(s, Some(v), id).0 == Some("direct"@)
            &&& !p.0 ==> seen_link(s, Some(v), id).0 == Some("relay"@)
            &&& edge_of(s, v, id) == Some(p)
        },
        !(s.roster.contains_key(v) && s.roster[v].paths.contains_key(id)) ==> {
            &&& seen_link(s, Some(v), id) == (None::<Seq<char>>, None::<u64>)
            &&& edge_of(s, v, id) is None
        },
        seen_link(s, None, id) == own_link(s, id),
{
}

/// Whether what viewers are shown of a peer is what the roster has of it.
pub open spec fn is_info_of(i: InfoView, e: PeerView) -> bool {
    &&& i.peer_id == uuid_text(e.peer_id)
    &&& i.wg_public_key == base64_text(e.wg_public_key)
    &&& i.ula == ipv6_text(e.ula)
    &&& i.listen_endpoint == e.listen_endpoint
    &&& i.display_name == e.display_name
    &&& i.network == e.network
    &&& i.tags == e.tags
    &&& i.hosted_app_ulas == e.hosted_app_ulas
    &&& i.joined_at_micros == e.joined_at_micros
    &&& i.kind == e.kind
    &&& i.parent == e.parent
    &&& i.app_uuid == e.app_uuid
    &&& i.software_version == e.software_version
    &&& i.mesh_version == e.mesh_version
    &&& i.relay_only == e.relay_only
}

/// Every peer is shown, as the roster has it and with how it is connected as
/// seen from where the viewer looks.
pub proof fn law_every_peer_is_shown(s: CoordView, vantage: Option<u128>, k: u128)
    requires
        wf(s),
        s.roster.contains_key(k),
    ensures
        exists|j: int|
            {
                &&& 0 <= j < shown(s, vantage).len()
                &&& is_info_of(#[trigger] shown(s, vantage)[j], s.roster[k])
                &&& shown(s, vantage)[j].connectivity == seen_link(s, vantage, k).0
                &&& shown(s, vantage)[j].connectivity_age_ms == seen_link(s, vantage, k).1
            },
{
    law_peers_can_be_listed(s);
    let ids = listing(s.roster.dom(), index_rank(s.roster));
    assert(s.roster.dom().contains(k));
    let j = choose|j: int| 0 <= j < ids.len() && ids[j] == k;
    assert(by_index(s.roster)[j] == s.roster[k]);
    assert(is_info_of(shown(s, vantage)[j], s.roster[k]));
}

/// Nothing is shown but peers of the roster.
pub proof fn law_only_peers_are_shown(s: CoordView, vantage: Option<u128>, j: int)
    requires
        wf(s),
        0 <= j < shown(s, vantage).len(),
    ensures
        exists|k: u128| #[trigger]
            s.roster.contains_key(k) && is_info_of(shown(s, vantage)[j], s.roster[k]),
{
    law_peers_can_be_listed(s);
    let ids = listing(s.roster.dom(), index_rank(s.roster));
    assert(s.roster.dom().contains(ids[j]));
    assert(s.roster.contains_key(ids[j]));
}

/// What is shown stands in the order of the index, and of the identifier where
/// that is the same, so that no peer is shown twice.
pub proof fn law_shown_peers_are_sorted(s: CoordView, vantage: Option<u128>, i: int, j: int)
    requires
        wf(s),
        0 <= i < j < shown(s, vantage).len(),
    ensures
        exists|a: u128, b: u128|
            {
                &&& #[trigger] s.roster.contains_key(a)
                &&& #[trigger] s.roster.contains_key(b)
                &&& shown(s, vantage)[i].peer_id == uuid_text(a)
                &&& shown(s, vantage)[j].peer_id == uuid_text(b)
                &&& s.roster[a].peer_index < s.roster[b].peer_index || (s.roster[a].peer_index
                    == s.roster[b].peer_index && a < b)
            },
{
    law_peers_can_be_listed(s);
    let ids = listing(s.roster.dom(), index_rank(s.roster));
    let a = ids[i];
    let b = ids[j];
    assert(s.roster.dom().contains(a) && s.roster.dom().contains(b));
    assert(index_rank(s.roster)(a) < index_rank(s.roster)(b));
    assert(s.roster.contains_key(a) && s.roster.contains_key(b));
}

/// What a report of paths changes: the paths of the peer that made it are those
/// that it lists now and no others, whatever they were; nothing else of it
/// changes, and nobody else.
pub proof fn law_reports_replace_paths(
    s: CoordView,
    reporter: u128,
    paths: Seq<PathView>,
    other: u128,
    k: u128,
)
    ensures
        ({
            let t = with_paths(s, reporter, paths);
            &&& !s.roster.contains_key(reporter) ==> t == s
            &&& s.roster.contains_key(reporter) ==> {
                let e = t.roster[reporter];
                &&& e == (PeerView { paths: e.paths, ..s.roster[reporter] })
                &&& e.paths.contains_key(k) <==> exists|i: int| #[trigger] leads_to(paths, i, k)
                &&& t == (CoordView { roster: t.roster, ..s })
            }
            &&& t.roster.contains_key(other) <==> s.roster.contains_key(other)
            &&& other != reporter && s.roster.contains_key(other) ==> t.roster[other]
                == s.roster[other]
        }),
{
    if reported_paths(paths).contains_key(k) {
        law_only_listed_paths_count(paths, k);
    }
    if exists|i: int| #[trigger] leads_to(paths, i, k) {
        let i = choose|i: int| #[trigger] leads_to(paths, i, k);
        let j = lemma_leads_last(paths, i, k);
        law_the_last_path_counts(paths, j, k);
    }
}

/// Where a path leads to a peer, there is a last one that does.
proof fn lemma_leads_last(paths: Seq<PathView>, i: int, k: u128) -> (j: int)
    requires
        leads_to(paths, i, k),
    ensures
        leads_last_to(paths, j, k),
    decreases paths.len() - i,
{
    if exists|j: int| i < j < paths.len() && leads_to(paths, j, k) {
        let j = choose|j: int| i < j < paths.len() && leads_to(paths, j, k);
        lemma_leads_last(paths, j, k)
    } else {
        assert forall|j: int| i < j < paths.len() implies uuid_value(
            #[trigger] paths[j].peer_id,
        ) != Some(k) by {
            assert(!leads_to(paths, j, k));
        }
        i
    }
}

/// What a word on a peer's tunnels changes: whether it counts as healthy, and
/// nothing else of it, and nobody else.
pub proof fn law_what_health_reports_change(
    s: CoordView,
    reporter: u128,
    healthy: bool,
    other: u128,
)
    ensures
        ({
            let t = with_health(s, reporter, healthy);
            &&& !s.roster.contains_key(reporter) ==> t == s
            &&& s.roster.contains_key(reporter) ==> {
                let e = t.roster[reporter];
                &&& e.dataplane_healthy == healthy
                &&& e == (PeerView { dataplane_healthy: healthy, ..s.roster[reporter] })
                &&& !healthy ==> own_link(t, reporter).0 == Some("dead"@)
                &&& healthy ==> own_link(t, reporter).0 == own_word(s, reporter)
                &&& t == (CoordView { roster: t.roster, ..s })
            }
            &&& t.roster.contains_key(other) <==> s.roster.contains_key(other)
            &&& other != reporter && s.roster.contains_key(other) ==> t.roster[other]
                == s.roster[other]
        }),
{
}

} // verus!
