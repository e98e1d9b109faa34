//! The graph of machines: which there are and how they reach each other.

use crate::bindings::ids::{
    id_text, lemma_uuid_order, lemma_uuid_round_trip, text_before, uuid_text,
};
use crate::net::addr::{ipv6_text, segs};
use crate::order::{increasing, lemma_listing, lemma_listing_exists, listing, lists};
use crate::roster::api::{
    edge_views, machine_views, EdgeView, MachineView, TopologyEdge, TopologyMachine,
    TopologyResponse,
};
use crate::roster::coordinator::connectivity::own_link;
use crate::roster::coordinator::state::{
    by_index, can_be_listed, entry_views, index_rank, law_peers_can_be_listed, wf, CoordView,
    Coordinator,
};
use crate::roster::entry::{is_machine, machine, PeerEntry, PeerView};
use crate::text::{
    clone_opt, clone_strings, keep_if, lemma_keep_members, lemma_keep_order, lemma_keep_step,
};
use crate::traversal::holepunch::canonical;
use vstd::prelude::*;

verus! {

/// Tells machines from runners.
pub open spec fn machines_only() -> spec_fn(PeerView) -> bool {
    |e: PeerView| machine(e)
}

/// A machine as the graph shows it.
pub open spec fn machine_of(s: CoordView, e: PeerView) -> MachineView {
    MachineView {
        peer_id: uuid_text(e.peer_id),
        name: e.display_name,
        ula: ipv6_text(e.ula),
        tags: e.tags,
        relay_only: e.relay_only,
        software_version: e.software_version,
        mesh_version: e.mesh_version,
        connectivity: own_link(s, e.peer_id).0,
    }
}

/// The machines of the graph, in the order of their index.
pub open spec fn graph_machines(s: CoordView) -> Seq<MachineView> {
    let kept = keep_if(by_index(s.roster), machines_only());
    Seq::new(kept.len(), |i: int| machine_of(s, kept[i]))
}

/// Whether `a` is a machine that reported a path to `b`.
pub open spec fn reports(s: CoordView, a: u128, b: u128) -> bool {
    s.roster.contains_key(a) && machine(s.roster[a]) && s.roster[a].paths.contains_key(b)
}

/// Whether a pair is an edge of the graph: two machines, in the order of their
/// identifiers, of which one reported a path to the other. No machine has an
/// edge to itself, whatever it reported.
pub open spec fn is_link(s: CoordView, p: (u128, u128)) -> bool {
    &&& p.0 < p.1
    &&& s.roster.contains_key(p.0) && machine(s.roster[p.0])
    &&& s.roster.contains_key(p.1) && machine(s.roster[p.1])
    &&& reports(s, p.0, p.1) || reports(s, p.1, p.0)
}

/// The edges of the graph.
pub open spec fn links(s: CoordView) -> Set<(u128, u128)> {
    Set::new(|p: (u128, u128)| is_link(s, p))
}

/// The rank that orders pairs by the first identifier and then by the second.
pub open spec fn pair_rank() -> spec_fn((u128, u128)) -> int {
    |p: (u128, u128)| p.0 * 0x1_0000_0000_0000_0000_0000_0000_0000_0000 + p.1
}

/// The path of `a` to `b`, as `a` reported it.
pub open spec fn told_path(s: CoordView, a: u128, b: u128) -> Option<(bool, u64)> {
    if reports(s, a, b) {
        Some(s.roster[a].paths[b])
    } else {
        None
    }
}

/// Two reports as one: direct where either is, and as old as the fresher one.
pub open spec fn merged(a: Option<(bool, u64)>, b: Option<(bool, u64)>) -> (bool, u64) {
    match (a, b) {
        (Some(x), Some(y)) => (
            x.0 || y.0,
            if x.1 <= y.1 {
                x.1
            } else {
                y.1
            },
        ),
        (Some(x), None) => x,
        (None, Some(y)) => y,
        (None, None) => (false, 0),
    }
}

/// An edge as the graph shows it.
pub open spec fn edge_view(s: CoordView, p: (u128, u128)) -> EdgeView {
    let m = merged(told_path(s, p.0, p.1), told_path(s, p.1, p.0));
    EdgeView { from: uuid_text(p.0), to: uuid_text(p.1), direct: m.0, age_ms: m.1 }
}

/// The edges of the graph, each once, in the order of their two identifiers.
pub open spec fn graph_edges(s: CoordView) -> Seq<EdgeView> {
    let ps = listing(links(s), pair_rank());
    Seq::new(ps.len(), |i: int| edge_view(s, ps[i]))
}

fn merge_reports(a: Option<(bool, u64)>, b: Option<(bool, u64)>) -> (r: (bool, u64))
    ensures
        r == merged(a, b),
{
    match (a, b) {
        (Some(x), Some(y)) => (
            x.0 || y.0,
            if x.1 <= y.1 {
                x.1
            } else {
                y.1
            },
        ),
        (Some(x), None) => x,
        (None, Some(y)) => y,
        (None, None) => (false, 0),
    }
}

fn path_to(e: &PeerEntry, target: u128) -> (r: Option<(bool, u64)>)
    ensures
        r == (if e@.paths.contains_key(target) {
            Some(e@.paths[target])
        } else {
            None
        }),
{
    match e.paths.get(&target) {
        Some(p) => Some(*p),
        None => None,
    }
}

/// The machines among entries.
fn only_machines(all: &Vec<PeerEntry>) -> (r: Vec<PeerEntry>)
    ensures
        entry_views(r@) == keep_if(entry_views(all@), machines_only()),
{
    let ghost views = entry_views(all@);
    let ghost f = machines_only();
    let mut r: Vec<PeerEntry> = Vec::new();
    let mut i: usize = 0;
    assert(views.take(0) =~= Seq::<PeerView>::empty());
    assert(entry_views(r@) =~= Seq::<PeerView>::empty());
    while i < all.len()
        invariant
            i <= all@.len(),
            views == entry_views(all@),
            f == machines_only(),
            entry_views(r@) == keep_if(views.take(i as int), f),
        decreases all@.len() - i,
    {
        proof {
            lemma_keep_step(views, f, i as int);
            assert(views[i as int] == all@[i as int]@);
        }
        if is_machine(&all[i]) {
            let ghost before = r@;
            r.push(all[i].clone());
            assert(entry_views(r@) =~= entry_views(before).push(views[i as int]));
        }
        i = i + 1;
    }
    assert(views.take(views.len() as int) =~= views);
    r
}

/// Whether entries are the machines of the roster, by identifier.
spec fn are_machines(s: CoordView, ms: Seq<PeerEntry>) -> bool {
    &&& forall|i: int|
        0 <= i < ms.len() ==> s.roster.contains_key((#[trigger] ms[i]).peer_id) && ms[i]@
            == s.roster[ms[i].peer_id] && machine(ms[i]@)
    &&& forall|i: int, j: int|
        0 <= i < j < ms.len() ==> (#[trigger] ms[i]).peer_id < (#[trigger] ms[j]).peer_id
    &&& forall|k: u128| #[trigger]
        s.roster.contains_key(k) && machine(s.roster[k]) ==> exists|i: int|
            0 <= i < ms.len() && (#[trigger] ms[i]).peer_id == k
}

/// What has been found once the pairs up to machine `i` with machine `j` have
/// been looked at.
spec fn found(
    s: CoordView,
    ms: Seq<PeerEntry>,
    i: int,
    j: int,
    ps: Seq<(u128, u128)>,
    es: Seq<TopologyEdge>,
) -> bool {
    &&& es.len() == ps.len()
    &&& forall|k: int| 0 <= k < ps.len() ==> (#[trigger] es[k])@ == edge_view(s, ps[k])
    &&& increasing(ps, pair_rank())
    &&& forall|k: int|
        0 <= k < ps.len() ==> is_link(s, #[trigger] ps[k]) && seen(ms, i, j, ps[k])
    &&& forall|p: (u128, u128)| is_link(s, p) && #[trigger] seen(ms, i, j, p) ==> ps.contains(p)
}

/// Whether a pair is among those that have been looked at.
spec fn seen(ms: Seq<PeerEntry>, i: int, j: int, p: (u128, u128)) -> bool {
    exists|x: int, y: int|
        0 <= x < y < ms.len() && (x < i || (x == i && y < j)) && p == (
            (#[trigger] ms[x]).peer_id,
            (#[trigger] ms[y]).peer_id,
        )
}

impl Coordinator {
    /// The graph of machines.
    pub fn topology(&self) -> (r: TopologyResponse)
        requires
            wf(self@),
        ensures
            can_be_listed(self@.roster),
            lists(listing(links(self@), pair_rank()), links(self@), pair_rank()),
            machine_views(r.machines@) == graph_machines(self@),
            edge_views(r.edges@) == graph_edges(self@),
    {
        proof {
            law_peers_can_be_listed(self@);
            lemma_edges_listed(self@);
        }
        TopologyResponse { machines: self.graph_nodes(), edges: self.graph_links() }
    }

    fn graph_nodes(&self) -> (r: Vec<TopologyMachine>)
        requires
            wf(self@),
        ensures
            machine_views(r@) == graph_machines(self@),
    {
        let all = self.ordered(true);
        let ms = only_machines(&all);
        let ghost kept = keep_if(by_index(self@.roster), machines_only());
        let mut r: Vec<TopologyMachine> = Vec::new();
        let mut i: usize = 0;
        while i < ms.len()
            invariant
                i <= ms@.len(),
                r@.len() == i,
                entry_views(ms@) == kept,
                forall|k: int| 0 <= k < i ==> (#[trigger] r@[k])@ == machine_of(self@, kept[k]),
            decreases ms@.len() - i,
        {
            let e = &ms[i];
            assert(entry_views(ms@)[i as int] == e@);
            r.push(
                TopologyMachine {
                    peer_id: id_text(e.peer_id),
                    name: e.display_name.clone(),
                    ula: e.ula.to_text(),
                    tags: clone_strings(&e.tags),
                    relay_only: e.relay_only,
                    software_version: clone_opt(&e.software_version),
                    mesh_version: clone_opt(&e.mesh_version),
                    connectivity: self.self_connectivity_aged(e.peer_id).0,
                },
            );
            i = i + 1;
        }
        assert(entry_views(ms@).len() == ms@.len());
        assert(machine_views(r@) =~= graph_machines(self@));
        r
    }

    fn machines_by_id(&self) -> (r: Vec<PeerEntry>)
        requires
            wf(self@),
        ensures
            are_machines(self@, r@),
    {
        let all = self.ordered(false);
        let mut r: Vec<PeerEntry> = Vec::new();
        let mut i: usize = 0;
        let ghost s = self@;
        while i < all.len()
            invariant
                i <= all@.len(),
                s == self@,
                wf(s),
                forall|k: int|
                    0 <= k < all@.len() ==> s.roster.contains_key((#[trigger] all@[k]).peer_id)
                        && all@[k]@ == s.roster[all@[k].peer_id],
                forall|j: int, k: int|
                    0 <= j < k < all@.len() ==> (#[trigger] all@[j]).peer_id < (
                    #[trigger] all@[k]).peer_id,
                forall|j: int|
                    0 <= j < r@.len() ==> s.roster.contains_key((#[trigger] r@[j]).peer_id)
                        && r@[j]@ == s.roster[r@[j].peer_id] && machine(r@[j]@),
                forall|j: int, k: int|
                    0 <= j < k < r@.len() ==> (#[trigger] r@[j]).peer_id < (
                    #[trigger] r@[k]).peer_id,
                forall|j: int, k: int|
                    0 <= j < r@.len() && i <= k < all@.len() ==> (#[trigger] r@[j]).peer_id < (
                    #[trigger] all@[k]).peer_id,
                forall|k: int|
                    0 <= k < i && machine((#[trigger] all@[k])@) ==> exists|j: int|
                        0 <= j < r@.len() && (#[trigger] r@[j]).peer_id == all@[k].peer_id,
            decreases all@.len() - i,
        {
            let ghost before = r@;
            if is_machine(&all[i]) {
                let e = all[i].clone();
                assert(e.peer_id == all@[i as int].peer_id) by {
                    assert(e@.peer_id == all@[i as int]@.peer_id);
                }
                r.push(e);
                assert(r@[before.len() as int].peer_id == all@[i as int].peer_id);
            }
            assert forall|k: int|
                0 <= k < i + 1 && machine((#[trigger] all@[k])@) implies exists|j: int|
                0 <= j < r@.len() && (#[trigger] r@[j]).peer_id == all@[k].peer_id by {
                if k < i {
                    let j = choose|j: int|
                        0 <= j < before.len() && (#[trigger] before[j]).peer_id == all@[k].peer_id;
                    assert(r@[j] == before[j]);
                }
            }
            i = i + 1;
        }
        proof {
            assert forall|k: u128| #[trigger]
                s.roster.contains_key(k) && machine(s.roster[k]) implies exists|j: int|
                0 <= j < r@.len() && (#[trigger] r@[j]).peer_id == k by {
                let m = choose|m: int| 0 <= m < all@.len() && (#[trigger] all@[m]).peer_id == k;
                assert(machine(all@[m]@));
            }
        }
        r
    }

    fn graph_links(&self) -> (r: Vec<TopologyEdge>)
        requires
            wf(self@),
        ensures
            edge_views(r@) == graph_edges(self@),
    {
        let ms = self.machines_by_id();
        let ghost s = self@;
        let ghost mut ps: Seq<(u128, u128)> = Seq::empty();
        let mut r: Vec<TopologyEdge> = Vec::new();
        let mut i: usize = 0;
        let n = ms.len();
        while i < n
            invariant
                i <= n,
                n == ms@.len(),
                s == self@,
                are_machines(s, ms@),
                found(s, ms@, i as int, i + 1, ps, r@),
            decreases n - i,
        {
            let mut j: usize = i + 1;
            while j < n
                invariant
                    i < j <= n,
                    i < n,
                    n == ms@.len(),
                    s == self@,
                    are_machines(s, ms@),
                    found(s, ms@, i as int, j as int, ps, r@),
                decreases n - j,
            {
                let a = &ms[i];
                let b = &ms[j];
                let ghost p = (a.peer_id, b.peer_id);
                proof {
                    assert(a@ == s.roster[a.peer_id] && machine(a@));
                    assert(b@ == s.roster[b.peer_id] && machine(b@));
                    lemma_new_pair(s, ms@, i as int, j as int, ps);
                }
                let there = path_to(a, b.peer_id);
                let back = path_to(b, a.peer_id);
                let ghost before = (ps, r@);
                if there.is_some() || back.is_some() {
                    let m = merge_reports(there, back);
                    r.push(
                        TopologyEdge {
                            from: id_text(a.peer_id),
                            to: id_text(b.peer_id),
                            direct: m.0,
                            age_ms: m.1,
                        },
                    );
                    proof {
                        ps = ps.push(p);
                        assert(is_link(s, p));
                        assert(r@.last()@ == edge_view(s, p));
                        assert(r@.drop_last() =~= before.1);
                    }
                } else {
                    assert(!is_link(s, p));
                }
                proof {
                    lemma_found_step(
                        s,
                        ms@,
                        i as int,
                        j as int,
                        before.0,
                        before.1,
                        ps,
                        r@,
                    );
                }
                j = j + 1;
            }
            proof {
                lemma_found_row(s, ms@, i as int, ps, r@);
            }
            i = i + 1;
        }
        proof {
            lemma_found_all(s, ms@, ps, r@);
            assert(edge_views(r@) =~= graph_edges(s));
        }
        r
    }
}

/// A pair that comes next has not been found yet and comes behind all that
/// have.
proof fn lemma_new_pair(s: CoordView, ms: Seq<PeerEntry>, i: int, j: int, ps: Seq<(u128, u128)>)
    requires
        are_machines(s, ms),
        0 <= i < j < ms.len(),
        forall|k: int| 0 <= k < ps.len() ==> seen(ms, i, j, #[trigger] ps[k]),
    ensures
        forall|k: int|
            0 <= k < ps.len() ==> pair_rank()(#[trigger] ps[k]) < pair_rank()(
                (ms[i].peer_id, ms[j].peer_id),
            ),
{
    assert forall|k: int| 0 <= k < ps.len() implies pair_rank()(#[trigger] ps[k]) < pair_rank()(
        (ms[i].peer_id, ms[j].peer_id),
    ) by {
        let (x, y) = choose|x: int, y: int|
            0 <= x < y < ms.len() && (x < i || (x == i && y < j)) && ps[k] == (
                (#[trigger] ms[x]).peer_id,
                (#[trigger] ms[y]).peer_id,
            );
        if x < i {
            assert(ms[x].peer_id < ms[i].peer_id);
        } else {
            assert(ms[y].peer_id < ms[j].peer_id);
        }
    }
}

proof fn lemma_found_step(
    s: CoordView,
    ms: Seq<PeerEntry>,
    i: int,
    j: int,
    ps: Seq<(u128, u128)>,
    es: Seq<TopologyEdge>,
    ps2: Seq<(u128, u128)>,
    es2: Seq<TopologyEdge>,
)
    requires
        are_machines(s, ms),
        0 <= i < j < ms.len(),
        found(s, ms, i, j, ps, es),
        ({
            let p = (ms[i].peer_id, ms[j].peer_id);
            if is_link(s, p) {
                &&& ps2 == ps.push(p)
                &&& es2.len() == es.len() + 1
                &&& es2.drop_last() == es
                &&& es2.last()@ == edge_view(s, p)
            } else {
                &&& ps2 == ps
                &&& es2 == es
            }
        }),
    ensures
        found(s, ms, i, j + 1, ps2, es2),
{
    let p = (ms[i].peer_id, ms[j].peer_id);
    lemma_new_pair(s, ms, i, j, ps);
    assert forall|q: (u128, u128)| #[trigger] seen(ms, i, j + 1, q) <==> seen(ms, i, j, q) || q
        == p by {
        if seen(ms, i, j + 1, q) {
            let (x, y) = choose|x: int, y: int|
                0 <= x < y < ms.len() && (x < i || (x == i && y < j + 1)) && q == (
                    (#[trigger] ms[x]).peer_id,
                    (#[trigger] ms[y]).peer_id,
                );
            if !(x < i || (x == i && y < j)) {
                assert(x == i && y == j);
            }
        }
        if seen(ms, i, j, q) {
            let (x, y) = choose|x: int, y: int|
                0 <= x < y < ms.len() && (x < i || (x == i && y < j)) && q == (
                    (#[trigger] ms[x]).peer_id,
                    (#[trigger] ms[y]).peer_id,
                );
            assert(q == (ms[x].peer_id, ms[y].peer_id));
        }
        if q == p {
            assert(q == (ms[i].peer_id, ms[j].peer_id));
        }
    }
    if is_link(s, p) {
        assert forall|k: int| 0 <= k < ps2.len() implies (#[trigger] es2[k])@ == edge_view(
            s,
            ps2[k],
        ) by {
            if k < ps.len() {
                assert(es2[k] == es[k]);
            }
        }
        assert forall|k: int| 0 <= k < ps2.len() implies is_link(s, #[trigger] ps2[k]) && seen(
            ms,
            i,
            j + 1,
            ps2[k],
        ) by {
            if k < ps.len() {
                assert(ps2[k] == ps[k]);
                assert(seen(ms, i, j, ps[k]));
            }
        }
        assert forall|x: int, y: int| 0 <= x < y < ps2.len() implies pair_rank()(
            #[trigger] ps2[x],
        ) < pair_rank()(#[trigger] ps2[y]) by {
            assert(ps2[x] == ps[x]);
            if y < ps.len() {
                assert(ps2[y] == ps[y]);
            }
        }
        assert forall|q: (u128, u128)| is_link(s, q) && #[trigger] seen(
            ms,
            i,
            j + 1,
            q,
        ) implies ps2.contains(q) by {
            if q == p {
                assert(ps2[ps.len() as int] == q);
            } else {
                assert(seen(ms, i, j, q));
                let k = choose|k: int| 0 <= k < ps.len() && ps[k] == q;
                assert(ps2[k] == q);
            }
        }
    } else {
        assert forall|k: int| 0 <= k < ps2.len() implies is_link(s, #[trigger] ps2[k]) && seen(
            ms,
            i,
            j + 1,
            ps2[k],
        ) by {
            assert(seen(ms, i, j, ps[k]));
        }
        assert forall|q: (u128, u128)| is_link(s, q) && #[trigger] seen(
            ms,
            i,
            j + 1,
            q,
        ) implies ps2.contains(q) by {
            assert(seen(ms, i, j, q));
        }
    }
}

/// The end of a row is the start of the next.
proof fn lemma_found_row(
    s: CoordView,
    ms: Seq<PeerEntry>,
    i: int,
    ps: Seq<(u128, u128)>,
    es: Seq<TopologyEdge>,
)
    requires
        0 <= i < ms.len(),
        found(s, ms, i, ms.len() as int, ps, es),
    ensures
        found(s, ms, i + 1, i + 2, ps, es),
{
    assert forall|q: (u128, u128)| #[trigger] seen(ms, i + 1, i + 2, q) <==> seen(
        ms,
        i,
        ms.len() as int,
        q,
    ) by {
        if seen(ms, i + 1, i + 2, q) {
            let (x, y) = choose|x: int, y: int|
                0 <= x < y < ms.len() && (x < i + 1 || (x == i + 1 && y < i + 2)) && q == (
                    (#[trigger] ms[x]).peer_id,
                    (#[trigger] ms[y]).peer_id,
                );
            assert(q == (ms[x].peer_id, ms[y].peer_id));
        }
        if seen(ms, i, ms.len() as int, q) {
            let (x, y) = choose|x: int, y: int|
                0 <= x < y < ms.len() && (x < i || (x == i && y < ms.len())) && q == (
                    (#[trigger] ms[x]).peer_id,
                    (#[trigger] ms[y]).peer_id,
                );
            assert(q == (ms[x].peer_id, ms[y].peer_id));
        }
    }
    assert forall|k: int| 0 <= k < ps.len() implies is_link(s, #[trigger] ps[k]) && seen(
        ms,
        i + 1,
        i + 2,
        ps[k],
    ) by {
        assert(seen(ms, i, ms.len() as int, ps[k]));
    }
    assert forall|q: (u128, u128)| is_link(s, q) && #[trigger] seen(
        ms,
        i + 1,
        i + 2,
        q,
    ) implies ps.contains(q) by {
        assert(seen(ms, i, ms.len() as int, q));
    }
}

/// In the end all edges have been found.
proof fn lemma_found_all(
    s: CoordView,
    ms: Seq<PeerEntry>,
    ps: Seq<(u128, u128)>,
    es: Seq<TopologyEdge>,
)
    requires
        are_machines(s, ms),
        found(s, ms, ms.len() as int, ms.len() as int + 1, ps, es),
    ensures
        listing(links(s), pair_rank()) == ps,
{
    assert forall|p: (u128, u128)| #[trigger] links(s).contains(p) implies ps.contains(p) by {
        assert(is_link(s, p));
        assert(s.roster.contains_key(p.0) && s.roster.contains_key(p.1));
        let x = choose|x: int| 0 <= x < ms.len() && (#[trigger] ms[x]).peer_id == p.0;
        let y = choose|y: int| 0 <= y < ms.len() && (#[trigger] ms[y]).peer_id == p.1;
        if y < x {
            assert(ms[y].peer_id < ms[x].peer_id);
        }
        assert(p == (ms[x].peer_id, ms[y].peer_id));
        assert(seen(ms, ms.len() as int, ms.len() as int + 1, p));
    }
    lemma_listing(ps, links(s), pair_rank());
}

/// The pairs of a member of one set and a member of another.
spec fn pairs_of(a: Set<u128>, b: Set<u128>) -> Set<(u128, u128)> {
    Set::new(|p: (u128, u128)| a.contains(p.0) && b.contains(p.1))
}

proof fn lemma_pairs_finite(a: Set<u128>, b: Set<u128>)
    requires
        a.finite(),
        b.finite(),
    ensures
        pairs_of(a, b).finite(),
    decreases a.len(),
{
    if a.len() == 0 {
        assert(a =~= Set::<u128>::empty());
        assert(pairs_of(a, b) =~= Set::<(u128, u128)>::empty());
    } else {
        let x = a.choose();
        let row = |y: u128| (x, y);
        lemma_pairs_finite(a.remove(x), b);
        b.lemma_map_finite(row);
        assert forall|p: (u128, u128)| pairs_of(a, b).contains(p) == pairs_of(
            a.remove(x),
            b,
        ).union(b.map(row)).contains(p) by {
            if b.contains(p.1) {
                assert(b.map(row).contains(row(p.1)));
            }
        }
        assert(pairs_of(a, b) =~= pairs_of(a.remove(x), b).union(b.map(row)));
    }
}

/// The edges can be listed.
proof fn lemma_edges_listed(s: CoordView)
    requires
        wf(s),
    ensures
        lists(listing(links(s), pair_rank()), links(s), pair_rank()),
{
    let ids = s.roster.dom();
    lemma_pairs_finite(ids, ids);
    vstd::set_lib::lemma_len_subset(links(s), pairs_of(ids, ids));
    lemma_listing_exists(links(s), pair_rank());
}

/// The edges are sorted by their two texts.
pub proof fn law_edges_are_sorted(s: CoordView, i: int, j: int)
    requires
        wf(s),
        0 <= i < j < graph_edges(s).len(),
    ensures
        ({
            let x = graph_edges(s)[i];
            let y = graph_edges(s)[j];
            text_before(x.from, y.from) || (x.from == y.from && text_before(x.to, y.to))
        }),
{
    lemma_edges_listed(s);
    let ps = listing(links(s), pair_rank());
    assert(pair_rank()(ps[i]) < pair_rank()(ps[j]));
    if ps[i].0 < ps[j].0 {
        lemma_uuid_order(ps[i].0, ps[j].0);
    } else {
        assert(ps[i].0 == ps[j].0 && ps[i].1 < ps[j].1);
        lemma_uuid_order(ps[i].1, ps[j].1);
    }
}

/// An edge goes from the end with the smaller text to the other: no machine is
/// joined to itself.
pub proof fn law_edges_go_up(s: CoordView, i: int)
    requires
        wf(s),
        0 <= i < graph_edges(s).len(),
    ensures
        text_before(graph_edges(s)[i].from, graph_edges(s)[i].to),
        graph_edges(s)[i].from != graph_edges(s)[i].to,
{
    lemma_edges_listed(s);
    let ps = listing(links(s), pair_rank());
    assert(links(s).contains(ps[i]));
    lemma_uuid_order(ps[i].0, ps[i].1);
    lemma_uuid_round_trip(ps[i].0);
    lemma_uuid_round_trip(ps[i].1);
}

/// No two edges join the same two machines, in either direction.
pub proof fn law_pairs_have_one_edge(s: CoordView, i: int, j: int)
    requires
        wf(s),
        0 <= i < j < graph_edges(s).len(),
    ensures
        ({
            let x = graph_edges(s)[i];
            let y = graph_edges(s)[j];
            !(x.from == y.from && x.to == y.to) && !(x.from == y.to && x.to == y.from)
        }),
{
    lemma_edges_listed(s);
    let ps = listing(links(s), pair_rank());
    assert(pair_rank()(ps[i]) < pair_rank()(ps[j]));
    assert(links(s).contains(ps[i]) && links(s).contains(ps[j]));
    lemma_uuid_round_trip(ps[i].0);
    lemma_uuid_round_trip(ps[i].1);
    lemma_uuid_round_trip(ps[j].0);
    lemma_uuid_round_trip(ps[j].1);
}

/// Two machines of which one reported a path to the other are joined by an
/// edge, with what the two reports come to.
pub proof fn law_reported_pairs_are_joined(s: CoordView, a: u128, b: u128)
    requires
        wf(s),
        is_link(s, (a, b)),
    ensures
        graph_edges(s).contains(edge_view(s, (a, b))),
{
    lemma_edges_listed(s);
    let ps = listing(links(s), pair_rank());
    assert(links(s).contains((a, b)));
    let i = choose|i: int| 0 <= i < ps.len() && ps[i] == (a, b);
    assert(graph_edges(s)[i] == edge_view(s, (a, b)));
}

/// Whoever reports a path, the pair is the same edge.
pub proof fn law_edges_have_no_direction(s: CoordView, a: u128, b: u128)
    ensures
        links(s).contains(canonical(a, b)) <==> links(s).contains(canonical(b, a)),
        merged(told_path(s, a, b), told_path(s, b, a)) == merged(
            told_path(s, b, a),
            told_path(s, a, b),
        ),
{
}

/// Both ends of an edge are machines of the graph.
pub proof fn law_edges_join_machines(s: CoordView, i: int)
    requires
        wf(s),
        0 <= i < graph_edges(s).len(),
    ensures
        exists|m: int|
            0 <= m < graph_machines(s).len() && (#[trigger] graph_machines(s)[m]).peer_id
                == graph_edges(s)[i].from,
        exists|m: int|
            0 <= m < graph_machines(s).len() && (#[trigger] graph_machines(s)[m]).peer_id
                == graph_edges(s)[i].to,
{
    lemma_edges_listed(s);
    let ps = listing(links(s), pair_rank());
    assert(links(s).contains(ps[i]));
    let a = lemma_machine_shown(s, ps[i].0);
    let b = lemma_machine_shown(s, ps[i].1);
    assert(graph_machines(s)[a].peer_id == graph_edges(s)[i].from);
    assert(graph_machines(s)[b].peer_id == graph_edges(s)[i].to);
}

/// Every machine of the roster is in the graph.
proof fn lemma_machine_shown(s: CoordView, k: u128) -> (j: int)
    requires
        wf(s),
        s.roster.contains_key(k),
        machine(s.roster[k]),
    ensures
        0 <= j < graph_machines(s).len(),
        graph_machines(s)[j] == machine_of(s, s.roster[k]),
{
    law_peers_can_be_listed(s);
    let ids = listing(s.roster.dom(), index_rank(s.roster));
    let all = by_index(s.roster);
    let e = s.roster[k];
    assert(s.roster.dom().contains(k));
    let i = choose|i: int| 0 <= i < ids.len() && ids[i] == k;
    assert(all[i] == e);
    lemma_keep_members(all, machines_only(), e);
    let kept = keep_if(all, machines_only());
    choose|j: int| 0 <= j < kept.len() && kept[j] == e
}

/// Whether a peer runs no application for another: its address is not one of
/// an application, and neither its tags nor its role say `runner`.
pub open spec fn is_no_runner(e: PeerView) -> bool {
    &&& segs(e.ula)[1] != 0x1f02
    &&& forall|i: int| 0 <= i < e.tags.len() ==> #[trigger] e.tags[i] != "runner"@
    &&& e.kind != "runner"@
}

proof fn lemma_no_runner(e: PeerView)
    ensures
        machine(e) == is_no_runner(e),
{
    if is_no_runner(e) {
        assert(!e.tags.contains("runner"@));
    }
}

/// Whether `a` reported a path to `b`.
pub open spec fn has_path(s: CoordView, a: u128, b: u128) -> bool {
    s.roster[a].paths.contains_key(b)
}

/// Two machines of which at least one reported a path to the other are joined
/// by an edge. It is direct exactly if one of the reports says so, and as old
/// as the fresher of the reports that there are.
pub proof fn law_edges_merge_both_reports(s: CoordView, a: u128, b: u128)
    requires
        wf(s),
        a < b,
        s.roster.contains_key(a) && is_no_runner(s.roster[a]),
        s.roster.contains_key(b) && is_no_runner(s.roster[b]),
        has_path(s, a, b) || has_path(s, b, a),
    ensures
        exists|j: int|
            {
                let e = #[trigger] graph_edges(s)[j];
                &&& 0 <= j < graph_edges(s).len()
                &&& e.from == uuid_text(a)
                &&& e.to == uuid_text(b)
                &&& e.direct <==> (has_path(s, a, b) && s.roster[a].paths[b].0) || (has_path(
                    s,
                    b,
                    a,
                ) && s.roster[b].paths[a].0)
                &&& has_path(s, a, b) ==> e.age_ms <= s.roster[a].paths[b].1
                &&& has_path(s, b, a) ==> e.age_ms <= s.roster[b].paths[a].1
                &&& (has_path(s, a, b) && e.age_ms == s.roster[a].paths[b].1) || (has_path(s, b, a)
                    && e.age_ms == s.roster[b].paths[a].1)
            },
{
    lemma_no_runner(s.roster[a]);
    lemma_no_runner(s.roster[b]);
    assert(is_link(s, (a, b)));
    law_reported_pairs_are_joined(s, a, b);
    let j = choose|j: int|
        0 <= j < graph_edges(s).len() && graph_edges(s)[j] == edge_view(s, (a, b));
    let e = graph_edges(s)[j];
    assert(e.from == uuid_text(a));
}

/// Every edge is one between two machines, from the smaller identifier to the
/// greater, of which at least one reported a path to the other.
pub proof fn law_edges_were_reported(s: CoordView, i: int)
    requires
        wf(s),
        0 <= i < graph_edges(s).len(),
    ensures
        exists|a: u128, b: u128|
            {
                &&& #[trigger] has_path(s, a, b) || has_path(s, b, a)
                &&& a < b
                &&& s.roster.contains_key(a) && is_no_runner(s.roster[a])
                &&& s.roster.contains_key(b) && is_no_runner(s.roster[b])
                &&& graph_edges(s)[i].from == uuid_text(a)
                &&& graph_edges(s)[i].to == uuid_text(b)
            },
{
    lemma_edges_listed(s);
    let ps = listing(links(s), pair_rank());
    assert(links(s).contains(ps[i]));
    let (a, b) = ps[i];
    lemma_no_runner(s.roster[a]);
    lemma_no_runner(s.roster[b]);
    assert(has_path(s, a, b) || has_path(s, b, a));
}

/// Whether what the graph shows of a machine is what the roster has of it.
pub open spec fn is_shown_as(m: MachineView, s: CoordView, k: u128) -> bool {
    let e = s.roster[k];
    &&& m.peer_id == uuid_text(k)
    &&& m.name == e.display_name
    &&& m.ula == ipv6_text(e.ula)
    &&& m.tags == e.tags
    &&& m.relay_only == e.relay_only
    &&& m.software_version == e.software_version
    &&& m.mesh_version == e.mesh_version
    &&& m.connectivity == own_link(s, k).0
}

/// Every peer that is no runner is in the graph, as the roster has it.
pub proof fn law_every_machine_is_shown(s: CoordView, k: u128)
    requires
        wf(s),
        s.roster.contains_key(k),
        is_no_runner(s.roster[k]),
    ensures
        exists|j: int|
            0 <= j < graph_machines(s).len() && is_shown_as(#[trigger] graph_machines(s)[j], s, k),
{
    lemma_no_runner(s.roster[k]);
    let j = lemma_machine_shown(s, k);
    assert(is_shown_as(graph_machines(s)[j], s, k));
}

/// Every machine of the graph is a peer that is no runner.
pub proof fn law_only_machines_are_shown(s: CoordView, j: int)
    requires
        wf(s),
        0 <= j < graph_machines(s).len(),
    ensures
        exists|k: u128| #[trigger]
            s.roster.contains_key(k) && is_no_runner(s.roster[k]) && is_shown_as(
                graph_machines(s)[j],
                s,
                k,
            ),
{
    law_peers_can_be_listed(s);
    let ids = listing(s.roster.dom(), index_rank(s.roster));
    let all = by_index(s.roster);
    let kept = keep_if(all, machines_only());
    let e = kept[j];
    lemma_keep_members(all, machines_only(), e);
    assert(kept.contains(e));
    let i = choose|i: int| 0 <= i < all.len() && all[i] == e;
    assert(s.roster.dom().contains(ids[i]));
    let k = ids[i];
    lemma_no_runner(e);
    assert(s.roster.contains_key(k));
    assert(is_shown_as(graph_machines(s)[j], s, k));
}

/// The machines of the graph stand in the order of their index, and of their
/// identifier where that is the same.
pub proof fn law_machines_are_sorted(s: CoordView, i: int, j: int)
    requires
        wf(s),
        0 <= i < j < graph_machines(s).len(),
    ensures
        exists|a: u128, b: u128|
            {
                &&& #[trigger] s.roster.contains_key(a)
                &&& #[trigger] s.roster.contains_key(b)
                &&& graph_machines(s)[i].peer_id == uuid_text(a)
                &&& graph_machines(s)[j].peer_id == uuid_text(b)
                &&& s.roster[a].peer_index < s.roster[b].peer_index || (s.roster[a].peer_index
                    == s.roster[b].peer_index && a < b)
            },
{
    law_peers_can_be_listed(s);
    let ids = listing(s.roster.dom(), index_rank(s.roster));
    let all = by_index(s.roster);
    let r = lemma_keep_order(all, machines_only(), i, j);
    let a = ids[r.0];
    let b = ids[r.1];
    assert(s.roster.dom().contains(a) && s.roster.dom().contains(b));
    assert(index_rank(s.roster)(a) < index_rank(s.roster)(b));
    assert(s.roster.contains_key(a) && s.roster.contains_key(b));
}

} // verus!
