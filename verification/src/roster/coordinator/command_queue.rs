//! Commands that wait for their peer.
//!
//! A command is handed to its peer as it came; whether it is genuine is for
//! the peer to judge.

use crate::roster::api::{command_views, CommandView, NodeCommandDto};
use crate::roster::coordinator::state::{wf, CoordView, Coordinator};
use crate::roster::entry::PeerView;
use crate::text::{
    contains_text, keep_if, lemma_keep_members, lemma_keep_order, lemma_keep_step, strs,
};
use vstd::prelude::*;

verus! {

/// The state with other commands waiting for a peer; an unknown peer has none.
pub open spec fn with_commands(s: CoordView, id: u128, commands: Seq<CommandView>) -> CoordView {
    if s.roster.contains_key(id) {
        CoordView {
            roster: s.roster.insert(
                id,
                PeerView { pending_commands: commands, ..s.roster[id] },
            ),
            ..s
        }
    } else {
        s
    }
}

/// The commands that wait for a peer.
pub open spec fn waiting(s: CoordView, id: u128) -> Seq<CommandView> {
    if s.roster.contains_key(id) {
        s.roster[id].pending_commands
    } else {
        Seq::empty()
    }
}

/// Tells which commands have not been acknowledged.
pub open spec fn unacked(acked: Seq<Seq<char>>) -> spec_fn(CommandView) -> bool {
    |c: CommandView| !acked.contains(c.command_id)
}

/// The identifiers of commands.
pub open spec fn command_ids(commands: Seq<CommandView>) -> Seq<Seq<char>> {
    Seq::new(commands.len(), |i: int| commands[i].command_id)
}

/// Keeps the commands that have not been acknowledged.
fn retain_unacked(commands: &Vec<NodeCommandDto>, acked: &Vec<String>) -> (r: Vec<NodeCommandDto>)
    ensures
        command_views(r@) == keep_if(command_views(commands@), unacked(strs(acked@))),
{
    let ghost all = command_views(commands@);
    let ghost f = unacked(strs(acked@));
    let mut r: Vec<NodeCommandDto> = Vec::new();
    let mut i: usize = 0;
    assert(all.take(0) =~= Seq::<CommandView>::empty());
    assert(command_views(r@) =~= Seq::<CommandView>::empty());
    while i < commands.len()
        invariant
            i <= commands@.len(),
            all == command_views(commands@),
            f == unacked(strs(acked@)),
            command_views(r@) == keep_if(all.take(i as int), f),
        decreases commands@.len() - i,
    {
        proof {
            lemma_keep_step(all, f, i as int);
            assert(all[i as int] == commands@[i as int]@);
        }
        if !contains_text(acked, commands[i].command_id.as_str()) {
            let ghost before = r@;
            r.push(commands[i].clone());
            assert(command_views(r@) =~= command_views(before).push(all[i as int]));
        }
        i = i + 1;
    }
    assert(all.take(all.len() as int) =~= all);
    r
}

impl Coordinator {
    /// Lets a command wait for a peer, behind those that wait already; one for
    /// an unknown peer is dropped.
    pub fn enqueue_command(&mut self, peer_id: u128, command: NodeCommandDto)
        requires
            wf(old(self)@),
        ensures
            final(self)@ == with_commands(
                old(self)@,
                peer_id,
                waiting(old(self)@, peer_id).push(command@),
            ),
            wf(final(self)@),
    {
        if let Some(entry) = self.entry(peer_id) {
            let mut e = entry;
            let ghost before = e.pending_commands@;
            e.pending_commands.push(command);
            assert(command_views(e.pending_commands@) =~= command_views(before).push(command@));
            self.put(peer_id, e);
        }
    }

    /// Hands out the commands that wait for a peer, each once.
    pub fn drain_commands(&mut self, peer_id: u128) -> (r: Vec<NodeCommandDto>)
        requires
            wf(old(self)@),
        ensures
            command_views(r@) == waiting(old(self)@, peer_id),
            final(self)@ == with_commands(old(self)@, peer_id, Seq::empty()),
            wf(final(self)@),
    {
        match self.entry(peer_id) {
            Some(entry) => {
                let mut e = entry;
                let mut r: Vec<NodeCommandDto> = Vec::new();
                std::mem::swap(&mut r, &mut e.pending_commands);
                assert(command_views(e.pending_commands@) =~= Seq::<CommandView>::empty());
                self.put(peer_id, e);
                r
            },
            None => {
                let r: Vec<NodeCommandDto> = Vec::new();
                assert(command_views(r@) =~= Seq::<CommandView>::empty());
                r
            },
        }
    }

    /// Lets acknowledged commands wait no longer; those that do not wait are
    /// ignored.
    pub fn ack_commands(&mut self, peer_id: u128, acked: &Vec<String>)
        requires
            wf(old(self)@),
        ensures
            final(self)@ == with_commands(
                old(self)@,
                peer_id,
                keep_if(waiting(old(self)@, peer_id), unacked(strs(acked@))),
            ),
            wf(final(self)@),
    {
        if let Some(entry) = self.entry(peer_id) {
            let mut e = entry;
            e.pending_commands = retain_unacked(&e.pending_commands, acked);
            self.put(peer_id, e);
        }
    }

    /// Which commands wait for a peer.
    pub fn pending_command_ids(&self, peer_id: u128) -> (r: Vec<String>)
        ensures
            strs(r@) == command_ids(waiting(self@, peer_id)),
    {
        let mut r: Vec<String> = Vec::new();
        if let Some(entry) = self.entry(peer_id) {
            let mut i: usize = 0;
            while i < entry.pending_commands.len()
                invariant
                    i <= entry.pending_commands@.len(),
                    r@.len() == i,
                    forall|k: int|
                        0 <= k < i ==> (#[trigger] r@[k])@
                            == entry.pending_commands@[k].command_id@,
                decreases entry.pending_commands@.len() - i,
            {
                r.push(entry.pending_commands[i].command_id.clone());
                i = i + 1;
            }
            assert(entry@ == self@.roster[peer_id]);
            assert(strs(r@) =~= command_ids(waiting(self@, peer_id)));
        }
        assert(strs(r@) =~= command_ids(waiting(self@, peer_id)));
        r
    }
}

/// What was handed out is handed out no second time.
pub proof fn law_draining_empties(s: CoordView, id: u128)
    ensures
        waiting(with_commands(s, id, Seq::empty()), id) == Seq::<CommandView>::empty(),
        with_commands(with_commands(s, id, Seq::empty()), id, Seq::empty()) == with_commands(
            s,
            id,
            Seq::empty(),
        ),
{
    assert(with_commands(with_commands(s, id, Seq::empty()), id, Seq::empty()) =~= with_commands(
        s,
        id,
        Seq::empty(),
    ));
}

/// Commands are handed out in the order in which they came.
pub proof fn law_commands_keep_their_order(
    s: CoordView,
    id: u128,
    first: CommandView,
    second: CommandView,
)
    requires
        s.roster.contains_key(id),
    ensures
        ({
            let one = with_commands(s, id, waiting(s, id).push(first));
            let two = with_commands(one, id, waiting(one, id).push(second));
            waiting(two, id) == waiting(s, id).push(first).push(second)
        }),
{
}

/// A command waits for its own peer only.
pub proof fn law_commands_are_per_peer(
    s: CoordView,
    id: u128,
    other: u128,
    commands: Seq<CommandView>,
)
    requires
        id != other,
    ensures
        waiting(with_commands(s, id, commands), other) == waiting(s, other),
{
}

/// Acknowledging a second time changes nothing, and no acknowledged command
/// waits any longer.
pub proof fn law_acknowledging_is_idempotent(commands: Seq<CommandView>, acked: Seq<Seq<char>>)
    ensures
        ({
            let once = keep_if(commands, unacked(acked));
            &&& keep_if(once, unacked(acked)) == once
            &&& forall|i: int|
                0 <= i < once.len() ==> !acked.contains((#[trigger] once[i]).command_id)
        }),
    decreases commands.len(),
{
    let f = unacked(acked);
    if commands.len() > 0 {
        let front = commands.drop_last();
        law_acknowledging_is_idempotent(front, acked);
        let once = keep_if(front, f);
        if f(commands.last()) {
            assert(once.push(commands.last()).drop_last() =~= once);
        }
    }
}

/// Other commands for a peer change nothing of it but its commands, and nobody
/// else; a peer that is not there gets none.
pub proof fn law_only_the_commands_change(
    s: CoordView,
    id: u128,
    commands: Seq<CommandView>,
    other: u128,
)
    ensures
        ({
            let t = with_commands(s, id, commands);
            &&& !s.roster.contains_key(id) ==> t == s
            &&& s.roster.contains_key(id) ==> {
                &&& t.roster[id].pending_commands == commands
                &&& t.roster[id] == (PeerView { pending_commands: commands, ..s.roster[id] })
                &&& t == (CoordView { roster: t.roster, ..s })
            }
            &&& t.roster.contains_key(other) <==> s.roster.contains_key(other)
            &&& other != id && s.roster.contains_key(other) ==> t.roster[other] == s.roster[other]
        }),
{
}

/// What waits for a peer is what it has waiting; nothing waits for one that is
/// not there.
pub proof fn law_what_waits(s: CoordView, id: u128, i: int)
    ensures
        s.roster.contains_key(id) ==> waiting(s, id) == s.roster[id].pending_commands,
        !s.roster.contains_key(id) ==> waiting(s, id).len() == 0,
        command_ids(waiting(s, id)).len() == waiting(s, id).len(),
        0 <= i < waiting(s, id).len() ==> command_ids(waiting(s, id))[i] == waiting(
            s,
            id,
        )[i].command_id,
{
}

/// Acknowledging takes out exactly the commands that were named, whatever their
/// order, and leaves the others in theirs.
pub proof fn law_only_named_commands_are_taken_out(
    commands: Seq<CommandView>,
    acked: Seq<Seq<char>>,
    c: CommandView,
    i: int,
    j: int,
)
    ensures
        ({
            let left = keep_if(commands, unacked(acked));
            &&& left.contains(c) <==> commands.contains(c) && !acked.contains(c.command_id)
            &&& 0 <= i < j < left.len() ==> exists|p: int, q: int|
                0 <= p < q < commands.len() && #[trigger] commands[p] == left[i]
                    && #[trigger] commands[q] == left[j]
        }),
{
    lemma_keep_members(commands, unacked(acked), c);
    let left = keep_if(commands, unacked(acked));
    if 0 <= i < j < left.len() {
        let r = lemma_keep_order(commands, unacked(acked), i, j);
        assert(commands[r.0] == left[i] && commands[r.1] == left[j]);
    }
}

} // verus!
