//! The durable copy of the roster.
//!
//! A store is best effort: whatever goes wrong while reading, the mesh starts
//! with an empty roster, and whatever goes wrong while writing, the copy that
//! is there stays.

use crate::roster::coordinator::effect::joined_views;
use crate::roster::events::{JoinedView, PeerJoined};
use crate::text::cat;
use vstd::prelude::*;

verus! {

/// Keeps a copy of the roster that outlives the process.
pub trait RosterStore {
    /// The copy.
    fn load(&self) -> Vec<PeerJoined>;

    /// Replaces the copy.
    fn save(&self, peers: &Vec<PeerJoined>);
}

/// Keeps nothing.
#[derive(Debug, Default, Clone, Copy)]
pub struct NoopRosterStore;

impl RosterStore for NoopRosterStore {
    fn load(&self) -> (r: Vec<PeerJoined>)
        ensures
            r@.len() == 0,
    {
        Vec::new()
    }

    fn save(&self, peers: &Vec<PeerJoined>) {
    }
}

/// A file within a directory: the directory, a slash unless it ends in one or
/// is empty, and the name.
pub open spec fn joined_path(dir: Seq<char>, name: Seq<char>) -> Seq<char> {
    if dir.len() == 0 || dir.last() == '/' {
        dir + name
    } else {
        dir + "/"@ + name
    }
}

fn join_path(dir: &str, name: &str) -> (r: String)
    ensures
        r@ == joined_path(dir@, name@),
{
    let c = crate::text::chars_of(dir);
    let n = c.len();
    if n == 0 || c[n - 1] == '/' {
        cat(dir, name)
    } else {
        crate::text::cat3(dir, "/", name)
    }
}

/// Keeps the copy in a file, which is written beside it and then moved over
/// it, so that a reader sees the old copy or the new one and nothing between.
#[derive(Debug, Clone)]
pub struct FileRosterStore {
    dir: String,
}

impl View for FileRosterStore {
    type V = Seq<char>;

    closed spec fn view(&self) -> Seq<char> {
        self.dir@
    }
}

/// The file in a directory that holds the copy.
pub open spec fn snapshot_path(dir: Seq<char>) -> Seq<char> {
    joined_path(dir, "roster.json"@)
}

/// Where the new copy is written first.
pub open spec fn temp_path(dir: Seq<char>) -> Seq<char> {
    joined_path(dir, "roster.tmp"@)
}

/// What has to be done next to replace the copy.
#[derive(Debug, Clone, Copy, PartialEq, Eq, Structural)]
pub enum SaveStep {
    /// Write the peers down.
    Serialize,
    /// Make the directory.
    CreateDir,
    /// Write the new copy beside the old one.
    WriteTemp,
    /// Move the new copy over the old one.
    Rename,
    /// The new copy is in place.
    Done,
    /// Something went wrong; the old copy is in place.
    Abandoned,
}

/// What follows a step: the next one where it went well, otherwise nothing.
pub open spec fn next_step(step: SaveStep, ok: bool) -> SaveStep {
    match step {
        SaveStep::Done => SaveStep::Done,
        SaveStep::Abandoned => SaveStep::Abandoned,
        _ => if !ok {
            SaveStep::Abandoned
        } else {
            match step {
                SaveStep::Serialize => SaveStep::CreateDir,
                SaveStep::CreateDir => SaveStep::WriteTemp,
                SaveStep::WriteTemp => SaveStep::Rename,
                _ => SaveStep::Done,
            }
        },
    }
}

impl SaveStep {
    /// What follows this step once it went well or not.
    pub fn next(&self, ok: bool) -> (r: SaveStep)
        ensures
            r == next_step(*self, ok),
    {
        match self {
            SaveStep::Done => SaveStep::Done,
            SaveStep::Abandoned => SaveStep::Abandoned,
            _ => if !ok {
                SaveStep::Abandoned
            } else {
                match self {
                    SaveStep::Serialize => SaveStep::CreateDir,
                    SaveStep::CreateDir => SaveStep::WriteTemp,
                    SaveStep::WriteTemp => SaveStep::Rename,
                    _ => SaveStep::Done,
                }
            },
        }
    }
}

/// The peers that a decoded list holds, where there is one.
pub open spec fn list_view(v: Option<Vec<PeerJoined>>) -> Option<Seq<JoinedView>> {
    match v {
        Some(v) => Some(joined_views(v@)),
        None => None,
    }
}

/// The peers of a list, and none where there is no list.
pub open spec fn peers_or_none(v: Option<Seq<JoinedView>>) -> Seq<JoinedView> {
    match v {
        Some(v) => v,
        None => Seq::empty(),
    }
}

/// The peers that a load gives when the file holds this: those of the list that
/// the content decodes to; none where there is no content, or it is no list.
pub open spec fn loaded(
    content: Option<Seq<u8>>,
    decode: spec_fn(Seq<u8>) -> Option<Seq<JoinedView>>,
) -> Seq<JoinedView> {
    match content {
        Some(b) => peers_or_none(decode(b)),
        None => Seq::empty(),
    }
}

/// What bytes there are, if any.
pub open spec fn opt_bytes(b: Option<Vec<u8>>) -> Option<Seq<u8>> {
    match b {
        Some(b) => Some(b@),
        None => None,
    }
}

/// Whether a function decodes every content to this.
pub open spec fn decodes<D: Fn(&Vec<u8>) -> Option<Vec<PeerJoined>>>(
    d: D,
    decode: spec_fn(Seq<u8>) -> Option<Seq<JoinedView>>,
) -> bool {
    forall|b: &Vec<u8>, v: Option<Vec<PeerJoined>>| #[trigger]
        call_ensures(d, (b,), v) ==> list_view(v) == decode(b@)
}

/// What is to be done with files in a step.
#[derive(Debug)]
pub enum SaveAction {
    /// Nothing.
    Nothing,
    /// Make a directory, unless it is there.
    CreateDir(String),
    /// Write the new copy to a file.
    Write(String),
    /// Move a file over another.
    Rename { from: String, to: String },
}

/// What a `SaveAction` holds.
#[verifier::ext_equal]
pub enum SaveActionView {
    Nothing,
    CreateDir(Seq<char>),
    Write(Seq<char>),
    Rename { from: Seq<char>, to: Seq<char> },
}

impl View for SaveAction {
    type V = SaveActionView;

    open spec fn view(&self) -> SaveActionView {
        match self {
            SaveAction::Nothing => SaveActionView::Nothing,
            SaveAction::CreateDir(d) => SaveActionView::CreateDir(d@),
            SaveAction::Write(p) => SaveActionView::Write(p@),
            SaveAction::Rename { from, to } => SaveActionView::Rename { from: from@, to: to@ },
        }
    }
}

/// What is to be done with files in a step, for a copy in a directory.
pub open spec fn action_in(dir: Seq<char>, step: SaveStep) -> SaveActionView {
    match step {
        SaveStep::CreateDir => if dir.len() == 0 {
            SaveActionView::Nothing
        } else {
            SaveActionView::CreateDir(dir)
        },
        SaveStep::WriteTemp => SaveActionView::Write(temp_path(dir)),
        SaveStep::Rename => SaveActionView::Rename {
            from: temp_path(dir),
            to: snapshot_path(dir),
        },
        _ => SaveActionView::Nothing,
    }
}

impl FileRosterStore {
    /// A store in a directory.
    pub fn new(dir: &str) -> (r: Self)
        ensures
            r@ == dir@,
    {
        FileRosterStore { dir: dir.to_owned() }
    }

    /// The file that holds the copy.
    pub fn path(&self) -> (r: String)
        ensures
            r@ == snapshot_path(self@),
    {
        join_path(self.dir.as_str(), "roster.json")
    }

    /// The peers that the file's content decodes to, in the same order; none
    /// where there is no content, because the file is not there or cannot be
    /// read, and none where the content is no list of peers.
    pub fn load<D: Fn(&Vec<u8>) -> Option<Vec<PeerJoined>>>(
        &self,
        content: Option<Vec<u8>>,
        decode: D,
    ) -> (r: Vec<PeerJoined>)
        requires
            forall|b: &Vec<u8>| #[trigger] call_requires(decode, (b,)),
        ensures
            match content {
                Some(b) => exists|v: Option<Vec<PeerJoined>>| #[trigger]
                    call_ensures(decode, (&b,), v) && joined_views(r@) == peers_or_none(
                        list_view(v),
                    ),
                None => r@.len() == 0,
            },
            forall|f: spec_fn(Seq<u8>) -> Option<Seq<JoinedView>>| #[trigger]
                decodes(decode, f) ==> joined_views(r@) == loaded(opt_bytes(content), f),
    {
        let none: Vec<PeerJoined> = Vec::new();
        assert(joined_views(none@) =~= Seq::<JoinedView>::empty());
        match content {
            Some(b) => match decode(&b) {
                Some(peers) => peers,
                None => none,
            },
            None => none,
        }
    }

    /// What is to be done with files in a step.
    pub fn action(&self, step: SaveStep) -> (r: SaveAction)
        ensures
            r@ == action_in(self@, step),
    {
        match step {
            SaveStep::CreateDir => if self.dir.as_str().is_empty() {
                SaveAction::Nothing
            } else {
                SaveAction::CreateDir(self.dir.clone())
            },
            SaveStep::WriteTemp => SaveAction::Write(join_path(self.dir.as_str(), "roster.tmp")),
            SaveStep::Rename => SaveAction::Rename {
                from: join_path(self.dir.as_str(), "roster.tmp"),
                to: self.path(),
            },
            _ => SaveAction::Nothing,
        }
    }
}

/// Whether files are so once an action was tried and went well or not: a write
/// that fails may leave anything in its file, and a move is all or nothing.
pub open spec fn is_tried(
    files: Map<Seq<char>, Seq<u8>>,
    action: SaveActionView,
    bytes: Seq<u8>,
    ok: bool,
    after: Map<Seq<char>, Seq<u8>>,
) -> bool {
    match action {
        SaveActionView::Write(path) => if ok {
            after == files.insert(path, bytes)
        } else {
            after.remove(path) == files.remove(path)
        },
        SaveActionView::Rename { from, to } => after == (if ok {
            files.insert(to, files[from]).remove(from)
        } else {
            files
        }),
        _ => after == files,
    }
}

/// Whether a save of these bytes went so: `steps` and `files` are the step to be
/// taken and the files before each, and at the point that was reached; `oks`
/// says which steps went well.
pub open spec fn is_save(
    dir: Seq<char>,
    bytes: Seq<u8>,
    steps: Seq<SaveStep>,
    oks: Seq<bool>,
    files: Seq<Map<Seq<char>, Seq<u8>>>,
) -> bool {
    &&& steps.len() == oks.len() + 1
    &&& files.len() == steps.len()
    &&& steps[0] == SaveStep::Serialize
    &&& forall|i: int|
        0 <= i < oks.len() ==> steps[i + 1] == next_step(steps[i], #[trigger] oks[i]) && is_tried(
            files[i],
            action_in(dir, steps[i]),
            bytes,
            oks[i],
            files[i + 1],
        )
}

/// What a file holds, where there is one.
pub open spec fn content_of(files: Map<Seq<char>, Seq<u8>>, path: Seq<char>) -> Option<Seq<u8>> {
    if files.contains_key(path) {
        Some(files[path])
    } else {
        None
    }
}

/// The old copy is only ever replaced by moving a complete new one over it.
pub proof fn law_the_copy_is_replaced_last(step: SaveStep, ok: bool)
    ensures
        next_step(step, ok) == SaveStep::Done <==> step == SaveStep::Done || (step
            == SaveStep::Rename && ok),
        next_step(step, ok) == SaveStep::Rename <==> step == SaveStep::WriteTemp && ok,
{
}

proof fn lemma_paths_differ(dir: Seq<char>)
    ensures
        snapshot_path(dir) != temp_path(dir),
{
    reveal_strlit("roster.json");
    reveal_strlit("roster.tmp");
    assert(snapshot_path(dir).len() != temp_path(dir).len());
}

/// However far a save has come, and whatever went wrong in it, the file holds
/// the whole new copy once the save is done, and the old copy until then.
pub proof fn law_a_save_is_all_or_nothing(
    dir: Seq<char>,
    bytes: Seq<u8>,
    steps: Seq<SaveStep>,
    oks: Seq<bool>,
    files: Seq<Map<Seq<char>, Seq<u8>>>,
    n: int,
)
    requires
        is_save(dir, bytes, steps, oks, files),
        0 <= n < steps.len(),
    ensures
        content_of(files[n], snapshot_path(dir)) == (if steps[n] == SaveStep::Done {
            Some(bytes)
        } else {
            content_of(files[0], snapshot_path(dir))
        }),
        steps[n] == SaveStep::Rename ==> content_of(files[n], temp_path(dir)) == Some(bytes),
    decreases n,
{
    if n > 0 {
        let m = n - 1;
        law_a_save_is_all_or_nothing(dir, bytes, steps, oks, files, m);
        lemma_paths_differ(dir);
        assert(steps[m + 1] == next_step(steps[m], oks[m]));
        let path = snapshot_path(dir);
        if steps[m] == SaveStep::WriteTemp && !oks[m] {
            let t = temp_path(dir);
            assert(files[n].remove(t).contains_key(path) == files[m].remove(t).contains_key(path));
            assert(files[n].remove(t)[path] == files[m].remove(t)[path]);
            assert(content_of(files[n].remove(t), path) == content_of(files[n], path));
            assert(content_of(files[m].remove(t), path) == content_of(files[m], path));
        }
    }
}

/// What was saved is what is loaded, in the same order, and nothing of what was
/// saved before: where the bytes that were written decode to the peers, a load
/// after a save that went well gives these peers. After a save in which
/// anything went wrong a load gives what it gave before.
pub proof fn law_what_was_saved_is_loaded(
    dir: Seq<char>,
    peers: Seq<JoinedView>,
    bytes: Seq<u8>,
    decode: spec_fn(Seq<u8>) -> Option<Seq<JoinedView>>,
    steps: Seq<SaveStep>,
    oks: Seq<bool>,
    files: Seq<Map<Seq<char>, Seq<u8>>>,
)
    requires
        decode(bytes) == Some(peers),
        is_save(dir, bytes, steps, oks, files),
    ensures
        loaded(content_of(files.last(), snapshot_path(dir)), decode) == (if steps.last()
            == SaveStep::Done {
            peers
        } else {
            loaded(content_of(files[0], snapshot_path(dir)), decode)
        }),
{
    law_a_save_is_all_or_nothing(dir, bytes, steps, oks, files, steps.len() - 1);
}

/// A save ends after four steps at most: it is done where all of them went
/// well, and abandoned otherwise.
pub proof fn law_saves_end(
    dir: Seq<char>,
    bytes: Seq<u8>,
    steps: Seq<SaveStep>,
    oks: Seq<bool>,
    files: Seq<Map<Seq<char>, Seq<u8>>>,
)
    requires
        is_save(dir, bytes, steps, oks, files),
        steps.len() == 5,
    ensures
        steps[4] == (if oks[0] && oks[1] && oks[2] && oks[3] {
            SaveStep::Done
        } else {
            SaveStep::Abandoned
        }),
{
    assert(steps[1] == next_step(steps[0], oks[0]));
    assert(steps[2] == next_step(steps[1], oks[1]));
    assert(steps[3] == next_step(steps[2], oks[2]));
    assert(steps[4] == next_step(steps[3], oks[3]));
}

/// A save that is done wrote the peers down, made the directory, wrote the new
/// copy beside the old one and moved it over, in this order and each once, and
/// all of it went well.
pub proof fn law_done_saves_took_every_step(
    dir: Seq<char>,
    bytes: Seq<u8>,
    steps: Seq<SaveStep>,
    oks: Seq<bool>,
    files: Seq<Map<Seq<char>, Seq<u8>>>,
)
    requires
        is_save(dir, bytes, steps, oks, files),
        steps.last() == SaveStep::Done,
    ensures
        steps.len() >= 5,
        steps.take(5) == seq![
            SaveStep::Serialize,
            SaveStep::CreateDir,
            SaveStep::WriteTemp,
            SaveStep::Rename,
            SaveStep::Done,
        ],
        oks[0] && oks[1] && oks[2] && oks[3],
{
    let n = steps.len() - 1;
    assert forall|i: int| 0 <= i < n && steps[i] != SaveStep::Abandoned && steps[i]
        != SaveStep::Done implies oks[i] by {
        if !oks[i] {
            assert(steps[i + 1] == next_step(steps[i], oks[i]));
            lemma_abandoned_for_good(dir, bytes, steps, oks, files, i + 1, n);
        }
    }
    assert(n > 0 && oks[0] && steps[1] == SaveStep::CreateDir);
    assert(n > 1 && oks[1] && steps[2] == SaveStep::WriteTemp);
    assert(n > 2 && oks[2] && steps[3] == SaveStep::Rename);
    assert(n > 3 && oks[3] && steps[4] == SaveStep::Done);
    assert(steps.take(5) =~= seq![
        SaveStep::Serialize,
        SaveStep::CreateDir,
        SaveStep::WriteTemp,
        SaveStep::Rename,
        SaveStep::Done,
    ]);
}

proof fn lemma_abandoned_for_good(
    dir: Seq<char>,
    bytes: Seq<u8>,
    steps: Seq<SaveStep>,
    oks: Seq<bool>,
    files: Seq<Map<Seq<char>, Seq<u8>>>,
    from: int,
    to: int,
)
    requires
        is_save(dir, bytes, steps, oks, files),
        0 <= from <= to < steps.len(),
        steps[from] == SaveStep::Abandoned,
    ensures
        steps[to] == SaveStep::Abandoned,
    decreases to - from,
{
    if from < to {
        lemma_abandoned_for_good(dir, bytes, steps, oks, files, from, to - 1);
        let ok = oks[to - 1];
        assert(steps[to] == next_step(steps[to - 1], ok));
    }
}

/// Which files a save touches: it makes the directory, unless that is the
/// current one, writes `roster.tmp` there, and moves it to `roster.json` there.
/// The other steps touch none.
pub proof fn law_which_files_are_touched(dir: Seq<char>, step: SaveStep)
    requires
        dir.len() > 0,
    ensures
        dir.last() != '/' ==> snapshot_path(dir) == dir + "/roster.json"@ && temp_path(dir) == dir
            + "/roster.tmp"@,
        dir.last() == '/' ==> snapshot_path(dir) == dir + "roster.json"@ && temp_path(dir) == dir
            + "roster.tmp"@,
        snapshot_path(Seq::empty()) == "roster.json"@,
        temp_path(Seq::empty()) == "roster.tmp"@,
        action_in(dir, SaveStep::CreateDir) == SaveActionView::CreateDir(dir),
        action_in(Seq::empty(), SaveStep::CreateDir) == SaveActionView::Nothing,
        action_in(dir, SaveStep::WriteTemp) == SaveActionView::Write(temp_path(dir)),
        action_in(dir, SaveStep::Rename) == (SaveActionView::Rename {
            from: temp_path(dir),
            to: snapshot_path(dir),
        }),
        step is Serialize || step is Done || step is Abandoned ==> action_in(dir, step)
            == SaveActionView::Nothing,
{
    reveal_strlit("/");
    reveal_strlit("roster.json");
    reveal_strlit("roster.tmp");
    reveal_strlit("/roster.json");
    reveal_strlit("/roster.tmp");
    assert("/"@ + "roster.json"@ =~= "/roster.json"@);
    assert("/"@ + "roster.tmp"@ =~= "/roster.tmp"@);
    if dir.last() != '/' {
        assert(snapshot_path(dir) =~= dir + "/roster.json"@);
        assert(temp_path(dir) =~= dir + "/roster.tmp"@);
    }
    assert(snapshot_path(Seq::empty()) =~= "roster.json"@);
    assert(temp_path(Seq::empty()) =~= "roster.tmp"@);
}

/// What a load gives: the peers that the content decodes to, and none where
/// there is no content or it is no list.
pub proof fn law_what_loads_give(
    bytes: Seq<u8>,
    decode: spec_fn(Seq<u8>) -> Option<Seq<JoinedView>>,
)
    ensures
        decode(bytes) is Some ==> Some(loaded(Some(bytes), decode)) == decode(bytes),
        decode(bytes) is None ==> loaded(Some(bytes), decode).len() == 0,
        loaded(None, decode).len() == 0,
{
}

} // verus!
