//! The git domain, in the shape the UI consumes it.
use vstd::prelude::*;
use crate::text::{
    chars_of, join, join_exec, lemma_split_join, slice_of, split, split_exec, string_of,
    strip_prefix, strip_prefix_exec, views,
};

verus! {

broadcast use vstd::seq_lib::group_seq_properties;

/// The state of `HEAD`.
///
/// Three real states, not two and an error: `Unborn` is the fresh repository that has a branch
/// but no commit yet.
#[derive(Debug, Clone)]
pub enum Head {
    Branch { name: String, commit: String },
    Detached { commit: String },
    Unborn { name: String },
}

/// What the top bar shows for a `HEAD`: the branch name, or the first seven chars of a
/// detached commit.
pub open spec fn head_label(h: Head) -> Seq<char> {
    match h {
        Head::Branch { name, .. } => name@,
        Head::Unborn { name } => name@,
        Head::Detached { commit } => if commit@.len() <= 7 {
            commit@
        } else {
            commit@.take(7)
        },
    }
}

impl Head {
    /// The name for the top bar and the tab title. Detached, the short hash: what `git status`
    /// shows, and what the user recognises.
    pub fn label(&self) -> (s: String)
        ensures
            s@ == head_label(*self),
    {
        match self {
            Head::Branch { name, .. } => name.clone(),
            Head::Unborn { name } => name.clone(),
            Head::Detached { commit } => {
                let chars = chars_of(commit.as_str());
                let n = if chars.len() <= 7 {
                    chars.len()
                } else {
                    7
                };
                let short = slice_of(&chars, 0, n);
                assert(chars.len() <= 7 ==> short@ =~= commit@);
                string_of(&short)
            },
        }
    }
}

#[derive(Debug, Clone)]
pub struct RepoInfo {
    /// The worktree's root; in a bare repository, the gitdir.
    pub path: String,
    /// Short name for the UI: the last path component, without a bare's `.git`.
    pub name: String,
    pub bare: bool,
    /// `true` when `HEAD` points at a commit instead of a branch.
    pub detached: bool,
    pub head: Head,
    /// Resolved from the `Head` already.
    pub branch: String,
}

/// What kind of tip a [`RefMarker`] belongs to. `Head` is a **detached** `HEAD`.
#[derive(Debug, Clone, Copy, PartialEq, Eq)]
pub enum RefKind {
    Branch,
    Remote,
    Tag,
    Head,
}

/// A tip (branch, tag, or the detached `HEAD`) and the commit it points at.
#[derive(Debug, Clone)]
pub struct RefMarker {
    /// Short name: `main`, `origin/main`, `v1.0`.
    pub name: String,
    pub kind: RefKind,
    pub commit: String,
    /// `true` for the tip `HEAD` points at now.
    pub is_head: bool,
}

/// One line of the log, with its graph column.
///
/// `lane` is this line's column; `parent_lanes` the column each edge goes down to, in the order
/// of `parents`. `None` there is the edge of a shallow clone: the parent is named but not in
/// the local object store.
#[derive(Debug, Clone)]
pub struct Commit {
    pub oid: String,
    /// In order: the first parent is the main line.
    pub parents: Vec<String>,
    pub author: String,
    pub email: String,
    /// The **author's** date, in seconds since the epoch.
    pub time: i64,
    /// The author's time zone, in minutes.
    pub offset: i32,
    /// First line of the message.
    pub summary: String,
    pub lane: usize,
    pub parent_lanes: Vec<Option<usize>>,
}

#[derive(Debug, Clone)]
pub struct LogPage {
    pub commits: Vec<Commit>,
    /// `None` on the last page. Opaque to the consumer: it comes back as it went.
    pub next_cursor: Option<String>,
}

/// Name, e-mail and when: of who wrote the commit or of who applied it.
#[derive(Debug, Clone)]
pub struct Signature {
    pub name: String,
    pub email: String,
    pub time: i64,
    pub offset: i32,
}

/// A configured remote: its name and its URLs (absent where there is none, or it is not UTF-8).
#[derive(Debug, Clone)]
pub struct Remote {
    pub name: String,
    pub fetch_url: Option<String>,
    pub push_url: Option<String>,
}

/// An entry of the stash, from the top (`0`) down.
#[derive(Debug, Clone)]
pub struct StashEntry {
    pub index: usize,
    pub oid: String,
    pub message: String,
}

/// The diffstat between two revisions, each resolved to its commit.
#[derive(Debug, Clone)]
pub struct RangeDiff {
    pub from: String,
    pub to: String,
    pub insertions: usize,
    pub deletions: usize,
    pub files: Vec<FileChange>,
}

/// What happened to a file in a commit, against the first parent.
#[derive(Debug, Clone, Copy, PartialEq, Eq)]
pub enum FileChangeKind {
    Added,
    Modified,
    Deleted,
    Renamed,
    Copied,
    Typechange,
}

/// A file a commit touched, with its line counts.
#[derive(Debug, Clone)]
pub struct FileChange {
    pub path: String,
    /// Only for `Renamed`/`Copied`, and only where it differs from `path`.
    pub old_path: Option<String>,
    pub kind: FileChangeKind,
    pub insertions: usize,
    pub deletions: usize,
    pub binary: bool,
}

/// What the log's right panel shows for a selected line. The diff is against the **first
/// parent** (against the empty tree at the root).
#[derive(Debug, Clone)]
pub struct CommitDetail {
    pub oid: String,
    pub parents: Vec<String>,
    pub author: Signature,
    pub committer: Signature,
    pub message: String,
    pub insertions: usize,
    pub deletions: usize,
    pub files: Vec<FileChange>,
}

#[derive(Debug, Clone, Copy, PartialEq, Eq)]
pub enum DiffLineKind {
    Context,
    Addition,
    Deletion,
}

/// A line in a hunk, without its final `\n`.
#[derive(Debug, Clone)]
pub struct DiffLine {
    pub kind: DiffLineKind,
    /// `None` for an `Addition`.
    pub old_lineno: Option<u32>,
    /// `None` for a `Deletion`.
    pub new_lineno: Option<u32>,
    pub content: String,
}

#[derive(Debug, Clone)]
pub struct DiffHunk {
    /// The `@@ -a,b +c,d @@ …` line git wrote.
    pub header: String,
    pub lines: Vec<DiffLine>,
}

/// The diff of **one** file. `Binary` and `NotUtf8` have nothing a hunk would show.
#[derive(Debug, Clone)]
pub enum FileDiff {
    Text { hunks: Vec<DiffHunk> },
    Binary,
    NotUtf8,
}

// ---------------------------------------------------------------------------------------------
// the log cursor
// ---------------------------------------------------------------------------------------------
/// A lane slot in the cursor: free, or waiting for a given oid (hex) as the column's next commit.
#[derive(Debug, Clone, PartialEq, Eq)]
pub enum LaneSlot {
    Free,
    Waiting(String),
}

impl View for LaneSlot {
    /// `None` for a free slot.
    type V = Option<Seq<char>>;

    open spec fn view(&self) -> Option<Seq<char>> {
        match self {
            LaneSlot::Free => None,
            LaneSlot::Waiting(oid) => Some(oid@),
        }
    }
}

pub open spec fn slot_views(lanes: Seq<LaneSlot>) -> Seq<Option<Seq<char>>> {
    lanes.map_values(|s: LaneSlot| s@)
}

/// Where the last waiting slot stands; -1 when none waits.
pub open spec fn last_waiting(lanes: Seq<Option<Seq<char>>>) -> int
    decreases lanes.len(),
{
    if lanes.len() == 0 {
        -1
    } else if lanes.last() is Some {
        lanes.len() - 1
    } else {
        last_waiting(lanes.drop_last())
    }
}

/// The slots a cursor keeps: free slots at the end go, those in the middle stay.
pub open spec fn kept(lanes: Seq<Option<Seq<char>>>) -> Seq<Option<Seq<char>>> {
    lanes.take(last_waiting(lanes) + 1)
}

pub open spec fn slot_text(slot: Option<Seq<char>>) -> Seq<char> {
    match slot {
        None => "-"@,
        Some(oid) => oid,
    }
}

pub open spec fn slot_of(part: Seq<char>) -> Option<Seq<char>> {
    if part == "-"@ {
        None
    } else {
        Some(part)
    }
}

pub open spec fn cursor_prefix() -> Seq<char> {
    "v2."@
}

/// The cursor [`encode_cursor`] writes.
pub open spec fn cursor_text(lanes: Seq<Option<Seq<char>>>) -> Seq<char> {
    cursor_prefix() + join(kept(lanes).map_values(|s: Option<Seq<char>>| slot_text(s)), seq!['.'])
}

/// What [`decode_cursor`] reads: `None` when the text is not a cursor of this format.
pub open spec fn cursor_slots(cursor: Seq<char>) -> Option<Seq<Option<Seq<char>>>> {
    match strip_prefix(cursor, cursor_prefix()) {
        None => None,
        Some(body) => if body.len() == 0 {
            None
        } else {
            Some(split(body, '.').map_values(|p: Seq<char>| slot_of(p)))
        },
    }
}

pub(crate) proof fn lemma_last_waiting(lanes: Seq<Option<Seq<char>>>)
    ensures
        -1 <= last_waiting(lanes) < lanes.len(),
        last_waiting(lanes) >= 0 ==> lanes[last_waiting(lanes)] is Some,
        forall|k: int| last_waiting(lanes) < k < lanes.len() ==> #[trigger] lanes[k] is None,
    decreases lanes.len(),
{
    if lanes.len() > 0 && lanes.last() is None {
        lemma_last_waiting(lanes.drop_last());
        assert forall|k: int| last_waiting(lanes) < k < lanes.len() implies #[trigger] lanes[k] is None by {
            if k < lanes.len() - 1 {
                assert(lanes.drop_last()[k] == lanes[k]);
            }
        }
    }
}

/// Serialises the lanes into an opaque cursor.
///
/// Not only the walk's frontier: the position of **every** lane, free or taken, since that
/// position decides which column the next page gives a new lane. Free lanes at the end are
/// cut (they change no later decision); free lanes in the middle stay.
pub fn encode_cursor(lanes: &[LaneSlot]) -> (c: String)
    ensures
        c@ == cursor_text(slot_views(lanes@)),
{
    let ghost ls = slot_views(lanes@);
    let end = kept_len(lanes);
    let mut parts: Vec<Vec<char>> = Vec::new();
    let mut i: usize = 0;
    while i < end
        invariant
            i <= end <= lanes.len(),
            ls == slot_views(lanes@),
            views(parts@) =~= ls.take(i as int).map_values(|s: Option<Seq<char>>| slot_text(s)),
        decreases end - i,
    {
        let part = match &lanes[i] {
            LaneSlot::Free => chars_of("-"),
            LaneSlot::Waiting(oid) => chars_of(oid.as_str()),
        };
        let ghost before = views(parts@);
        parts.push(part);
        proof {
            assert(ls[i as int] == lanes@[i as int]@);
            assert(part@ == slot_text(ls[i as int]));
            assert(views(parts@) =~= before.push(part@));
            assert(ls.take(i + 1).map_values(|s: Option<Seq<char>>| slot_text(s)) =~= ls.take(
                i as int,
            ).map_values(|s: Option<Seq<char>>| slot_text(s)).push(slot_text(ls[i as int])));
        }
        i += 1;
    }
    assert(kept(ls) =~= ls.take(end as int));
    let dot = vec!['.'];
    assert(dot@ =~= seq!['.']);
    let body = join_exec(&parts, &dot);
    assert(body@ == join(kept(ls).map_values(|s: Option<Seq<char>>| slot_text(s)), seq!['.']));
    let mut out = chars_of("v2.");
    crate::text::append(&mut out, &body);
    string_of(&out)
}

/// How many slots a cursor keeps.
fn kept_len(lanes: &[LaneSlot]) -> (n: usize)
    ensures
        n == last_waiting(slot_views(lanes@)) + 1,
        n <= lanes.len(),
{
    let ghost ls = slot_views(lanes@);
    let mut end: usize = lanes.len();
    while end > 0
        invariant
            end <= lanes.len(),
            ls == slot_views(lanes@),
            last_waiting(ls) == last_waiting(ls.take(end as int)),
        decreases end,
    {
        assert(ls.take(end as int).last() == lanes@[end - 1]@);
        assert(ls.take(end as int).drop_last() =~= ls.take(end - 1));
        match &lanes[end - 1] {
            LaneSlot::Free => {},
            LaneSlot::Waiting(_) => return end,
        }
        end -= 1;
    }
    end
}

/// Reads a cursor back; `None` when it is not of this format. Whether the oids **exist** is
/// for the reader holding the repository to check.
pub fn decode_cursor(cursor: &str) -> (r: Option<Vec<LaneSlot>>)
    ensures
        match r {
            Some(v) => cursor_slots(cursor@) == Some(slot_views(v@)),
            None => cursor_slots(cursor@) is None,
        },
{
    let text = chars_of(cursor);
    let body = match strip_prefix_exec(&text, &chars_of("v2.")) {
        Some(b) => b,
        None => return None,
    };
    // An empty body is never written (a cursor with nothing waiting is the last page's, and
    // that page has none), so receiving one means it was tampered with.
    if body.len() == 0 {
        return None;
    }
    let parts = split_exec(&body, '.');
    let ghost ps = views(parts@);
    let mut out: Vec<LaneSlot> = Vec::new();
    let mut i: usize = 0;
    while i < parts.len()
        invariant
            i <= parts.len(),
            ps == views(parts@),
            slot_views(out@) =~= ps.take(i as int).map_values(|p: Seq<char>| slot_of(p)),
        decreases parts.len() - i,
    {
        let part = &parts[i];
        let slot = if crate::text::eq(part, &chars_of("-")) {
            LaneSlot::Free
        } else {
            LaneSlot::Waiting(string_of(part))
        };
        let ghost before = slot_views(out@);
        out.push(slot);
        proof {
            assert(slot@ == slot_of(ps[i as int]));
            assert(slot_views(out@) =~= before.push(slot@));
            assert(ps.take(i + 1).map_values(|p: Seq<char>| slot_of(p)) =~= ps.take(
                i as int,
            ).map_values(|p: Seq<char>| slot_of(p)).push(slot_of(ps[i as int])));
        }
        i += 1;
    }
    assert(ps.take(parts.len() as int) =~= ps);
    Some(out)
}

/// A cursor reads back as the lanes it was written from, free lanes at the end cut: as long as
/// some lane waits, and no oid is empty, holds a `.` or is `-` (git's hex never does).
pub proof fn law_cursor_round_trip(lanes: Seq<Option<Seq<char>>>)
    requires
        last_waiting(lanes) >= 0,
        forall|i: int| 0 <= i < lanes.len() && #[trigger] lanes[i] is Some ==> {
            let oid = lanes[i]->0;
            &&& oid.len() > 0
            &&& oid != "-"@
            &&& forall|k: int| 0 <= k < oid.len() ==> oid[k] != '.'
        },
    ensures
        cursor_slots(cursor_text(lanes)) == Some(kept(lanes)),
{
    lemma_last_waiting(lanes);
    let ks = kept(lanes);
    let parts = ks.map_values(|s: Option<Seq<char>>| slot_text(s));
    assert(ks.len() >= 1);
    assert forall|i: int, k: int| 0 <= i < parts.len() && 0 <= k < parts[i].len() implies #[trigger] parts[i][k] != '.' by {
        assert(ks[i] == lanes[i]);
        reveal_strlit("-");
        if lanes[i] is Some {
            assert(lanes[i]->0[k] != '.');
        }
    }
    lemma_split_join(parts, '.');
    let body = join(parts, seq!['.']);
    assert(cursor_prefix().is_prefix_of(cursor_prefix() + body));
    assert((cursor_prefix() + body).skip(cursor_prefix().len() as int) =~= body);
    assert(body.len() > 0) by {
        lemma_join_nonempty(parts);
        let w = ks.len() - 1;
        assert(ks[w] == lanes[w]);
        assert(parts[w] == lanes[w]->0);
    }
    assert forall|i: int| 0 <= i < ks.len() implies slot_of(#[trigger] parts[i]) == ks[i] by {
        assert(ks[i] == lanes[i]);
        reveal_strlit("-");
    }
    assert(parts.map_values(|p: Seq<char>| slot_of(p)) =~= ks);
}

proof fn lemma_join_nonempty(parts: Seq<Seq<char>>)
    requires
        parts.len() >= 1,
    ensures
        join(parts, seq!['.']).len() >= parts.last().len(),
{
}

// ---------------------------------------------------------------------------------------------
// the worktree status
// ---------------------------------------------------------------------------------------------
/// What happened to a path in the worktree's status. `Unmerged` is a conflict; it stays in
/// `unstaged`, visible.
#[derive(Debug, Clone, Copy, PartialEq, Eq)]
pub enum StatusKind {
    Added,
    Modified,
    Deleted,
    Renamed,
    Copied,
    Typechange,
    Unmerged,
    Untracked,
}

/// A path in one of the status's three groups.
#[derive(Debug, Clone)]
pub struct StatusEntry {
    pub path: String,
    /// Only for `Renamed`/`Copied`.
    pub old_path: Option<String>,
    pub kind: StatusKind,
}

pub struct EntryView {
    pub path: Seq<char>,
    pub old_path: Option<Seq<char>>,
    pub kind: StatusKind,
}

pub open spec fn opt_str(o: Option<String>) -> Option<Seq<char>> {
    match o {
        Some(s) => Some(s@),
        None => None,
    }
}

impl View for StatusEntry {
    type V = EntryView;

    open spec fn view(&self) -> EntryView {
        EntryView { path: self.path@, old_path: opt_str(self.old_path), kind: self.kind }
    }
}

pub open spec fn entry_views(v: Seq<StatusEntry>) -> Seq<EntryView> {
    v.map_values(|e: StatusEntry| e@)
}

/// The porcelain v2 `# branch.*` header: who `HEAD` is and how it stands against upstream.
#[derive(Debug, Clone)]
pub struct BranchStatus {
    /// `None` in a repository without commits (`branch.oid` is `(initial)`).
    pub oid: Option<String>,
    /// `None` with a detached `HEAD`.
    pub head: Option<String>,
    pub detached: bool,
    /// Absent when the branch has no upstream.
    pub upstream: Option<String>,
    pub ahead: u32,
    pub behind: u32,
}

pub struct BranchView {
    pub oid: Option<Seq<char>>,
    pub head: Option<Seq<char>>,
    pub detached: bool,
    pub upstream: Option<Seq<char>>,
    pub ahead: u32,
    pub behind: u32,
}

impl View for BranchStatus {
    type V = BranchView;

    open spec fn view(&self) -> BranchView {
        BranchView {
            oid: opt_str(self.oid),
            head: opt_str(self.head),
            detached: self.detached,
            upstream: opt_str(self.upstream),
            ahead: self.ahead,
            behind: self.behind,
        }
    }
}

/// An operation under way that has not finished.
#[derive(Debug, Clone, Copy, PartialEq, Eq)]
pub enum RepoState {
    Clean,
    Merge,
    Rebase,
    CherryPick,
    Revert,
    Bisect,
}

/// The whole worktree status.
#[derive(Debug, Clone)]
pub struct WorktreeStatus {
    pub branch: BranchStatus,
    pub state: RepoState,
    pub staged: Vec<StatusEntry>,
    pub unstaged: Vec<StatusEntry>,
    pub untracked: Vec<StatusEntry>,
}

} // verus!
