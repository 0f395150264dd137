//! The rules of the repository routes that are not reading: which HTTP status each refusal gets,
//! how big a log page may be, and how a discard splits into what git restores and what is
//! removed from the disk.
use vstd::prelude::*;
use crate::branch::{BranchError, CreateOptions};
use crate::clone::CloneError;
use crate::commit::{CommitError, CommitOptions};
use crate::fs::FsError;
use crate::init::{InitError, InitOptions};
use crate::jobs::JobsError;
use crate::model::{Head, RepoInfo, WorktreeStatus};
use crate::patch::{HunkSelection, PatchError};
use crate::read::{DiffSide, GitError, LogQuery};
use crate::text::{chars_of, eq, strs};

verus! {

broadcast use vstd::seq_lib::group_seq_properties;

/// A log page when the client names no size: it fits the first paint and covers well more
/// than a screen.
pub const LOG_LIMIT_DEFAULT: usize = 500;

/// The most a client gets at once: above it a page stops being "the next screen" and becomes a
/// way to make the server walk the whole history in one request.
pub const LOG_LIMIT_MAX: usize = 2000;

/// How many completions a path prefix gets.
pub const PATH_AUTOCOMPLETE_LIMIT: usize = 100;

/// How many commits a search answers with.
pub const SEARCH_LIMIT: usize = 500;

/// Why a repository route refused.
#[derive(Debug, Clone, PartialEq, Eq)]
pub enum RepoError {
    Fs(FsError),
    NotARepository(String),
    /// No open repository has this id.
    Unknown,
    Git(GitError),
    Init(InitError),
    /// The index failed; the text is for the log.
    Index(String),
    /// The `git status` call failed; the text is for the log.
    Status(String),
    /// The blocking task did not finish.
    Join,
    NoPaths,
    /// The patch cut failed: always a malformed request, never the server's failure.
    Patch(PatchError),
    Commit(CommitError),
    Branch(BranchError),
}

pub open spec fn fs_status(e: FsError) -> u16 {
    match e {
        FsError::Confined => 403u16,
        FsError::NotFound => 404u16,
        FsError::NotADirectory => 400u16,
        FsError::Io(_) => 500u16,
    }
}

/// The table of answers: a malformed request is 400, what does not exist is 404, a well-formed
/// request the world refused is 409, a file that is not text is 422, our own failure is 500.
pub open spec fn repo_status(e: RepoError) -> u16 {
    match e {
        RepoError::Fs(f) => fs_status(f),
        RepoError::NotARepository(_) => 400u16,
        RepoError::Unknown => 404u16,
        RepoError::Git(g) => match g {
            GitError::InvalidCursor | GitError::InvalidCommit => 400u16,
            GitError::FileNotInCommit | GitError::FileUnchanged => 404u16,
            GitError::NotUtf8 => 422u16,
            _ => 500u16,
        },
        RepoError::Init(i) => match i {
            InitError::AlreadyARepository(_) => 409u16,
            InitError::Exec(_) => 500u16,
            _ => 400u16,
        },
        RepoError::NoPaths | RepoError::Patch(_) => 400u16,
        RepoError::Commit(c) => match c {
            CommitError::EmptyMessage | CommitError::InvalidFixupTarget => 400u16,
            CommitError::Exec(_) => 500u16,
            _ => 409u16,
        },
        RepoError::Branch(b) => match b {
            BranchError::InvalidName(_) | BranchError::InvalidStart(_) | BranchError::UnknownStart(
                _,
            ) => 400u16,
            BranchError::Exec(_) => 500u16,
            _ => 409u16,
        },
        RepoError::Index(_) | RepoError::Status(_) | RepoError::Join => 500u16,
    }
}

impl RepoError {
    /// The HTTP status the refusal is answered with.
    pub fn status(&self) -> (code: u16)
        ensures
            code == repo_status(*self),
    {
        match self {
            RepoError::Fs(f) => f.status(),
            RepoError::NotARepository(_) => 400,
            RepoError::Unknown => 404,
            RepoError::Git(g) => match g {
                GitError::InvalidCursor | GitError::InvalidCommit => 400,
                GitError::FileNotInCommit | GitError::FileUnchanged => 404,
                GitError::NotUtf8 => 422,
                _ => 500,
            },
            RepoError::Init(i) => match i {
                InitError::AlreadyARepository(_) => 409,
                InitError::Exec(_) => 500,
                _ => 400,
            },
            RepoError::NoPaths | RepoError::Patch(_) => 400,
            RepoError::Commit(c) => match c {
                CommitError::EmptyMessage | CommitError::InvalidFixupTarget => 400,
                CommitError::Exec(_) => 500,
                _ => 409,
            },
            RepoError::Branch(b) => match b {
                BranchError::InvalidName(_) | BranchError::InvalidStart(_) | BranchError::UnknownStart(
                    _,
                ) => 400,
                BranchError::Exec(_) => 500,
                _ => 409,
            },
            RepoError::Index(_) | RepoError::Status(_) | RepoError::Join => 500,
        }
    }
}

/// Why starting a clone was refused.
#[derive(Debug, Clone, PartialEq, Eq)]
pub enum CloneStartError {
    Repo(RepoError),
    Clone(CloneError),
    Jobs(JobsError),
}

impl CloneStartError {
    /// The HTTP status: what `prepare` refuses is a malformed request (nothing touched the
    /// network yet), but for a target that is already full, which is a conflict.
    pub fn status(&self) -> (code: u16)
        ensures
            code == match self {
                CloneStartError::Repo(r) => repo_status(*r),
                CloneStartError::Jobs(j) => match j {
                    JobsError::Unknown => 404u16,
                    JobsError::TooMany => 429u16,
                    JobsError::Id => 500u16,
                },
                CloneStartError::Clone(c) => match c {
                    CloneError::NotEmpty(_) => 409u16,
                    _ => 400u16,
                },
            },
    {
        match self {
            CloneStartError::Repo(r) => r.status(),
            CloneStartError::Jobs(j) => j.status(),
            CloneStartError::Clone(c) => match c {
                CloneError::NotEmpty(_) => 409,
                _ => 400,
            },
        }
    }
}

pub open spec fn head_oid_of(head: Head) -> Option<Seq<char>> {
    match head {
        Head::Branch { commit, .. } => Some(commit@),
        Head::Detached { commit } => Some(commit@),
        Head::Unborn { .. } => None,
    }
}

/// The commit `HEAD` points at now, if any: what the indexing job compares against to know
/// whether there is new work. An unborn `HEAD` has nothing to index.
pub fn head_oid(head: &Head) -> (r: Option<String>)
    ensures
        match r {
            Some(c) => head_oid_of(*head) == Some(c@),
            None => head_oid_of(*head) is None,
        },
{
    match head {
        Head::Branch { commit, .. } => Some(commit.clone()),
        Head::Detached { commit } => Some(commit.clone()),
        Head::Unborn { .. } => None,
    }
}

pub open spec fn log_limit_of(requested: Option<usize>) -> usize {
    match requested {
        None => LOG_LIMIT_DEFAULT,
        Some(k) => if k < 1 {
            1
        } else if k > LOG_LIMIT_MAX {
            LOG_LIMIT_MAX
        } else {
            k
        },
    }
}

/// The size of a log page: the default when none is asked, and clamped, never refused:
/// asking for ten thousand is neither an attack nor a mistake, only more than the server serves.
pub fn log_limit(requested: Option<usize>) -> (n: usize)
    ensures
        n == log_limit_of(requested),
{
    match requested {
        None => LOG_LIMIT_DEFAULT,
        Some(k) => if k < 1 {
            1
        } else if k > LOG_LIMIT_MAX {
            LOG_LIMIT_MAX
        } else {
            k
        },
    }
}

/// The untracked files a discard removes: those of the status's untracked list, in its order,
/// that the user named.
pub open spec fn removed_of(untracked: Seq<Seq<char>>, requested: Seq<Seq<char>>) -> Seq<Seq<char>> {
    untracked.filter(|p: Seq<char>| requested.contains(p))
}

/// The paths a discard hands to `git checkout`: every named path, in the user's order, but for
/// those removed.
pub open spec fn restored_of(requested: Seq<Seq<char>>, removed: Seq<Seq<char>>) -> Seq<Seq<char>> {
    requested.filter(|p: Seq<char>| !removed.contains(p))
}

fn contains_str(v: &Vec<String>, p: &String) -> (r: bool)
    ensures
        r == strs(v@).contains(p@),
{
    let pc = chars_of(p.as_str());
    let mut i: usize = 0;
    while i < v.len()
        invariant
            i <= v@.len(),
            pc@ == p@,
            forall|k: int| 0 <= k < i ==> strs(v@)[k] != p@,
        decreases v@.len() - i,
    {
        if eq(&chars_of(v[i].as_str()), &pc) {
            assert(strs(v@)[i as int] == p@);
            return true;
        }
        i += 1;
    }
    false
}

/// A discard split in two: the untracked files to remove from the disk (git has no copy of
/// them to restore), and the tracked paths `git checkout` brings back to the index's content.
pub fn split_discard(requested: &Vec<String>, untracked: &Vec<String>) -> (r: (Vec<String>, Vec<String>))
    ensures
        strs(r.1@) == removed_of(strs(untracked@), strs(requested@)),
        strs(r.0@) == restored_of(strs(requested@), strs(r.1@)),
{
    let mut removed: Vec<String> = Vec::new();
    let mut i: usize = 0;
    proof {
        reveal(Seq::filter);
        assert(strs(removed@) =~= removed_of(strs(untracked@).take(0), strs(requested@)));
    }
    while i < untracked.len()
        invariant
            i <= untracked@.len(),
            strs(removed@) == removed_of(strs(untracked@).take(i as int), strs(requested@)),
        decreases untracked@.len() - i,
    {
        proof {
            reveal(Seq::filter);
            assert(strs(untracked@).take(i + 1).drop_last() =~= strs(untracked@).take(i as int));
        }
        let ghost before = removed@;
        if contains_str(requested, &untracked[i]) {
            removed.push(untracked[i].clone());
            assert(strs(removed@) =~= strs(before).push(strs(untracked@)[i as int]));
        }
        i += 1;
    }
    assert(strs(untracked@).take(i as int) =~= strs(untracked@));
    let mut restored: Vec<String> = Vec::new();
    let mut j: usize = 0;
    proof {
        reveal(Seq::filter);
        assert(strs(restored@) =~= restored_of(strs(requested@).take(0), strs(removed@)));
    }
    while j < requested.len()
        invariant
            j <= requested@.len(),
            strs(restored@) == restored_of(strs(requested@).take(j as int), strs(removed@)),
        decreases requested@.len() - j,
    {
        proof {
            reveal(Seq::filter);
            assert(strs(requested@).take(j + 1).drop_last() =~= strs(requested@).take(j as int));
        }
        let ghost before = restored@;
        if !contains_str(&removed, &requested[j]) {
            restored.push(requested[j].clone());
            assert(strs(restored@) =~= strs(before).push(strs(requested@)[j as int]));
        }
        j += 1;
    }
    assert(strs(requested@).take(j as int) =~= strs(requested@));
    (restored, removed)
}

/// A discard touches only what the user named, and each named path one way: removed from the
/// disk when it is untracked, restored by `git checkout` otherwise, never both.
pub proof fn law_discard_splits_what_was_named(untracked: Seq<Seq<char>>, requested: Seq<Seq<char>>, p: Seq<char>)
    ensures
        removed_of(untracked, requested).contains(p) <==> (requested.contains(p) && untracked.contains(p)),
        restored_of(requested, removed_of(untracked, requested)).contains(p) <==> (requested.contains(p)
            && !untracked.contains(p)),
{
    let removed = removed_of(untracked, requested);
    let restored = restored_of(requested, removed);
    let in_req = |q: Seq<char>| requested.contains(q);
    let not_removed = |q: Seq<char>| !removed.contains(q);
    if removed.contains(p) {
        untracked.lemma_filter_contains_rev(in_req, p);
        let k = choose|k: int| 0 <= k < removed.len() && removed[k] == p;
        untracked.lemma_filter_pred(in_req, k);
    }
    if requested.contains(p) && untracked.contains(p) {
        let k = choose|k: int| 0 <= k < untracked.len() && untracked[k] == p;
        untracked.lemma_filter_contains(in_req, k);
    }
    if restored.contains(p) {
        requested.lemma_filter_contains_rev(not_removed, p);
        let k = choose|k: int| 0 <= k < restored.len() && restored[k] == p;
        requested.lemma_filter_pred(not_removed, k);
    }
    if requested.contains(p) && !untracked.contains(p) {
        let k = choose|k: int| 0 <= k < requested.len() && requested[k] == p;
        requested.lemma_filter_contains(not_removed, k);
    }
}

// ---------------------------------------------------------------------------------------------
// requests and answers of the repository routes
// ---------------------------------------------------------------------------------------------
/// An open repository: its id and who it is.
#[derive(Debug, Clone)]
pub struct Repo {
    pub repo_id: String,
    pub info: RepoInfo,
}

/// Opening a folder: absolute inside the root, or relative to it, as in the folder listing.
#[derive(Debug, Clone)]
pub struct OpenRequest {
    pub path: String,
}

/// Making a repository in an **existing** folder `path`, or in a new subfolder `name` of it.
#[derive(Debug, Clone)]
pub struct InitRequest {
    pub path: String,
    pub name: Option<String>,
    /// Absent leaves it to the user's `init.defaultBranch`.
    pub branch: Option<String>,
}

impl InitRequest {
    /// The options of `init`, once the folder was resolved inside the root.
    pub fn options(self, parent: String) -> (o: InitOptions)
        ensures
            o.parent@ == parent@,
            o.name == self.name,
            o.branch == self.branch,
    {
        InitOptions { parent, name: self.name, branch: self.branch }
    }
}

/// A log page as the client asks it: the size is clamped, the cursor goes back as it came.
#[derive(Debug, Clone)]
pub struct LogParams {
    pub limit: Option<usize>,
    pub cursor: Option<String>,
}

impl LogParams {
    pub fn query(self) -> (q: LogQuery)
        ensures
            q.limit == log_limit_of(self.limit),
            q.cursor == self.cursor,
    {
        LogQuery { limit: log_limit(self.limit), cursor: self.cursor }
    }
}

/// A new branch: from `HEAD` where no start is given, switched to only when asked, with an
/// upstream only for this creation when `track` says so.
#[derive(Debug, Clone)]
pub struct CreateBranchRequest {
    pub name: String,
    pub start: Option<String>,
    pub checkout: bool,
    pub track: Option<bool>,
}

impl CreateBranchRequest {
    pub fn options(self) -> (o: CreateOptions)
        ensures
            o.name == self.name,
            o.start == self.start,
            o.checkout == self.checkout,
            o.track == self.track,
    {
        CreateOptions { name: self.name, start: self.start, checkout: self.checkout, track: self.track }
    }
}

/// A branch made: its name, the commit it points at, and the repository after (with a
/// checkout, `HEAD` moved).
#[derive(Debug, Clone)]
pub struct BranchCreated {
    pub name: String,
    pub oid: String,
    pub repo: Repo,
}

/// The paths to stage, unstage or discard.
#[derive(Debug, Clone)]
pub struct StagePathsRequest {
    pub paths: Vec<String>,
}

impl StagePathsRequest {
    /// An empty list is refused before anything runs.
    pub fn checked(&self) -> (r: Result<(), RepoError>)
        ensures
            r is Err <==> self.paths@.len() == 0,
            r matches Err(e) ==> e == RepoError::NoPaths,
    {
        if self.paths.len() == 0 {
            Err(RepoError::NoPaths)
        } else {
            Ok(())
        }
    }
}

#[derive(Debug, Clone)]
pub struct WorktreeDiffParams {
    pub path: String,
    pub side: DiffSide,
}

/// A hunk the user picked, with the lines of it (all of them where absent).
#[derive(Debug, Clone)]
pub struct HunkPick {
    pub hunk: usize,
    pub lines: Option<Vec<usize>>,
}

pub open spec fn same_lines(a: Option<Vec<usize>>, b: Option<Vec<usize>>) -> bool {
    match (a, b) {
        (Some(x), Some(y)) => x@ == y@,
        (None, None) => true,
        _ => false,
    }
}

/// The picks as the patch cutter takes them, one for one.
pub fn selection(picks: &Vec<HunkPick>) -> (s: Vec<HunkSelection>)
    ensures
        s@.len() == picks@.len(),
        forall|i: int| 0 <= i < picks@.len() ==> (#[trigger] s@[i]).hunk == picks@[i].hunk && same_lines(
            s@[i].lines,
            picks@[i].lines,
        ),
{
    let mut s: Vec<HunkSelection> = Vec::new();
    let mut i: usize = 0;
    while i < picks.len()
        invariant
            i <= picks@.len(),
            s@.len() == i,
            forall|k: int| 0 <= k < i ==> (#[trigger] s@[k]).hunk == picks@[k].hunk && same_lines(
                s@[k].lines,
                picks@[k].lines,
            ),
        decreases picks@.len() - i,
    {
        let lines = match &picks[i].lines {
            Some(v) => Some(v.clone()),
            None => None,
        };
        s.push(HunkSelection { hunk: picks[i].hunk, lines });
        i += 1;
    }
    s
}

/// Hunks of one file to stage (from the unstaged side) or to unstage (from the staged side).
#[derive(Debug, Clone)]
pub struct ApplyHunksRequest {
    pub path: String,
    pub side: DiffSide,
    pub hunks: Vec<HunkPick>,
}

/// Hunks of one file to throw away from the working tree.
#[derive(Debug, Clone)]
pub struct DiscardHunksRequest {
    pub path: String,
    pub hunks: Vec<HunkPick>,
}

/// A commit as the user asks it.
#[derive(Debug, Clone)]
pub struct CommitRequest {
    pub message: String,
    pub amend: bool,
    pub signoff: bool,
    pub gpg_sign: Option<bool>,
    pub fixup: Option<String>,
}

impl CommitRequest {
    pub fn options(self) -> (o: CommitOptions)
        ensures
            o.message == self.message,
            o.amend == self.amend,
            o.signoff == self.signoff,
            o.gpg_sign == self.gpg_sign,
            o.fixup == self.fixup,
    {
        CommitOptions {
            message: self.message,
            amend: self.amend,
            signoff: self.signoff,
            gpg_sign: self.gpg_sign,
            fixup: self.fixup,
        }
    }
}

/// A commit made, with the status after it: the interface needs no second request.
#[derive(Debug, Clone)]
pub struct CommitDone {
    pub oid: String,
    pub status: WorktreeStatus,
}

/// The user's commit template, if any.
#[derive(Debug, Clone)]
pub struct CommitTemplate {
    pub template: Option<String>,
}

/// Two revisions to compare.
#[derive(Debug, Clone)]
pub struct CompareParams {
    pub from: String,
    pub to: String,
}

/// One file of a comparison.
#[derive(Debug, Clone)]
pub struct CompareDiffParams {
    pub from: String,
    pub to: String,
    pub path: String,
}

/// A path prefix to complete.
#[derive(Debug, Clone)]
pub struct PathsParams {
    pub prefix: String,
}

/// A search in the unified syntax.
#[derive(Debug, Clone)]
pub struct SearchParams {
    pub q: String,
}

/// The file of a commit's diff.
#[derive(Debug, Clone)]
pub struct DiffParams {
    pub path: String,
}

} // verus!
