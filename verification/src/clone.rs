//! `git clone`: what is decided before the command runs, and what is kept of its stderr.
//!
//! The clone is the system's `git` (it needs the user's credential helper, SSH agent,
//! `insteadOf` and LFS). Two things set it apart from any command line:
//!
//! **Preparing before running.** The caller has to know, *before* git starts, the target folder
//! and whether **we** create it: only then can the clean-up be registered first, and cancelling
//! never guesses what may be deleted.
//!
//! **`protocol.ext.allow=never`.** The `ext::` transport runs an arbitrary command. `--` keeps a
//! URL from becoming a flag, but an `ext::` URL is a *valid* URL that runs a shell.
use vstd::prelude::*;
use crate::model::opt_str;
use crate::init::{branch_name_ok, branch_name_ok_exec, has_char, has_char_exec, join_path, join_path_exec};
use crate::text::strs;
use crate::progress::ProgressEvent;
use crate::jobs::Cleanup;
use crate::text::{
    append, chars_of, dec, dec_exec, eq, join, join_exec, slice_of, starts_with, string_of,
    strip_suffix, strip_suffix_exec, trim, trim_exec, views,
};

verus! {

broadcast use vstd::seq_lib::group_seq_properties;

/// How many stderr lines are kept for the error diagnosis: enough for git's message to fit.
pub const STDERR_TAIL: usize = 40;

#[derive(Debug, Clone, PartialEq, Eq)]
pub enum CloneError {
    MissingUrl,
    InvalidUrl,
    /// The `ext::` transport runs commands and is turned off.
    ExtTransport,
    InvalidFolder(String),
    InvalidBranch(String),
    InvalidRemote(String),
    /// The target exists and is not empty.
    NotEmpty(String),
    Cancelled,
}

pub enum CloneFault {
    MissingUrl,
    InvalidUrl,
    ExtTransport,
    InvalidFolder(Seq<char>),
    InvalidBranch(Seq<char>),
    InvalidRemote(Seq<char>),
    NotEmpty(Seq<char>),
    Cancelled,
}

impl View for CloneError {
    type V = CloneFault;

    open spec fn view(&self) -> CloneFault {
        match self {
            CloneError::MissingUrl => CloneFault::MissingUrl,
            CloneError::InvalidUrl => CloneFault::InvalidUrl,
            CloneError::ExtTransport => CloneFault::ExtTransport,
            CloneError::InvalidFolder(s) => CloneFault::InvalidFolder(s@),
            CloneError::InvalidBranch(s) => CloneFault::InvalidBranch(s@),
            CloneError::InvalidRemote(s) => CloneFault::InvalidRemote(s@),
            CloneError::NotEmpty(s) => CloneFault::NotEmpty(s@),
            CloneError::Cancelled => CloneFault::Cancelled,
        }
    }
}

#[derive(Debug, Clone)]
pub struct CloneOptions {
    pub url: String,
    /// The existing folder the clone lands in.
    pub parent: String,
    /// The folder to make. Absent, it comes from the URL (`.../porcelain.git` → `porcelain`).
    pub folder: Option<String>,
    pub branch: Option<String>,
    /// `--depth`: a shallow clone.
    pub depth: Option<u32>,
    pub recurse_submodules: bool,
    /// The remote's name. Absent is `origin`, git's default.
    pub remote: Option<String>,
}

/// What the file system says of the target before the clone.
#[derive(Debug, Clone, Copy, PartialEq, Eq, Structural)]
pub enum TargetState {
    /// Nothing there: the clone creates it, and cancelling may delete it.
    Missing,
    /// An empty folder: a fine target, but the user's, never ours to delete.
    Empty,
    /// Something with contents (or that is not a readable folder).
    Occupied,
}

/// What is known before git starts.
#[derive(Debug, Clone)]
pub struct Prepared {
    pub target: String,
    /// `true` when the folder **did not exist**: the one case in which cancelling may delete it.
    pub creates_target: bool,
    args: Vec<String>,
}

impl View for Prepared {
    type V = PreparedView;

    closed spec fn view(&self) -> PreparedView {
        PreparedView {
            target: self.target@,
            creates_target: self.creates_target,
            args: strs(self.args@),
        }
    }
}

impl Prepared {
    pub fn target(&self) -> (t: &str)
        ensures
            t@ == self@.target,
    {
        self.target.as_str()
    }

    /// The arguments `git` runs with.
    pub fn args(&self) -> (a: &Vec<String>)
        ensures
            strs(a@) == self@.args,
    {
        &self.args
    }
}

/// A **path component**, not a path: what keeps the target folder from escaping.
pub open spec fn component_ok(name: Seq<char>) -> bool {
    &&& name.len() > 0
    &&& name[0] != '-'
    &&& !has_char(name, '/')
    &&& !has_char(name, '\\')
    &&& !has_char(name, '\0')
    &&& name != "."@
    &&& name != ".."@
}

/// The component a raw name gives (trimmed), or the refusal.
pub open spec fn component_of(raw: Seq<char>) -> Result<Seq<char>, CloneFault> {
    if component_ok(trim(raw)) {
        Ok(trim(raw))
    } else {
        Err(CloneFault::InvalidFolder(raw))
    }
}

pub fn validate_component(raw: &str) -> (r: Result<String, CloneError>)
    ensures
        match r {
            Ok(n) => component_of(raw@) == Ok::<Seq<char>, CloneFault>(n@),
            Err(e) => component_of(raw@) == Err::<Seq<char>, CloneFault>(e@),
        },
{
    let name = trim_exec(&chars_of(raw));
    let ok = name.len() > 0 && name[0] != '-' && !has_char_exec(&name, '/') && !has_char_exec(
        &name,
        '\\',
    ) && !has_char_exec(&name, '\0') && !eq(&name, &chars_of(".")) && !eq(&name, &chars_of(".."));
    if ok {
        Ok(string_of(&name))
    } else {
        Err(CloneError::InvalidFolder(string_of(&chars_of(raw))))
    }
}

/// `s.trim_end_matches(c)`.
pub open spec fn trim_end_char(s: Seq<char>, c: char) -> Seq<char>
    decreases s.len(),
{
    if s.len() > 0 && s.last() == c {
        trim_end_char(s.drop_last(), c)
    } else {
        s
    }
}

/// What follows the last `/` or `:` (the whole text when there is none).
pub open spec fn last_segment(s: Seq<char>) -> Seq<char>
    decreases s.len(),
{
    if s.len() == 0 {
        s
    } else if s.last() == '/' || s.last() == ':' {
        seq![]
    } else {
        last_segment(s.drop_last()).push(s.last())
    }
}

/// `https://github.com/rust-lang/log.git` → `log`; `git@host:org/proj.git` → `proj`.
pub open spec fn folder_of_url(url: Seq<char>) -> Option<Seq<char>> {
    let last = last_segment(trim_end_char(url, '/'));
    let name = match strip_suffix(last, ".git"@) {
        Some(n) => n,
        None => last,
    };
    match component_of(name) {
        Ok(n) => Some(n),
        Err(_) => None,
    }
}

pub fn folder_from_url(url: &str) -> (r: Option<String>)
    ensures
        match r {
            Some(n) => folder_of_url(url@) == Some(n@),
            None => folder_of_url(url@) is None,
        },
{
    let u = chars_of(url);
    // the end, without the `/` it may have
    let mut end: usize = u.len();
    while end > 0 && u[end - 1] == '/'
        invariant
            end <= u.len(),
            trim_end_char(u@, '/') == trim_end_char(u@.take(end as int), '/'),
        decreases end,
    {
        assert(u@.take(end as int).drop_last() =~= u@.take(end - 1));
        end -= 1;
    }
    let trimmed = slice_of(&u, 0, end);
    assert(trimmed@ =~= u@.take(end as int));
    assert(trim_end_char(u@, '/') == trimmed@);
    // the start of the last segment
    let mut start: usize = end;
    while start > 0 && trimmed[start - 1] != '/' && trimmed[start - 1] != ':'
        invariant
            start <= end == trimmed.len(),
            last_segment(trimmed@) == last_segment(trimmed@.take(start as int)) + trimmed@.skip(
                start as int,
            ),
        decreases start,
    {
        let ghost t = trimmed@.take(start as int);
        assert(t.drop_last() =~= trimmed@.take(start - 1));
        assert(trimmed@.skip(start - 1) =~= seq![t.last()] + trimmed@.skip(start as int));
        start -= 1;
    }
    let last = slice_of(&trimmed, start, end);
    assert(last@ =~= trimmed@.skip(start as int));
    assert(last_segment(trimmed@.take(start as int)) =~= seq![]);
    let name = match strip_suffix_exec(&last, &chars_of(".git")) {
        Some(n) => n,
        None => last,
    };
    match validate_component(string_of(&name).as_str()) {
        Ok(n) => Some(n),
        Err(_) => None,
    }
}

/// The arguments of `git clone`.
pub open spec fn clone_args_of(
    url: Seq<char>,
    target: Seq<char>,
    branch: Option<Seq<char>>,
    depth: Option<u32>,
    recurse: bool,
    remote: Option<Seq<char>>,
) -> Seq<Seq<char>> {
    // an ephemeral override, never `git config --global`; and `--progress`, or git shows
    // progress only to a terminal
    seq!["-c"@, "protocol.ext.allow=never"@, "clone"@, "--progress"@] + match branch {
        Some(b) => seq!["--branch"@, b],
        None => seq![],
    } + match depth {
        // `--depth` alone brings only the branch asked for
        Some(d) => seq!["--depth="@ + dec(d as nat), "--no-single-branch"@],
        None => seq![],
    } + if recurse {
        seq!["--recurse-submodules"@]
    } else {
        seq![]
    } + match remote {
        Some(r) => seq!["--origin"@, r],
        None => seq![],
    }
    // `--` closes the options: from here on a URL starting with `-` is a URL, not a flag
     + seq!["--"@, url, target]
}

pub struct PreparedView {
    pub target: Seq<char>,
    pub creates_target: bool,
    pub args: Seq<Seq<char>>,
}

/// The target folder of a clone: the folder asked for, or the one the URL names.
pub open spec fn clone_target_of(url_raw: Seq<char>, parent: Seq<char>, folder: Option<Seq<char>>) -> Result<
    Seq<char>,
    CloneFault,
> {
    let url = trim(url_raw);
    if url.len() == 0 {
        Err(CloneFault::MissingUrl)
    } else if has_char(url, '\0') || has_char(url, '\n') || has_char(url, '\r') {
        Err(CloneFault::InvalidUrl)
    } else if "ext::"@.is_prefix_of(url) {
        Err(CloneFault::ExtTransport)
    } else {
        match folder {
            Some(f) => match component_of(f) {
                Ok(n) => Ok(join_path(parent, n)),
                Err(e) => Err(e),
            },
            None => match folder_of_url(url) {
                Some(n) => Ok(join_path(parent, n)),
                None => Err(CloneFault::InvalidUrl),
            },
        }
    }
}

/// Everything [`prepare`] decides, in the order the user hears it.
pub open spec fn prepare_of(
    url_raw: Seq<char>,
    parent: Seq<char>,
    folder: Option<Seq<char>>,
    branch: Option<Seq<char>>,
    depth: Option<u32>,
    recurse: bool,
    remote: Option<Seq<char>>,
    state: TargetState,
) -> Result<PreparedView, CloneFault> {
    match clone_target_of(url_raw, parent, folder) {
        Err(e) => Err(e),
        Ok(target) => if state == TargetState::Occupied {
            // git would refuse anyway; saying so before the connection spares a download
            Err(CloneFault::NotEmpty(target))
        } else if branch is Some && !branch_name_ok(branch->0) {
            Err(CloneFault::InvalidBranch(branch->0))
        } else if remote is Some && !component_ok(trim(remote->0)) {
            Err(CloneFault::InvalidRemote(remote->0))
        } else {
            Ok(
                PreparedView {
                    target,
                    creates_target: state == TargetState::Missing,
                    args: clone_args_of(trim(url_raw), target, branch, depth, recurse, remote),
                },
            )
        },
    }
}

pub open spec fn options_target(o: CloneOptions) -> Result<Seq<char>, CloneFault> {
    clone_target_of(o.url@, o.parent@, opt_str(o.folder))
}

pub open spec fn options_prepare(o: CloneOptions, state: TargetState) -> Result<PreparedView, CloneFault> {
    prepare_of(
        o.url@,
        o.parent@, opt_str(o.folder), opt_str(o.branch),
        o.depth,
        o.recurse_submodules, opt_str(o.remote),
        state,
    )
}

/// The folder a clone would land in, before anything is asked of the file system.
pub fn clone_target(options: &CloneOptions) -> (r: Result<String, CloneError>)
    ensures
        match r {
            Ok(t) => options_target(*options) == Ok::<Seq<char>, CloneFault>(t@),
            Err(e) => options_target(*options) == Err::<Seq<char>, CloneFault>(e@),
        },
{
    let url = trim_exec(&chars_of(options.url.as_str()));
    if url.len() == 0 {
        return Err(CloneError::MissingUrl);
    }
    if has_char_exec(&url, '\0') || has_char_exec(&url, '\n') || has_char_exec(&url, '\r') {
        return Err(CloneError::InvalidUrl);
    }
    if starts_with(&url, &chars_of("ext::")) {
        return Err(CloneError::ExtTransport);
    }
    let folder = match &options.folder {
        Some(f) => match validate_component(f.as_str()) {
            Ok(n) => n,
            Err(e) => return Err(e),
        },
        None => match folder_from_url(string_of(&url).as_str()) {
            Some(n) => n,
            None => return Err(CloneError::InvalidUrl),
        },
    };
    Ok(join_path_exec(options.parent.as_str(), folder.as_str()))
}

/// Checks everything and builds the command line, touching neither the network nor the disk.
/// `state` is what the file system says of the folder [`clone_target`] gives.
pub fn prepare(options: &CloneOptions, state: TargetState) -> (r: Result<Prepared, CloneError>)
    ensures
        match r {
            Ok(p) => options_prepare(*options, state) == Ok::<PreparedView, CloneFault>(p@),
            Err(e) => options_prepare(*options, state) == Err::<PreparedView, CloneFault>(e@),
        },
{
    let target = match clone_target(options) {
        Ok(t) => t,
        Err(e) => return Err(e),
    };
    if state == TargetState::Occupied {
        return Err(CloneError::NotEmpty(target));
    }
    if let Some(branch) = &options.branch {
        let b = chars_of(branch.as_str());
        if !branch_name_ok_exec(&b) {
            return Err(CloneError::InvalidBranch(branch.clone()));
        }
    }
    if let Some(remote) = &options.remote {
        if validate_component(remote.as_str()).is_err() {
            return Err(CloneError::InvalidRemote(remote.clone()));
        }
    }
    let url = string_of(&trim_exec(&chars_of(options.url.as_str())));
    let mut args: Vec<String> = Vec::new();
    args.push(owned("-c"));
    args.push(owned("protocol.ext.allow=never"));
    args.push(owned("clone"));
    args.push(owned("--progress"));
    if let Some(branch) = &options.branch {
        args.push(owned("--branch"));
        args.push(branch.clone());
    }
    if let Some(depth) = options.depth {
        let mut flag = chars_of("--depth=");
        append(&mut flag, &dec_exec(depth as u64));
        args.push(string_of(&flag));
        args.push(owned("--no-single-branch"));
    }
    if options.recurse_submodules {
        args.push(owned("--recurse-submodules"));
    }
    if let Some(remote) = &options.remote {
        args.push(owned("--origin"));
        args.push(remote.clone());
    }
    args.push(owned("--"));
    args.push(url);
    args.push(target.clone());
    let p = Prepared { creates_target: state == TargetState::Missing, target, args };
    assert(p@.args =~= clone_args_of(
        trim(options.url@),
        p@.target, opt_str(options.branch),
        options.depth,
        options.recurse_submodules, opt_str(options.remote),
    ));
    Ok(p)
}

fn owned(s: &str) -> (r: String)
    ensures
        r@ == s@,
{
    string_of(&chars_of(s))
}

// ---------------------------------------------------------------------------------------------
// what is kept of stderr
// ---------------------------------------------------------------------------------------------
/// The last lines of a sequence, at most as many as the tail keeps.
pub open spec fn keep_last(lines: Seq<Seq<char>>) -> Seq<Seq<char>> {
    if lines.len() > STDERR_TAIL {
        lines.skip(lines.len() - STDERR_TAIL)
    } else {
        lines
    }
}

/// Keeps the last stderr lines that are not progress. Progress is noise for a diagnosis:
/// fifteen thousand "Receiving objects" do not say why the clone failed.
#[derive(Debug)]
pub struct StderrTail {
    lines: Vec<String>,
}

impl View for StderrTail {
    type V = Seq<Seq<char>>;

    closed spec fn view(&self) -> Seq<Seq<char>> {
        strs(self.lines@)
    }
}

impl StderrTail {
    #[verifier::type_invariant]
    spec fn bounded(self) -> bool {
        self.lines.len() <= STDERR_TAIL
    }
}

impl Default for StderrTail {
    fn default() -> (t: Self)
        ensures
            t@.len() == 0,
    {
        StderrTail { lines: Vec::new() }
    }
}

impl StderrTail {
    /// Keeps a log line; progress events are dropped.
    pub fn push(&mut self, event: &ProgressEvent)
        ensures
            final(self)@ == match event {
                ProgressEvent::Other(line) => keep_last(old(self)@.push(line@)),
                _ => old(self)@,
            },
            final(self)@.len() <= STDERR_TAIL,
    {
        proof {
            use_type_invariant(&*self);
        }
        if let ProgressEvent::Other(line) = event {
            let ghost before = self@;
            let mut lines: Vec<String> = Vec::new();
            std::mem::swap(&mut lines, &mut self.lines);
            if lines.len() == STDERR_TAIL {
                lines.remove(0);
            }
            lines.push(line.clone());
            proof {
                if before.len() == STDERR_TAIL {
                    assert(strs(lines@) =~= before.push(line@).skip(1));
                } else {
                    assert(strs(lines@) =~= before.push(line@));
                }
            }
            self.lines = lines;
        }
    }

    /// The lines kept, one per line.
    pub fn text(&self) -> (t: String)
        ensures
            t@ == join(self@, seq!['\n']),
    {
        let mut parts: Vec<Vec<char>> = Vec::new();
        let mut i: usize = 0;
        while i < self.lines.len()
            invariant
                i <= self.lines.len(),
                views(parts@) =~= strs(self.lines@).take(i as int),
            decreases self.lines.len() - i,
        {
            let ghost before = views(parts@);
            let piece = chars_of(self.lines[i].as_str());
            parts.push(piece);
            assert(views(parts@) =~= before.push(piece@));
            assert(strs(self.lines@).take(i + 1) =~= strs(self.lines@).take(i as int).push(
                self.lines@[i as int]@,
            ));
            i += 1;
        }
        assert(strs(self.lines@).take(self.lines.len() as int) =~= self@);
        let nl = vec!['\n'];
        assert(nl@ =~= seq!['\n']);
        string_of(&join_exec(&parts, &nl))
    }
}

/// The tail is the last lines of everything pushed: keeping the last lines at each push keeps
/// the same lines as keeping the last lines once at the end.
pub proof fn law_tail_keeps_the_last_lines(lines: Seq<Seq<char>>, line: Seq<char>)
    ensures
        keep_last(keep_last(lines).push(line)) == keep_last(lines.push(line)),
{
    if lines.len() > STDERR_TAIL {
        assert(keep_last(lines).push(line).skip(1) =~= lines.push(line).skip(
            lines.push(line).len() - STDERR_TAIL,
        ));
    }
}

/// The log lines among some events, in order: what is not progress.
pub open spec fn other_lines(events: Seq<ProgressEvent>) -> Seq<Seq<char>>
    decreases events.len(),
{
    if events.len() == 0 {
        Seq::empty()
    } else {
        match events.last() {
            ProgressEvent::Other(line) => other_lines(events.drop_last()).push(line@),
            _ => other_lines(events.drop_last()),
        }
    }
}

/// The tail after pushing `events` one by one into an empty tail, as [`StderrTail::push`]
/// states each step.
pub open spec fn tail_after(events: Seq<ProgressEvent>) -> Seq<Seq<char>>
    decreases events.len(),
{
    if events.len() == 0 {
        Seq::empty()
    } else {
        match events.last() {
            ProgressEvent::Other(line) => keep_last(tail_after(events.drop_last()).push(line@)),
            _ => tail_after(events.drop_last()),
        }
    }
}

/// After any sequence of pushes, the tail holds the last log lines pushed, at most as many as
/// it keeps, oldest dropped first; progress leaves it as it was.
pub proof fn law_tail_after_pushes(events: Seq<ProgressEvent>)
    ensures
        tail_after(events) == keep_last(other_lines(events)),
    decreases events.len(),
{
    if events.len() > 0 {
        let init = events.drop_last();
        law_tail_after_pushes(init);
        match events.last() {
            ProgressEvent::Other(line) => {
                law_tail_keeps_the_last_lines(other_lines(init), line@);
            },
            _ => {},
        }
    }
}

// ---------------------------------------------------------------------------------------------
// the request
// ---------------------------------------------------------------------------------------------
/// A clone as the client asks it: `path` is the parent folder, unresolved.
#[derive(Debug, Clone)]
pub struct CloneRequest {
    pub url: String,
    pub path: String,
    /// Absent, the folder's name comes from the URL.
    pub folder: Option<String>,
    pub branch: Option<String>,
    pub depth: Option<u32>,
    pub recurse_submodules: bool,
    /// Absent is `origin`.
    pub remote: Option<String>,
}

impl CloneRequest {
    /// The clone's options, once `path` was resolved inside the root.
    pub fn options(self, parent: String) -> (o: CloneOptions)
        ensures
            o.url == self.url,
            o.parent == parent,
            o.folder == self.folder,
            o.branch == self.branch,
            o.depth == self.depth,
            o.recurse_submodules == self.recurse_submodules,
            o.remote == self.remote,
    {
        CloneOptions {
            url: self.url,
            parent,
            folder: self.folder,
            branch: self.branch,
            depth: self.depth,
            recurse_submodules: self.recurse_submodules,
            remote: self.remote,
        }
    }
}

impl Prepared {
    /// The clean-up the job registers **before** the clone starts, and only for a folder the
    /// clone itself creates: registering later would leave a window where git has written
    /// files nobody knows may be deleted; deleting a folder the user had would lose their work.
    pub fn cleanup(&self) -> (c: Option<Cleanup>)
        ensures
            match c {
                Some(Cleanup::RemoveCreatedDir(d)) => self@.creates_target && d@ == self@.target,
                None => !self@.creates_target,
            },
    {
        if self.creates_target {
            Some(Cleanup::RemoveCreatedDir(string_of(&chars_of(self.target.as_str()))))
        } else {
            None
        }
    }
}

} // verus!
