//! The house rules of every call to the system's `git`, and the command lines of the history
//! filters.
//!
//! - `--no-optional-locks`, so a read of ours never fights the user's `git` for `index.lock`;
//! - `GIT_TERMINAL_PROMPT=0`, or an unexpected password prompt hangs the job for ever;
//! - `LC_ALL=C`, so stderr is stable: the diagnosis reads English;
//! - `-C <path>` rather than a working directory, which is global to the process.
//!
//! Config overrides are always ephemeral, through `git -c key=value`.
use vstd::prelude::*;
use crate::fs::{is_within, within, Canonical};
use crate::text::{strs, append, chars_of, string_of};

verus! {

broadcast use vstd::seq_lib::group_seq_properties;

/// The executable: not an absolute path on purpose, the user's own `git` comes first on `PATH`.
pub const GIT: &'static str = "git";

/// Where the askpass helper finds its socket. **Not** the secret: the path of an ephemeral
/// socket of ours.
pub const ASKPASS_SOCKET_ENV: &'static str = "PORC_ASKPASS_SOCKET";

/// The ceiling of a local command (`init`, `status`, `rev-parse`), in seconds: past it
/// something hung, and killing beats waiting.
pub const LOCAL_TIMEOUT_SECS: u64 = 30;

pub open spec fn pairs(v: Seq<(String, String)>) -> Seq<(Seq<char>, Seq<char>)> {
    v.map_values(|p: (String, String)| (p.0@, p.1@))
}

fn owned(s: &str) -> (r: String)
    ensures
        r@ == s@,
{
    string_of(&chars_of(s))
}

/// The arguments every `git` starts with.
pub fn house_args(repo: Option<&str>) -> (args: Vec<String>)
    ensures
        strs(args@) == seq!["--no-optional-locks"@] + match repo {
            Some(r) => seq!["-C"@, r@],
            None => seq![],
        },
{
    let mut args = vec![owned("--no-optional-locks")];
    if let Some(r) = repo {
        args.push(owned("-C"));
        args.push(owned(r));
    }
    assert(strs(args@) =~= seq!["--no-optional-locks"@] + match repo {
        Some(r) => seq!["-C"@, r@],
        None => seq![],
    });
    args
}

/// The environment every `git` runs with.
pub fn house_env() -> (env: Vec<(String, String)>)
    ensures
        pairs(env@) == seq![("GIT_TERMINAL_PROMPT"@, "0"@), ("LC_ALL"@, "C"@)],
{
    let env = vec![(owned("GIT_TERMINAL_PROMPT"), owned("0")), (owned("LC_ALL"), owned("C"))];
    assert(pairs(env@) =~= seq![("GIT_TERMINAL_PROMPT"@, "0"@), ("LC_ALL"@, "C"@)]);
    env
}

/// How git and ssh ask for a secret when there is no terminal: the passphrase never shows in
/// `argv` or on disk; the environment carries the path of an ephemeral socket.
#[derive(Debug, Clone)]
pub struct Askpass {
    /// What git runs: this program, in askpass mode.
    pub helper: String,
    pub socket: String,
}

impl Askpass {
    /// The variables that route git's and ssh's questions to the helper.
    pub fn env(&self) -> (env: Vec<(String, String)>)
        ensures
            pairs(env@) == seq![
                ("GIT_ASKPASS"@, self.helper@),
                ("SSH_ASKPASS"@, self.helper@),
                ("SSH_ASKPASS_REQUIRE"@, "force"@),
                ("DISPLAY"@, ":0"@),
                ("PORC_ASKPASS_SOCKET"@, self.socket@),
            ],
    {
        // `GIT_ASKPASS` covers HTTPS credentials, `SSH_ASKPASS` the key's passphrase;
        // `SSH_ASKPASS_REQUIRE=force` (OpenSSH ≥ 8.4) even with a tty inherited; old ssh
        // checked `DISPLAY`.
        let env = vec![
            (owned("GIT_ASKPASS"), self.helper.clone()),
            (owned("SSH_ASKPASS"), self.helper.clone()),
            (owned("SSH_ASKPASS_REQUIRE"), owned("force")),
            (owned("DISPLAY"), owned(":0")),
            (owned(ASKPASS_SOCKET_ENV), self.socket.clone()),
        ];
        assert(pairs(env@) =~= seq![
            ("GIT_ASKPASS"@, self.helper@),
            ("SSH_ASKPASS"@, self.helper@),
            ("SSH_ASKPASS_REQUIRE"@, "force"@),
            ("DISPLAY"@, ":0"@),
            ("PORC_ASKPASS_SOCKET"@, self.socket@),
        ]);
        env
    }
}

/// Which pipe a streaming command reads.
#[derive(Debug, Clone, Copy, PartialEq, Eq)]
pub enum Pipe {
    /// Network progress (`clone`, `fetch`): git writes `--progress` to stderr.
    Stderr,
    /// Real data (`log`, pickaxe): the command's result is stdout.
    Stdout,
}

/// What a command that ran to the end wrote.
#[derive(Debug, Clone)]
pub struct Output {
    pub stdout: Vec<u8>,
    pub stderr: String,
}

// ---------------------------------------------------------------------------------------------
// the history filters
// ---------------------------------------------------------------------------------------------
/// How to search by content: the two `git log` forms libgit2 lacks.
#[derive(Debug, Clone)]
pub enum ContentMode {
    /// `-S<string>`: commits where the number of occurrences of the string changed.
    StringCount(String),
    /// `-G<regex>`: commits whose added or removed lines match the expression.
    Regex(String),
}

/// The flag and its value glued in one argument: whatever the value starts with, it never
/// reads as another flag.
pub open spec fn content_flag(mode: ContentMode) -> Seq<char> {
    match mode {
        ContentMode::StringCount(n) => "-S"@ + n@,
        ContentMode::Regex(p) => "-G"@ + p@,
    }
}

impl ContentMode {
    pub fn flag(&self) -> (f: String)
        ensures
            f@ == content_flag(*self),
    {
        let (prefix, value) = match self {
            ContentMode::StringCount(needle) => ("-S", needle),
            ContentMode::Regex(pattern) => ("-G", pattern),
        };
        let mut f = chars_of(prefix);
        append(&mut f, &chars_of(value.as_str()));
        string_of(&f)
    }
}

/// The `git log -z` both filters share, in the format the record reader takes.
pub open spec fn log_args_of(extra: Seq<Seq<char>>) -> Seq<Seq<char>> {
    seq!["log"@, "-z"@, "--format=%H%x00%an%x00%ae%x00%at%x00%s"@] + extra
}

/// Only the commits that touched `path`. The pathspec comes after `--`: a path starting with
/// `-` never becomes a flag.
pub fn by_path_args(path: &str) -> (args: Vec<String>)
    ensures
        strs(args@) == log_args_of(seq!["--"@, path@]),
{
    let args = vec![
        owned("log"),
        owned("-z"),
        owned("--format=%H%x00%an%x00%ae%x00%at%x00%s"),
        owned("--"),
        owned(path),
    ];
    assert(strs(args@) =~= log_args_of(seq!["--"@, path@]));
    args
}

/// Only the commits whose diff matches `mode`, over the whole repository.
pub fn by_content_args(mode: &ContentMode) -> (args: Vec<String>)
    ensures
        strs(args@) == log_args_of(seq![content_flag(*mode)]),
{
    let args = vec![
        owned("log"),
        owned("-z"),
        owned("--format=%H%x00%an%x00%ae%x00%at%x00%s"),
        mode.flag(),
    ];
    assert(strs(args@) =~= log_args_of(seq![content_flag(*mode)]));
    args
}

// ---------------------------------------------------------------------------------------------
// discarding untracked files
// ---------------------------------------------------------------------------------------------
/// What to do with one untracked path the user confirmed for discarding.
#[derive(Debug, Clone, PartialEq, Eq)]
pub enum DiscardStep {
    /// Nothing: already gone, outside the repository, or a folder (a click never removes a tree).
    Skip,
    /// Remove this file (the canonical path).
    Remove(String),
    /// The repository itself is gone from the disk: stop with an error.
    RepositoryGone,
}

pub open spec fn discard_step_of(root: Option<Seq<char>>, target: Canonical) -> Option<Option<Seq<char>>> {
    match target {
        Canonical::Found { path, is_dir } => match root {
            None => None,
            Some(r) => if !within(path@, r) || is_dir {
                Some(None)
            } else {
                Some(Some(path@))
            },
        },
        _ => Some(None),
    }
}

pub open spec fn step_view(s: DiscardStep) -> Option<Option<Seq<char>>> {
    match s {
        DiscardStep::Skip => Some(None),
        DiscardStep::Remove(p) => Some(Some(p@)),
        DiscardStep::RepositoryGone => None,
    }
}

/// The step for one path, from the path made canonical inside the repository and the
/// repository's own canonical path (`None` where that failed). A path that cannot be made
/// canonical is already gone; a `..` or a symlink that leads out of the repository is skipped.
pub fn discard_step(root: Option<&str>, target: Canonical) -> (s: DiscardStep)
    ensures
        step_view(s) == discard_step_of(
            match root {
                Some(r) => Some(r@),
                None => None,
            },
            target,
        ),
{
    match target {
        Canonical::Found { path, is_dir } => match root {
            None => DiscardStep::RepositoryGone,
            Some(r) => {
                if !is_within(path.as_str(), r) || is_dir {
                    DiscardStep::Skip
                } else {
                    DiscardStep::Remove(path)
                }
            },
        },
        _ => DiscardStep::Skip,
    }
}

/// How a streamed command that ran to its end is reported.
#[derive(Debug, Clone, Copy, PartialEq, Eq)]
pub enum StreamEnd {
    Finished,
    Cancelled,
    Failed,
}

/// The report of a streamed command, from its exit status and whether it was cancelled: a
/// success is a success; a failure after a cancellation is the cancellation (stopping the
/// process group is what made `git` exit non-zero); any other failure is a failure.
pub fn stream_end(success: bool, cancelled: bool) -> (e: StreamEnd)
    ensures
        e == if success {
            StreamEnd::Finished
        } else if cancelled {
            StreamEnd::Cancelled
        } else {
            StreamEnd::Failed
        },
{
    if success {
        StreamEnd::Finished
    } else if cancelled {
        StreamEnd::Cancelled
    } else {
        StreamEnd::Failed
    }
}

} // verus!
