//! `git branch` and `git switch --create`: creating a branch.
//!
//! The system's `git` does it: with checkout it writes the index and worktree and runs
//! `post-checkout`; with tracking it honours the user's `branch.autoSetupMerge`. This module
//! holds the command line and the reading of a failure.
use vstd::prelude::*;
use crate::model::opt_str;
use crate::commit::{oid_ok, oid_ok_exec, refusal, refusal_text};
use crate::init::{branch_name_ok, branch_name_ok_exec, has_char, has_char_exec};
use crate::text::strs;
use crate::text::{append, chars_of, contains, contains_exec, is_hex, string_of};

verus! {

broadcast use vstd::seq_lib::group_seq_properties;

#[derive(Debug, Clone, PartialEq, Eq)]
pub enum BranchError {
    InvalidName(String),
    InvalidStart(String),
    AlreadyExists(String),
    UnknownStart(String),
    /// Local changes the switch would overwrite.
    WouldOverwrite,
    /// Git, or one of its **hooks** (almost always `post-checkout`), refused.
    Refused(String),
    /// `git` could not be run, or did not finish; the text is for the log.
    Exec(String),
}

pub enum BranchFault {
    InvalidName(Seq<char>),
    InvalidStart(Seq<char>),
    AlreadyExists(Seq<char>),
    UnknownStart(Seq<char>),
    WouldOverwrite,
    Refused(Seq<char>),
    Exec(Seq<char>),
}

impl View for BranchError {
    type V = BranchFault;

    open spec fn view(&self) -> BranchFault {
        match self {
            BranchError::InvalidName(s) => BranchFault::InvalidName(s@),
            BranchError::InvalidStart(s) => BranchFault::InvalidStart(s@),
            BranchError::AlreadyExists(s) => BranchFault::AlreadyExists(s@),
            BranchError::UnknownStart(s) => BranchFault::UnknownStart(s@),
            BranchError::WouldOverwrite => BranchFault::WouldOverwrite,
            BranchError::Refused(s) => BranchFault::Refused(s@),
            BranchError::Exec(s) => BranchFault::Exec(s@),
        }
    }
}

#[derive(Debug, Clone, Default)]
pub struct CreateOptions {
    /// The new branch's name, without `refs/heads/`.
    pub name: String,
    /// Where it starts. `None` is `HEAD`.
    pub start: Option<String>,
    /// `true` leaves `HEAD` on the new branch (`git switch --create`).
    pub checkout: bool,
    /// `None` honours `branch.autoSetupMerge`; `Some` forces tracking on or off for this
    /// creation only, by flag.
    pub track: Option<bool>,
}

/// The starting point is **an oid or a ref name**, not a free revision: the UI holds one of
/// those, and a free revision (`HEAD@{…}`, `:/text`) is syntax nobody here can explain. It is
/// also what keeps a value starting with `-` from becoming a flag.
pub open spec fn start_ok(start: Seq<char>) -> bool {
    oid_ok(start) || (branch_name_ok(start) && !has_char(start, '{') && !has_char(start, '}'))
}

pub fn validate_start(start: &str) -> (r: Result<(), BranchError>)
    ensures
        match r {
            Ok(()) => start_ok(start@),
            Err(e) => !start_ok(start@) && e@ == BranchFault::InvalidStart(start@),
        },
{
    let s = chars_of(start);
    if oid_ok_exec(&s) || (branch_name_ok_exec(&s) && !has_char_exec(&s, '{') && !has_char_exec(
        &s,
        '}',
    )) {
        Ok(())
    } else {
        Err(BranchError::InvalidStart(string_of(&s)))
    }
}

pub fn validate_name(name: &str) -> (r: Result<(), BranchError>)
    ensures
        match r {
            Ok(()) => branch_name_ok(name@),
            Err(e) => !branch_name_ok(name@) && e@ == BranchFault::InvalidName(name@),
        },
{
    let n = chars_of(name);
    if branch_name_ok_exec(&n) {
        Ok(())
    } else {
        Err(BranchError::InvalidName(string_of(&n)))
    }
}

pub open spec fn track_args(track: Option<bool>) -> Seq<Seq<char>> {
    match track {
        Some(true) => seq!["--track"@],
        Some(false) => seq!["--no-track"@],
        None => seq![],
    }
}

/// The command line of the creation, after the house's own arguments.
pub open spec fn create_args_of(
    name: Seq<char>,
    start: Option<Seq<char>>,
    checkout: bool,
    track: Option<bool>,
) -> Result<Seq<Seq<char>>, BranchFault> {
    if !branch_name_ok(name) {
        Err(BranchFault::InvalidName(name))
    } else if start is Some && !start_ok(start->0) {
        Err(BranchFault::InvalidStart(start->0))
    } else {
        Ok(
            // `switch --create`, not `checkout -b`: the half of `checkout` that restores files
            // destroys work without warning. `--create` after the tracking flag, glued to the
            // name: it takes a value.
            if checkout {
                seq!["switch"@] + track_args(track) + seq!["--create"@, name]
            } else {
                seq!["branch"@] + track_args(track) + seq![name]
            } + match start {
                Some(s) => seq![s],
                None => seq![],
            },
        )
    }
}

pub open spec fn options_args(o: CreateOptions) -> Result<Seq<Seq<char>>, BranchFault> {
    create_args_of(o.name@, opt_str(o.start), o.checkout, o.track)
}

fn owned(s: &str) -> (r: String)
    ensures
        r@ == s@,
{
    string_of(&chars_of(s))
}

pub fn create_args(options: &CreateOptions) -> (r: Result<Vec<String>, BranchError>)
    ensures
        match r {
            Ok(a) => options_args(*options) == Ok::<Seq<Seq<char>>, BranchFault>(strs(a@)),
            Err(e) => options_args(*options) == Err::<Seq<Seq<char>>, BranchFault>(e@),
        },
{
    if let Err(e) = validate_name(options.name.as_str()) {
        return Err(e);
    }
    if let Some(start) = &options.start {
        if let Err(e) = validate_start(start.as_str()) {
            return Err(e);
        }
    }
    let mut args: Vec<String> = Vec::new();
    args.push(owned(if options.checkout {
        "switch"
    } else {
        "branch"
    }));
    match options.track {
        Some(true) => args.push(owned("--track")),
        Some(false) => args.push(owned("--no-track")),
        None => {},
    }
    if options.checkout {
        args.push(owned("--create"));
    }
    args.push(options.name.clone());
    if let Some(start) = &options.start {
        args.push(start.clone());
    }
    assert(strs(args@) =~= options_args(*options)->Ok_0);
    Ok(args)
}

/// The error a failed creation stands for, the specific before the generic.
pub open spec fn create_failure(stderr: Seq<char>, name: Seq<char>, start: Option<Seq<char>>) -> BranchFault {
    if contains(stderr, "already exists"@) {
        BranchFault::AlreadyExists(name)
    } else if contains(stderr, "not a valid object name"@) || contains(stderr, "invalid reference"@)
        || contains(stderr, "Not a valid branch point"@) || contains(stderr, "unknown revision"@) {
        BranchFault::UnknownStart(
            match start {
                Some(s) => s,
                None => "HEAD"@,
            },
        )
    } else if contains(stderr, "would be overwritten by checkout"@) || contains(
        stderr,
        "Please commit your changes or stash them"@,
    ) {
        BranchFault::WouldOverwrite
    } else {
        BranchFault::Refused(refusal_text(stderr))
    }
}

fn has(s: &Vec<char>, needle: &str) -> (b: bool)
    ensures
        b == contains(s@, needle@),
{
    contains_exec(s, &chars_of(needle))
}

pub fn classify(stderr: &str, options: &CreateOptions) -> (e: BranchError)
    ensures
        e@ == create_failure(stderr@, options.name@, opt_str(options.start)),
{
    let err = chars_of(stderr);
    if has(&err, "already exists") {
        return BranchError::AlreadyExists(options.name.clone());
    }
    if has(&err, "not a valid object name") || has(&err, "invalid reference") || has(
        &err,
        "Not a valid branch point",
    ) || has(&err, "unknown revision") {
        return BranchError::UnknownStart(
            match &options.start {
                Some(s) => s.clone(),
                None => owned("HEAD"),
            },
        );
    }
    if has(&err, "would be overwritten by checkout") || has(
        &err,
        "Please commit your changes or stash them",
    ) {
        return BranchError::WouldOverwrite;
    }
    BranchError::Refused(refusal(stderr))
}

/// Where the new branch points: `refs/heads/<name>` in full, since a file called like the
/// branch would make the short name ambiguous.
pub fn tip_args(name: &str) -> (args: Vec<String>)
    ensures
        strs(args@) == seq!["rev-parse"@, "--verify"@, "refs/heads/"@ + name@],
{
    let mut r = chars_of("refs/heads/");
    append(&mut r, &chars_of(name));
    let args = vec![owned("rev-parse"), owned("--verify"), string_of(&r)];
    assert(strs(args@) =~= seq!["rev-parse"@, "--verify"@, "refs/heads/"@ + name@]);
    args
}

/// What the command line of a creation holds: it is refused exactly for a bad name or a bad
/// start; otherwise it begins with `switch` (to check out) or `branch`, names the branch, and,
/// when a start is given, ends with it, right after the name; without one it ends with the name
/// (the branch starts at `HEAD`). Checking out creates with `--create`; without it, nothing is
/// switched.
pub proof fn law_the_branch_starts_where_asked(
    name: Seq<char>,
    start: Option<Seq<char>>,
    checkout: bool,
    track: Option<bool>,
)
    ensures
        create_args_of(name, start, checkout, track) is Ok <==> branch_name_ok(name) && (start matches Some(
            s,
        ) ==> start_ok(s)),
        create_args_of(name, start, checkout, track) matches Ok(args) ==> {
            &&& args.len() >= 2
            &&& args[0] == if checkout {
                "switch"@
            } else {
                "branch"@
            }
            &&& match start {
                Some(s) => args.last() == s && args[args.len() - 2] == name,
                None => args.last() == name,
            }
            &&& checkout ==> args.contains("--create"@)
        },
{
    if create_args_of(name, start, checkout, track) is Ok {
        let args = create_args_of(name, start, checkout, track)->Ok_0;
        let head = if checkout {
            seq!["switch"@] + track_args(track) + seq!["--create"@, name]
        } else {
            seq!["branch"@] + track_args(track) + seq![name]
        };
        let tail = match start {
            Some(s) => seq![s],
            None => seq![],
        };
        assert(args == head + tail);
        assert(head[0] == if checkout { "switch"@ } else { "branch"@ });
        assert(head.last() == name);
        if checkout {
            assert(head[head.len() - 2] == "--create"@);
            assert(args[head.len() - 2] == "--create"@);
        }
    }
}

/// The flags of a creation are the ones asked for: `--track` exactly when tracking is asked,
/// `--no-track` exactly when it is refused, `--create` exactly when the new branch is checked
/// out. No name or start a creation accepts can pass for a flag: none begins with `-`.
pub proof fn law_the_branch_flags_are_the_ones_asked(
    name: Seq<char>,
    start: Option<Seq<char>>,
    checkout: bool,
    track: Option<bool>,
)
    ensures
        create_args_of(name, start, checkout, track) matches Ok(args) ==> {
            &&& (args.contains("--track"@) <==> track == Some(true))
            &&& (args.contains("--no-track"@) <==> track == Some(false))
            &&& (args.contains("--create"@) <==> checkout)
        },
{
    reveal_strlit("--track");
    reveal_strlit("--no-track");
    reveal_strlit("--create");
    reveal_strlit("switch");
    reveal_strlit("branch");
    if create_args_of(name, start, checkout, track) is Ok {
        let args = create_args_of(name, start, checkout, track)->Ok_0;
        let cmd = if checkout { seq!["switch"@] } else { seq!["branch"@] };
        let tr = track_args(track);
        let cr = if checkout { seq!["--create"@] } else { seq![] };
        let tail = match start {
            Some(s) => seq![name, s],
            None => seq![name],
        };
        assert(args =~= cmd + tr + cr + tail);
        assert(name[0] != '-');
        if let Some(st) = start {
            assert(start_ok(st));
            if oid_ok(st) {
                assert(is_hex(st[0]));
            }
            assert(st[0] != '-');
        }
        assert forall|x: Seq<char>| x.len() > 0 && x[0] == '-' implies (args.contains(x) <==> tr.contains(x)
            || cr.contains(x)) by {
            if args.contains(x) {
                let k = choose|k: int| 0 <= k < args.len() && args[k] == x;
                if k < cmd.len() {
                    assert(cmd[k] == x);
                } else if k < cmd.len() + tr.len() {
                    assert(tr[k - cmd.len()] == x);
                } else if k < cmd.len() + tr.len() + cr.len() {
                    assert(cr[k - cmd.len() - tr.len()] == x);
                } else {
                    assert(tail[k - cmd.len() - tr.len() - cr.len()] == x);
                }
            }
            if tr.contains(x) {
                let k = choose|k: int| 0 <= k < tr.len() && tr[k] == x;
                assert(args[cmd.len() + k] == x);
            }
            if cr.contains(x) {
                let k = choose|k: int| 0 <= k < cr.len() && cr[k] == x;
                assert(args[cmd.len() + tr.len() + k] == x);
            }
        }
        assert("--track"@[0] == '-' && "--no-track"@[0] == '-' && "--create"@[0] == '-');
        if checkout {
            assert(cr[0] == "--create"@);
        }
        match track {
            Some(true) => assert(tr[0] == "--track"@),
            Some(false) => assert(tr[0] == "--no-track"@),
            None => {},
        }
    }
}

} // verus!
