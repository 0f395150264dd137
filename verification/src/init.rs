//! `git init`: what is decided before the command runs.
//!
//! The repository is made by the system's `git` (it honours `init.templateDir`,
//! `init.defaultBranch` and the user's template hooks); the caller runs the command this module
//! plans, after asking the file system the one question the plan needs.
use vstd::prelude::*;
use crate::model::opt_str;
use crate::text::{strs, chars_of, contains, contains_exec, eq, is_blank, is_blank_exec, is_cc, is_control, string_of, ends_with};

verus! {

broadcast use vstd::seq_lib::group_seq_properties;

#[derive(Debug, Clone, PartialEq, Eq)]
pub enum InitError {
    /// There is a git repository at the target already.
    AlreadyARepository(String),
    NotEmpty(String),
    InvalidBranch(String),
    /// The target could not be made (or its name is not a single path component).
    Create(String),
    /// `git init` could not be run, or did not finish; the text is for the log.
    Exec(String),
}

pub enum InitFault {
    AlreadyARepository(Seq<char>),
    NotEmpty(Seq<char>),
    InvalidBranch(Seq<char>),
    Create(Seq<char>),
    Exec(Seq<char>),
}

impl View for InitError {
    type V = InitFault;

    open spec fn view(&self) -> InitFault {
        match self {
            InitError::AlreadyARepository(s) => InitFault::AlreadyARepository(s@),
            InitError::NotEmpty(s) => InitFault::NotEmpty(s@),
            InitError::InvalidBranch(s) => InitFault::InvalidBranch(s@),
            InitError::Create(s) => InitFault::Create(s@),
            InitError::Exec(s) => InitFault::Exec(s@),
        }
    }
}

#[derive(Debug, Clone)]
pub struct InitOptions {
    /// The folder the repository is born in. It has to exist.
    pub parent: String,
    /// The subfolder to make; `None` makes `parent` itself the repository.
    pub name: Option<String>,
    /// `None` lets the user's `init.defaultBranch` decide.
    pub branch: Option<String>,
}

/// `c` occurs in `s`.
pub open spec fn has_char(s: Seq<char>, c: char) -> bool {
    exists|i: int| 0 <= i < s.len() && s[i] == c
}

pub fn has_char_exec(s: &Vec<char>, c: char) -> (b: bool)
    ensures
        b == has_char(s@, c),
{
    let mut i: usize = 0;
    while i < s.len()
        invariant
            i <= s.len(),
            forall|k: int| 0 <= k < i ==> s@[k] != c,
        decreases s.len() - i,
    {
        if s[i] == c {
            return true;
        }
        i += 1;
    }
    false
}

/// A repository name is a **path component**, not a path: it keeps `../../x` and `/etc/x` from
/// becoming an `init` outside the confined root.
pub open spec fn name_ok(name: Seq<char>) -> bool {
    &&& !is_blank(name)
    &&& !has_char(name, '/')
    &&& !has_char(name, '\\')
    &&& !has_char(name, '\0')
    &&& name != "."@
    &&& name != ".."@
}

pub fn validate_name(name: &str) -> (r: Result<String, InitError>)
    ensures
        match r {
            Ok(n) => name_ok(name@) && n@ == name@,
            Err(e) => !name_ok(name@) && e@ == InitFault::Create(name@),
        },
{
    let n = chars_of(name);
    let ok = !is_blank_exec(&n) && !has_char_exec(&n, '/') && !has_char_exec(&n, '\\')
        && !has_char_exec(&n, '\0') && !eq(&n, &chars_of(".")) && !eq(&n, &chars_of(".."));
    if ok {
        Ok(string_of(&n))
    } else {
        Err(InitError::Create(string_of(&n)))
    }
}

/// A branch name git would take: not the whole of `git check-ref-format`, but enough for no odd
/// command line and a readable error. One rule for branch names across the project.
pub open spec fn branch_name_ok(b: Seq<char>) -> bool {
    &&& b.len() > 0
    &&& b[0] != '-'
    &&& b[0] != '.'
    &&& b.last() != '/'
    &&& !".lock"@.is_suffix_of(b)
    &&& !contains(b, ".."@)
    &&& !has_char(b, ' ')
    &&& !has_char(b, '~')
    &&& !has_char(b, '^')
    &&& !has_char(b, ':')
    &&& !has_char(b, '?')
    &&& !has_char(b, '*')
    &&& !has_char(b, '[')
    &&& !has_char(b, '\\')
    &&& forall|i: int| 0 <= i < b.len() ==> !is_cc(#[trigger] b[i])
}

pub fn branch_name_ok_exec(b: &Vec<char>) -> (ok: bool)
    ensures
        ok == branch_name_ok(b@),
{
    if b.len() == 0 {
        return false;
    }
    let mut controls = false;
    let mut i: usize = 0;
    while i < b.len()
        invariant
            i <= b.len(),
            controls == exists|k: int| 0 <= k < i && is_cc(#[trigger] b@[k]),
        decreases b.len() - i,
    {
        if is_control(b[i]) {
            controls = true;
        }
        i += 1;
    }
    b[0] != '-' && b[0] != '.' && b[b.len() - 1] != '/' && !ends_with(b, &chars_of(".lock"))
        && !contains_exec(b, &chars_of("..")) && !has_char_exec(b, ' ') && !has_char_exec(b, '~')
        && !has_char_exec(b, '^') && !has_char_exec(b, ':') && !has_char_exec(b, '?')
        && !has_char_exec(b, '*') && !has_char_exec(b, '[') && !has_char_exec(b, '\\')
        && !controls
}

pub fn validate_branch_name(branch: &str) -> (r: Result<(), InitError>)
    ensures
        match r {
            Ok(()) => branch_name_ok(branch@),
            Err(e) => !branch_name_ok(branch@) && e@ == InitFault::InvalidBranch(branch@),
        },
{
    let b = chars_of(branch);
    if branch_name_ok_exec(&b) {
        Ok(())
    } else {
        Err(InitError::InvalidBranch(string_of(&b)))
    }
}

pub fn validate_branch(branch: &str) -> (r: Result<(), InitError>)
    ensures
        match r {
            Ok(()) => branch_name_ok(branch@),
            Err(e) => !branch_name_ok(branch@) && e@ == InitFault::InvalidBranch(branch@),
        },
{
    validate_branch_name(branch)
}

/// `Path::join` on Unix: an absolute path replaces the parent; a relative one follows it, with
/// a `/` between them unless the parent is empty or already ends in one.
pub open spec fn join_path(parent: Seq<char>, name: Seq<char>) -> Seq<char> {
    if name.len() > 0 && name[0] == '/' {
        name
    } else if parent.len() == 0 {
        name
    } else if parent.last() == '/' {
        parent + name
    } else {
        parent + seq!['/'] + name
    }
}

pub fn join_path_exec(parent: &str, name: &str) -> (r: String)
    ensures
        r@ == join_path(parent@, name@),
{
    let tail = chars_of(name);
    if tail.len() > 0 && tail[0] == '/' {
        return string_of(&tail);
    }
    let mut out = chars_of(parent);
    if out.len() > 0 && out[out.len() - 1] != '/' {
        out.push('/');
    }
    crate::text::append(&mut out, &tail);
    string_of(&out)
}

/// Where the repository is made: the subfolder, or the parent itself.
pub open spec fn init_target_of(parent: Seq<char>, name: Option<Seq<char>>) -> Result<Seq<char>, InitFault> {
    match name {
        Some(n) => if name_ok(n) {
            Ok(join_path(parent, n))
        } else {
            Err(InitFault::Create(n))
        },
        None => Ok(parent),
    }
}

pub fn init_target(options: &InitOptions) -> (r: Result<String, InitError>)
    ensures
        match r {
            Ok(t) => init_target_of(options.parent@, opt_str(options.name)) == Ok::<Seq<char>, InitFault>(t@),
            Err(e) => init_target_of(options.parent@, opt_str(options.name)) == Err::<Seq<char>, InitFault>(e@),
        },
{
    match &options.name {
        Some(name) => match validate_name(name.as_str()) {
            Ok(n) => Ok(join_path_exec(options.parent.as_str(), n.as_str())),
            Err(e) => Err(e),
        },
        None => Ok(options.parent.clone()),
    }
}

/// The arguments of `git init`: `--` closes the options, so a folder called `--bare` is a
/// folder.
pub open spec fn init_args_of(branch: Option<Seq<char>>, target: Seq<char>) -> Seq<Seq<char>> {
    seq!["init"@] + match branch {
        Some(b) => seq!["--initial-branch"@, b],
        None => seq![],
    } + seq!["--"@, target]
}

/// What `git init` is run with, given whether the target is a repository already; the checks
/// in the order the user hears them.
pub open spec fn plan_of(
    parent: Seq<char>,
    name: Option<Seq<char>>,
    branch: Option<Seq<char>>,
    already_repo: bool,
) -> Result<(Seq<char>, Seq<Seq<char>>), InitFault> {
    match init_target_of(parent, name) {
        Err(e) => Err(e),
        Ok(target) => if already_repo {
            Err(InitFault::AlreadyARepository(target))
        } else {
            match branch {
                Some(b) => if !branch_name_ok(b) {
                    Err(InitFault::InvalidBranch(b))
                } else {
                    Ok((target, init_args_of(branch, target)))
                },
                None => Ok((target, init_args_of(branch, target))),
            }
        },
    }
}

/// Plans the `init`: the target folder and the arguments for `git`, or the reason to refuse.
/// `already_repo` is what the file system says of the target [`init_target`] gives.
pub fn plan_init(options: &InitOptions, already_repo: bool) -> (r: Result<(String, Vec<String>), InitError>)
    ensures
        match r {
            Ok((t, args)) => plan_of(options.parent@, opt_str(options.name), opt_str(options.branch), already_repo)
                == Ok::<(Seq<char>, Seq<Seq<char>>), InitFault>((t@, strs(args@))),
            Err(e) => plan_of(options.parent@, opt_str(options.name), opt_str(options.branch), already_repo)
                == Err::<(Seq<char>, Seq<Seq<char>>), InitFault>(e@),
        },
{
    let target = match init_target(options) {
        Ok(t) => t,
        Err(e) => return Err(e),
    };
    if already_repo {
        return Err(InitError::AlreadyARepository(target));
    }
    if let Some(branch) = &options.branch {
        if let Err(e) = validate_branch(branch.as_str()) {
            return Err(e);
        }
    }
    let mut args: Vec<String> = Vec::new();
    args.push(string_of(&chars_of("init")));
    if let Some(branch) = &options.branch {
        args.push(string_of(&chars_of("--initial-branch")));
        args.push(branch.clone());
    }
    args.push(string_of(&chars_of("--")));
    args.push(target.clone());
    assert(strs(args@) =~= init_args_of(opt_str(options.branch), target@));
    Ok((target, args))
}

} // verus!
