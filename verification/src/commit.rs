//! `git commit`, with the message given on stdin: the command line, the reading of a failure,
//! and where the user's commit template lives.
//!
//! The commit is the system's `git`: it has to run the user's hooks and honour
//! `commit.gpgSign`, `user.signingkey` and `core.hooksPath`. `-F -` sends the message through a
//! pipe: never in `argv` (which any `ps` shows) and never in a temporary file.
use vstd::prelude::*;
use crate::model::opt_str;
use crate::init::{join_path};
use crate::text::strs;
use crate::text::{
    append, chars_of, contains, contains_exec, is_blank, is_blank_exec, is_hex, is_hex_digit,
    join, join_exec, lines, lines_exec, lossy_chars, string_of, strip_prefix, strip_prefix_exec,
    trim, trim_exec, utf8_lossy, views,
};

verus! {

broadcast use vstd::seq_lib::group_seq_properties;

#[derive(Debug, Clone, PartialEq, Eq)]
pub enum CommitError {
    EmptyMessage,
    NothingToCommit,
    /// Git does not know who the user is: `user.name` and `user.email` are missing.
    IdentityMissing,
    /// Git or a **hook** refused. The text is the hook's output, written by the user's team,
    /// and usually the only useful thing there is about the refusal.
    Refused(String),
    /// The GPG signature did not happen: almost always pinentry with nowhere to ask.
    SigningFailed,
    NothingToAmend,
    InvalidFixupTarget,
    /// `git commit` could not be run, or did not finish; the text is for the log.
    Exec(String),
}

pub enum CommitFault {
    EmptyMessage,
    NothingToCommit,
    IdentityMissing,
    Refused(Seq<char>),
    SigningFailed,
    NothingToAmend,
    InvalidFixupTarget,
    Exec(Seq<char>),
}

impl View for CommitError {
    type V = CommitFault;

    open spec fn view(&self) -> CommitFault {
        match self {
            CommitError::EmptyMessage => CommitFault::EmptyMessage,
            CommitError::NothingToCommit => CommitFault::NothingToCommit,
            CommitError::IdentityMissing => CommitFault::IdentityMissing,
            CommitError::Refused(s) => CommitFault::Refused(s@),
            CommitError::SigningFailed => CommitFault::SigningFailed,
            CommitError::NothingToAmend => CommitFault::NothingToAmend,
            CommitError::InvalidFixupTarget => CommitFault::InvalidFixupTarget,
            CommitError::Exec(s) => CommitFault::Exec(s@),
        }
    }
}

#[derive(Debug, Clone, Default)]
pub struct CommitOptions {
    /// Subject and body together, as the user wrote them. `--cleanup=strip` tidies them.
    pub message: String,
    /// Rewrites the previous commit (`--amend`).
    pub amend: bool,
    /// Adds the `Signed-off-by:` line (`--signoff`).
    pub signoff: bool,
    /// `None` honours `commit.gpgSign`; `Some` forces it on or off for **this** commit, by flag.
    pub gpg_sign: Option<bool>,
    /// The oid this commit fixes (`--fixup=<oid>`). Then **the message is git's**: the exact
    /// `fixup! <subject>` that `rebase --autosquash` recognises.
    pub fixup: Option<String>,
}

// ---------------------------------------------------------------------------------------------
// what a refusal says
// ---------------------------------------------------------------------------------------------
/// The lines, trimmed, without the empty ones.
pub open spec fn nonblank_lines(ls: Seq<Seq<char>>) -> Seq<Seq<char>>
    decreases ls.len(),
{
    if ls.len() == 0 {
        seq![]
    } else {
        (if trim(ls[0]).len() > 0 {
            seq![trim(ls[0])]
        } else {
            seq![]
        }) + nonblank_lines(ls.drop_first())
    }
}

/// What a refusal says: the first three non-empty lines of stderr (a ceiling, so a talkative
/// hook does not become a wall of text), or that git did not say why.
pub open spec fn refusal_text(stderr: Seq<char>) -> Seq<char> {
    let ls = nonblank_lines(lines(stderr));
    let shown = if ls.len() > 3 {
        ls.take(3)
    } else {
        ls
    };
    if shown.len() == 0 {
        "o git não disse por quê"@
    } else {
        join(shown, " · "@)
    }
}

pub fn refusal(stderr: &str) -> (r: String)
    ensures
        r@ == refusal_text(stderr@),
{
    let ls = lines_exec(&chars_of(stderr));
    let ghost all = views(ls@);
    let mut shown: Vec<Vec<char>> = Vec::new();
    let mut i: usize = 0;
    while i < ls.len()
        invariant
            i <= ls.len(),
            all == views(ls@),
            nonblank_lines(all) == views(shown@) + nonblank_lines(all.skip(i as int)),
        decreases ls.len() - i,
    {
        assert(all.skip(i as int)[0] == ls@[i as int]@);
        assert(all.skip(i as int).drop_first() =~= all.skip(i + 1));
        let t = trim_exec(&ls[i]);
        if t.len() > 0 {
            let ghost before = views(shown@);
            shown.push(t);
            assert(views(shown@) =~= before.push(t@));
            assert(before + nonblank_lines(all.skip(i as int)) =~= views(shown@) + nonblank_lines(
                all.skip(i + 1),
            ));
        } else {
            assert(nonblank_lines(all.skip(i as int)) =~= nonblank_lines(all.skip(i + 1)));
        }
        i += 1;
    }
    assert(views(shown@) + nonblank_lines(all.skip(i as int)) =~= views(shown@));
    if shown.len() == 0 {
        return string_of(&chars_of("o git não disse por quê"));
    }
    let mut first: Vec<Vec<char>> = Vec::new();
    let mut k: usize = 0;
    while k < shown.len() && k < 3
        invariant
            k <= shown.len(),
            k <= 3,
            views(first@) =~= views(shown@).take(k as int),
        decreases shown.len() - k,
    {
        let ghost before = views(first@);
        let piece = crate::text::slice_of(&shown[k], 0, shown[k].len());
        first.push(piece);
        assert(views(first@) =~= before.push(piece@));
        assert(views(shown@).take(k + 1) =~= views(shown@).take(k as int).push(shown@[k as int]@));
        k += 1;
    }
    assert(views(shown@).len() > 3 ==> views(first@) =~= views(shown@).take(3));
    assert(views(shown@).len() <= 3 ==> views(first@) =~= views(shown@));
    string_of(&join_exec(&first, &chars_of(" · ")))
}

// ---------------------------------------------------------------------------------------------
// the failure
// ---------------------------------------------------------------------------------------------
/// The error a failed `git commit` stands for, the specific before the generic. With `LC_ALL=C`
/// the sentences always come in English. "nothing to commit" git writes to **stdout**.
pub open spec fn commit_failure(stderr: Seq<char>, stdout: Seq<char>) -> CommitFault {
    let both = stderr + seq!['\n'] + stdout;
    // a signing failure first: git reports it as if the commit were refused for another reason
    if contains(stderr, "gpg failed to sign the data"@) || contains(
        stderr,
        "failed to write commit object"@,
    ) || contains(stderr, "Inappropriate ioctl for device"@) {
        CommitFault::SigningFailed
    } else if contains(stderr, "You have nothing to amend"@) || contains(
        stderr,
        "does not have any commits yet"@,
    ) {
        CommitFault::NothingToAmend
    } else if contains(stderr, "Please tell me who you are"@) || contains(
        stderr,
        "unable to auto-detect email address"@,
    ) || contains(stderr, "empty ident name"@) {
        CommitFault::IdentityMissing
    } else if contains(both, "nothing to commit"@) || contains(both, "no changes added to commit"@)
        || contains(both, "nothing added to commit"@) {
        CommitFault::NothingToCommit
    } else {
        CommitFault::Refused(refusal_text(stderr))
    }
}

fn has(s: &Vec<char>, needle: &str) -> (b: bool)
    ensures
        b == contains(s@, needle@),
{
    contains_exec(s, &chars_of(needle))
}

/// Reads a failed `git commit` from its two channels.
pub fn classify(stderr: &str, stdout: &str) -> (e: CommitError)
    ensures
        e@ == commit_failure(stderr@, stdout@),
{
    let err = chars_of(stderr);
    if has(&err, "gpg failed to sign the data") || has(&err, "failed to write commit object")
        || has(&err, "Inappropriate ioctl for device") {
        return CommitError::SigningFailed;
    }
    if has(&err, "You have nothing to amend") || has(&err, "does not have any commits yet") {
        return CommitError::NothingToAmend;
    }
    if has(&err, "Please tell me who you are") || has(&err, "unable to auto-detect email address")
        || has(&err, "empty ident name") {
        return CommitError::IdentityMissing;
    }
    let mut both = chars_of(stderr);
    both.push('\n');
    append(&mut both, &chars_of(stdout));
    assert(both@ =~= stderr@ + seq!['\n'] + stdout@);
    if has(&both, "nothing to commit") || has(&both, "no changes added to commit") || has(
        &both,
        "nothing added to commit",
    ) {
        return CommitError::NothingToCommit;
    }
    CommitError::Refused(refusal(stderr))
}

// ---------------------------------------------------------------------------------------------
// the command
// ---------------------------------------------------------------------------------------------
/// A full or abbreviated commit hash: 7 to 40 hex digits. A free revision (`HEAD@{…}`, `:/text`)
/// is not taken: nobody here is ready to explain what git resolves it to.
pub open spec fn oid_ok(s: Seq<char>) -> bool {
    7 <= s.len() <= 40 && forall|i: int| 0 <= i < s.len() ==> is_hex(#[trigger] s[i])
}

pub fn oid_ok_exec(s: &Vec<char>) -> (b: bool)
    ensures
        b == oid_ok(s@),
{
    if s.len() < 7 || s.len() > 40 {
        return false;
    }
    let mut i: usize = 0;
    while i < s.len()
        invariant
            i <= s.len(),
            forall|k: int| 0 <= k < i ==> is_hex(#[trigger] s@[k]),
        decreases s.len() - i,
    {
        if !is_hex_digit(s[i]) {
            return false;
        }
        i += 1;
    }
    true
}

pub fn validate_oid(oid: &str) -> (r: Result<(), CommitError>)
    ensures
        r is Ok <==> oid_ok(oid@),
        r matches Err(e) ==> e == CommitError::InvalidFixupTarget,
{
    if oid_ok_exec(&chars_of(oid)) {
        Ok(())
    } else {
        Err(CommitError::InvalidFixupTarget)
    }
}

/// The arguments of `git commit` after the house's own.
pub open spec fn commit_args_of(
    message: Seq<char>,
    amend: bool,
    signoff: bool,
    gpg_sign: Option<bool>,
    fixup: Option<Seq<char>>,
) -> Result<Seq<Seq<char>>, CommitFault> {
    if fixup is None && is_blank(message) {
        Err(CommitFault::EmptyMessage)
    } else if fixup is Some && !oid_ok(fixup->0) {
        Err(CommitFault::InvalidFixupTarget)
    } else {
        Ok(
            seq!["commit"@] + match fixup {
                // `--fixup` and `-F -` both say what the message is; `--fixup` wins
                Some(t) => seq!["--fixup="@ + t],
                // `--cleanup=strip` is what git applies after an editor session, and the
                // message box **is** the editor
                None => seq!["--cleanup=strip"@, "-F"@, "-"@],
            } + if amend {
                seq!["--amend"@]
            } else {
                seq![]
            } + if signoff {
                seq!["--signoff"@]
            } else {
                seq![]
            } + match gpg_sign {
                Some(true) => seq!["--gpg-sign"@],
                Some(false) => seq!["--no-gpg-sign"@],
                None => seq![],
            },
        )
    }
}

pub open spec fn options_args(o: CommitOptions) -> Result<Seq<Seq<char>>, CommitFault> {
    commit_args_of(o.message@, o.amend, o.signoff, o.gpg_sign, opt_str(o.fixup))
}

fn owned(s: &str) -> (r: String)
    ensures
        r@ == s@,
{
    string_of(&chars_of(s))
}

/// The command line of the commit, or why it is refused before git is asked. The empty
/// message is caught here: it says before leaving what git would say after a whole round trip.
pub fn commit_args(options: &CommitOptions) -> (r: Result<Vec<String>, CommitError>)
    ensures
        match r {
            Ok(a) => options_args(*options) == Ok::<Seq<Seq<char>>, CommitFault>(strs(a@)),
            Err(e) => options_args(*options) == Err::<Seq<Seq<char>>, CommitFault>(e@),
        },
{
    if options.fixup.is_none() && is_blank_exec(&chars_of(options.message.as_str())) {
        return Err(CommitError::EmptyMessage);
    }
    let mut args: Vec<String> = Vec::new();
    args.push(owned("commit"));
    match &options.fixup {
        Some(target) => {
            if let Err(e) = validate_oid(target.as_str()) {
                return Err(e);
            }
            let mut flag = chars_of("--fixup=");
            append(&mut flag, &chars_of(target.as_str()));
            args.push(string_of(&flag));
        },
        None => {
            args.push(owned("--cleanup=strip"));
            args.push(owned("-F"));
            args.push(owned("-"));
        },
    }
    if options.amend {
        args.push(owned("--amend"));
    }
    if options.signoff {
        args.push(owned("--signoff"));
    }
    match options.gpg_sign {
        Some(true) => args.push(owned("--gpg-sign")),
        Some(false) => args.push(owned("--no-gpg-sign")),
        None => {},
    }
    assert(strs(args@) =~= options_args(*options)->Ok_0);
    Ok(args)
}

/// What goes to git's stdin: the message, or nothing for a fixup (the message is git's, and an
/// empty pipe there would be read from a `-F -` that is not on the line).
pub fn commit_input(options: &CommitOptions) -> (r: Option<String>)
    ensures
        match r {
            Some(m) => options.fixup is None && m@ == options.message@,
            None => options.fixup is Some,
        },
{
    match &options.fixup {
        Some(_) => None,
        None => Some(options.message.clone()),
    }
}

/// An oid as `git rev-parse` prints it: stdout decoded and trimmed.
pub fn read_oid(stdout: &[u8]) -> (oid: String)
    ensures
        oid@ == trim(utf8_lossy(stdout@)),
{
    string_of(&trim_exec(&lossy_chars(stdout)))
}

/// Where the commit template is, from the output of `git config --get commit.template`: `None`
/// when there is none. A leading `~/` is the home folder: there is no shell here to expand it.
pub open spec fn template_path_of(raw: Seq<char>, home: Option<Seq<char>>) -> Option<Seq<char>> {
    let path = trim(raw);
    if path.len() == 0 {
        None
    } else {
        match strip_prefix(path, "~/"@) {
            Some(rest) => match home {
                Some(h) => Some(join_path(h, rest)),
                None => None,
            },
            None => Some(path),
        }
    }
}

pub fn template_path(stdout: &[u8], home: Option<String>) -> (r: Option<String>)
    ensures
        match r {
            Some(p) => template_path_of(utf8_lossy(stdout@), opt_str(home)) == Some(p@),
            None => template_path_of(utf8_lossy(stdout@), opt_str(home)) is None,
        },
{
    let path = trim_exec(&lossy_chars(stdout));
    if path.len() == 0 {
        return None;
    }
    match strip_prefix_exec(&path, &chars_of("~/")) {
        Some(rest) => match home {
            Some(h) => Some(crate::init::join_path_exec(h.as_str(), string_of(&rest).as_str())),
            None => None,
        },
        None => Some(string_of(&path)),
    }
}

/// The flags of a commit's command line tell apart by their length, and a fixup from the long
/// flags by its third char.
proof fn lemma_commit_flags_differ(t: Seq<char>)
    ensures
        "commit"@.len() == 6,
        "--cleanup=strip"@.len() == 15,
        "-F"@.len() == 2,
        "-"@.len() == 1,
        "--amend"@.len() == 7,
        "--signoff"@.len() == 9,
        "--gpg-sign"@.len() == 10,
        "--no-gpg-sign"@.len() == 13,
        ("--fixup="@ + t).len() >= 8,
        ("--fixup="@ + t)[2] == 'f',
        "--cleanup=strip"@[2] == 'c',
        "--signoff"@[2] == 's',
        "--gpg-sign"@[2] == 'g',
        "--no-gpg-sign"@[2] == 'n',
{
    reveal_strlit("commit");
    reveal_strlit("--cleanup=strip");
    reveal_strlit("-F");
    reveal_strlit("-");
    reveal_strlit("--amend");
    reveal_strlit("--signoff");
    reveal_strlit("--gpg-sign");
    reveal_strlit("--no-gpg-sign");
    reveal_strlit("--fixup=");
    let f = "--fixup="@ + t;
    assert(f[2] == 'f');
    assert(f.len() >= 8);
}

/// What the command line of a commit holds: it is refused exactly for a blank message (without
/// a fixup) or a fixup target that is not a commit hash; otherwise it is a `commit` that signs
/// off exactly when asked (for a new commit and an amend alike), amends exactly when asked,
/// signs or does not sign with GPG exactly as asked, and takes its message from stdin, or is a
/// fixup of the target given.
pub proof fn law_the_commit_does_what_was_asked(
    message: Seq<char>,
    amend: bool,
    signoff: bool,
    gpg_sign: Option<bool>,
    fixup: Option<Seq<char>>,
)
    ensures
        commit_args_of(message, amend, signoff, gpg_sign, fixup) is Ok <==> match fixup {
            Some(t) => oid_ok(t),
            None => !is_blank(message),
        },
        commit_args_of(message, amend, signoff, gpg_sign, fixup) matches Ok(args) ==> {
            &&& args[0] == "commit"@
            &&& (args.contains("--signoff"@) <==> signoff)
            &&& (args.contains("--amend"@) <==> amend)
            &&& (args.contains("--gpg-sign"@) <==> gpg_sign == Some(true))
            &&& (args.contains("--no-gpg-sign"@) <==> gpg_sign == Some(false))
            &&& match fixup {
                Some(t) => args.contains("--fixup="@ + t) && !args.contains("-F"@),
                None => args.contains("--cleanup=strip"@) && args.contains("-F"@) && args.contains("-"@),
            }
        },
{
    if commit_args_of(message, amend, signoff, gpg_sign, fixup) is Ok {
        let args = commit_args_of(message, amend, signoff, gpg_sign, fixup)->Ok_0;
        let t = match fixup {
            Some(t) => t,
            None => Seq::empty(),
        };
        lemma_commit_flags_differ(t);
        let flags = seq![
            "commit"@,
            "--cleanup=strip"@,
            "-F"@,
            "-"@,
            "--amend"@,
            "--signoff"@,
            "--gpg-sign"@,
            "--no-gpg-sign"@,
        ];
        let a = seq![flags[0]];
        let b = match fixup {
            Some(t) => seq!["--fixup="@ + t],
            None => seq![flags[1], flags[2], flags[3]],
        };
        let c = if amend { seq![flags[4]] } else { seq![] };
        let d = if signoff { seq![flags[5]] } else { seq![] };
        let e = match gpg_sign {
            Some(true) => seq![flags[6]],
            Some(false) => seq![flags[7]],
            None => seq![],
        };
        assert(args =~= a + b + c + d + e);
        // every element of the line is one of the parts
        assert forall|x: Seq<char>| args.contains(x) <==> a.contains(x) || b.contains(x) || c.contains(x)
            || d.contains(x) || e.contains(x) by {
            if args.contains(x) {
                let k = choose|k: int| 0 <= k < args.len() && args[k] == x;
                if k < a.len() {
                    assert(a[k] == x);
                } else if k < a.len() + b.len() {
                    assert(b[k - a.len()] == x);
                } else if k < a.len() + b.len() + c.len() {
                    assert(c[k - a.len() - b.len()] == x);
                } else if k < a.len() + b.len() + c.len() + d.len() {
                    assert(d[k - a.len() - b.len() - c.len()] == x);
                } else {
                    assert(e[k - a.len() - b.len() - c.len() - d.len()] == x);
                }
            }
            if a.contains(x) {
                let k = choose|k: int| 0 <= k < a.len() && a[k] == x;
                assert(args[k] == x);
            }
            if b.contains(x) {
                let k = choose|k: int| 0 <= k < b.len() && b[k] == x;
                assert(args[a.len() + k] == x);
            }
            if c.contains(x) {
                let k = choose|k: int| 0 <= k < c.len() && c[k] == x;
                assert(args[a.len() + b.len() + k] == x);
            }
            if d.contains(x) {
                let k = choose|k: int| 0 <= k < d.len() && d[k] == x;
                assert(args[a.len() + b.len() + c.len() + k] == x);
            }
            if e.contains(x) {
                let k = choose|k: int| 0 <= k < e.len() && e[k] == x;
                assert(args[a.len() + b.len() + c.len() + d.len() + k] == x);
            }
        }
        assert(flags[5] != flags[4] && flags[5] != flags[6] && flags[5] != flags[7] && flags[5] != flags[0]);
        assert(flags[5] != flags[1] && flags[5] != flags[2] && flags[5] != flags[3]);
        assert(flags[4] != flags[6] && flags[4] != flags[7] && flags[4] != flags[0]);
        assert(flags[4] != flags[1] && flags[4] != flags[2] && flags[4] != flags[3]);
        assert(flags[6] != flags[7] && flags[6] != flags[0] && flags[6] != flags[1]);
        assert(flags[6] != flags[2] && flags[6] != flags[3]);
        assert(flags[7] != flags[0] && flags[7] != flags[1] && flags[7] != flags[2] && flags[7] != flags[3]);
        assert(flags[2] != flags[0] && flags[2] != flags[1] && flags[2] != flags[3]);
        assert("--fixup="@ + t != flags[5] && "--fixup="@ + t != flags[4] && "--fixup="@ + t != flags[6]);
        assert("--fixup="@ + t != flags[7] && "--fixup="@ + t != flags[3]);
        if fixup is Some {
            assert("-F"@ == flags[2]);
            assert("--fixup="@ + t != flags[2]) by {
                reveal_strlit("-F");
                reveal_strlit("--fixup=");
                assert(("--fixup="@ + t).len() >= 8);
            }
        }
        assert(args[0] == flags[0]);
    }
}

} // verus!
