//! `~/.config/porcelain/config.toml`, resolved.
//!
//! Config **never brings the boot down**: a missing, unreadable or wrong file gives the
//! defaults. A git client that refuses to open because the TOML has a stray comma is worse than
//! one that opens at home.
use vstd::prelude::*;
use crate::model::opt_str;
use crate::init::{join_path, join_path_exec};
use crate::text::{chars_of, slice_of, string_of};

verus! {

broadcast use vstd::seq_lib::group_seq_properties;

/// Three levels below the root cover `~/Git/project`, `~/Git/client/project` and
/// `~/code/org/team/project` without walking the whole home.
pub const DEFAULT_SCAN_DEPTH: usize = 3;

/// A ceiling on what one scan finds: past it, the list is no longer a shortcut.
pub const DEFAULT_SCAN_LIMIT: usize = 200;

/// The file as written on disk. Everything optional.
#[derive(Debug, Clone, Default)]
pub struct ConfigFile {
    /// The root of the folder browser and of the scan. `~` is expanded.
    pub root: Option<String>,
    pub scan_depth: Option<usize>,
    pub scan_limit: Option<usize>,
}

/// The config as the server uses it.
#[derive(Debug, Clone)]
pub struct Settings {
    /// Canonical: the confinement of the folder browser and of opening a repository.
    pub root: String,
    pub scan_depth: usize,
    pub scan_limit: usize,
}

/// `s.trim_start_matches('/')`.
pub open spec fn without_leading_slashes(s: Seq<char>) -> Seq<char>
    decreases s.len(),
{
    if s.len() > 0 && s[0] == '/' {
        without_leading_slashes(s.drop_first())
    } else {
        s
    }
}

/// `~/Git` → `<home>/Git`. Only a leading `~`: `~other` is another user's home, which cannot be
/// resolved without asking the system's accounts. Without a home the text stays as it is.
pub open spec fn expanded(raw: Seq<char>, home: Option<Seq<char>>) -> Seq<char> {
    if raw.len() > 0 && raw[0] == '~' {
        match home {
            Some(h) => join_path(h, without_leading_slashes(raw.drop_first())),
            None => raw,
        }
    } else {
        raw
    }
}

pub fn expand_tilde(raw: &str, home: Option<String>) -> (p: String)
    ensures
        p@ == expanded(raw@, opt_str(home)),
{
    let r = chars_of(raw);
    if r.len() == 0 || r[0] != '~' {
        return string_of(&r);
    }
    match home {
        Some(h) => {
            let mut i: usize = 1;
            while i < r.len() && r[i] == '/'
                invariant
                    1 <= i <= r.len(),
                    without_leading_slashes(r@.drop_first()) == without_leading_slashes(r@.skip(i as int)),
                decreases r.len() - i,
            {
                assert(r@.skip(i as int).drop_first() =~= r@.skip(i + 1));
                i += 1;
            }
            let rest = slice_of(&r, i, r.len());
            assert(rest@ =~= r@.skip(i as int));
            join_path_exec(h.as_str(), string_of(&rest).as_str())
        },
        None => string_of(&r),
    }
}

/// The default root: the user's home (canonical), or `/` when there is none: without a home
/// the app still has to open *something*, and the process already runs as the user.
pub fn default_root(home: Option<String>) -> (r: String)
    ensures
        r@ == match home {
            Some(h) => h@,
            None => "/"@,
        },
{
    match home {
        Some(h) => h,
        None => string_of(&chars_of("/")),
    }
}

pub open spec fn at_least_one(n: usize) -> usize {
    if n < 1 {
        1
    } else {
        n
    }
}

impl Settings {
    /// The defaults, under this root.
    pub fn defaults(root: String) -> (s: Settings)
        ensures
            s.root@ == root@,
            s.scan_depth == DEFAULT_SCAN_DEPTH,
            s.scan_limit == DEFAULT_SCAN_LIMIT,
    {
        Settings { root, scan_depth: DEFAULT_SCAN_DEPTH, scan_limit: DEFAULT_SCAN_LIMIT }
    }

    /// The settings a file gives. `root` is what the file's root resolved to: its canonical
    /// path when it is a folder, `None` when it is missing or not one (then the default root,
    /// with a warning). Depth and limit are at least one: config that quietly turns itself off
    /// is worse than config that is ignored.
    pub fn from_file(file: ConfigFile, root: Option<String>, default_root: String) -> (s: Settings)
        ensures
            s.root@ == if file.root is Some && root is Some {
                root->0@
            } else {
                default_root@
            },
            s.scan_depth == at_least_one(
                match file.scan_depth {
                    Some(d) => d,
                    None => DEFAULT_SCAN_DEPTH,
                },
            ),
            s.scan_limit == at_least_one(
                match file.scan_limit {
                    Some(l) => l,
                    None => DEFAULT_SCAN_LIMIT,
                },
            ),
    {
        let resolved = match (&file.root, root) {
            (Some(_), Some(r)) => r,
            _ => default_root,
        };
        let depth = match file.scan_depth {
            Some(d) => d,
            None => DEFAULT_SCAN_DEPTH,
        };
        let limit = match file.scan_limit {
            Some(l) => l,
            None => DEFAULT_SCAN_LIMIT,
        };
        Settings {
            root: resolved,
            scan_depth: if depth < 1 {
                1
            } else {
                depth
            },
            scan_limit: if limit < 1 {
                1
            } else {
                limit
            },
        }
    }

    /// The settings of the boot: the file's, or the defaults when there is no file, it could
    /// not be read or it is not valid TOML.
    pub fn load(file: Option<ConfigFile>, root: Option<String>, default_root: String) -> (s: Settings)
        ensures
            file is None ==> s.root@ == default_root@ && s.scan_depth == DEFAULT_SCAN_DEPTH
                && s.scan_limit == DEFAULT_SCAN_LIMIT,
            file matches Some(f) ==> s.root@ == (if f.root is Some && root is Some {
                root->0@
            } else {
                default_root@
            }) && s.scan_depth == at_least_one(
                match f.scan_depth {
                    Some(d) => d,
                    None => DEFAULT_SCAN_DEPTH,
                },
            ) && s.scan_limit == at_least_one(
                match f.scan_limit {
                    Some(l) => l,
                    None => DEFAULT_SCAN_LIMIT,
                },
            ),
    {
        match file {
            Some(f) => Settings::from_file(f, root, default_root),
            None => Settings::defaults(default_root),
        }
    }
}

} // verus!
