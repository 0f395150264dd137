//! The server-side folder browser: the one surface that takes a path from the client.
//!
//! Confinement comes in three layers, in this order:
//!   1. a `..` component in the request is refused before the disk is touched;
//!   2. the path is made canonical (symlinks and `.` resolved): what does not exist is 404;
//!   3. the canonical path has to lie under the canonical root.
//!
//! Each listed entry is canonicalised and checked too: a symlink inside the root pointing out
//! simply does not show. The disk is the caller's; the decisions are here.
use vstd::prelude::*;
use crate::error::{lowercase, to_lowercase};
use crate::init::join_path;
use crate::init::join_path_exec;
use crate::text::{
    chars_of, eq, is_blank, rindex_of, rindex_of_exec, lemma_rindex_of, slice_of, split,
    split_exec, starts_with, string_of, trim, trim_exec, views,
};

verus! {

broadcast use vstd::seq_lib::group_seq_properties;

#[derive(Debug, Clone, PartialEq, Eq)]
pub enum FsError {
    /// The path lies outside the allowed area.
    Confined,
    NotFound,
    NotADirectory,
    /// The directory could not be read; the text is for the log, not for the user.
    Io(String),
}

impl FsError {
    /// The HTTP status the refusal is answered with.
    pub fn status(&self) -> (code: u16)
        ensures
            code == match self {
                FsError::Confined => 403u16,
                FsError::NotFound => 404u16,
                FsError::NotADirectory => 400u16,
                FsError::Io(_) => 500u16,
            },
    {
        match self {
            FsError::Confined => 403,
            FsError::NotFound => 404,
            FsError::NotADirectory => 400,
            FsError::Io(_) => 500,
        }
    }

    /// What the user reads: our sentence, never the raw I/O error.
    pub fn message(&self) -> (m: String)
        ensures
            m@ == match self {
                FsError::Confined => "caminho fora da área permitida"@,
                FsError::NotFound => "caminho não encontrado"@,
                FsError::NotADirectory => "não é um diretório"@,
                FsError::Io(_) => "não consegui ler o diretório"@,
            },
    {
        string_of(&chars_of(match self {
            FsError::Confined => "caminho fora da área permitida",
            FsError::NotFound => "caminho não encontrado",
            FsError::NotADirectory => "não é um diretório",
            FsError::Io(_) => "não consegui ler o diretório",
        }))
    }
}

/// `..` anywhere in the path.
pub open spec fn climbs(p: Seq<char>) -> bool {
    exists|i: int| 0 <= i < split(p, '/').len() && split(p, '/')[i] == ".."@
}

/// The path a request asks for before it is made canonical: `None` is the root itself (no or
/// blank request); a relative request is taken from the root.
pub open spec fn requested_of(root: Seq<char>, requested: Option<Seq<char>>) -> Result<Option<Seq<char>>, FsError> {
    match requested {
        None => Ok(None),
        Some(r) => if trim(r).len() == 0 {
            Ok(None)
        } else if climbs(trim(r)) {
            // refused before any syscall: `..` in a folder picker is never an accident
            Err(FsError::Confined)
        } else if trim(r)[0] == '/' {
            Ok(Some(trim(r)))
        } else {
            Ok(Some(join_path(root, trim(r))))
        },
    }
}

pub fn request_path(root: &str, requested: Option<&str>) -> (r: Result<Option<String>, FsError>)
    ensures
        match r {
            Ok(Some(p)) => requested_of(root@, match requested {
                Some(q) => Some(q@),
                None => None,
            }) == Ok::<Option<Seq<char>>, FsError>(Some(p@)),
            Ok(None) => requested_of(root@, match requested {
                Some(q) => Some(q@),
                None => None,
            }) == Ok::<Option<Seq<char>>, FsError>(None),
            Err(e) => requested_of(root@, match requested {
                Some(q) => Some(q@),
                None => None,
            }) == Err::<Option<Seq<char>>, FsError>(e),
        },
{
    let q = match requested {
        None => return Ok(None),
        Some(q) => trim_exec(&chars_of(q)),
    };
    if q.len() == 0 {
        return Ok(None);
    }
    let parts = split_exec(&q, '/');
    let ghost ps = views(parts@);
    let mut i: usize = 0;
    while i < parts.len()
        invariant
            i <= parts.len(),
            ps == views(parts@),
            ps == split(q@, '/'),
            q@.len() > 0,
            requested matches Some(r) && q@ == trim(r@),
            forall|k: int| 0 <= k < i ==> ps[k] != ".."@,
        decreases parts.len() - i,
    {
        if eq(&parts[i], &chars_of("..")) {
            assert(ps[i as int] == ".."@);
            assert(climbs(q@));
            return Err(FsError::Confined);
        }
        i += 1;
    }
    if q[0] == '/' {
        Ok(Some(string_of(&q)))
    } else {
        Ok(Some(join_path_exec(root, string_of(&q).as_str())))
    }
}

/// `p` lies under `root`, component by component (the root itself included), for the
/// canonical paths both are.
pub open spec fn within(p: Seq<char>, root: Seq<char>) -> bool {
    p == root || (if root.len() > 0 && root.last() == '/' {
        root
    } else {
        root.push('/')
    }).is_prefix_of(p)
}

pub fn is_within(p: &str, root: &str) -> (b: bool)
    ensures
        b == within(p@, root@),
{
    let pv = chars_of(p);
    let mut rv = chars_of(root);
    if eq(&pv, &rv) {
        return true;
    }
    if !(rv.len() > 0 && rv[rv.len() - 1] == '/') {
        rv.push('/');
    }
    starts_with(&pv, &rv)
}

/// What making a path canonical gave.
#[derive(Debug, Clone, PartialEq, Eq)]
pub enum Canonical {
    /// The canonical path, and whether it is a folder.
    Found { path: String, is_dir: bool },
    Missing,
    Denied,
    /// Another I/O failure, as text for the log.
    Failed(String),
}

/// The folder a request lands on, or why not: permission denied counts as outside, and the
/// test that matters is made on the path with its symlinks resolved.
pub open spec fn admitted(root: Seq<char>, c: Canonical) -> Result<Seq<char>, FsError> {
    match c {
        Canonical::Missing => Err(FsError::NotFound),
        Canonical::Denied => Err(FsError::Confined),
        Canonical::Failed(m) => Err(FsError::Io(m)),
        Canonical::Found { path, is_dir } => if !within(path@, root) {
            Err(FsError::Confined)
        } else if !is_dir {
            Err(FsError::NotADirectory)
        } else {
            Ok(path@)
        },
    }
}

pub fn confine(root: &str, canonical: Canonical) -> (r: Result<String, FsError>)
    ensures
        match r {
            Ok(p) => admitted(root@, canonical) == Ok::<Seq<char>, FsError>(p@),
            Err(e) => admitted(root@, canonical) == Err::<Seq<char>, FsError>(e),
        },
{
    match canonical {
        Canonical::Missing => Err(FsError::NotFound),
        Canonical::Denied => Err(FsError::Confined),
        Canonical::Failed(m) => Err(FsError::Io(m)),
        Canonical::Found { path, is_dir } => {
            if !is_within(path.as_str(), root) {
                Err(FsError::Confined)
            } else if !is_dir {
                Err(FsError::NotADirectory)
            } else {
                Ok(path)
            }
        },
    }
}

/// Whatever a request asks for, what it is admitted to lies under the root.
pub proof fn law_admitted_paths_stay_under_the_root(root: Seq<char>, c: Canonical)
    ensures
        admitted(root, c) matches Ok(p) ==> within(p, root),
{
}

/// What a folder listing asks: a path (absent is the root; relative is from the root), and
/// whether to show hidden entries (not by default: in a home, `.cache` and `.local` bury the
/// folders the user looks for).
#[derive(Debug, Clone)]
pub struct ListQuery {
    pub path: Option<String>,
    pub hidden: bool,
}

/// A folder's listing.
#[derive(Debug, Clone)]
pub struct Listing {
    /// Always the canonical path, never what the client sent.
    pub path: String,
    /// `None` at the root: where the interface's "up one level" stops.
    pub parent: Option<String>,
    /// The root of the confinement, so the breadcrumb needs no guessing.
    pub root: String,
    pub entries: Vec<Entry>,
}

/// The listing of `dir` (canonical, inside `root`) with its entries.
pub fn listing(root: &str, dir: &str, entries: Vec<Entry>) -> (l: Listing)
    ensures
        l.path@ == dir@,
        l.root@ == root@,
        l.entries@ == entries@,
        match l.parent {
            Some(s) => dir@ != root@ && parent_path(dir@) == Some(s@),
            None => dir@ == root@ || parent_path(dir@) is None,
        },
{
    Listing {
        parent: parent_of(root, dir),
        path: string_of(&chars_of(dir)),
        root: string_of(&chars_of(root)),
        entries,
    }
}

/// `Path::parent` of a canonical folder: everything before the last `/`, the root `/` for a
/// folder right under it, nothing for `/` itself.
pub open spec fn parent_path(d: Seq<char>) -> Option<Seq<char>> {
    match rindex_of(d, '/') {
        Some(i) => if i == 0 {
            if d.len() > 1 {
                Some("/"@)
            } else {
                None
            }
        } else {
            Some(d.take(i))
        },
        None => Some(seq![]),
    }
}

/// Where "up one level" goes: there is an above only while below the root.
pub fn parent_of(root: &str, dir: &str) -> (p: Option<String>)
    ensures
        match p {
            Some(s) => dir@ != root@ && parent_path(dir@) == Some(s@),
            None => dir@ == root@ || parent_path(dir@) is None,
        },
{
    let d = chars_of(dir);
    if eq(&d, &chars_of(root)) {
        return None;
    }
    match rindex_of_exec(&d, '/') {
        Some(i) => {
            if i == 0 {
                if d.len() > 1 {
                    Some(string_of(&chars_of("/")))
                } else {
                    None
                }
            } else {
                proof {
                    lemma_rindex_of(d@, '/');
                }
                let up = slice_of(&d, 0, i);
                assert(up@ =~= d@.take(i as int));
                Some(string_of(&up))
            }
        },
        None => Some(string_of(&Vec::new())),
    }
}

// ---------------------------------------------------------------------------------------------
// listing
// ---------------------------------------------------------------------------------------------
/// An entry of a listed folder.
#[derive(Debug, Clone)]
pub struct Entry {
    pub name: String,
    pub path: String,
    pub is_repo: bool,
    pub hidden: bool,
}

/// Whether a folder entry shows: hidden ones only when asked for (in a home the noise of
/// `.cache` and friends buries what the user looks for), and only a folder that, resolved,
/// stays under the root. Returns its canonical path and whether it is hidden.
pub open spec fn shown(root: Seq<char>, name: Seq<char>, show_hidden: bool, c: Canonical) -> Option<(Seq<char>, bool)> {
    let hidden = name.len() > 0 && name[0] == '.';
    if hidden && !show_hidden {
        None
    } else {
        match c {
            Canonical::Found { path, is_dir } => if is_dir && within(path@, root) {
                Some((path@, hidden))
            } else {
                None
            },
            _ => None,
        }
    }
}

pub fn show_entry(root: &str, name: &str, show_hidden: bool, canonical: Canonical) -> (r: Option<(String, bool)>)
    ensures
        match r {
            Some((p, h)) => shown(root@, name@, show_hidden, canonical) == Some((p@, h)),
            None => shown(root@, name@, show_hidden, canonical) is None,
        },
{
    let n = chars_of(name);
    let hidden = n.len() > 0 && n[0] == '.';
    if hidden && !show_hidden {
        return None;
    }
    match canonical {
        Canonical::Found { path, is_dir } => {
            if is_dir && is_within(path.as_str(), root) {
                Some((path, hidden))
            } else {
                None
            }
        },
        _ => None,
    }
}

/// Text order: char by char, by code point (the order of `str`).
pub open spec fn text_le(a: Seq<char>, b: Seq<char>) -> bool
    decreases a.len(),
{
    if a.len() == 0 {
        true
    } else if b.len() == 0 {
        false
    } else if a[0] != b[0] {
        (a[0] as u32) < (b[0] as u32)
    } else {
        text_le(a.drop_first(), b.drop_first())
    }
}

proof fn lemma_char_order(a: char, b: char)
    ensures
        a != b ==> (a as u32) != (b as u32),
{
}

pub proof fn lemma_text_le_total(a: Seq<char>, b: Seq<char>)
    ensures
        text_le(a, b) || text_le(b, a),
    decreases a.len(),
{
    if a.len() > 0 && b.len() > 0 {
        lemma_char_order(a[0], b[0]);
        if a[0] == b[0] {
            lemma_text_le_total(a.drop_first(), b.drop_first());
        }
    }
}

pub proof fn lemma_text_le_transitive(a: Seq<char>, b: Seq<char>, c: Seq<char>)
    requires
        text_le(a, b),
        text_le(b, c),
    ensures
        text_le(a, c),
    decreases a.len(),
{
    if a.len() > 0 && b.len() > 0 && c.len() > 0 {
        lemma_char_order(a[0], c[0]);
        if a[0] == b[0] && b[0] == c[0] {
            lemma_text_le_transitive(a.drop_first(), b.drop_first(), c.drop_first());
        }
    }
}

pub proof fn lemma_text_le_antisymmetric(a: Seq<char>, b: Seq<char>)
    requires
        text_le(a, b),
        text_le(b, a),
    ensures
        a == b,
    decreases a.len(),
{
    if a.len() > 0 && b.len() > 0 {
        lemma_char_order(a[0], b[0]);
        lemma_text_le_antisymmetric(a.drop_first(), b.drop_first());
        assert(a =~= seq![a[0]] + a.drop_first());
        assert(b =~= seq![b[0]] + b.drop_first());
    }
}

pub(crate) fn text_le_exec(a: &Vec<char>, b: &Vec<char>) -> (r: bool)
    ensures
        r == text_le(a@, b@),
{
    let mut i: usize = 0;
    while i < a.len() && i < b.len() && a[i] == b[i]
        invariant
            i <= a.len(),
            i <= b.len(),
            text_le(a@, b@) == text_le(a@.skip(i as int), b@.skip(i as int)),
        decreases a.len() - i,
    {
        assert(a@.skip(i as int).drop_first() =~= a@.skip(i + 1));
        assert(b@.skip(i as int).drop_first() =~= b@.skip(i + 1));
        i += 1;
    }
    if i == a.len() {
        true
    } else if i == b.len() {
        false
    } else {
        (a[i] as u32) < (b[i] as u32)
    }
}

/// Entry order: by name without case, then by name. Repositories do not come first: moving the
/// line the user looks for because it is a repository makes the list unpredictable.
pub open spec fn entry_le(a: Seq<char>, b: Seq<char>) -> bool {
    (text_le(lowercase(a), lowercase(b)) && lowercase(a) != lowercase(b)) || (lowercase(a) == lowercase(
        b,
    ) && text_le(a, b))
}

proof fn lemma_entry_le_total(a: Seq<char>, b: Seq<char>)
    ensures
        entry_le(a, b) || entry_le(b, a),
{
    lemma_text_le_total(lowercase(a), lowercase(b));
    lemma_text_le_total(a, b);
}

proof fn lemma_entry_le_transitive(a: Seq<char>, b: Seq<char>, c: Seq<char>)
    requires
        entry_le(a, b),
        entry_le(b, c),
    ensures
        entry_le(a, c),
{
    let (la, lb, lc) = (lowercase(a), lowercase(b), lowercase(c));
    if la != lb && lb != lc {
        lemma_text_le_transitive(la, lb, lc);
        if la == lc {
            lemma_text_le_antisymmetric(la, lb);
        }
    } else if la == lb && lb == lc {
        lemma_text_le_transitive(a, b, c);
    }
}

/// The entries in the order a folder picker needs to be predictable.
pub fn sort_entries(entries: Vec<Entry>) -> (r: Vec<Entry>)
    ensures
        r@.len() == entries@.len(),
        r@.to_multiset() == entries@.to_multiset(),
        forall|a: int, b: int| 0 <= a < b < r@.len() ==> entry_le(#[trigger] r@[a].name@, #[trigger] r@[b].name@),
{
    let mut out: Vec<Entry> = Vec::new();
    let mut keys: Vec<Vec<char>> = Vec::new();
    let mut rest = entries;
    let ghost total = rest@.len();
    let ghost all = rest@.to_multiset();
    proof {
        broadcast use vstd::seq_lib::group_to_multiset_ensures, vstd::multiset::group_multiset_axioms;
        assert(out@.to_multiset().add(rest@.to_multiset()) =~= all);
    }
    while rest.len() > 0
        invariant
            out@.len() + rest@.len() == total,
            out@.to_multiset().add(rest@.to_multiset()) == all,
            keys@.len() == out@.len(),
            forall|k: int| 0 <= k < keys@.len() ==> #[trigger] keys@[k]@ == lowercase(out@[k].name@),
            forall|a: int, b: int| 0 <= a < b < out@.len() ==> entry_le(#[trigger] out@[a].name@, #[trigger] out@[b].name@),
        decreases rest@.len(),
    {
        let ghost rest_before = rest@;
        let e = rest.pop().unwrap();
        proof {
            broadcast use vstd::seq_lib::group_to_multiset_ensures;
            assert(rest_before == rest@.push(e));
        }
        let key = to_lowercase(e.name.as_str());
        let name = chars_of(e.name.as_str());
        let ghost before = out@;
        let ghost before_keys = keys@;
        let mut p: usize = 0;
        while p < out.len() && entry_le_exec(&keys[p], &chars_of(out[p].name.as_str()), &key, &name)
            invariant
                p <= out@.len(),
                out@ == before,
                keys@ == before_keys,
                keys@.len() == out@.len(),
                key@ == lowercase(e.name@),
                name@ == e.name@,
                forall|k: int| 0 <= k < keys@.len() ==> #[trigger] keys@[k]@ == lowercase(out@[k].name@),
                forall|k: int| 0 <= k < p ==> entry_le(#[trigger] out@[k].name@, e.name@),
            decreases out@.len() - p,
        {
            p += 1;
        }
        proof {
            if p < before.len() {
                lemma_entry_le_total(before[p as int].name@, e.name@);
            }
        }
        out.insert(p, e);
        keys.insert(p, key);
        proof {
            broadcast use vstd::seq_lib::group_to_multiset_ensures, vstd::multiset::group_multiset_axioms;
            assert(out@ == before.insert(p as int, e));
            assert(out@.to_multiset().add(rest@.to_multiset()) =~= before.to_multiset().add(rest_before.to_multiset()));
        }
        proof {
            assert forall|k: int| 0 <= k < keys@.len() implies #[trigger] keys@[k]@ == lowercase(out@[k].name@) by {
                if k < p {
                    assert(keys@[k] == before_keys[k] && out@[k] == before[k]);
                } else if k > p {
                    assert(keys@[k] == before_keys[k - 1] && out@[k] == before[k - 1]);
                }
            }
            assert forall|a: int, b: int| 0 <= a < b < out@.len() implies entry_le(#[trigger] out@[a].name@, #[trigger] out@[b].name@) by {
                let oa = if a < p { a } else { a - 1 };
                let ob = if b < p { b } else { b - 1 };
                if a != p && b != p {
                    assert(out@[a] == before[oa] && out@[b] == before[ob]);
                } else if a == p {
                    assert(out@[b] == before[ob]);
                    if ob > p {
                        lemma_entry_le_transitive(e.name@, before[p as int].name@, before[ob].name@);
                    }
                } else {
                    assert(out@[a] == before[oa]);
                }
            }
        }
    }
    proof {
        broadcast use vstd::multiset::group_multiset_axioms;
        assert(rest@.len() == 0);
        assert(rest@ =~= Seq::<Entry>::empty());
        assert(out@.to_multiset() =~= all);
    }
    out
}

fn entry_le_exec(ka: &Vec<char>, a: &Vec<char>, kb: &Vec<char>, b: &Vec<char>) -> (r: bool)
    requires
        ka@ == lowercase(a@),
        kb@ == lowercase(b@),
    ensures
        r == entry_le(a@, b@),
{
    if eq(ka, kb) {
        text_le_exec(a, b)
    } else {
        text_le_exec(ka, kb)
    }
}

// ---------------------------------------------------------------------------------------------
// the scan
// ---------------------------------------------------------------------------------------------
/// A repository a scan found.
#[derive(Debug, Clone)]
pub struct Found {
    pub name: String,
    pub path: String,
    /// How many levels below the root.
    pub depth: usize,
}

#[derive(Debug, Clone)]
pub struct ScanEntry {
    pub name: String,
    pub path: String,
    /// The path from the root: what tells apart two repositories of the same name.
    pub relative: String,
    pub depth: usize,
}

#[derive(Debug, Clone)]
pub struct Scan {
    pub root: String,
    pub depth: usize,
    /// `true` when the scan hit its ceiling: the list is incomplete, and the UI has to say so.
    pub truncated: bool,
    pub repos: Vec<ScanEntry>,
}

/// A path from the root (`Path::strip_prefix`), or the whole path when it is not under it.
pub open spec fn relative_to(p: Seq<char>, root: Seq<char>) -> Seq<char> {
    if p == root {
        seq![]
    } else {
        let prefix = if root.len() > 0 && root.last() == '/' {
            root
        } else {
            root.push('/')
        };
        if prefix.is_prefix_of(p) {
            p.skip(prefix.len() as int)
        } else {
            p
        }
    }
}

fn relative_exec(p: &str, root: &str) -> (r: String)
    ensures
        r@ == relative_to(p@, root@),
{
    let pv = chars_of(p);
    let mut rv = chars_of(root);
    if eq(&pv, &rv) {
        return string_of(&Vec::new());
    }
    if !(rv.len() > 0 && rv[rv.len() - 1] == '/') {
        rv.push('/');
    }
    if starts_with(&pv, &rv) {
        let rest = slice_of(&pv, rv.len(), pv.len());
        assert(rest@ =~= pv@.skip(rv@.len() as int));
        string_of(&rest)
    } else {
        string_of(&pv)
    }
}

/// The scan's answer from what was found, asked for one more than the ceiling: that one more
/// is how it knows there was more.
pub fn scan_result(root: &str, depth: usize, limit: usize, found: Vec<Found>) -> (s: Scan)
    ensures
        s.root@ == root@,
        s.depth == depth,
        s.truncated == (found@.len() > limit),
        s.repos@.len() == if found@.len() > limit {
            limit as int
        } else {
            found@.len() as int
        },
        forall|k: int| 0 <= k < s.repos@.len() ==> {
            &&& #[trigger] s.repos@[k].name@ == found@[k].name@
            &&& s.repos@[k].path@ == found@[k].path@
            &&& s.repos@[k].depth == found@[k].depth
            &&& s.repos@[k].relative@ == relative_to(found@[k].path@, root@)
        },
{
    let mut repos: Vec<ScanEntry> = Vec::new();
    let mut i: usize = 0;
    while i < found.len() && i < limit
        invariant
            i <= found@.len(),
            i <= limit,
            repos@.len() == i,
            forall|k: int| 0 <= k < i ==> {
                &&& #[trigger] repos@[k].name@ == found@[k].name@
                &&& repos@[k].path@ == found@[k].path@
                &&& repos@[k].depth == found@[k].depth
                &&& repos@[k].relative@ == relative_to(found@[k].path@, root@)
            },
        decreases found@.len() - i,
    {
        let f = &found[i];
        repos.push(ScanEntry {
            name: f.name.clone(),
            path: f.path.clone(),
            relative: relative_exec(f.path.as_str(), root),
            depth: f.depth,
        });
        i += 1;
    }
    Scan { root: string_of(&chars_of(root)), depth, truncated: found.len() > limit, repos }
}

} // verus!
