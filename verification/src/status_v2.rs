//! Reading `git status --porcelain=v2 -z`.
//!
//! A documented, stable format: a `# branch.*` header, then one record per entry, of kind `1`
//! (ordinary change), `2` (rename or copy), `u` (conflict) or `?` (untracked). With `-z`
//! **everything** ends in a NUL, the header too, and paths are never quoted: cutting at the
//! NULs separates the records.
//!
//! The one trap is kind `2`: it carries **two** paths, `path` and `origPath`, with one more NUL
//! between them, so for that kind the next whole record is the old path, not a new entry.
use vstd::prelude::*;
use crate::model::{
    opt_str, BranchStatus, BranchView, EntryView, RepoState, StatusEntry, StatusKind,
    WorktreeStatus, entry_views,
};
use crate::text::{
    chars_of, eq, index_of, words, words_exec, lemma_index_of, lossy_chars, parse_uint,
    parse_unsigned, slice_of, split_once_exec, string_of, strip_prefix, strip_prefix_exec,
    utf8_lossy,
};

verus! {

broadcast use vstd::seq_lib::group_seq_properties;

// ---------------------------------------------------------------------------------------------
// records and fields
// ---------------------------------------------------------------------------------------------
/// The records between the NULs, empty ones dropped, each decoded on its own (invalid UTF-8
/// replaced). `cur` is the record under way.
pub open spec fn records_from(b: Seq<u8>, cur: Seq<u8>) -> Seq<Seq<char>>
    decreases b.len(),
{
    if b.len() == 0 {
        if cur.len() > 0 {
            seq![utf8_lossy(cur)]
        } else {
            seq![]
        }
    } else if b[0] == 0 {
        (if cur.len() > 0 {
            seq![utf8_lossy(cur)]
        } else {
            seq![]
        }) + records_from(b.drop_first(), seq![])
    } else {
        records_from(b.drop_first(), cur.push(b[0]))
    }
}

pub open spec fn status_records(b: Seq<u8>) -> Seq<Seq<char>> {
    records_from(b, seq![])
}

/// `s.splitn(n, c)`: at most `n` pieces, the last one holding the rest.
pub open spec fn splitn(s: Seq<char>, n: nat, c: char) -> Seq<Seq<char>>
    decreases n,
{
    if n <= 1 {
        seq![s]
    } else {
        match index_of(s, c) {
            Some(i) => seq![s.take(i)] + splitn(s.skip(i + 1), (n - 1) as nat, c),
            None => seq![s],
        }
    }
}

// ---------------------------------------------------------------------------------------------
// what a status is made of
// ---------------------------------------------------------------------------------------------
pub struct StatusView {
    pub branch: BranchView,
    pub staged: Seq<EntryView>,
    pub unstaged: Seq<EntryView>,
    pub untracked: Seq<EntryView>,
}

pub open spec fn status_view(s: WorktreeStatus) -> StatusView {
    StatusView {
        branch: s.branch@,
        staged: entry_views(s.staged@),
        unstaged: entry_views(s.unstaged@),
        untracked: entry_views(s.untracked@),
    }
}

pub open spec fn empty_branch() -> BranchView {
    BranchView { oid: None, head: None, detached: false, upstream: None, ahead: 0, behind: 0 }
}

pub open spec fn empty_status() -> StatusView {
    StatusView { branch: empty_branch(), staged: seq![], unstaged: seq![], untracked: seq![] }
}

/// The kind a status letter (`X` or `Y`) stands for; `None` for `.`, no change on that side.
pub open spec fn kind_of(code: char) -> Option<StatusKind> {
    if code == 'M' {
        Some(StatusKind::Modified)
    } else if code == 'A' {
        Some(StatusKind::Added)
    } else if code == 'D' {
        Some(StatusKind::Deleted)
    } else if code == 'R' {
        Some(StatusKind::Renamed)
    } else if code == 'C' {
        Some(StatusKind::Copied)
    } else if code == 'T' {
        Some(StatusKind::Typechange)
    } else if code == 'U' {
        Some(StatusKind::Unmerged)
    } else {
        None
    }
}

pub open spec fn u32_max() -> int {
    0xffff_ffff
}

/// A number of `branch.ab`: the word without its sign, or 0 when it does not read.
pub open spec fn ab_count(ws: Seq<Seq<char>>, i: int, sign: char) -> u32 {
    if i < ws.len() && ws[i].len() > 0 && ws[i][0] == sign && parse_unsigned(
        ws[i].drop_first(),
        u32_max(),
    ) is Some {
        parse_unsigned(ws[i].drop_first(), u32_max())->0 as u32
    } else {
        0
    }
}

/// One `# branch.*` header line, without the `# `.
pub open spec fn header_step(b: BranchView, header: Seq<char>) -> BranchView {
    let parts = splitn(header, 2, ' ');
    let key = parts[0];
    let value = if parts.len() > 1 {
        parts[1]
    } else {
        seq![]
    };
    if key == "branch.oid"@ {
        BranchView {
            oid: if value != "(initial)"@ {
                Some(value)
            } else {
                None
            },
            ..b
        }
    } else if key == "branch.head"@ {
        if value == "(detached)"@ {
            BranchView { detached: true, ..b }
        } else {
            BranchView { head: Some(value), ..b }
        }
    } else if key == "branch.upstream"@ {
        BranchView { upstream: Some(value), ..b }
    } else if key == "branch.ab"@ {
        let ws = words(value);
        BranchView { ahead: ab_count(ws, 0, '+'), behind: ab_count(ws, 1, '-'), ..b }
    } else {
        b
    }
}

pub open spec fn xy_at(xy: Seq<char>, i: int) -> char {
    if i < xy.len() {
        xy[i]
    } else {
        '.'
    }
}

/// An `XY` pair: `X` (the index) feeds `staged`, `Y` (the worktree) feeds `unstaged`. A file
/// with both letters set shows in both groups.
pub open spec fn with_xy(
    st: StatusView,
    xy: Seq<char>,
    path: Seq<char>,
    old: Option<Seq<char>>,
) -> StatusView {
    let staged = match kind_of(xy_at(xy, 0)) {
        Some(k) => st.staged.push(EntryView { path, old_path: old, kind: k }),
        None => st.staged,
    };
    let unstaged = match kind_of(xy_at(xy, 1)) {
        Some(k) => st.unstaged.push(EntryView { path, old_path: old, kind: k }),
        None => st.unstaged,
    };
    StatusView { staged, unstaged, ..st }
}

/// The fields of an entry: `1 <XY> <sub> <mH> <mI> <mW> <hH> <hI> <path>` has eight after the
/// kind, `2 … <X><score> <path>` nine, `u … <h1> <h2> <h3> <path>` ten. The path is the last
/// one and may hold spaces.
pub open spec fn entry_fields(rest: Seq<char>, n: nat) -> Option<(Seq<char>, Seq<char>)> {
    let f = splitn(rest, n, ' ');
    if f.len() == n {
        Some((f[0], f[n - 1]))
    } else {
        None
    }
}

/// The kind of a record and what follows it (`splitn(2, ' ')`).
pub open spec fn kind_and_rest(record: Seq<char>) -> (Seq<char>, Seq<char>) {
    let parts = splitn(record, 2, ' ');
    (parts[0], if parts.len() > 1 {
        parts[1]
    } else {
        seq![]
    })
}

/// The status the records make, read from the front. A record of no known shape is skipped.
pub open spec fn walk(recs: Seq<Seq<char>>, st: StatusView) -> StatusView
    decreases recs.len(),
{
    if recs.len() == 0 {
        st
    } else {
        let record = recs[0];
        match strip_prefix(record, "# "@) {
            Some(header) => walk(
                recs.drop_first(),
                StatusView { branch: header_step(st.branch, header), ..st },
            ),
            None => {
                let (kind, rest) = kind_and_rest(record);
                if kind == "1"@ {
                    walk(
                        recs.drop_first(),
                        match entry_fields(rest, 8) {
                            Some((xy, path)) => with_xy(st, xy, path, None),
                            None => st,
                        },
                    )
                } else if kind == "2"@ {
                    match entry_fields(rest, 9) {
                        Some((xy, path)) => if recs.len() >= 2 {
                            walk(recs.skip(2), with_xy(st, xy, path, Some(recs[1])))
                        } else {
                            with_xy(st, xy, path, None)
                        },
                        None => walk(recs.drop_first(), st),
                    }
                } else if kind == "u"@ {
                    walk(
                        recs.drop_first(),
                        match entry_fields(rest, 10) {
                            Some((_, path)) => StatusView {
                                unstaged: st.unstaged.push(
                                    EntryView { path, old_path: None, kind: StatusKind::Unmerged },
                                ),
                                ..st
                            },
                            None => st,
                        },
                    )
                } else if kind == "?"@ {
                    walk(
                        recs.drop_first(),
                        StatusView {
                            untracked: st.untracked.push(
                                EntryView {
                                    path: rest,
                                    old_path: None,
                                    kind: StatusKind::Untracked,
                                },
                            ),
                            ..st
                        },
                    )
                } else {
                    walk(recs.drop_first(), st)
                }
            },
        }
    }
}

// ---------------------------------------------------------------------------------------------
// exec
// ---------------------------------------------------------------------------------------------
fn split_records(stdout: &[u8]) -> (r: Vec<Vec<char>>)
    ensures
        crate::text::views(r@) == status_records(stdout@),
{
    let mut out: Vec<Vec<char>> = Vec::new();
    let mut cur: Vec<u8> = Vec::new();
    let mut i: usize = 0;
    while i < stdout.len()
        invariant
            i <= stdout.len(),
            crate::text::views(out@) + records_from(stdout@.skip(i as int), cur@)
                == status_records(stdout@),
        decreases stdout.len() - i,
    {
        let ghost rest = stdout@.skip(i as int);
        assert(rest.drop_first() =~= stdout@.skip(i + 1));
        if stdout[i] == 0 {
            if cur.len() > 0 {
                let text = lossy_chars(cur.as_slice());
                let ghost before = crate::text::views(out@);
                out.push(text);
                assert(crate::text::views(out@) =~= before + seq![utf8_lossy(cur@)]);
            } else {
                assert(crate::text::views(out@) + (seq![] + records_from(rest.drop_first(), seq![]))
                    =~= crate::text::views(out@) + records_from(rest.drop_first(), seq![]));
            }
            cur = Vec::new();
        } else {
            cur.push(stdout[i]);
        }
        i += 1;
    }
    if cur.len() > 0 {
        let text = lossy_chars(cur.as_slice());
        let ghost before = crate::text::views(out@);
        out.push(text);
        assert(crate::text::views(out@) =~= before + seq![utf8_lossy(cur@)]);
    } else {
        assert(crate::text::views(out@) + seq![] =~= crate::text::views(out@));
    }
    out
}

fn splitn_exec(s: &Vec<char>, n: usize, c: char) -> (r: Vec<Vec<char>>)
    requires
        n >= 1,
    ensures
        crate::text::views(r@) == splitn(s@, n as nat, c),
{
    let mut out: Vec<Vec<char>> = Vec::new();
    let mut rest = slice_of(s, 0, s.len());
    assert(rest@ =~= s@);
    let mut left: usize = n;
    loop
        invariant
            1 <= left <= n,
            crate::text::views(out@) + splitn(rest@, left as nat, c) == splitn(s@, n as nat, c),
        decreases left,
    {
        if left == 1 {
            let ghost before = crate::text::views(out@);
            out.push(rest);
            assert(crate::text::views(out@) =~= before + seq![rest@]);
            return out;
        }
        match split_once_exec(&rest, c) {
            Some((a, b)) => {
                proof {
                    lemma_index_of(rest@, c);
                }
                let ghost before = crate::text::views(out@);
                out.push(a);
                assert(crate::text::views(out@) =~= before + seq![a@]);
                assert(before + splitn(rest@, left as nat, c) =~= crate::text::views(out@)
                    + splitn(b@, (left - 1) as nat, c));
                rest = b;
                left -= 1;
            },
            None => {
                let ghost before = crate::text::views(out@);
                out.push(rest);
                assert(crate::text::views(out@) =~= before + seq![rest@]);
                return out;
            },
        }
    }
}

fn kind_of_exec(code: char) -> (k: Option<StatusKind>)
    ensures
        k == kind_of(code),
{
    match code {
        'M' => Some(StatusKind::Modified),
        'A' => Some(StatusKind::Added),
        'D' => Some(StatusKind::Deleted),
        'R' => Some(StatusKind::Renamed),
        'C' => Some(StatusKind::Copied),
        'T' => Some(StatusKind::Typechange),
        'U' => Some(StatusKind::Unmerged),
        _ => None,
    }
}

fn ab_count_exec(ws: &Vec<Vec<char>>, i: usize, sign: char) -> (n: u32)
    ensures
        n == ab_count(crate::text::views(ws@), i as int, sign),
{
    if i < ws.len() && ws[i].len() > 0 && ws[i][0] == sign {
        let digits = slice_of(&ws[i], 1, ws[i].len());
        assert(digits@ =~= ws@[i as int]@.drop_first());
        match parse_uint(&digits, 0xffff_ffff) {
            Some(v) => v as u32,
            None => 0,
        }
    } else {
        0
    }
}

fn opt_string(v: &Vec<char>) -> (r: Option<String>)
    ensures
        opt_str(r) == Some(v@),
{
    Some(string_of(v))
}

fn apply_header(branch: &mut BranchStatus, header: &Vec<char>)
    ensures
        final(branch)@ == header_step(old(branch)@, header@),
{
    let parts = splitn_exec(header, 2, ' ');
    let ghost ps = crate::text::views(parts@);
    assert(ps[0] == parts@[0]@);
    let key = &parts[0];
    let value = if parts.len() > 1 {
        slice_of(&parts[1], 0, parts[1].len())
    } else {
        Vec::new()
    };
    assert(parts.len() > 1 ==> value@ =~= ps[1]);
    if eq(key, &chars_of("branch.oid")) {
        if !eq(&value, &chars_of("(initial)")) {
            branch.oid = opt_string(&value);
        } else {
            branch.oid = None;
        }
    } else if eq(key, &chars_of("branch.head")) {
        if eq(&value, &chars_of("(detached)")) {
            branch.detached = true;
        } else {
            branch.head = opt_string(&value);
        }
    } else if eq(key, &chars_of("branch.upstream")) {
        branch.upstream = opt_string(&value);
    } else if eq(key, &chars_of("branch.ab")) {
        let ws = words_exec(&value);
        branch.ahead = ab_count_exec(&ws, 0, '+');
        branch.behind = ab_count_exec(&ws, 1, '-');
    }
}

fn entry_fields_exec(rest: &Vec<char>, n: usize) -> (r: Option<(Vec<char>, Vec<char>)>)
    requires
        n >= 1,
    ensures
        match r {
            Some((xy, path)) => entry_fields(rest@, n as nat) == Some((xy@, path@)),
            None => entry_fields(rest@, n as nat) is None,
        },
{
    let f = splitn_exec(rest, n, ' ');
    if f.len() == n {
        let ghost fs = crate::text::views(f@);
        assert(fs[0] == f@[0]@ && fs[n - 1] == f@[n - 1]@);
        let xy = slice_of(&f[0], 0, f[0].len());
        let path = slice_of(&f[n - 1], 0, f[n - 1].len());
        assert(xy@ =~= fs[0] && path@ =~= fs[n - 1]);
        Some((xy, path))
    } else {
        None
    }
}

fn entry(path: &Vec<char>, old: &Option<Vec<char>>, kind: StatusKind) -> (e: StatusEntry)
    ensures
        e@ == (EntryView {
            path: path@,
            old_path: match old {
                Some(o) => Some(o@),
                None => None,
            },
            kind,
        }),
{
    let old_path = match old {
        Some(o) => Some(string_of(o)),
        None => None,
    };
    StatusEntry { path: string_of(path), old_path, kind }
}

fn push_xy(
    staged: &mut Vec<StatusEntry>,
    unstaged: &mut Vec<StatusEntry>,
    xy: &Vec<char>,
    path: &Vec<char>,
    old_path: Option<Vec<char>>,
)
    ensures
        ({
            let before = StatusView {
                branch: empty_branch(),
                staged: entry_views(old(staged)@),
                unstaged: entry_views(old(unstaged)@),
                untracked: seq![],
            };
            let after = with_xy(
                before,
                xy@,
                path@,
                match old_path {
                    Some(o) => Some(o@),
                    None => None,
                },
            );
            entry_views(final(staged)@) == after.staged && entry_views(final(unstaged)@)
                == after.unstaged
        }),
{
    let x = if xy.len() > 0 {
        xy[0]
    } else {
        '.'
    };
    let y = if xy.len() > 1 {
        xy[1]
    } else {
        '.'
    };
    if let Some(kind) = kind_of_exec(x) {
        let e = entry(path, &old_path, kind);
        let ghost before = entry_views(staged@);
        staged.push(e);
        assert(entry_views(staged@) =~= before.push(e@));
    }
    if let Some(kind) = kind_of_exec(y) {
        let e = entry(path, &old_path, kind);
        let ghost before = entry_views(unstaged@);
        unstaged.push(e);
        assert(entry_views(unstaged@) =~= before.push(e@));
    }
}

/// Reads the raw stdout of `git status --porcelain=v2 -z --branch`.
///
/// `state` is always `Clean`: whether a merge or a rebase is under way is another source's to
/// say, and the caller overwrites it. A record of no known shape is skipped, not fatal: losing
/// one line beats the whole UI going without a status.
pub fn parse(stdout: &[u8]) -> (s: WorktreeStatus)
    ensures
        status_view(s) == walk(status_records(stdout@), empty_status()),
        s.state == RepoState::Clean,
{
    let mut branch = BranchStatus {
        oid: None,
        head: None,
        detached: false,
        upstream: None,
        ahead: 0,
        behind: 0,
    };
    let mut staged: Vec<StatusEntry> = Vec::new();
    let mut unstaged: Vec<StatusEntry> = Vec::new();
    let mut untracked: Vec<StatusEntry> = Vec::new();
    let records = split_records(stdout);
    let ghost recs = crate::text::views(records@);
    assert(recs.skip(0) =~= recs);
    assert(entry_views(staged@) =~= seq![]);
    assert(entry_views(unstaged@) =~= seq![]);
    assert(entry_views(untracked@) =~= seq![]);
    let mut i: usize = 0;
    while i < records.len()
        invariant
            i <= records.len(),
            recs == crate::text::views(records@),
            walk(recs, empty_status()) == walk(
                recs.skip(i as int),
                StatusView {
                    branch: branch@,
                    staged: entry_views(staged@),
                    unstaged: entry_views(unstaged@),
                    untracked: entry_views(untracked@),
                },
            ),
        decreases records.len() - i,
    {
        let ghost st = StatusView {
            branch: branch@,
            staged: entry_views(staged@),
            unstaged: entry_views(unstaged@),
            untracked: entry_views(untracked@),
        };
        let ghost rs = recs.skip(i as int);
        assert(rs[0] == records@[i as int]@);
        assert(rs.drop_first() =~= recs.skip(i + 1));
        let record = &records[i];
        match strip_prefix_exec(record, &chars_of("# ")) {
            Some(header) => {
                apply_header(&mut branch, &header);
                i += 1;
            },
            None => {
                let parts = splitn_exec(record, 2, ' ');
                let ghost ps = crate::text::views(parts@);
                assert(ps[0] == parts@[0]@);
                let kind = &parts[0];
                let rest = if parts.len() > 1 {
                    slice_of(&parts[1], 0, parts[1].len())
                } else {
                    Vec::new()
                };
                assert(parts.len() > 1 ==> rest@ =~= ps[1]);
                assert(kind_and_rest(rs[0]) == (kind@, rest@));
                if eq(kind, &chars_of("1")) {
                    if let Some((xy, path)) = entry_fields_exec(&rest, 8) {
                        push_xy(&mut staged, &mut unstaged, &xy, &path, None);
                    }
                    i += 1;
                } else if eq(kind, &chars_of("2")) {
                    match entry_fields_exec(&rest, 9) {
                        Some((xy, path)) => {
                            if i + 1 < records.len() {
                                let old = slice_of(&records[i + 1], 0, records[i + 1].len());
                                assert(old@ =~= rs[1]);
                                assert(rs.skip(2) =~= recs.skip(i + 2));
                                push_xy(&mut staged, &mut unstaged, &xy, &path, Some(old));
                                i += 2;
                            } else {
                                push_xy(&mut staged, &mut unstaged, &xy, &path, None);
                                i += 1;
                                assert(recs.skip(i as int).len() == 0);
                                proof {
                                    let now = StatusView {
                                        branch: branch@,
                                        staged: entry_views(staged@),
                                        unstaged: entry_views(unstaged@),
                                        untracked: entry_views(untracked@),
                                    };
                                    assert(walk(recs.skip(i as int), now) == now);
                                }
                            }
                        },
                        None => {
                            i += 1;
                        },
                    }
                } else if eq(kind, &chars_of("u")) {
                    if let Some((_, path)) = entry_fields_exec(&rest, 10) {
                        let e = entry(&path, &None, StatusKind::Unmerged);
                        let ghost before = entry_views(unstaged@);
                        unstaged.push(e);
                        assert(entry_views(unstaged@) =~= before.push(e@));
                    }
                    i += 1;
                } else if eq(kind, &chars_of("?")) {
                    let e = entry(&rest, &None, StatusKind::Untracked);
                    let ghost before = entry_views(untracked@);
                    untracked.push(e);
                    assert(entry_views(untracked@) =~= before.push(e@));
                    i += 1;
                } else {
                    i += 1;
                }
            },
        }
    }
    assert(recs.skip(i as int).len() == 0);
    WorktreeStatus { branch, state: RepoState::Clean, staged, unstaged, untracked }
}

} // verus!
