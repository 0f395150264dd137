//! Cutting a patch: take the full diff of one file and emit only the chosen pieces.
//!
//! This is what makes it possible to stage one hunk without staging the whole file. The patch
//! is cut here and handed to `git apply --cached`; applying it is never reimplemented. The only
//! lines this module has to understand are the `@@` hunk headers.
use vstd::prelude::*;
use crate::text::{strs, append, chars_of, dec, dec_exec, lines, lines_exec, parse_uint, parse_unsigned, slice_of, split_once, split_once_exec, split_once_str, split_once_str_exec, string_of, strip_prefix, strip_prefix_exec, views};

verus! {

broadcast use vstd::seq_lib::group_seq_properties;

/// A hunk already taken apart, with the header decomposed.
#[derive(Debug, Clone, PartialEq, Eq)]
pub struct Hunk {
    pub old_start: u32,
    pub old_count: u32,
    pub new_start: u32,
    pub new_count: u32,
    /// What comes after the second `@@` (the function signature git puts there), kept as it
    /// came, leading space included.
    pub section: String,
    /// The body lines, verbatim, marker (` `, `+`, `-`, `\`) included.
    pub lines: Vec<String>,
}

/// The patch of one file: the header git wrote and the hunks.
#[derive(Debug, Clone, PartialEq, Eq)]
pub struct Patch {
    /// Everything before the first `@@`, verbatim.
    pub header: Vec<String>,
    pub hunks: Vec<Hunk>,
}

#[derive(Debug, Clone, Copy, PartialEq, Eq)]
pub enum PatchError {
    /// The text is not a patch this module can read.
    Malformed,
    /// Nothing was chosen, or nothing chosen changes anything.
    EmptySelection,
    /// A hunk or a line that the patch does not have.
    OutOfRange,
}

impl PatchError {
    /// The message shown to the user.
    pub fn message(&self) -> (s: &'static str)
        ensures
            s@ == match self {
                PatchError::Malformed => "não consegui interpretar o patch deste arquivo"@,
                PatchError::EmptySelection => "nenhum trecho selecionado"@,
                PatchError::OutOfRange => "trecho selecionado não existe neste arquivo"@,
            },
    {
        match self {
            PatchError::Malformed => "não consegui interpretar o patch deste arquivo",
            PatchError::EmptySelection => "nenhum trecho selecionado",
            PatchError::OutOfRange => "trecho selecionado não existe neste arquivo",
        }
    }
}

/// A chosen hunk, whole or by lines.
#[derive(Debug, Clone, PartialEq, Eq)]
pub struct HunkSelection {
    pub hunk: usize,
    /// `None` is the whole hunk. `Some` lists the chosen **change lines**, numbered among the
    /// change lines only: the first `+` or `-` of the hunk is 0, the next 1, and context lines
    /// are not counted.
    pub lines: Option<Vec<usize>>,
}

pub struct HunkView {
    pub old_start: u32,
    pub old_count: u32,
    pub new_start: u32,
    pub new_count: u32,
    pub section: Seq<char>,
    pub lines: Seq<Seq<char>>,
}

pub struct PatchView {
    pub header: Seq<Seq<char>>,
    pub hunks: Seq<HunkView>,
}

pub struct SelectionView {
    pub hunk: usize,
    pub lines: Option<Seq<usize>>,
}

impl View for Hunk {
    type V = HunkView;

    open spec fn view(&self) -> HunkView {
        HunkView {
            old_start: self.old_start,
            old_count: self.old_count,
            new_start: self.new_start,
            new_count: self.new_count,
            section: self.section@,
            lines: strs(self.lines@),
        }
    }
}

impl View for Patch {
    type V = PatchView;

    open spec fn view(&self) -> PatchView {
        PatchView { header: strs(self.header@), hunks: self.hunks@.map_values(|h: Hunk| h@) }
    }
}

impl View for HunkSelection {
    type V = SelectionView;

    open spec fn view(&self) -> SelectionView {
        SelectionView {
            hunk: self.hunk,
            lines: match self.lines {
                Some(v) => Some(v@),
                None => None,
            },
        }
    }
}

pub open spec fn sels(v: Seq<HunkSelection>) -> Seq<SelectionView> {
    v.map_values(|s: HunkSelection| s@)
}

// ---------------------------------------------------------------------------------------------
// reading
// ---------------------------------------------------------------------------------------------
pub open spec fn u32_max() -> int {
    0xffff_ffff
}

/// `-1,3`, `+1,4` or `-1`: a sign, a start and an optional count (an omitted count is 1).
pub open spec fn range_nums(part: Seq<char>, sign: char) -> Option<(int, int)> {
    match strip_prefix(part, seq![sign]) {
        None => None,
        Some(p) => match split_once(p, ',') {
            Some((a, b)) => match (parse_unsigned(a, u32_max()), parse_unsigned(b, u32_max())) {
                (Some(x), Some(y)) => Some((x, y)),
                _ => None,
            },
            None => match parse_unsigned(p, u32_max()) {
                Some(x) => Some((x, 1)),
                None => None,
            },
        },
    }
}

pub open spec fn hunk_intro() -> Seq<char> {
    seq!['@', '@', ' ']
}

pub open spec fn hunk_close() -> Seq<char> {
    seq![' ', '@', '@']
}

/// `@@ -1,3 +1,4 @@ fn algo()` → the four numbers and the section.
pub open spec fn hunk_header(line: Seq<char>) -> Option<(int, int, int, int, Seq<char>)> {
    match strip_prefix(line, hunk_intro()) {
        None => None,
        Some(rest) => match split_once_str(rest, hunk_close()) {
            None => None,
            Some((ranges, section)) => match split_once(ranges, ' ') {
                None => None,
                Some((old, new)) => match (range_nums(old, '-'), range_nums(new, '+')) {
                    (Some((a, b)), Some((c, d))) => Some((a, b, c, d, section)),
                    _ => None,
                },
            },
        },
    }
}

/// One line read: a hunk header opens a hunk; inside a hunk a line is body; before any hunk
/// it is header.
pub open spec fn absorb(st: (Seq<Seq<char>>, Seq<HunkView>), line: Seq<char>) -> (
    Seq<Seq<char>>,
    Seq<HunkView>,
) {
    match hunk_header(line) {
        Some((a, b, c, d, section)) => (
            st.0,
            st.1.push(
                HunkView {
                    old_start: a as u32,
                    old_count: b as u32,
                    new_start: c as u32,
                    new_count: d as u32,
                    section,
                    lines: seq![],
                },
            ),
        ),
        None => if st.1.len() > 0 {
            let last = st.1.last();
            (st.0, st.1.update(st.1.len() - 1, HunkView { lines: last.lines.push(line), ..last }))
        } else {
            (st.0.push(line), st.1)
        },
    }
}

pub open spec fn read_lines(ls: Seq<Seq<char>>) -> (Seq<Seq<char>>, Seq<HunkView>)
    decreases ls.len(),
{
    if ls.len() == 0 {
        (seq![], seq![])
    } else {
        absorb(read_lines(ls.drop_last()), ls.last())
    }
}

/// What [`parse`] returns for a raw patch.
pub open spec fn parse_spec(raw: Seq<char>) -> Result<PatchView, PatchError> {
    let (header, hunks) = read_lines(lines(raw));
    if header.len() == 0 || hunks.len() == 0 {
        Err(PatchError::Malformed)
    } else {
        Ok(PatchView { header, hunks })
    }
}

fn range_nums_exec(part: &Vec<char>, sign: char) -> (r: Option<(u32, u32)>)
    ensures
        match r {
            Some((a, b)) => range_nums(part@, sign) == Some((a as int, b as int)),
            None => range_nums(part@, sign) is None,
        },
{
    let s = vec![sign];
    assert(s@ =~= seq![sign]);
    let p = match strip_prefix_exec(part, &s) {
        Some(p) => p,
        None => return None,
    };
    match split_once_exec(&p, ',') {
        Some((a, b)) => {
            let x = parse_uint(&a, 0xffff_ffff);
            let y = parse_uint(&b, 0xffff_ffff);
            match (x, y) {
                (Some(x), Some(y)) => Some((x as u32, y as u32)),
                _ => None,
            }
        },
        None => match parse_uint(&p, 0xffff_ffff) {
            Some(x) => Some((x as u32, 1)),
            None => None,
        },
    }
}

fn hunk_header_exec(line: &Vec<char>) -> (r: Option<(u32, u32, u32, u32, Vec<char>)>)
    ensures
        match r {
            Some((a, b, c, d, s)) => hunk_header(line@) == Some(
                (a as int, b as int, c as int, d as int, s@),
            ),
            None => hunk_header(line@) is None,
        },
{
    let intro = vec!['@', '@', ' '];
    let close = vec![' ', '@', '@'];
    assert(intro@ =~= hunk_intro());
    assert(close@ =~= hunk_close());
    let rest = match strip_prefix_exec(line, &intro) {
        Some(r) => r,
        None => return None,
    };
    let (ranges, section) = match split_once_str_exec(&rest, &close) {
        Some(p) => p,
        None => return None,
    };
    let (old, new) = match split_once_exec(&ranges, ' ') {
        Some(p) => p,
        None => return None,
    };
    match (range_nums_exec(&old, '-'), range_nums_exec(&new, '+')) {
        (Some((a, b)), Some((c, d))) => Some((a, b, c, d, section)),
        _ => None,
    }
}

fn strings_of(v: &Vec<Vec<char>>) -> (r: Vec<String>)
    ensures
        strs(r@) == views(v@),
{
    let mut r: Vec<String> = Vec::new();
    let mut i: usize = 0;
    while i < v.len()
        invariant
            i <= v.len(),
            strs(r@) == views(v@).take(i as int),
        decreases v.len() - i,
    {
        let ghost before = r@;
        let x = string_of(&v[i]);
        r.push(x);
        proof {
            assert(strs(r@) =~= strs(before).push(x@));
            assert(views(v@).take(i + 1) =~= views(v@).take(i as int).push(v@[i as int]@));
        }
        i += 1;
    }
    assert(views(v@).take(v.len() as int) =~= views(v@));
    r
}

/// Splits the raw patch into header and hunks.
///
/// `Err(Malformed)` when there is no line before the first hunk header, or no hunk at all.
pub fn parse(raw: &str) -> (r: Result<Patch, PatchError>)
    ensures
        match r {
            Ok(p) => parse_spec(raw@) == Ok::<PatchView, PatchError>(p@),
            Err(e) => parse_spec(raw@) == Err::<PatchView, PatchError>(e),
        },
{
    let chars = chars_of(raw);
    let ls = lines_exec(&chars);
    let ghost lsv = views(ls@);
    let mut header: Vec<Vec<char>> = Vec::new();
    // finished hunks, and the one still taking lines
    let mut done: Vec<Hunk> = Vec::new();
    let mut current: Option<(u32, u32, u32, u32, Vec<char>, Vec<Vec<char>>)> = None;
    let mut i: usize = 0;
    while i < ls.len()
        invariant
            i <= ls.len(),
            lsv == views(ls@),
            lsv == lines(raw@),
            ({
                let st = read_lines(lsv.take(i as int));
                &&& st.0 == views(header@)
                &&& match current {
                    None => st.1.len() == 0 && done@.len() == 0,
                    Some((a, b, c, d, s, body)) => st.1 == done@.map_values(|h: Hunk| h@).push(
                        HunkView {
                            old_start: a,
                            old_count: b,
                            new_start: c,
                            new_count: d,
                            section: s@,
                            lines: views(body@),
                        },
                    ),
                }
            }),
        decreases ls.len() - i,
    {
        let line = &ls[i];
        proof {
            assert(lsv.take(i + 1).drop_last() =~= lsv.take(i as int));
            assert(lsv.take(i + 1).last() == line@);
        }
        match hunk_header_exec(line) {
            Some((a, b, c, d, s)) => {
                match current {
                    Some((a0, b0, c0, d0, s0, body0)) => {
                        let h = Hunk {
                            old_start: a0,
                            old_count: b0,
                            new_start: c0,
                            new_count: d0,
                            section: string_of(&s0),
                            lines: strings_of(&body0),
                        };
                        done.push(h);
                    },
                    None => {},
                }
                current = Some((a, b, c, d, s, Vec::new()));
                proof {
                    assert(views(Seq::<Vec<char>>::empty()) =~= Seq::<Seq<char>>::empty());
                }
            },
            None => {
                match current {
                    Some((a0, b0, c0, d0, s0, body0)) => {
                        let mut body = body0;
                        let ghost old_body = body@;
                        body.push(slice_of(line, 0, line.len()));
                        proof {
                            assert(line@.subrange(0, line@.len() as int) =~= line@);
                            assert(views(body@) =~= views(old_body).push(line@));
                        }
                        current = Some((a0, b0, c0, d0, s0, body));
                    },
                    None => {
                        let ghost old_header = header@;
                        header.push(slice_of(line, 0, line.len()));
                        proof {
                            assert(line@.subrange(0, line@.len() as int) =~= line@);
                            assert(views(header@) =~= views(old_header).push(line@));
                        }
                        current = None;
                    },
                }
            },
        }
        i += 1;
    }
    proof {
        assert(lsv.take(ls.len() as int) =~= lsv);
    }
    match current {
        None => Err(PatchError::Malformed),
        Some((a0, b0, c0, d0, s0, body0)) => {
            if header.len() == 0 {
                return Err(PatchError::Malformed);
            }
            let h = Hunk {
                old_start: a0,
                old_count: b0,
                new_start: c0,
                new_count: d0,
                section: string_of(&s0),
                lines: strings_of(&body0),
            };
            done.push(h);
            let p = Patch { header: strings_of(&header), hunks: done };
            proof {
                let st = read_lines(lines(raw@));
                assert(p@.hunks =~= st.1);
            }
            Ok(p)
        },
    }
}

// ---------------------------------------------------------------------------------------------
// reducing a hunk to a selection of its change lines
// ---------------------------------------------------------------------------------------------
pub open spec fn is_addition(l: Seq<char>) -> bool {
    l.len() > 0 && l[0] == '+'
}

pub open spec fn is_deletion(l: Seq<char>) -> bool {
    l.len() > 0 && l[0] == '-'
}

/// `\ No newline at end of file`: belongs to the line before it.
pub open spec fn is_marker(l: Seq<char>) -> bool {
    l.len() > 0 && l[0] == '\\'
}

pub open spec fn is_change(l: Seq<char>) -> bool {
    is_addition(l) || is_deletion(l)
}

/// How many change lines there are.
pub open spec fn change_count(ls: Seq<Seq<char>>) -> int
    decreases ls.len(),
{
    if ls.len() == 0 {
        0
    } else {
        change_count(ls.drop_last()) + if is_change(ls.last()) {
            1int
        } else {
            0
        }
    }
}

pub open spec fn chosen(sel: Option<Seq<usize>>, index: int) -> bool {
    match sel {
        None => true,
        Some(v) => exists|k: int| 0 <= k < v.len() && v[k] == index,
    }
}

/// A reduced hunk: the body emitted and the counts of each side.
pub struct Reduced {
    pub lines: Seq<Seq<char>>,
    pub old_count: int,
    pub new_count: int,
    /// Change lines that survived. Zero is a hunk that became context only.
    pub changes: int,
}

/// The state while reading a hunk's body: what is emitted so far, the number of the next
/// change line, and whether the previous line was kept.
pub open spec fn reduce_step(st: (Reduced, int, bool), line: Seq<char>, sel: Option<Seq<usize>>) -> (
    Reduced,
    int,
    bool,
) {
    let (r, index, kept) = st;
    if is_addition(line) {
        // an addition not chosen simply vanishes: it does not exist on the old side yet
        if chosen(sel, index) {
            (
                Reduced {
                    lines: r.lines.push(line),
                    new_count: r.new_count + 1,
                    changes: r.changes + 1,
                    ..r
                },
                index + 1,
                true,
            )
        } else {
            (r, index + 1, false)
        }
    } else if is_deletion(line) {
        // a deletion not chosen becomes context: the line stays on both sides
        if chosen(sel, index) {
            (
                Reduced {
                    lines: r.lines.push(line),
                    old_count: r.old_count + 1,
                    changes: r.changes + 1,
                    ..r
                },
                index + 1,
                true,
            )
        } else {
            (
                Reduced {
                    lines: r.lines.push(seq![' '] + line.drop_first()),
                    old_count: r.old_count + 1,
                    new_count: r.new_count + 1,
                    ..r
                },
                index + 1,
                true,
            )
        }
    } else if is_marker(line) {
        if kept {
            (Reduced { lines: r.lines.push(line), ..r }, index, kept)
        } else {
            (r, index, kept)
        }
    } else {
        (
            Reduced {
                lines: r.lines.push(line),
                old_count: r.old_count + 1,
                new_count: r.new_count + 1,
                ..r
            },
            index,
            true,
        )
    }
}

pub open spec fn reduce_lines(ls: Seq<Seq<char>>, sel: Option<Seq<usize>>) -> (Reduced, int, bool)
    decreases ls.len(),
{
    if ls.len() == 0 {
        (Reduced { lines: seq![], old_count: 0, new_count: 0, changes: 0 }, 0, true)
    } else {
        reduce_step(reduce_lines(ls.drop_last(), sel), ls.last(), sel)
    }
}

/// A selection of lines names a change line that the hunk does not have.
pub open spec fn out_of_range(ls: Seq<Seq<char>>, sel: Option<Seq<usize>>) -> bool {
    match sel {
        None => false,
        Some(v) => exists|k: int| 0 <= k < v.len() && v[k] >= change_count(ls),
    }
}

/// The hunk reduced to the selection, or `OutOfRange`.
pub open spec fn reduce(ls: Seq<Seq<char>>, sel: Option<Seq<usize>>) -> Result<Reduced, PatchError> {
    if out_of_range(ls, sel) {
        Err(PatchError::OutOfRange)
    } else {
        Ok(reduce_lines(ls, sel).0)
    }
}

proof fn lemma_reduce_bounds(ls: Seq<Seq<char>>, sel: Option<Seq<usize>>)
    ensures
        ({
            let (r, index, kept) = reduce_lines(ls, sel);
            &&& 0 <= r.old_count <= ls.len()
            &&& 0 <= r.new_count <= ls.len()
            &&& 0 <= r.changes <= ls.len()
            &&& r.lines.len() <= ls.len()
            &&& index == change_count(ls)
            &&& 0 <= index <= ls.len()
        }),
    decreases ls.len(),
{
    if ls.len() > 0 {
        lemma_reduce_bounds(ls.drop_last(), sel);
    }
}

fn contains_index(v: &Vec<usize>, x: usize) -> (b: bool)
    ensures
        b == exists|k: int| 0 <= k < v@.len() && v@[k] == x,
        b ==> exists|k: int| 0 <= k < v@.len() && v@[k] as int == x as int,
        !b ==> forall|k: int| 0 <= k < v@.len() ==> v@[k] as int != x as int,
{
    let mut i: usize = 0;
    while i < v.len()
        invariant
            i <= v.len(),
            forall|k: int| 0 <= k < i ==> v@[k] != x,
        decreases v.len() - i,
    {
        if v[i] == x {
            assert(v@[i as int] as int == x as int);
            return true;
        }
        i += 1;
    }
    false
}

fn chosen_exec(sel: &Option<Vec<usize>>, index: usize) -> (b: bool)
    ensures
        b == chosen(sel_view(*sel), index as int),
{
    match sel {
        None => {
            assert(sel_view(*sel) is None);
            true
        },
        Some(v) => {
            assert(sel_view(*sel) == Some(v@));
            let b = contains_index(v, index);
            proof {
                let vv = sel_view(*sel)->0;
                assert(vv == v@);
                if b {
                    let k = choose|k: int| 0 <= k < v@.len() && v@[k] as int == index as int;
                    assert(vv[k] == index as int);
                } else {
                    assert forall|k: int| 0 <= k < vv.len() implies vv[k] != index as int by {
                        assert(v@[k] as int != index as int);
                    }
                }
            }
            b
        },
    }
}

pub open spec fn sel_view(sel: Option<Vec<usize>>) -> Option<Seq<usize>> {
    match sel {
        Some(v) => Some(v@),
        None => None,
    }
}

fn count_changes(lines: &Vec<String>) -> (n: usize)
    ensures
        n == change_count(strs(lines@)),
{
    let ghost ls = strs(lines@);
    let mut n: usize = 0;
    let mut i: usize = 0;
    while i < lines.len()
        invariant
            i <= lines.len(),
            ls == strs(lines@),
            n == change_count(ls.take(i as int)),
            n <= i,
        decreases lines.len() - i,
    {
        let l = chars_of(lines[i].as_str());
        proof {
            assert(ls.take(i + 1).drop_last() =~= ls.take(i as int));
            assert(ls.take(i + 1).last() == l@);
        }
        if l.len() > 0 && (l[0] == '+' || l[0] == '-') {
            n += 1;
        }
        i += 1;
    }
    assert(ls.take(lines.len() as int) =~= ls);
    n
}

/// Does the selection name a change line the hunk lacks?
fn out_of_range_exec(lines: &Vec<String>, sel: &Option<Vec<usize>>) -> (b: bool)
    ensures
        b == out_of_range(strs(lines@), sel_view(*sel)),
{
    match sel {
        None => false,
        Some(v) => {
            assert(sel_view(*sel) == Some(v@));
            let total = count_changes(lines);
            let mut i: usize = 0;
            while i < v.len()
                invariant
                    i <= v.len(),
                    sel_view(*sel) == Some(v@),
                    total == change_count(strs(lines@)),
                    forall|k: int| 0 <= k < i ==> v@[k] < total,
                decreases v.len() - i,
            {
                if v[i] >= total {
                    proof {
                        let ghost vv = sel_view(*sel)->0;
                        assert(vv == v@);
                        assert(vv[i as int] >= change_count(strs(lines@)));
                    }
                    return true;
                }
                i += 1;
            }
            false
        },
    }
}

/// The body of one reduced hunk, as `(lines, old_count, new_count, changes)`.
fn reduce_exec(lines: &Vec<String>, sel: &Option<Vec<usize>>) -> (r: (Vec<Vec<char>>, u32, u32, usize))
    requires
        lines.len() < 0xffff_ffff,
    ensures
        ({
            let red = reduce_lines(strs(lines@), sel_view(*sel)).0;
            &&& views(r.0@) == red.lines
            &&& r.1 as int == red.old_count
            &&& r.2 as int == red.new_count
            &&& r.3 as int == red.changes
        }),
{
    let ghost ls = strs(lines@);
    let ghost sv = sel_view(*sel);
    let mut out: Vec<Vec<char>> = Vec::new();
    let mut old_count: u32 = 0;
    let mut new_count: u32 = 0;
    let mut changes: usize = 0;
    let mut index: usize = 0;
    let mut kept = true;
    let mut i: usize = 0;
    while i < lines.len()
        invariant
            i <= lines.len() < 0xffff_ffff,
            ls == strs(lines@),
            sv == sel_view(*sel),
            ({
                let (red, ix, kp) = reduce_lines(ls.take(i as int), sv);
                &&& views(out@) == red.lines
                &&& old_count as int == red.old_count
                &&& new_count as int == red.new_count
                &&& changes as int == red.changes
                &&& index as int == ix
                &&& kept == kp
            }),
        decreases lines.len() - i,
    {
        let l = chars_of(lines[i].as_str());
        proof {
            assert(ls.take(i + 1).drop_last() =~= ls.take(i as int));
            assert(ls.take(i + 1).last() == l@);
            lemma_reduce_bounds(ls.take(i as int), sv);
        }
        let ghost old_out = out@;
        if l.len() > 0 && l[0] == '+' {
            let keep = chosen_exec(sel, index);
            index += 1;
            if keep {
                out.push(l);
                new_count += 1;
                changes += 1;
            }
            kept = keep;
        } else if l.len() > 0 && l[0] == '-' {
            let keep = chosen_exec(sel, index);
            index += 1;
            if keep {
                out.push(l);
                old_count += 1;
                changes += 1;
            } else {
                let mut ctx = vec![' '];
                let rest = slice_of(&l, 1, l.len());
                append(&mut ctx, &rest);
                proof {
                    assert(ctx@ =~= seq![' '] + l@.drop_first());
                }
                out.push(ctx);
                old_count += 1;
                new_count += 1;
            }
            kept = true;
        } else if l.len() > 0 && l[0] == '\\' {
            if kept {
                out.push(l);
            }
        } else {
            out.push(l);
            old_count += 1;
            new_count += 1;
            kept = true;
        }
        proof {
            assert(views(out@) =~= reduce_lines(ls.take(i + 1), sv).0.lines);
        }
        i += 1;
    }
    assert(ls.take(lines.len() as int) =~= ls);
    (out, old_count, new_count, changes)
}

// ---------------------------------------------------------------------------------------------
// the selection, in hunk order
// ---------------------------------------------------------------------------------------------
/// The positions `j < upto` of the selection that name hunk `h`, in order.
pub open spec fn positions(sel: Seq<SelectionView>, h: int, upto: int) -> Seq<int>
    decreases upto,
{
    if upto <= 0 {
        seq![]
    } else {
        positions(sel, h, upto - 1) + if sel[upto - 1].hunk == h {
            seq![upto - 1]
        } else {
            seq![]
        }
    }
}

/// The selection sorted by hunk, as a stable sort of the order given: all positions that
/// name hunk 0, then those that name hunk 1, and so on up to hunk `n - 1`.
pub open spec fn order(sel: Seq<SelectionView>, n: int) -> Seq<int>
    decreases n,
{
    if n <= 0 {
        seq![]
    } else {
        order(sel, n - 1) + positions(sel, n - 1, sel.len() as int)
    }
}

proof fn lemma_positions_bounds(sel: Seq<SelectionView>, h: int, upto: int)
    requires
        upto <= sel.len(),
    ensures
        forall|k: int|
            0 <= k < positions(sel, h, upto).len() ==> 0 <= #[trigger] positions(sel, h, upto)[k]
                < upto && sel[positions(sel, h, upto)[k]].hunk == h,
    decreases upto,
{
    if upto > 0 {
        lemma_positions_bounds(sel, h, upto - 1);
    }
}

proof fn lemma_order_bounds(sel: Seq<SelectionView>, n: int)
    ensures
        forall|k: int|
            0 <= k < order(sel, n).len() ==> 0 <= #[trigger] order(sel, n)[k] < sel.len() && sel[order(
                sel,
                n,
            )[k]].hunk < n,
    decreases n,
{
    if n > 0 {
        lemma_order_bounds(sel, n - 1);
        lemma_positions_bounds(sel, n - 1, sel.len() as int);
        let a = order(sel, n - 1);
        let b = positions(sel, n - 1, sel.len() as int);
        assert forall|k: int| 0 <= k < order(sel, n).len() implies 0 <= #[trigger] order(sel, n)[k]
            < sel.len() && sel[order(sel, n)[k]].hunk < n by {
            if k < a.len() {
                assert(order(sel, n)[k] == a[k]);
            } else {
                assert(order(sel, n)[k] == b[k - a.len()]);
            }
        }
    }
}

pub open spec fn count_below(sel: Seq<SelectionView>, n: int, upto: int) -> int
    decreases upto,
{
    if upto <= 0 {
        0
    } else {
        count_below(sel, n, upto - 1) + if (sel[upto - 1].hunk as int) < n {
            1int
        } else {
            0
        }
    }
}

proof fn lemma_count_below_step(sel: Seq<SelectionView>, n: int, upto: int)
    requires
        n >= 0,
    ensures
        count_below(sel, n + 1, upto) == count_below(sel, n, upto) + positions(sel, n, upto).len(),
    decreases upto,
{
    if upto > 0 {
        lemma_count_below_step(sel, n, upto - 1);
    }
}

proof fn lemma_count_below_le(sel: Seq<SelectionView>, n: int, upto: int)
    requires
        upto >= 0,
    ensures
        0 <= count_below(sel, n, upto) <= upto,
    decreases upto,
{
    if upto > 0 {
        lemma_count_below_le(sel, n, upto - 1);
    }
}

proof fn lemma_order_len(sel: Seq<SelectionView>, n: int)
    requires
        n >= 0,
    ensures
        order(sel, n).len() == count_below(sel, n, sel.len() as int),
        order(sel, n).len() <= sel.len(),
    decreases n,
{
    if n > 0 {
        lemma_order_len(sel, n - 1);
        lemma_count_below_step(sel, n - 1, sel.len() as int);
    } else {
        lemma_count_below_zero(sel, sel.len() as int);
    }
    lemma_count_below_le(sel, n, sel.len() as int);
}

proof fn lemma_count_below_zero(sel: Seq<SelectionView>, upto: int)
    ensures
        count_below(sel, 0, upto) == 0,
    decreases upto,
{
    if upto > 0 {
        lemma_count_below_zero(sel, upto - 1);
    }
}

proof fn lemma_any_change_step(hunks: Seq<HunkView>, sv: Seq<SelectionView>, ordv: Seq<int>, i: int)
    requires
        0 <= i < ordv.len(),
    ensures
        any_change(hunks, sv, ordv.take(i + 1)) == (any_change(hunks, sv, ordv.take(i))
            || kept_changes(hunks, sv, ordv[i]) > 0),
{
    let a = ordv.take(i);
    let b = ordv.take(i + 1);
    if any_change(hunks, sv, a) {
        let k = choose|k: int| 0 <= k < a.len() && #[trigger] kept_changes(hunks, sv, a[k]) > 0;
        assert(b[k] == a[k]);
    }
    if kept_changes(hunks, sv, ordv[i]) > 0 {
        assert(b[i] == ordv[i]);
    }
    if any_change(hunks, sv, b) {
        let k = choose|k: int| 0 <= k < b.len() && #[trigger] kept_changes(hunks, sv, b[k]) > 0;
        if k < i {
            assert(b[k] == a[k]);
        }
    }
}

proof fn lemma_emit_step(
    hunks: Seq<HunkView>,
    sv: Seq<SelectionView>,
    ordv: Seq<int>,
    i: int,
    offset: int,
)
    requires
        0 <= i < ordv.len(),
    ensures
        ({
            let item = sv[ordv[i]];
            let h = hunks[item.hunk as int];
            let r = reduce_lines(h.lines, item.lines).0;
            emit(hunks, sv, ordv.skip(i), offset) == if r.changes == 0 {
                emit(hunks, sv, ordv.skip(i + 1), offset)
            } else {
                hunk_line(h, r, offset) + lines_text(r.lines) + emit(
                    hunks,
                    sv,
                    ordv.skip(i + 1),
                    offset + r.new_count - r.old_count,
                )
            }
        }),
{
    assert(ordv.skip(i).drop_first() =~= ordv.skip(i + 1));
    assert(ordv.skip(i)[0] == ordv[i]);
}

// ---------------------------------------------------------------------------------------------
// rendering
// ---------------------------------------------------------------------------------------------
/// `-1,3` or `-1`: git omits the count when it is 1.
pub open spec fn range_text(start: int, count: int) -> Seq<char> {
    if count == 1 {
        dec(start as nat)
    } else {
        dec(start as nat) + seq![','] + dec(count as nat)
    }
}

/// Each line followed by `\n`.
pub open spec fn lines_text(ls: Seq<Seq<char>>) -> Seq<char>
    decreases ls.len(),
{
    if ls.len() == 0 {
        seq![]
    } else {
        lines_text(ls.drop_last()) + ls.last() + seq!['\n']
    }
}

/// The new side's first line: the old start moved by what the
/// hunks kept before it added or removed, never below 0.
pub open spec fn shifted(start: u32, offset: int) -> u32 {
    let v = start + offset;
    if v < 0 {
        0
    } else {
        v as u32
    }
}

/// The header line of an emitted hunk.
pub open spec fn hunk_line(h: HunkView, r: Reduced, offset: int) -> Seq<char> {
    seq!['@', '@', ' ', '-'] + range_text(h.old_start as int, r.old_count) + seq![' ', '+']
        + range_text(shifted(h.old_start, offset) as int, r.new_count) + seq![' ', '@', '@']
        + h.section + seq!['\n']
}

/// The text of the chosen hunks, in order, from a running offset. Hunks that kept no change
/// are not emitted.
pub open spec fn emit(hunks: Seq<HunkView>, sel: Seq<SelectionView>, ord: Seq<int>, offset: int) -> Seq<
    char,
>
    decreases ord.len(),
{
    if ord.len() == 0 {
        seq![]
    } else {
        let item = sel[ord[0]];
        let h = hunks[item.hunk as int];
        let r = reduce_lines(h.lines, item.lines).0;
        if r.changes == 0 {
            emit(hunks, sel, ord.drop_first(), offset)
        } else {
            hunk_line(h, r, offset) + lines_text(r.lines) + emit(
                hunks,
                sel,
                ord.drop_first(),
                offset + r.new_count - r.old_count,
            )
        }
    }
}

/// How many change lines the item at `pos` keeps.
pub open spec fn kept_changes(hunks: Seq<HunkView>, sel: Seq<SelectionView>, pos: int) -> int {
    reduce_lines(hunks[sel[pos].hunk as int].lines, sel[pos].lines).0.changes
}

/// Does any of the chosen hunks keep a change?
pub open spec fn any_change(hunks: Seq<HunkView>, sel: Seq<SelectionView>, ord: Seq<int>) -> bool {
    exists|k: int| 0 <= k < ord.len() && #[trigger] kept_changes(hunks, sel, ord[k]) > 0
}

/// The item names a line its hunk does not have.
pub open spec fn bad_lines(hunks: Seq<HunkView>, item: SelectionView) -> bool {
    out_of_range(hunks[item.hunk as int].lines, item.lines)
}

/// What [`Patch::select`] returns.
pub open spec fn select_spec(p: PatchView, sel: Seq<SelectionView>) -> Result<Seq<char>, PatchError> {
    let n = p.hunks.len() as int;
    if sel.len() == 0 {
        Err(PatchError::EmptySelection)
    } else if exists|k: int| 0 <= k < sel.len() && #[trigger] sel[k].hunk >= n {
        Err(PatchError::OutOfRange)
    } else if exists|k: int| 0 <= k < sel.len() && #[trigger] bad_lines(p.hunks, sel[k]) {
        Err(PatchError::OutOfRange)
    } else if !any_change(p.hunks, sel, order(sel, n)) {
        Err(PatchError::EmptySelection)
    } else {
        Ok(lines_text(p.header) + emit(p.hunks, sel, order(sel, n), 0))
    }
}

impl Patch {
    /// Hunks and selection small enough for the counts to fit their integer types.
    pub open spec fn fits(&self) -> bool {
        forall|i: int| 0 <= i < self.hunks@.len() ==> #[trigger] self.hunks@[i].lines@.len() < 0xffff_ffff
    }
}

fn push_range(out: &mut Vec<char>, start: u32, count: u32)
    ensures
        final(out)@ == old(out)@ + range_text(start as int, count as int),
{
    let a = dec_exec(start as u64);
    append(out, &a);
    if count != 1 {
        out.push(',');
        let b = dec_exec(count as u64);
        append(out, &b);
    }
    assert(final(out)@ =~= old(out)@ + range_text(start as int, count as int));
}

fn push_lines(out: &mut Vec<char>, ls: &Vec<Vec<char>>)
    ensures
        final(out)@ == old(out)@ + lines_text(views(ls@)),
{
    let mut i: usize = 0;
    while i < ls.len()
        invariant
            i <= ls.len(),
            out@ == old(out)@ + lines_text(views(ls@).take(i as int)),
        decreases ls.len() - i,
    {
        proof {
            assert(views(ls@).take(i + 1).drop_last() =~= views(ls@).take(i as int));
        }
        append(out, &ls[i]);
        out.push('\n');
        i += 1;
        assert(out@ =~= old(out)@ + lines_text(views(ls@).take(i as int)));
    }
    assert(views(ls@).take(ls.len() as int) =~= views(ls@));
}

fn push_strings(out: &mut Vec<char>, ls: &Vec<String>)
    ensures
        final(out)@ == old(out)@ + lines_text(strs(ls@)),
{
    let mut i: usize = 0;
    while i < ls.len()
        invariant
            i <= ls.len(),
            out@ == old(out)@ + lines_text(strs(ls@).take(i as int)),
        decreases ls.len() - i,
    {
        proof {
            assert(strs(ls@).take(i + 1).drop_last() =~= strs(ls@).take(i as int));
        }
        let l = chars_of(ls[i].as_str());
        append(out, &l);
        out.push('\n');
        i += 1;
        assert(out@ =~= old(out)@ + lines_text(strs(ls@).take(i as int)));
    }
    assert(strs(ls@).take(ls.len() as int) =~= strs(ls@));
}

impl HunkSelection {
    /// The whole hunk.
    pub fn whole(hunk: usize) -> (s: Self)
        ensures
            s@ == (SelectionView { hunk, lines: None }),
    {
        Self { hunk, lines: None }
    }
}

impl Patch {
    /// The selection sorted by hunk (stably), as positions into the selection.
    fn sorted_positions(&self, selection: &[HunkSelection]) -> (r: Vec<usize>)
        ensures
            r@.map_values(|x: usize| x as int) == order(sels(selection@), self.hunks@.len() as int),
    {
        let ghost sv = sels(selection@);
        let mut r: Vec<usize> = Vec::new();
        let mut h: usize = 0;
        while h < self.hunks.len()
            invariant
                h <= self.hunks.len(),
                sv == sels(selection@),
                r@.map_values(|x: usize| x as int) == order(sv, h as int),
            decreases self.hunks.len() - h,
        {
            let mut j: usize = 0;
            while j < selection.len()
                invariant
                    h < self.hunks.len(),
                    j <= selection.len(),
                    sv == sels(selection@),
                    r@.map_values(|x: usize| x as int) == order(sv, h as int) + positions(
                        sv,
                        h as int,
                        j as int,
                    ),
                decreases selection.len() - j,
            {
                let ghost before = r@;
                proof {
                    assert(sv[j as int].hunk == selection@[j as int].hunk);
                }
                if selection[j].hunk == h {
                    r.push(j);
                    proof {
                        assert(r@.map_values(|x: usize| x as int) =~= before.map_values(
                            |x: usize| x as int,
                        ).push(j as int));
                    }
                }
                proof {
                    assert(r@.map_values(|x: usize| x as int) =~= order(sv, h as int) + positions(
                        sv,
                        h as int,
                        j + 1,
                    ));
                }
                j += 1;
            }
            h += 1;
        }
        r
    }

    /// The patch reduced to what was chosen, ready for `git apply`.
    ///
    /// Hunks come out in hunk order whatever the order of the selection (items that name the
    /// same hunk keep their order). The new side's first line of each emitted hunk is
    /// recomputed from the offset accumulated only by the hunks that were kept.
    #[verifier::rlimit(100)]
    pub fn select(&self, selection: &[HunkSelection]) -> (r: Result<String, PatchError>)
        requires
            self.fits(),
        ensures
            match r {
                Ok(s) => select_spec(self@, sels(selection@)) == Ok::<Seq<char>, PatchError>(s@),
                Err(e) => select_spec(self@, sels(selection@)) == Err::<Seq<char>, PatchError>(e),
            },
    {
        let ghost sv = sels(selection@);
        let ghost pv = self@;
        let n = self.hunks.len();
        if selection.len() == 0 {
            return Err(PatchError::EmptySelection);
        }
        // every hunk named exists
        let mut k: usize = 0;
        while k < selection.len()
            invariant
                k <= selection.len(),
                sv == sels(selection@),
                n == self.hunks@.len(),
                forall|m: int| 0 <= m < k ==> #[trigger] sv[m].hunk < n,
            decreases selection.len() - k,
        {
            if selection[k].hunk >= n {
                proof {
                    assert(sv[k as int].hunk >= n);
                }
                return Err(PatchError::OutOfRange);
            }
            k += 1;
        }
        // every line named exists
        let mut k: usize = 0;
        while k < selection.len()
            invariant
                k <= selection.len(),
                sv == sels(selection@),
                pv == self@,
                n == self.hunks@.len(),
                forall|m: int| 0 <= m < selection.len() ==> #[trigger] sv[m].hunk < n,
                forall|m: int| 0 <= m < k ==> !#[trigger] bad_lines(pv.hunks, sv[m]),
            decreases selection.len() - k,
        {
            let item = &selection[k];
            proof {
                assert(sv[k as int] == item@);
                assert(sv[k as int].hunk < n);
                assert(item.hunk < n);
                assert(pv.hunks[item.hunk as int] == self.hunks@[item.hunk as int]@);
                assert(sel_view(item.lines) == item@.lines);
            }
            if out_of_range_exec(&self.hunks[item.hunk].lines, &item.lines) {
                proof {
                    assert(bad_lines(pv.hunks, sv[k as int]));
                }
                return Err(PatchError::OutOfRange);
            }
            proof {
                assert(!bad_lines(pv.hunks, sv[k as int]));
            }
            k += 1;
        }
        let ord = self.sorted_positions(selection);
        let ghost ordv = ord@.map_values(|x: usize| x as int);
        proof {
            lemma_order_bounds(sv, n as int);
            lemma_order_len(sv, n as int);
        }
        let mut out: Vec<char> = Vec::new();
        push_strings(&mut out, &self.header);
        let mut offset: i128 = 0;
        let mut emitted = false;
        let mut i: usize = 0;
        while i < ord.len()
            invariant
                i <= ord.len(),
                sv == sels(selection@),
                pv == self@,
                self.fits(),
                n == self.hunks@.len(),
                ordv == ord@.map_values(|x: usize| x as int),
                forall|m: int|
                    0 <= m < ordv.len() ==> 0 <= #[trigger] ordv[m] < sv.len() && sv[ordv[m]].hunk < n,
                -(i as int) * 0xffff_ffff <= offset <= (i as int) * 0xffff_ffff,
                out@ + emit(pv.hunks, sv, ordv.skip(i as int), offset as int) == lines_text(pv.header)
                    + emit(pv.hunks, sv, ordv, 0),
                emitted == any_change(pv.hunks, sv, ordv.take(i as int)),
            decreases ord.len() - i,
        {
            let pos = ord[i];
            let item = &selection[pos];
            proof {
                assert(ordv[i as int] == pos as int);
                assert(sv[pos as int] == item@);
                assert(sv[ordv[i as int]].hunk < n);
                assert(item.hunk < n);
            }
            let hunk = &self.hunks[item.hunk];
            let ghost red = reduce_lines(hunk@.lines, item@.lines).0;
            proof {
                assert(pv.hunks[item.hunk as int] == hunk@);
                assert(hunk.lines@.len() < 0xffff_ffff);
                assert(sel_view(item.lines) == item@.lines);
                lemma_reduce_bounds(hunk@.lines, item@.lines);
                lemma_emit_step(pv.hunks, sv, ordv, i as int, offset as int);
            }
            let (body, old_count, new_count, changes) = reduce_exec(&hunk.lines, &item.lines);
            if changes > 0 {
                let v: i128 = hunk.old_start as i128 + offset;
                let new_start: u32 = if v < 0 {
                    0
                } else {
                    v as u32
                };
                let ghost before = out@;
                out.push('@');
                out.push('@');
                out.push(' ');
                out.push('-');
                push_range(&mut out, hunk.old_start, old_count);
                out.push(' ');
                out.push('+');
                push_range(&mut out, new_start, new_count);
                out.push(' ');
                out.push('@');
                out.push('@');
                let section = chars_of(hunk.section.as_str());
                append(&mut out, &section);
                out.push('\n');
                proof {
                    assert(new_start == shifted(hunk.old_start, offset as int));
                    assert(out@ =~= before + hunk_line(hunk@, red, offset as int));
                }
                let ghost before2 = out@;
                push_lines(&mut out, &body);
                proof {
                    assert(out@ =~= before + (hunk_line(hunk@, red, offset as int) + lines_text(red.lines)));
                }
                offset = offset + new_count as i128 - old_count as i128;
                emitted = true;
            }
            proof {
                lemma_any_change_step(pv.hunks, sv, ordv, i as int);
            }
            i += 1;
        }
        proof {
            assert(ordv.take(ord.len() as int) =~= ordv);
            assert(ordv.skip(ord.len() as int).len() == 0);
            assert(out@ =~= lines_text(pv.header) + emit(pv.hunks, sv, ordv, 0));
        }
        if !emitted {
            return Err(PatchError::EmptySelection);
        }
        Ok(string_of(&out))
    }

    /// Shorthand for "these whole hunks".
    pub fn select_hunks(&self, hunks: &[usize]) -> (r: Result<String, PatchError>)
        requires
            self.fits(),
        ensures
            match r {
                Ok(s) => select_spec(
                    self@,
                    hunks@.map_values(|h: usize| SelectionView { hunk: h, lines: None }),
                ) == Ok::<Seq<char>, PatchError>(s@),
                Err(e) => select_spec(
                    self@,
                    hunks@.map_values(|h: usize| SelectionView { hunk: h, lines: None }),
                ) == Err::<Seq<char>, PatchError>(e),
            },
    {
        let mut selection: Vec<HunkSelection> = Vec::new();
        let mut i: usize = 0;
        while i < hunks.len()
            invariant
                i <= hunks.len(),
                sels(selection@) == hunks@.take(i as int).map_values(
                    |h: usize| SelectionView { hunk: h, lines: None },
                ),
            decreases hunks.len() - i,
        {
            let ghost before = selection@;
            let x = HunkSelection::whole(hunks[i]);
            selection.push(x);
            proof {
                assert(sels(selection@) =~= sels(before).push(x@));
                assert(hunks@.take(i + 1).map_values(|h: usize| SelectionView { hunk: h, lines: None })
                    =~= hunks@.take(i as int).map_values(
                    |h: usize| SelectionView { hunk: h, lines: None },
                ).push(SelectionView { hunk: hunks@[i as int], lines: None }));
            }
            i += 1;
        }
        assert(hunks@.take(hunks.len() as int) =~= hunks@);
        self.select(selection.as_slice())
    }
}


// ---------------------------------------------------------------------------------------------
// laws
// ---------------------------------------------------------------------------------------------
/// A whole hunk passes through untouched: every body line is kept as it is, and every change
/// line counts as kept.
pub proof fn law_whole_hunk_is_kept_verbatim(ls: Seq<Seq<char>>)
    ensures
        reduce_lines(ls, None).0.lines == ls,
        reduce_lines(ls, None).0.changes == change_count(ls),
        reduce_lines(ls, None).2,
    decreases ls.len(),
{
    if ls.len() > 0 {
        law_whole_hunk_is_kept_verbatim(ls.drop_last());
        assert(reduce_lines(ls, None).0.lines =~= ls);
    }
}

/// Whatever is chosen, the old side of a hunk keeps all its lines: an unchosen deletion turns
/// into context and an unchosen addition never was on that side.
pub proof fn law_old_side_never_changes(ls: Seq<Seq<char>>, sel: Option<Seq<usize>>)
    ensures
        reduce_lines(ls, sel).0.old_count == reduce_lines(ls, None).0.old_count,
    decreases ls.len(),
{
    if ls.len() > 0 {
        law_old_side_never_changes(ls.drop_last(), sel);
    }
}

/// Choosing no line of a hunk leaves no change in it: such a hunk is never emitted.
pub proof fn law_nothing_chosen_changes_nothing(ls: Seq<Seq<char>>)
    ensures
        reduce_lines(ls, Some(Seq::<usize>::empty())).0.changes == 0,
    decreases ls.len(),
{
    if ls.len() > 0 {
        law_nothing_chosen_changes_nothing(ls.drop_last());
    }
}

/// The new side of a reduced hunk is the old side plus the additions kept, minus the deletions
/// kept.
pub proof fn law_new_side_counts_kept_changes(ls: Seq<Seq<char>>, sel: Option<Seq<usize>>)
    ensures
        reduce_lines(ls, sel).0.new_count == reduce_lines(ls, sel).0.old_count + kept_of(ls, sel, true)
            - kept_of(ls, sel, false),
    decreases ls.len(),
{
    if ls.len() > 0 {
        law_new_side_counts_kept_changes(ls.drop_last(), sel);
        lemma_reduce_bounds(ls.drop_last(), sel);
    }
}

/// How many additions (`true`) or deletions (`false`) of the hunk the selection keeps.
pub open spec fn kept_of(ls: Seq<Seq<char>>, sel: Option<Seq<usize>>, additions: bool) -> int
    decreases ls.len(),
{
    if ls.len() == 0 {
        0
    } else {
        let l = ls.last();
        let index = change_count(ls.drop_last());
        kept_of(ls.drop_last(), sel, additions) + if (if additions {
            is_addition(l)
        } else {
            is_deletion(l)
        }) && chosen(sel, index) {
            1int
        } else {
            0
        }
    }
}

/// Each hunk is named by at most one item.
pub open spec fn distinct_hunks(sel: Seq<SelectionView>) -> bool {
    forall|i: int, j: int| 0 <= i < j < sel.len() ==> #[trigger] sel[i].hunk != #[trigger] sel[j].hunk
}

/// The items at some positions of a selection.
pub open spec fn items_at(sel: Seq<SelectionView>, ord: Seq<int>) -> Seq<SelectionView> {
    ord.map_values(|k: int| sel[k])
}

proof fn lemma_positions_distinct(sel: Seq<SelectionView>, h: int, upto: int)
    requires
        distinct_hunks(sel),
        0 <= upto <= sel.len(),
    ensures
        positions(sel, h, upto).len() <= 1,
        positions(sel, h, upto).len() == 1 <==> exists|k: int| 0 <= k < upto && #[trigger] sel[k].hunk == h,
        positions(sel, h, upto).len() == 1 ==> 0 <= positions(sel, h, upto)[0] < upto
            && sel[positions(sel, h, upto)[0]].hunk == h,
    decreases upto,
{
    if upto > 0 {
        lemma_positions_distinct(sel, h, upto - 1);
        if sel[upto - 1].hunk == h {
            if exists|k: int| 0 <= k < upto - 1 && #[trigger] sel[k].hunk == h {
                let k = choose|k: int| 0 <= k < upto - 1 && #[trigger] sel[k].hunk == h;
                assert(sel[k].hunk != sel[upto - 1].hunk);
            }
        }
    }
}

/// Two selections with the same items, each naming a hunk at most once, take the same item for
/// each hunk.
proof fn lemma_positions_same_items(a: Seq<SelectionView>, b: Seq<SelectionView>, h: int)
    requires
        distinct_hunks(a),
        distinct_hunks(b),
        forall|x: SelectionView| a.contains(x) <==> b.contains(x),
    ensures
        items_at(a, positions(a, h, a.len() as int)) == items_at(b, positions(b, h, b.len() as int)),
{
    lemma_positions_distinct(a, h, a.len() as int);
    lemma_positions_distinct(b, h, b.len() as int);
    let pa = positions(a, h, a.len() as int);
    let pb = positions(b, h, b.len() as int);
    if pa.len() == 1 {
        let x = a[pa[0]];
        assert(a.contains(x));
        assert(b.contains(x));
        let j = choose|j: int| 0 <= j < b.len() && b[j] == x;
        assert(b[j].hunk == h);
        assert(pb.len() == 1);
        if pb[0] != j {
            assert(b[pb[0]].hunk == b[j].hunk);
        }
        assert(items_at(a, pa) =~= items_at(b, pb));
    } else {
        assert(pa.len() == 0);
        if pb.len() == 1 {
            let y = b[pb[0]];
            assert(b.contains(y));
            assert(a.contains(y));
            let j = choose|j: int| 0 <= j < a.len() && a[j] == y;
            assert(a[j].hunk == h);
        }
        assert(items_at(a, pa) =~= items_at(b, pb));
    }
}

proof fn lemma_order_same_items(a: Seq<SelectionView>, b: Seq<SelectionView>, n: int)
    requires
        distinct_hunks(a),
        distinct_hunks(b),
        forall|x: SelectionView| a.contains(x) <==> b.contains(x),
    ensures
        items_at(a, order(a, n)) == items_at(b, order(b, n)),
    decreases n,
{
    if n > 0 {
        lemma_order_same_items(a, b, n - 1);
        lemma_positions_same_items(a, b, n - 1);
        let oa = order(a, n - 1);
        let pa = positions(a, n - 1, a.len() as int);
        let ob = order(b, n - 1);
        let pb = positions(b, n - 1, b.len() as int);
        assert(items_at(a, oa + pa) =~= items_at(a, oa) + items_at(a, pa));
        assert(items_at(b, ob + pb) =~= items_at(b, ob) + items_at(b, pb));
    }
}

/// What is emitted depends only on the items at the positions, in their order.
proof fn lemma_emit_same_items(
    hunks: Seq<HunkView>,
    a: Seq<SelectionView>,
    oa: Seq<int>,
    b: Seq<SelectionView>,
    ob: Seq<int>,
    offset: int,
)
    requires
        items_at(a, oa) == items_at(b, ob),
    ensures
        emit(hunks, a, oa, offset) == emit(hunks, b, ob, offset),
        any_change(hunks, a, oa) == any_change(hunks, b, ob),
    decreases oa.len(),
{
    assert(oa.len() == items_at(a, oa).len());
    assert(ob.len() == items_at(b, ob).len());
    assert forall|k: int| 0 <= k < oa.len() implies #[trigger] a[oa[k]] == b[ob[k]] by {
        assert(items_at(a, oa)[k] == a[oa[k]]);
        assert(items_at(b, ob)[k] == b[ob[k]]);
        assert(items_at(a, oa)[k] == items_at(b, ob)[k]);
    }
    if oa.len() > 0 {
        assert(items_at(a, oa.drop_first()) =~= items_at(b, ob.drop_first())) by {
            assert forall|k: int| 0 <= k < oa.len() - 1 implies #[trigger] items_at(a, oa.drop_first())[k]
                == items_at(b, ob.drop_first())[k] by {
                assert(a[oa[k + 1]] == b[ob[k + 1]]);
                assert(items_at(a, oa.drop_first())[k] == a[oa[k + 1]]);
                assert(items_at(b, ob.drop_first())[k] == b[ob[k + 1]]);
            }
        }
        let item = a[oa[0]];
        let r = reduce_lines(hunks[item.hunk as int].lines, item.lines).0;
        lemma_emit_same_items(hunks, a, oa.drop_first(), b, ob.drop_first(), offset);
        lemma_emit_same_items(hunks, a, oa.drop_first(), b, ob.drop_first(), offset + r.new_count - r.old_count);
    }
    if any_change(hunks, a, oa) {
        let k = choose|k: int| 0 <= k < oa.len() && #[trigger] kept_changes(hunks, a, oa[k]) > 0;
        assert(a[oa[k]] == b[ob[k]]);
        assert(kept_changes(hunks, b, ob[k]) > 0);
    }
    if any_change(hunks, b, ob) {
        let k = choose|k: int| 0 <= k < ob.len() && #[trigger] kept_changes(hunks, b, ob[k]) > 0;
        assert(a[oa[k]] == b[ob[k]]);
        assert(kept_changes(hunks, a, oa[k]) > 0);
    }
}

/// The order of a selection does not change the patch: two selections with the same items,
/// each naming a hunk at most once, cut the same patch or fail the same way.
pub proof fn law_selection_order_does_not_matter(p: PatchView, a: Seq<SelectionView>, b: Seq<SelectionView>)
    requires
        distinct_hunks(a),
        distinct_hunks(b),
        forall|x: SelectionView| a.contains(x) <==> b.contains(x),
    ensures
        select_spec(p, a) == select_spec(p, b),
{
    let n = p.hunks.len() as int;
    lemma_order_same_items(a, b, n);
    lemma_emit_same_items(p.hunks, a, order(a, n), b, order(b, n), 0);
    if a.len() == 0 && b.len() > 0 {
        assert(b.contains(b[0]));
    }
    if b.len() == 0 && a.len() > 0 {
        assert(a.contains(a[0]));
    }
    if exists|k: int| 0 <= k < a.len() && #[trigger] a[k].hunk >= n {
        let k = choose|k: int| 0 <= k < a.len() && #[trigger] a[k].hunk >= n;
        assert(a.contains(a[k]));
        let j = choose|j: int| 0 <= j < b.len() && b[j] == a[k];
        assert(b[j].hunk >= n);
    }
    if exists|k: int| 0 <= k < b.len() && #[trigger] b[k].hunk >= n {
        let k = choose|k: int| 0 <= k < b.len() && #[trigger] b[k].hunk >= n;
        assert(b.contains(b[k]));
        let j = choose|j: int| 0 <= j < a.len() && a[j] == b[k];
        assert(a[j].hunk >= n);
    }
    if exists|k: int| 0 <= k < a.len() && #[trigger] bad_lines(p.hunks, a[k]) {
        let k = choose|k: int| 0 <= k < a.len() && #[trigger] bad_lines(p.hunks, a[k]);
        assert(a.contains(a[k]));
        let j = choose|j: int| 0 <= j < b.len() && b[j] == a[k];
        assert(bad_lines(p.hunks, b[j]));
    }
    if exists|k: int| 0 <= k < b.len() && #[trigger] bad_lines(p.hunks, b[k]) {
        let k = choose|k: int| 0 <= k < b.len() && #[trigger] bad_lines(p.hunks, b[k]);
        assert(b.contains(b[k]));
        let j = choose|j: int| 0 <= j < a.len() && a[j] == b[k];
        assert(bad_lines(p.hunks, a[j]));
    }
}

} // verus!
