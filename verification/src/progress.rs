//! Reading git's `--progress`.
//!
//! Git separates its updates with `\r`, not `\n`: it rewrites the same terminal line many times
//! a second. The [`Splitter`] cuts at `\r` **and** `\n` and keeps the unfinished piece between
//! one chunk and the next. Git also pads its fields with spaces and prefixes what came from the
//! server with `remote: `; both go before the line is read.
//!
//! Sizes (`7.44 MiB`) are kept as the text git wrote: turning them into a number of bytes is
//! floating-point work, done by the caller.
use vstd::prelude::*;
use crate::model::opt_str;
use vstd::utf8::{decode_utf8, valid_utf8};
use crate::text::{
    strs, dec, dec_exec, lemma_index_of, lemma_index_of_exact, lemma_index_of_none,
    append, chars_of, contains, contains_exec, find, index_of, index_of_any, index_of_exec,
    is_blank, is_blank_exec, lemma_find_from, lemma_index_of_any, lemma_index_of_any_exact,
    lemma_index_of_any_none, lossy_chars, parse_uint, parse_unsigned, slice_of, split_once,
    split_once_exec, string_of, strip_prefix, strip_prefix_exec, strip_suffix, strip_suffix_exec,
    trim, trim_end, trim_end_exec, trim_exec, trim_start, utf8_lossy,
};

verus! {

broadcast use vstd::seq_lib::group_seq_properties;

#[derive(Debug, Clone, Copy, PartialEq)]
pub struct Counted {
    pub percent: u8,
    pub current: u64,
    pub total: u64,
    pub done: bool,
}

#[derive(Debug, Clone, PartialEq)]
pub struct Receiving {
    pub percent: u8,
    pub objects: u64,
    pub total: u64,
    /// Bytes received, as git wrote them (`7.44 MiB`). `None` at the start, before git has
    /// anything to measure.
    pub bytes: Option<String>,
    /// Throughput as git wrote it, without the `/s` (`14.69 MiB`).
    pub bytes_per_s: Option<String>,
    pub done: bool,
}

/// One phase of a clone, typed.
#[derive(Debug, Clone, PartialEq)]
pub enum ProgressEvent {
    /// `remote: Enumerating objects: 3986, done.`: no percentage, only the running count.
    Enumerating { objects: u64, done: bool },
    Counting(Counted),
    Compressing(Counted),
    Receiving(Receiving),
    ResolvingDeltas(Counted),
    /// `Updating files:  45% (123/271)`: the checkout after the fetch.
    CheckingOut(Counted),
    /// Anything else (`Cloning into '…'`, warnings): a log line, not progress.
    Other(String),
}

pub struct ReceivingView {
    pub percent: u8,
    pub objects: u64,
    pub total: u64,
    pub bytes: Option<Seq<char>>,
    pub bytes_per_s: Option<Seq<char>>,
    pub done: bool,
}

pub enum ProgressView {
    Enumerating { objects: u64, done: bool },
    Counting(Counted),
    Compressing(Counted),
    Receiving(ReceivingView),
    ResolvingDeltas(Counted),
    CheckingOut(Counted),
    Other(Seq<char>),
}

impl View for ProgressEvent {
    type V = ProgressView;

    open spec fn view(&self) -> ProgressView {
        match self {
            ProgressEvent::Enumerating { objects, done } => ProgressView::Enumerating {
                objects: *objects,
                done: *done,
            },
            ProgressEvent::Counting(c) => ProgressView::Counting(*c),
            ProgressEvent::Compressing(c) => ProgressView::Compressing(*c),
            ProgressEvent::Receiving(r) => ProgressView::Receiving(
                ReceivingView {
                    percent: r.percent,
                    objects: r.objects,
                    total: r.total,
                    bytes: opt_str(r.bytes),
                    bytes_per_s: opt_str(r.bytes_per_s),
                    done: r.done,
                },
            ),
            ProgressEvent::ResolvingDeltas(c) => ProgressView::ResolvingDeltas(*c),
            ProgressEvent::CheckingOut(c) => ProgressView::CheckingOut(*c),
            ProgressEvent::Other(s) => ProgressView::Other(s@),
        }
    }
}

impl ProgressEvent {
    /// The phase, readable, for the UI.
    pub fn phase(&self) -> (s: &'static str)
        ensures
            s@ == match self {
                ProgressEvent::Enumerating { .. } => "enumerando objetos"@,
                ProgressEvent::Counting(_) => "contando objetos"@,
                ProgressEvent::Compressing(_) => "comprimindo objetos"@,
                ProgressEvent::Receiving(_) => "recebendo objetos"@,
                ProgressEvent::ResolvingDeltas(_) => "resolvendo deltas"@,
                ProgressEvent::CheckingOut(_) => "escrevendo arquivos"@,
                ProgressEvent::Other(_) => ""@,
            },
    {
        match self {
            ProgressEvent::Enumerating { .. } => "enumerando objetos",
            ProgressEvent::Counting(_) => "contando objetos",
            ProgressEvent::Compressing(_) => "comprimindo objetos",
            ProgressEvent::Receiving(_) => "recebendo objetos",
            ProgressEvent::ResolvingDeltas(_) => "resolvendo deltas",
            ProgressEvent::CheckingOut(_) => "escrevendo arquivos",
            ProgressEvent::Other(_) => "",
        }
    }

    /// A short line with the raw numbers: the objects counted, or how far out of how many; for
    /// the download, also the size received and the speed, given here already written for a
    /// person (`size`, `rate`: `None` where git gave none).
    pub fn detail(&self, size: Option<&str>, rate: Option<&str>) -> (d: Option<String>)
        ensures
            match d {
                Some(t) => detail_of(self@, opt_text(size), opt_text(rate)) == Some(t@),
                None => detail_of(self@, opt_text(size), opt_text(rate)) is None,
            },
    {
        match self {
            ProgressEvent::Other(_) => None,
            ProgressEvent::Enumerating { objects, .. } => {
                let mut v = dec_exec(*objects);
                append(&mut v, &chars_of(" objetos"));
                Some(string_of(&v))
            },
            ProgressEvent::Counting(c)
            | ProgressEvent::Compressing(c)
            | ProgressEvent::ResolvingDeltas(c)
            | ProgressEvent::CheckingOut(c) => Some(string_of(&of_total(c.current, c.total))),
            ProgressEvent::Receiving(r) => {
                let mut v = of_total(r.objects, r.total);
                if let Some(s) = size {
                    append(&mut v, &chars_of(" · "));
                    append(&mut v, &chars_of(s));
                }
                if let Some(t) = rate {
                    append(&mut v, &chars_of(" · "));
                    append(&mut v, &chars_of(t));
                    append(&mut v, &chars_of("/s"));
                }
                Some(string_of(&v))
            },
        }
    }
}

pub open spec fn opt_text(s: Option<&str>) -> Option<Seq<char>> {
    match s {
        Some(t) => Some(t@),
        None => None,
    }
}

pub open spec fn of_total_text(current: u64, total: u64) -> Seq<char> {
    dec(current as nat) + "/"@ + dec(total as nat)
}

fn of_total(current: u64, total: u64) -> (v: Vec<char>)
    ensures
        v@ == of_total_text(current, total),
{
    let mut v = dec_exec(current);
    append(&mut v, &chars_of("/"));
    append(&mut v, &dec_exec(total));
    v
}

/// What [`ProgressEvent::detail`] shows.
pub open spec fn detail_of(e: ProgressView, size: Option<Seq<char>>, rate: Option<Seq<char>>) -> Option<Seq<char>> {
    match e {
        ProgressView::Other(_) => None,
        ProgressView::Enumerating { objects, .. } => Some(dec(objects as nat) + " objetos"@),
        ProgressView::Counting(c) => Some(of_total_text(c.current, c.total)),
        ProgressView::Compressing(c) => Some(of_total_text(c.current, c.total)),
        ProgressView::ResolvingDeltas(c) => Some(of_total_text(c.current, c.total)),
        ProgressView::CheckingOut(c) => Some(of_total_text(c.current, c.total)),
        ProgressView::Receiving(r) => Some(
            of_total_text(r.objects, r.total) + match size {
                Some(s) => " · "@ + s,
                None => Seq::empty(),
            } + match rate {
                Some(t) => " · "@ + t + "/s"@,
                None => Seq::empty(),
            },
        ),
    }
}

// ---------------------------------------------------------------------------------------------
// cutting the stream into updates
// ---------------------------------------------------------------------------------------------
pub open spec fn line_ends() -> Seq<char> {
    seq!['\r', '\n']
}

/// The updates a text closes, and the unfinished rest: cut at every `\r` and `\n`, blank
/// pieces dropped.
pub open spec fn cut(text: Seq<char>) -> (Seq<Seq<char>>, Seq<char>)
    decreases text.len(),
{
    match index_of_any(text, line_ends()) {
        Some(at) => {
            if 0 <= at < text.len() {
                let piece = text.take(at);
                let (more, rest) = cut(text.skip(at + 1));
                (if is_blank(piece) {
                    more
                } else {
                    seq![piece] + more
                }, rest)
            } else {
                (seq![], text)
            }
        },
        None => (seq![], text),
    }
}

/// Cuts git's stderr into updates, at `\r` **and** `\n`, keeping the rest between chunks.
#[derive(Debug)]
pub struct Splitter {
    buffer: Vec<char>,
}

impl View for Splitter {
    type V = Seq<char>;

    closed spec fn view(&self) -> Seq<char> {
        self.buffer@
    }
}

impl Default for Splitter {
    fn default() -> (s: Self)
        ensures
            s@.len() == 0,
    {
        Splitter { buffer: Vec::new() }
    }
}

impl Splitter {
    pub fn new() -> (s: Self)
        ensures
            s@.len() == 0,
    {
        Splitter { buffer: Vec::new() }
    }

    /// Takes a piece of stderr and returns the updates it closed. Bytes that are not UTF-8
    /// are replaced, chunk by chunk.
    pub fn push(&mut self, chunk: &[u8]) -> (updates: Vec<String>)
        ensures
            strs(updates@) == cut(old(self)@ + utf8_lossy(chunk@)).0,
            final(self)@ == cut(old(self)@ + utf8_lossy(chunk@)).1,
            // a chunk that is UTF-8 is read as its text
            valid_utf8(chunk@) ==> strs(updates@) == cut(old(self)@ + decode_utf8(chunk@)).0
                && final(self)@ == cut(old(self)@ + decode_utf8(chunk@)).1,
    {
        let text = lossy_chars(chunk);
        let mut rest = Vec::new();
        append(&mut rest, &self.buffer);
        append(&mut rest, &text);
        let ghost full = rest@;
        assert(full == old(self)@ + utf8_lossy(chunk@));
        let ends = vec!['\r', '\n'];
        assert(ends@ =~= line_ends());
        let mut updates: Vec<String> = Vec::new();
        loop
            invariant
                ends@ == line_ends(),
                full == old(self)@ + utf8_lossy(chunk@),
                valid_utf8(chunk@) ==> utf8_lossy(chunk@) == decode_utf8(chunk@),
                strs(updates@) + cut(rest@).0 == cut(full).0,
                cut(rest@).1 == cut(full).1,
            decreases rest@.len(),
        {
            match find_any(&rest, &ends) {
                Some(at) => {
                    proof {
                        lemma_index_of_any(rest@, ends@);
                    }
                    let n = rest.len();
                    let piece = slice_of(&rest, 0, at);
                    let after = slice_of(&rest, at + 1, n);
                    proof {
                        assert(piece@ =~= rest@.take(at as int));
                        assert(after@ =~= rest@.skip(at + 1));
                    }
                    if !is_blank_exec(&piece) {
                        let ghost before = updates@;
                        let s = string_of(&piece);
                        updates.push(s);
                        proof {
                            assert(strs(updates@) =~= strs(before).push(piece@));
                            assert(strs(before).push(piece@) + cut(after@).0 =~= strs(before) + (
                            seq![piece@] + cut(after@).0));
                        }
                    }
                    rest = after;
                },
                None => {
                    self.buffer = rest;
                    proof {
                        assert(strs(updates@) + cut(rest@).0 =~= strs(updates@));
                    }
                    return updates;
                },
            }
        }
    }

    /// What was left when the process ended without closing its last line.
    pub fn flush(&mut self) -> (r: Option<String>)
        ensures
            final(self)@.len() == 0,
            match r {
                Some(s) => !is_blank(old(self)@) && s@ == old(self)@,
                None => is_blank(old(self)@),
            },
    {
        let rest = slice_of(&self.buffer, 0, self.buffer.len());
        assert(rest@ =~= self.buffer@);
        self.buffer = Vec::new();
        if is_blank_exec(&rest) {
            None
        } else {
            Some(string_of(&rest))
        }
    }
}

fn find_any(s: &Vec<char>, cs: &Vec<char>) -> (r: Option<usize>)
    ensures
        match r {
            Some(j) => index_of_any(s@, cs@) == Some(j as int),
            None => index_of_any(s@, cs@) is None,
        },
{
    let mut i: usize = 0;
    while i < s.len()
        invariant
            i <= s.len(),
            forall|k: int| 0 <= k < i ==> !cs@.contains(#[trigger] s@[k]),
        decreases s.len() - i,
    {
        let mut j: usize = 0;
        let mut hit = false;
        while j < cs.len()
            invariant
                j <= cs.len(),
                i < s.len(),
                hit == exists|m: int| 0 <= m < j && cs@[m] == s@[i as int],
            decreases cs.len() - j,
        {
            if cs[j] == s[i] {
                hit = true;
            }
            j += 1;
        }
        if hit {
            proof {
                lemma_index_of_any_exact(s@, cs@, i as int);
            }
            return Some(i);
        }
        i += 1;
    }
    proof {
        lemma_index_of_any_none(s@, cs@);
    }
    None
}

/// Two pieces of UTF-8 make UTF-8, and their text is the two texts one after the other.
pub proof fn lemma_decode_concat(a: Seq<u8>, b: Seq<u8>)
    requires
        valid_utf8(a),
        valid_utf8(b),
    ensures
        valid_utf8(a + b),
        decode_utf8(a + b) == decode_utf8(a) + decode_utf8(b),
    decreases a.len(),
{
    vstd::utf8::valid_utf8_concat(a, b);
    if a.len() == 0 {
        assert(a + b =~= b);
        assert(decode_utf8(a) =~= Seq::<char>::empty());
        assert(decode_utf8(a + b) =~= decode_utf8(a) + decode_utf8(b));
    } else {
        let rest = vstd::utf8::pop_first_scalar(a);
        assert(vstd::utf8::pop_first_scalar(a + b) =~= rest + b);
        assert(vstd::utf8::decode_first_scalar(a + b) == vstd::utf8::decode_first_scalar(a));
        lemma_decode_concat(rest, b);
        assert(decode_utf8(a + b) =~= decode_utf8(a) + decode_utf8(b));
    }
}

/// The same at the level of the bytes `git` writes: as long as each chunk is UTF-8 (the break
/// falls between two chars), two pushes close the same updates, and leave the same rest, as one
/// push of the two chunks together.
pub proof fn law_cut_ignores_byte_chunk_boundaries(buffer: Seq<char>, a: Seq<u8>, b: Seq<u8>)
    requires
        valid_utf8(a),
        valid_utf8(b),
    ensures
        valid_utf8(a + b),
        ({
            let (u1, r1) = cut(buffer + decode_utf8(a));
            let (u2, r2) = cut(r1 + decode_utf8(b));
            u1 + u2 == cut(buffer + decode_utf8(a + b)).0 && r2 == cut(buffer + decode_utf8(a + b)).1
        }),
{
    lemma_decode_concat(a, b);
    law_cut_ignores_chunk_boundaries(buffer, decode_utf8(a), decode_utf8(b));
    assert(buffer + decode_utf8(a) + decode_utf8(b) =~= buffer + decode_utf8(a + b));
}

/// Cutting is blind to where the chunks break: two pushes close the same updates, and leave
/// the same rest, as one push of the two texts together.
pub proof fn law_cut_ignores_chunk_boundaries(buffer: Seq<char>, a: Seq<char>, b: Seq<char>)
    ensures
        ({
            let (u1, r1) = cut(buffer + a);
            let (u2, r2) = cut(r1 + b);
            u1 + u2 == cut(buffer + a + b).0 && r2 == cut(buffer + a + b).1
        }),
    decreases buffer.len() + a.len(),
{
    let t = buffer + a;
    lemma_index_of_any(t, line_ends());
    match index_of_any(t, line_ends()) {
        Some(at) => {
            let piece = t.take(at);
            let after = t.skip(at + 1);
            // the same cut point, with `b` following
            lemma_index_of_any(t + b, line_ends());
            assert forall|k: int| 0 <= k < at implies !line_ends().contains(#[trigger] (t + b)[k]) by {
                assert((t + b)[k] == t[k]);
            }
            assert((t + b)[at] == t[at]);
            lemma_index_of_any_exact(t + b, line_ends(), at);
            assert((t + b).take(at) =~= piece);
            assert((t + b).skip(at + 1) =~= after + b);
            law_cut_ignores_chunk_boundaries(after, seq![], b);
            assert(after + seq![] =~= after);
            assert(buffer + a + b =~= t + b);
        },
        None => {
            assert(buffer + a + b =~= t + b);
        },
    }
}

// ---------------------------------------------------------------------------------------------
// reading one update
// ---------------------------------------------------------------------------------------------
/// The part before the first `,` (`split(',').next()`).
pub open spec fn first_field(s: Seq<char>, c: char) -> Seq<char> {
    match index_of(s, c) {
        Some(i) => s.take(i),
        None => s,
    }
}

/// `s.trim_start_matches(c)`.
pub open spec fn trim_start_char(s: Seq<char>, c: char) -> Seq<char>
    decreases s.len(),
{
    if s.len() > 0 && s[0] == c {
        trim_start_char(s.drop_first(), c)
    } else {
        s
    }
}

pub open spec fn u64_max() -> int {
    0xffff_ffff_ffff_ffff
}

/// `  34% (16766/49311), 7.44 MiB | 14.69 MiB/s` → the counter and what follows the `)`.
pub open spec fn parse_counted(rest: Seq<char>) -> Option<(Counted, Seq<char>)> {
    match split_once(rest, '%') {
        None => None,
        Some((p, rest)) => match parse_unsigned(trim(p), 255) {
            None => None,
            Some(percent) => match (index_of(rest, '('), index_of(rest, ')')) {
                (Some(open), Some(close)) => {
                    if open + 1 > close {
                        None
                    } else {
                        match split_once(rest.subrange(open + 1, close), '/') {
                            None => None,
                            Some((cur, tot)) => {
                                let tail = rest.skip(close + 1);
                                match (
                                    parse_unsigned(trim(cur), u64_max()),
                                    parse_unsigned(trim(tot), u64_max()),
                                ) {
                                    (Some(current), Some(total)) => Some(
                                        (
                                            Counted {
                                                percent: percent as u8,
                                                current: current as u64,
                                                total: total as u64,
                                                done: contains(tail, "done."@),
                                            },
                                            tail,
                                        ),
                                    ),
                                    _ => None,
                                }
                            },
                        }
                    }
                },
                _ => None,
            },
        },
    }
}

/// `, 7.44 MiB | 14.69 MiB/s, done.` → the two size texts.
pub open spec fn throughput(tail: Seq<char>) -> (Option<Seq<char>>, Option<Seq<char>>) {
    match split_once(tail, '|') {
        None => (None, None),
        Some((bytes, rate)) => {
            let rate = trim(first_field(rate, ','));
            (
                Some(trim(trim_start_char(bytes, ','))),
                Some(
                    match strip_suffix(rate, "/s"@) {
                        Some(r) => r,
                        None => rate,
                    },
                ),
            )
        },
    }
}

/// The line an update is read from: trimmed, without `remote: `, trimmed at the end again.
pub open spec fn progress_line(update: Seq<char>) -> Seq<char> {
    let line = trim(update);
    trim_end(
        match strip_prefix(line, "remote: "@) {
            Some(l) => l,
            None => line,
        },
    )
}

pub open spec fn enumerating(line: Seq<char>) -> Option<ProgressView> {
    match strip_prefix(line, "Enumerating objects: "@) {
        None => None,
        Some(rest) => match parse_unsigned(trim(first_field(rest, ',')), u64_max()) {
            None => None,
            Some(n) => Some(
                ProgressView::Enumerating { objects: n as u64, done: contains(rest, "done."@) },
            ),
        },
    }
}

/// The counter that follows `prefix` at the start of `line`, if both are there.
pub open spec fn counted_after(line: Seq<char>, prefix: Seq<char>) -> Option<Counted> {
    match strip_prefix(line, prefix) {
        Some(rest) => match parse_counted(rest) {
            Some((c, _)) => Some(c),
            None => None,
        },
        None => None,
    }
}

/// What [`parse`] makes of an update.
pub open spec fn parse_spec(update: Seq<char>) -> ProgressView {
    let line = progress_line(update);
    if enumerating(line) is Some {
        enumerating(line)->0
    } else if counted_after(line, "Counting objects:"@) is Some {
        ProgressView::Counting(counted_after(line, "Counting objects:"@)->0)
    } else if counted_after(line, "Compressing objects:"@) is Some {
        ProgressView::Compressing(counted_after(line, "Compressing objects:"@)->0)
    } else if counted_after(line, "Resolving deltas:"@) is Some {
        ProgressView::ResolvingDeltas(counted_after(line, "Resolving deltas:"@)->0)
    } else if counted_after(line, "Updating files:"@) is Some {
        ProgressView::CheckingOut(counted_after(line, "Updating files:"@)->0)
    } else {
        match strip_prefix(line, "Receiving objects:"@) {
            Some(rest) => match parse_counted(rest) {
                Some((c, tail)) => {
                    let (bytes, rate) = throughput(tail);
                    ProgressView::Receiving(
                        ReceivingView {
                            percent: c.percent,
                            objects: c.current,
                            total: c.total,
                            bytes,
                            bytes_per_s: rate,
                            done: c.done,
                        },
                    )
                },
                None => ProgressView::Other(line),
            },
            None => ProgressView::Other(line),
        }
    }
}

fn first_field_exec(s: &Vec<char>, c: char) -> (r: Vec<char>)
    ensures
        r@ == first_field(s@, c),
{
    match index_of_exec(s, c) {
        Some(i) => {
            let r = slice_of(s, 0, i);
            assert(r@ =~= s@.take(i as int));
            r
        },
        None => slice_of(s, 0, s.len()),
    }
}

fn trim_start_char_exec(s: &Vec<char>, c: char) -> (r: Vec<char>)
    ensures
        r@ == trim_start_char(s@, c),
{
    let mut i: usize = 0;
    while i < s.len() && s[i] == c
        invariant
            i <= s.len(),
            trim_start_char(s@, c) == trim_start_char(s@.skip(i as int), c),
        decreases s.len() - i,
    {
        assert(s@.skip(i as int).drop_first() =~= s@.skip(i + 1));
        i += 1;
    }
    let r = slice_of(s, i, s.len());
    assert(r@ =~= s@.skip(i as int));
    r
}

fn literal(s: &str) -> (v: Vec<char>)
    ensures
        v@ == s@,
{
    chars_of(s)
}

fn parse_counted_exec(rest: &Vec<char>) -> (r: Option<(Counted, Vec<char>)>)
    ensures
        match r {
            Some((c, t)) => parse_counted(rest@) == Some((c, t@)),
            None => parse_counted(rest@) is None,
        },
{
    let (p, rest) = match split_once_exec(rest, '%') {
        Some(x) => x,
        None => return None,
    };
    let percent = match parse_uint(&trim_exec(&p), 255) {
        Some(v) => v,
        None => return None,
    };
    let open = match index_of_exec(&rest, '(') {
        Some(i) => i,
        None => return None,
    };
    let close = match index_of_exec(&rest, ')') {
        Some(i) => i,
        None => return None,
    };
    if open + 1 > close {
        return None;
    }
    let inside = slice_of(&rest, open + 1, close);
    let (cur, tot) = match split_once_exec(&inside, '/') {
        Some(x) => x,
        None => return None,
    };
    let tail = slice_of(&rest, close + 1, rest.len());
    assert(tail@ =~= rest@.skip(close + 1));
    let current = match parse_uint(&trim_exec(&cur), 0xffff_ffff_ffff_ffff) {
        Some(v) => v,
        None => return None,
    };
    let total = match parse_uint(&trim_exec(&tot), 0xffff_ffff_ffff_ffff) {
        Some(v) => v,
        None => return None,
    };
    let done = contains_exec(&tail, &literal("done."));
    Some((Counted { percent: percent as u8, current, total, done }, tail))
}

fn throughput_exec(tail: &Vec<char>) -> (r: (Option<String>, Option<String>))
    ensures
        (opt_str(r.0), opt_str(r.1)) == throughput(tail@),
{
    match split_once_exec(tail, '|') {
        None => (None, None),
        Some((bytes, rate)) => {
            let rate = trim_exec(&first_field_exec(&rate, ','));
            let rate = match strip_suffix_exec(&rate, &literal("/s")) {
                Some(r) => r,
                None => rate,
            };
            let bytes = trim_exec(&trim_start_char_exec(&bytes, ','));
            (Some(string_of(&bytes)), Some(string_of(&rate)))
        },
    }
}

fn counted_after_exec(line: &Vec<char>, prefix: &str) -> (r: Option<Counted>)
    ensures
        r == counted_after(line@, prefix@),
{
    match strip_prefix_exec(line, &literal(prefix)) {
        Some(rest) => match parse_counted_exec(&rest) {
            Some((c, _)) => Some(c),
            None => None,
        },
        None => None,
    }
}

/// Reads an update already isolated by the [`Splitter`].
pub fn parse(update: &str) -> (e: ProgressEvent)
    ensures
        e@ == parse_spec(update@),
{
    let line = trim_exec(&chars_of(update));
    let line = match strip_prefix_exec(&line, &literal("remote: ")) {
        Some(l) => l,
        None => line,
    };
    let line = trim_end_exec(&line);
    assert(line@ == progress_line(update@));
    match strip_prefix_exec(&line, &literal("Enumerating objects: ")) {
        Some(rest) => {
            let count = trim_exec(&first_field_exec(&rest, ','));
            match parse_uint(&count, 0xffff_ffff_ffff_ffff) {
                Some(objects) => {
                    let done = contains_exec(&rest, &literal("done."));
                    return ProgressEvent::Enumerating { objects, done };
                },
                None => {},
            }
        },
        None => {},
    }
    assert(enumerating(line@) is None);
    if let Some(c) = counted_after_exec(&line, "Counting objects:") {
        return ProgressEvent::Counting(c);
    }
    if let Some(c) = counted_after_exec(&line, "Compressing objects:") {
        return ProgressEvent::Compressing(c);
    }
    if let Some(c) = counted_after_exec(&line, "Resolving deltas:") {
        return ProgressEvent::ResolvingDeltas(c);
    }
    if let Some(c) = counted_after_exec(&line, "Updating files:") {
        return ProgressEvent::CheckingOut(c);
    }
    match strip_prefix_exec(&line, &literal("Receiving objects:")) {
        Some(rest) => match parse_counted_exec(&rest) {
            Some((c, tail)) => {
                let (bytes, bytes_per_s) = throughput_exec(&tail);
                return ProgressEvent::Receiving(
                    Receiving {
                        percent: c.percent,
                        objects: c.current,
                        total: c.total,
                        bytes,
                        bytes_per_s,
                        done: c.done,
                    },
                );
            },
            None => {},
        },
        None => {},
    }
    ProgressEvent::Other(string_of(&line))
}

/// What follows the counter of a progress line: the text after the first `)` that comes after
/// the first `%` (`, 7.44 MiB | 14.69 MiB/s, done.` in a download).
pub open spec fn after_counter(line: Seq<char>) -> Option<Seq<char>> {
    match index_of(line, '%') {
        None => None,
        Some(p) => {
            let rest = line.skip(p + 1);
            match index_of(rest, ')') {
                None => None,
                Some(c) => Some(rest.skip(c + 1)),
            }
        },
    }
}

proof fn lemma_index_of_past_prefix(s: Seq<char>, n: int, c: char)
    requires
        0 <= n <= s.len(),
        forall|k: int| 0 <= k < n ==> #[trigger] s[k] != c,
    ensures
        index_of(s, c) == match index_of(s.skip(n), c) {
            Some(j) => Some(j + n),
            None => None,
        },
{
    let t = s.skip(n);
    lemma_index_of(t, c);
    match index_of(t, c) {
        Some(j) => {
            assert(s[j + n] == t[j]);
            assert forall|k: int| 0 <= k < j + n implies #[trigger] s[k] != c by {
                if k >= n {
                    assert(s[k] == t[k - n]);
                }
            }
            lemma_index_of_exact(s, c, j + n);
        },
        None => {
            assert forall|k: int| 0 <= k < s.len() implies #[trigger] s[k] != c by {
                if k >= n {
                    assert(s[k] == t[k - n]);
                }
            }
            lemma_index_of_none(s, c);
        },
    }
}

/// A download is reported done exactly when git says so: for a `Receiving objects` update,
/// `done` is true exactly when the text after its counter holds `done.`, the same rule as for
/// every counted phase; and the counts are the counter's.
pub proof fn law_a_download_is_done_when_git_says_so(update: Seq<char>)
    ensures
        parse_spec(update) matches ProgressView::Receiving(r) ==> (after_counter(progress_line(update)) is Some
            && (r.done <==> contains(after_counter(progress_line(update))->0, "done."@))),
        // its numbers are those of the counter, read as for every counted phase
        parse_spec(update) matches ProgressView::Receiving(r) ==> counted_after(
            progress_line(update),
            "Receiving objects:"@,
        ) == Some(Counted { percent: r.percent, current: r.objects, total: r.total, done: r.done }),
        // the size and the speed come together, once git writes the `|` between them
        parse_spec(update) matches ProgressView::Receiving(r) ==> (r.bytes is Some <==> index_of(
            after_counter(progress_line(update))->0,
            '|',
        ) is Some) && (r.bytes_per_s is Some <==> r.bytes is Some),
        forall|line: Seq<char>, p: Seq<char>|
            #![trigger counted_after(line, p)]
            counted_after(line, p) is Some && (forall|k: int| 0 <= k < p.len() ==> p[k] != '%')
                ==> after_counter(line) is Some && (counted_after(line, p)->0.done <==> contains(
                after_counter(line)->0,
                "done."@,
            )),
{
    assert forall|line: Seq<char>, p: Seq<char>|
        #![trigger counted_after(line, p)]
        counted_after(line, p) is Some && (forall|k: int| 0 <= k < p.len() ==> p[k] != '%')
            implies after_counter(line) is Some && (counted_after(line, p)->0.done <==> contains(
            after_counter(line)->0,
            "done."@,
        )) by {
        lemma_counter_tail(line, p);
    }
    let line = progress_line(update);
    if parse_spec(update) is Receiving {
        reveal_strlit("Receiving objects:");
        lemma_counter_tail(line, "Receiving objects:"@);
    }
}

/// The counter read after a prefix with no `%` ends where [`after_counter`] says, and its `done`
/// is whether that rest holds `done.`.
proof fn lemma_counter_tail(line: Seq<char>, p: Seq<char>)
    requires
        forall|k: int| 0 <= k < p.len() ==> p[k] != '%',
    ensures
        strip_prefix(line, p) is Some ==> match parse_counted(line.skip(p.len() as int)) {
            Some((c, tail)) => after_counter(line) == Some(tail) && c.done == contains(tail, "done."@),
            None => true,
        },
        counted_after(line, p) is Some ==> after_counter(line) is Some && (counted_after(line, p)->0.done
            <==> contains(after_counter(line)->0, "done."@)),
{
    if strip_prefix(line, p) is Some {
        let rest = line.skip(p.len() as int);
        assert forall|k: int| 0 <= k < p.len() implies #[trigger] line[k] != '%' by {
            assert(line.subrange(0, p.len() as int)[k] == line[k]);
        }
        lemma_index_of_past_prefix(line, p.len() as int, '%');
        lemma_index_of(rest, '%');
        if let Some(i) = index_of(rest, '%') {
            assert(line.skip(p.len() + i + 1) =~= rest.skip(i + 1));
        }
    }
}

} // verus!
