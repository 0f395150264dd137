//! The search box over the commit index: what a query asks for, before the database is asked.
//!
//! A lone hex token of 4 to 40 chars is a hash prefix, looked up by key. Otherwise the unified
//! syntax (`autor:`, `depois:`, `antes:`) splits structured filters from free text; free text
//! goes to FTS5, each word quoted so that an `AND`, a `-` or a stray `"` typed in the box never
//! becomes operator syntax.
use vstd::prelude::*;
use crate::model::opt_str;
use crate::text::{
    append, chars_of, is_hex, is_hex_digit, join, join_exec, parse_i64, parse_i64_exec, split,
    split_exec, string_of, strip_prefix, strip_prefix_exec, trim, trim_exec, views, words,
    words_exec,
};

verus! {

broadcast use vstd::seq_lib::group_seq_properties;

/// A row ready to insert: what the repository walk gives.
#[derive(Debug, Clone)]
pub struct CommitRow {
    pub oid: String,
    pub author: String,
    pub email: String,
    pub time: i64,
    pub summary: String,
}

/// A search result: enough to draw a line without the commit being on a loaded log page.
#[derive(Debug, Clone)]
pub struct SearchHit {
    pub oid: String,
    pub author: String,
    pub email: String,
    pub time: i64,
    pub summary: String,
}

// ---------------------------------------------------------------------------------------------
// the FTS5 expression
// ---------------------------------------------------------------------------------------------
pub open spec fn doubled_quotes(w: Seq<char>) -> Seq<char>
    decreases w.len(),
{
    if w.len() == 0 {
        seq![]
    } else {
        (if w[0] == '"' {
            seq!['"', '"']
        } else {
            seq![w[0]]
        }) + doubled_quotes(w.drop_first())
    }
}

/// A word as an FTS5 phrase: between quotes, its own quotes doubled.
pub open spec fn quoted(w: Seq<char>) -> Seq<char> {
    seq!['"'] + doubled_quotes(w) + seq!['"']
}

/// The FTS5 expression for a search box: every word a phrase, the last one a prefix (`*`), so
/// the letter just typed already filters. `None` for a blank box: no filter, not "match
/// nothing".
pub open spec fn match_query_of(raw: Seq<char>) -> Option<Seq<char>> {
    let ws = words(raw);
    if ws.len() == 0 {
        None
    } else {
        Some(
            join(
                ws.drop_last().map_values(|w: Seq<char>| quoted(w)).push(quoted(ws.last()) + seq!['*']),
                seq![' '],
            ),
        )
    }
}

fn quoted_exec(w: &Vec<char>) -> (q: Vec<char>)
    ensures
        q@ == quoted(w@),
{
    let mut q: Vec<char> = vec!['"'];
    assert(w@.skip(0) =~= w@);
    assert(q@ =~= seq!['"']);
    let mut i: usize = 0;
    while i < w.len()
        invariant
            i <= w.len(),
            q@ + doubled_quotes(w@.skip(i as int)) + seq!['"'] == quoted(w@),
        decreases w.len() - i,
    {
        let ghost rest = w@.skip(i as int);
        assert(rest.drop_first() =~= w@.skip(i + 1));
        let ghost before = q@;
        if w[i] == '"' {
            q.push('"');
            q.push('"');
            assert(before + doubled_quotes(rest) + seq!['"'] =~= q@ + doubled_quotes(w@.skip(i + 1))
                + seq!['"']);
        } else {
            q.push(w[i]);
            assert(before + doubled_quotes(rest) + seq!['"'] =~= q@ + doubled_quotes(w@.skip(i + 1))
                + seq!['"']);
        }
        i += 1;
    }
    assert(q@ + doubled_quotes(w@.skip(i as int)) + seq!['"'] =~= q@.push('"'));
    q.push('"');
    assert(q@ =~= quoted(w@));
    q
}

pub fn build_match_query(raw: &str) -> (r: Option<String>)
    ensures
        match r {
            Some(q) => match_query_of(raw@) == Some(q@),
            None => match_query_of(raw@) is None,
        },
{
    let ws = words_exec(&chars_of(raw));
    let ghost wv = views(ws@);
    if ws.len() == 0 {
        return None;
    }
    let last = ws.len() - 1;
    let mut parts: Vec<Vec<char>> = Vec::new();
    let mut i: usize = 0;
    while i < last
        invariant
            i <= last < ws.len(),
            wv == views(ws@),
            views(parts@) =~= wv.drop_last().take(i as int).map_values(|w: Seq<char>| quoted(w)),
        decreases last - i,
    {
        let ghost before = views(parts@);
        let q = quoted_exec(&ws[i]);
        parts.push(q);
        assert(views(parts@) =~= before.push(q@));
        assert(wv.drop_last().take(i + 1).map_values(|w: Seq<char>| quoted(w)) =~= wv.drop_last().take(
            i as int,
        ).map_values(|w: Seq<char>| quoted(w)).push(quoted(wv[i as int])));
        i += 1;
    }
    let mut tail = quoted_exec(&ws[last]);
    tail.push('*');
    assert(wv.last() == ws@[last as int]@);
    assert(tail@ =~= quoted(wv.last()) + seq!['*']);
    let ghost before = views(parts@);
    assert(before =~= wv.drop_last().take(last as int).map_values(|w: Seq<char>| quoted(w)));
    parts.push(tail);
    assert(views(parts@) =~= before.push(tail@));
    assert(wv.drop_last().take(last as int) =~= wv.drop_last());
    assert(wv.last() == ws@[last as int]@);
    assert(views(parts@) =~= wv.drop_last().map_values(|w: Seq<char>| quoted(w)).push(
        quoted(wv.last()) + seq!['*'],
    ));
    let space = vec![' '];
    assert(space@ =~= seq![' ']);
    Some(string_of(&join_exec(&parts, &space)))
}

// ---------------------------------------------------------------------------------------------
// hashes
// ---------------------------------------------------------------------------------------------
/// One hex token of 4 to 40 chars: a commit hash, short or full. A word that happens to use
/// only `a-f0-9` (`cafe`) lands here too: the same ambiguity git has with short hashes.
pub open spec fn hash_like(q: Seq<char>) -> bool {
    4 <= q.len() <= 40 && forall|i: int| 0 <= i < q.len() ==> is_hex(#[trigger] q[i])
}

pub fn is_hash_like(query: &str) -> (b: bool)
    ensures
        b == hash_like(query@),
{
    let q = chars_of(query);
    if q.len() < 4 || q.len() > 40 {
        return false;
    }
    let mut i: usize = 0;
    while i < q.len()
        invariant
            i <= q.len(),
            q@ == query@,
            forall|k: int| 0 <= k < i ==> is_hex(#[trigger] q@[k]),
        decreases q.len() - i,
    {
        if !is_hex_digit(q[i]) {
            assert(!is_hex(query@[i as int]));
            return false;
        }
        i += 1;
    }
    true
}

pub open spec fn ascii_lower(c: char) -> char {
    if 'A' <= c && c <= 'Z' {
        ((c as u32) + 32) as char
    } else {
        c
    }
}

// ---------------------------------------------------------------------------------------------
// dates
// ---------------------------------------------------------------------------------------------
/// Days since 1970-01-01 of a civil date in the proleptic Gregorian calendar (Howard Hinnant's
/// `days_from_civil`): years counted from March, so the leap day ends the year.
pub open spec fn days_from_civil(year: int, month: int, day: int) -> int {
    let y = if month <= 2 {
        year - 1
    } else {
        year
    };
    let era = y / 400;
    let year_of_era = y - era * 400;
    let month_shifted = if month > 2 {
        month - 3
    } else {
        month + 9
    };
    let day_of_year = (153 * month_shifted + 2) / 5 + day - 1;
    let day_of_era = year_of_era * 365 + year_of_era / 4 - year_of_era / 100 + day_of_year;
    era * 146_097 + day_of_era - 719_468
}

/// Within a month, the next day is the next day: one more, whatever the year or the era.
pub proof fn law_days_are_consecutive(year: int, month: int, day: int)
    ensures
        days_from_civil(year, month, day + 1) == days_from_civil(year, month, day) + 1,
{
}

/// A leap year of the Gregorian calendar.
pub open spec fn is_leap(year: int) -> bool {
    (year % 4 == 0 && year % 100 != 0) || year % 400 == 0
}

/// How many days a month has.
pub open spec fn month_len(year: int, month: int) -> int {
    if month == 2 {
        if is_leap(year) {
            29
        } else {
            28
        }
    } else if month == 4 || month == 6 || month == 9 || month == 11 {
        30
    } else {
        31
    }
}

/// The calendar has no gap and no overlap: the first of a month is the day after the last of
/// the month before, the first of January the day after the last of December.
pub proof fn law_months_are_consecutive(year: int, month: int)
    requires
        1 <= month <= 12,
    ensures
        (if month == 12 {
            days_from_civil(year + 1, 1, 1)
        } else {
            days_from_civil(year, month + 1, 1)
        }) == days_from_civil(year, month, month_len(year, month)) + 1,
{
    if month == 2 {
        let y0 = year - 1;
        let e0 = y0 / 400;
        let e1 = year / 400;
        let a = y0 - e0 * 400;
        let b = year - e1 * 400;
        if year % 400 == 0 {
            assert(e1 == e0 + 1 && a == 399 && b == 0);
        } else {
            assert(e1 == e0 && b == a + 1);
            assert(is_leap(year) == ((b % 4 == 0 && b % 100 != 0)));
        }
    }
}

pub open spec fn fits_i64(v: int) -> bool {
    -0x8000_0000_0000_0000 <= v <= 0x7fff_ffff_ffff_ffff
}

/// `YYYY-MM-DD` as seconds since the epoch at midnight UTC of that day; `None` for what has not
/// that shape, or is past what seconds in an `i64` can hold.
pub open spec fn date_of(s: Seq<char>) -> Option<int> {
    let parts = split(s, '-');
    if parts.len() != 3 {
        None
    } else {
        match (parse_i64(parts[0]), parse_i64(parts[1]), parse_i64(parts[2])) {
            (Some(y), Some(m), Some(d)) => if 1 <= m <= 12 && 1 <= d <= 31 && fits_i64(
                days_from_civil(y, m, d) * 86_400,
            ) {
                Some(days_from_civil(y, m, d) * 86_400)
            } else {
                None
            },
            _ => None,
        }
    }
}

proof fn lemma_floor_div(y: int)
    requires
        y < 0,
    ensures
        -((399 - y) / 400) == y / 400,
{
    let q = y / 400;
    let r = y % 400;
    assert(y == 400 * q + r && 0 <= r < 400) by (nonlinear_arith)
        requires
            q == y / 400,
            r == y % 400,
    ;
    assert((399 - y) == 400 * (-q) + (399 - r));
    assert((399 - y) / 400 == -q) by (nonlinear_arith)
        requires
            (399 - y) == 400 * (-q) + (399 - r),
            0 <= 399 - r < 400,
    ;
}

/// [`days_from_civil`] on machine integers.
pub fn days_from_civil_exec(year: i64, month: i64, day: i64) -> (days: i128)
    requires
        1 <= month <= 12,
        1 <= day <= 31,
    ensures
        days == days_from_civil(year as int, month as int, day as int),
{
    let y: i128 = if month <= 2 {
        year as i128 - 1
    } else {
        year as i128
    };
    let era: i128 = if y >= 0 {
        y / 400
    } else {
        -((399 - y) / 400)
    };
    proof {
        if y < 0 {
            lemma_floor_div(y as int);
        }
    }
    let year_of_era: i128 = y - era * 400;
    assert(0 <= year_of_era < 400) by (nonlinear_arith)
        requires
            era == (y as int) / 400,
            year_of_era == y - era * 400,
    ;
    let month_shifted: i128 = if month > 2 {
        month as i128 - 3
    } else {
        month as i128 + 9
    };
    let day_of_year: i128 = (153 * month_shifted + 2) / 5 + day as i128 - 1;
    let day_of_era: i128 = year_of_era * 365 + year_of_era / 4 - year_of_era / 100 + day_of_year;
    assert(-0x1_0000_0000_0000_0000 <= era <= 0x1_0000_0000_0000_0000);
    era * 146_097 + day_of_era - 719_468
}

pub fn parse_date(s: &str) -> (r: Option<i64>)
    ensures
        match r {
            Some(v) => date_of(s@) == Some(v as int),
            None => date_of(s@) is None,
        },
{
    let parts = split_exec(&chars_of(s), '-');
    let ghost ps = views(parts@);
    if parts.len() != 3 {
        return None;
    }
    assert(ps[0] == parts@[0]@ && ps[1] == parts@[1]@ && ps[2] == parts@[2]@);
    let year = match parse_i64_exec(&parts[0]) {
        Some(v) => v,
        None => return None,
    };
    let month = match parse_i64_exec(&parts[1]) {
        Some(v) => v,
        None => return None,
    };
    let day = match parse_i64_exec(&parts[2]) {
        Some(v) => v,
        None => return None,
    };
    if month < 1 || month > 12 || day < 1 || day > 31 {
        return None;
    }
    let days = days_from_civil_exec(year, month, day);
    // a year past some hundreds of billions has no second count in an i64
    if days < -106_751_991_167_300 || days > 106_751_991_167_300 {
        return None;
    }
    let seconds = days * 86_400;
    if seconds < -0x8000_0000_0000_0000 || seconds > 0x7fff_ffff_ffff_ffff {
        return None;
    }
    Some(seconds as i64)
}

// ---------------------------------------------------------------------------------------------
// the unified syntax
// ---------------------------------------------------------------------------------------------
pub struct QueryView {
    pub text_words: Seq<Seq<char>>,
    pub author: Option<Seq<char>>,
    pub after: Option<int>,
    pub before: Option<int>,
}

/// The filters a sequence of words sets, read in order: a later filter of the same kind wins,
/// an empty `autor:` is dropped, a `depois:` or `antes:` that is not a date clears its filter.
pub open spec fn query_of(ws: Seq<Seq<char>>) -> QueryView
    decreases ws.len(),
{
    if ws.len() == 0 {
        QueryView { text_words: seq![], author: None, after: None, before: None }
    } else {
        let q = query_of(ws.drop_last());
        let w = ws.last();
        match strip_prefix(w, "autor:"@) {
            Some(v) => if v.len() > 0 {
                QueryView { author: Some(v), ..q }
            } else {
                q
            },
            None => match strip_prefix(w, "depois:"@) {
                Some(v) => QueryView { after: date_of(v), ..q },
                None => match strip_prefix(w, "antes:"@) {
                    Some(v) => QueryView { before: date_of(v), ..q },
                    None => QueryView { text_words: q.text_words.push(w), ..q },
                },
            },
        }
    }
}

/// A parsed search box.
#[derive(Debug, Default, PartialEq, Eq)]
pub struct ParsedQuery {
    pub text: Option<String>,
    pub author: Option<String>,
    /// Seconds since the epoch, inclusive.
    pub after: Option<i64>,
    /// Seconds since the epoch, exclusive: "before the day", not "up to the day".
    pub before: Option<i64>,
}

pub open spec fn opt_int(o: Option<i64>) -> Option<int> {
    match o {
        Some(v) => Some(v as int),
        None => None,
    }
}

pub open spec fn parsed_matches(p: ParsedQuery, raw: Seq<char>) -> bool {
    let q = query_of(words(raw));
    &&& opt_str(p.text) == if q.text_words.len() == 0 {
        None
    } else {
        Some(join(q.text_words, seq![' ']))
    }
    &&& opt_str(p.author) == q.author
    &&& opt_int(p.after) == q.after
    &&& opt_int(p.before) == q.before
}

pub fn parse_query(raw: &str) -> (p: ParsedQuery)
    ensures
        parsed_matches(p, raw@),
{
    let ws = words_exec(&chars_of(raw));
    let ghost wv = views(ws@);
    let mut text_words: Vec<Vec<char>> = Vec::new();
    let mut author: Option<String> = None;
    let mut after: Option<i64> = None;
    let mut before: Option<i64> = None;
    let mut i: usize = 0;
    while i < ws.len()
        invariant
            i <= ws.len(),
            wv == views(ws@),
            ({
                let q = query_of(wv.take(i as int));
                &&& views(text_words@) == q.text_words
                &&& opt_str(author) == q.author
                &&& opt_int(after) == q.after
                &&& opt_int(before) == q.before
            }),
        decreases ws.len() - i,
    {
        let w = &ws[i];
        assert(wv.take(i + 1).drop_last() =~= wv.take(i as int));
        assert(wv.take(i + 1).last() == w@);
        match strip_prefix_exec(w, &chars_of("autor:")) {
            Some(v) => {
                if v.len() > 0 {
                    author = Some(string_of(&v));
                }
            },
            None => match strip_prefix_exec(w, &chars_of("depois:")) {
                Some(v) => {
                    after = parse_date(string_of(&v).as_str());
                },
                None => match strip_prefix_exec(w, &chars_of("antes:")) {
                    Some(v) => {
                        before = parse_date(string_of(&v).as_str());
                    },
                    None => {
                        let ghost old_words = views(text_words@);
                        let copy = crate::text::slice_of(w, 0, w.len());
                        text_words.push(copy);
                        assert(views(text_words@) =~= old_words.push(w@));
                    },
                },
            },
        }
        i += 1;
    }
    assert(wv.take(ws.len() as int) =~= wv);
    let text = if text_words.len() == 0 {
        None
    } else {
        let space = vec![' '];
        assert(space@ =~= seq![' ']);
        Some(string_of(&join_exec(&text_words, &space)))
    };
    ParsedQuery { text, author, after, before }
}

// ---------------------------------------------------------------------------------------------
// the plan
// ---------------------------------------------------------------------------------------------
/// What the index is asked for a search box.
#[derive(Debug, Clone, PartialEq, Eq)]
pub enum SearchPlan {
    /// A blank box: no filter, and the database is not touched.
    Nothing,
    /// An oid prefix against the table's key, as a `LIKE` pattern, newest first.
    HashPrefix { pattern: String },
    /// Free text through FTS5, most relevant first, with the structured filters.
    FullText { match_query: String, author_like: Option<String>, after: Option<i64>, before: Option<i64> },
    /// Only structured filters: the plain table, newest first.
    Recent { author_like: Option<String>, after: Option<i64>, before: Option<i64> },
}

pub enum PlanView {
    Nothing,
    HashPrefix(Seq<char>),
    FullText(Seq<char>, Option<Seq<char>>, Option<int>, Option<int>),
    Recent(Option<Seq<char>>, Option<int>, Option<int>),
}

impl View for SearchPlan {
    type V = PlanView;

    open spec fn view(&self) -> PlanView {
        match self {
            SearchPlan::Nothing => PlanView::Nothing,
            SearchPlan::HashPrefix { pattern } => PlanView::HashPrefix(pattern@),
            SearchPlan::FullText { match_query, author_like, after, before } => PlanView::FullText(
                match_query@,
                opt_str(*author_like),
                opt_int(*after),
                opt_int(*before),
            ),
            SearchPlan::Recent { author_like, after, before } => PlanView::Recent(
                opt_str(*author_like),
                opt_int(*after),
                opt_int(*before),
            ),
        }
    }
}

pub open spec fn like_containing(v: Seq<char>) -> Seq<char> {
    seq!['%'] + v + seq!['%']
}

/// The plan for a search box.
pub open spec fn plan_of(query: Seq<char>) -> PlanView {
    let t = trim(query);
    if t.len() == 0 {
        PlanView::Nothing
    } else if hash_like(t) {
        PlanView::HashPrefix(t.map_values(|c: char| ascii_lower(c)) + seq!['%'])
    } else {
        let q = query_of(words(t));
        let author_like = match q.author {
            Some(a) => Some(like_containing(a)),
            None => None,
        };
        if q.text_words.len() == 0 {
            PlanView::Recent(author_like, q.after, q.before)
        } else {
            match match_query_of(join(q.text_words, seq![' '])) {
                Some(m) => PlanView::FullText(m, author_like, q.after, q.before),
                None => PlanView::Recent(author_like, q.after, q.before),
            }
        }
    }
}

pub fn plan_search(query: &str) -> (plan: SearchPlan)
    ensures
        plan@ == plan_of(query@),
{
    let t = trim_exec(&chars_of(query));
    if t.len() == 0 {
        return SearchPlan::Nothing;
    }
    let ts = string_of(&t);
    if is_hash_like(ts.as_str()) {
        let mut pattern: Vec<char> = Vec::new();
        let mut i: usize = 0;
        while i < t.len()
            invariant
                i <= t.len(),
                pattern@ =~= t@.take(i as int).map_values(|c: char| ascii_lower(c)),
            decreases t.len() - i,
        {
            let c = t[i];
            let lower = if 'A' <= c && c <= 'Z' {
                (((c as u32) + 32) as u8) as char
            } else {
                c
            };
            assert(lower == ascii_lower(c));
            pattern.push(lower);
            assert(t@.take(i + 1).map_values(|c: char| ascii_lower(c)) =~= t@.take(
                i as int,
            ).map_values(|c: char| ascii_lower(c)).push(ascii_lower(c)));
            i += 1;
        }
        assert(t@.take(t.len() as int) =~= t@);
        pattern.push('%');
        assert(pattern@ =~= t@.map_values(|c: char| ascii_lower(c)) + seq!['%']);
        return SearchPlan::HashPrefix { pattern: string_of(&pattern) };
    }
    let parsed = parse_query(ts.as_str());
    let author_like = match &parsed.author {
        Some(a) => {
            let mut like = vec!['%'];
            append(&mut like, &chars_of(a.as_str()));
            like.push('%');
            assert(like@ =~= like_containing(a@));
            Some(string_of(&like))
        },
        None => None,
    };
    match &parsed.text {
        Some(text) => {
            match build_match_query(text.as_str()) {
                Some(match_query) => SearchPlan::FullText {
                    match_query,
                    author_like,
                    after: parsed.after,
                    before: parsed.before,
                },
                None => SearchPlan::Recent { author_like, after: parsed.after, before: parsed.before },
            }
        },
        None => SearchPlan::Recent { author_like, after: parsed.after, before: parsed.before },
    }
}

/// The dates of a plan are the ones the query's filters set: whatever the plan, free text or
/// filters only, its `after` and `before` are those [`parse_query`] reads from the same box.
pub proof fn law_the_plan_keeps_the_dates(query: Seq<char>)
    ensures
        ({
            let q = query_of(words(trim(query)));
            &&& plan_of(query) matches PlanView::FullText(_, _, a, b) ==> a == q.after && b == q.before
            &&& plan_of(query) matches PlanView::Recent(_, a, b) ==> a == q.after && b == q.before
            // and the author filter is the box's author, anywhere in the name
            &&& plan_of(query) matches PlanView::FullText(_, au, _, _) ==> au == match q.author {
                Some(x) => Some(seq!['%'] + x + seq!['%']),
                None => None,
            }
            &&& plan_of(query) matches PlanView::Recent(au, _, _) ==> au == match q.author {
                Some(x) => Some(seq!['%'] + x + seq!['%']),
                None => None,
            }
            // a blank box asks nothing, and free text is searched as text
            &&& (plan_of(query) is Nothing <==> trim(query).len() == 0)
            &&& (plan_of(query) is FullText ==> q.text_words.len() > 0)
        }),
{
}

proof fn lemma_prefix_char(p: Seq<char>, w: Seq<char>, k: int)
    requires
        p.is_prefix_of(w),
        0 <= k < p.len(),
    ensures
        w[k] == p[k],
{
    assert(w.subrange(0, p.len() as int)[k] == w[k]);
}

/// One word read: a `depois:` word sets the date after, an `antes:` word the date before, and
/// any other word leaves both as they were.
proof fn lemma_date_step(ws: Seq<Seq<char>>)
    requires
        ws.len() > 0,
    ensures
        query_of(ws).after == if "depois:"@.is_prefix_of(ws.last()) {
            date_of(ws.last().skip(7))
        } else {
            query_of(ws.drop_last()).after
        },
        query_of(ws).before == if "antes:"@.is_prefix_of(ws.last()) {
            date_of(ws.last().skip(6))
        } else {
            query_of(ws.drop_last()).before
        },
{
    reveal_strlit("depois:");
    reveal_strlit("antes:");
    reveal_strlit("autor:");
    let w = ws.last();
    if "autor:"@.is_prefix_of(w) && "depois:"@.is_prefix_of(w) {
        lemma_prefix_char("autor:"@, w, 0);
        lemma_prefix_char("depois:"@, w, 0);
    }
    if "autor:"@.is_prefix_of(w) && "antes:"@.is_prefix_of(w) {
        lemma_prefix_char("autor:"@, w, 1);
        lemma_prefix_char("antes:"@, w, 1);
    }
    if "depois:"@.is_prefix_of(w) && "antes:"@.is_prefix_of(w) {
        lemma_prefix_char("depois:"@, w, 0);
        lemma_prefix_char("antes:"@, w, 0);
    }
}

/// A value that each step either sets (where `hits`) or keeps, from `None`: at the end it is
/// what the last step that set it set, or `None` if none did.
proof fn lemma_last_set_wins<T>(vals: Seq<Option<T>>, hits: Seq<bool>, sets: Seq<Option<T>>)
    requires
        vals.len() == hits.len() + 1,
        sets.len() == hits.len(),
        vals[0] is None,
        forall|k: int| 0 <= k < hits.len() ==> vals[k + 1] == if #[trigger] hits[k] {
            sets[k]
        } else {
            vals[k]
        },
    ensures
        forall|i: int|
            0 <= i < hits.len() && #[trigger] hits[i] && (forall|j: int| i < j < hits.len() ==> !#[trigger] hits[j])
                ==> vals[hits.len() as int] == sets[i],
        (forall|j: int| 0 <= j < hits.len() ==> !#[trigger] hits[j]) ==> vals[hits.len() as int] is None,
    decreases hits.len(),
{
    let n = hits.len() as int;
    if n > 0 {
        let h = hits.drop_last();
        lemma_last_set_wins(vals.drop_last(), h, sets.drop_last());
        assert(vals[n] == if hits[n - 1] { sets[n - 1] } else { vals[n - 1] });
        assert forall|i: int|
            0 <= i < n && #[trigger] hits[i] && (forall|j: int| i < j < n ==> !#[trigger] hits[j]) implies vals[n]
                == sets[i] by {
            if i < n - 1 {
                assert(!hits[n - 1]);
                assert(h[i] == hits[i]);
                assert forall|j: int| i < j < h.len() implies !#[trigger] h[j] by {
                    assert(h[j] == hits[j]);
                    assert(!hits[j]);
                }
                assert(vals.drop_last()[h.len() as int] == vals[n - 1]);
            }
        }
        if forall|j: int| 0 <= j < n ==> !#[trigger] hits[j] {
            assert(!hits[n - 1]);
            assert forall|j: int| 0 <= j < h.len() implies !#[trigger] h[j] by {
                assert(h[j] == hits[j]);
                assert(!hits[j]);
            }
        }
    }
}

/// Which date filter counts: the last `depois:` word of the box sets the date after (its
/// value read as a date, `None` when it is not one), the last `antes:` word the date before;
/// with no such word the filter is absent.
pub proof fn law_the_last_date_filter_counts(ws: Seq<Seq<char>>)
    ensures
        forall|i: int|
            #![trigger ws[i]]
            0 <= i < ws.len() && "depois:"@.is_prefix_of(ws[i]) && (forall|j: int|
                i < j < ws.len() ==> !"depois:"@.is_prefix_of(#[trigger] ws[j])) ==> query_of(ws).after
                == date_of(ws[i].skip(7)),
        (forall|j: int| 0 <= j < ws.len() ==> !"depois:"@.is_prefix_of(#[trigger] ws[j])) ==> query_of(
            ws,
        ).after is None,
        forall|i: int|
            #![trigger ws[i]]
            0 <= i < ws.len() && "antes:"@.is_prefix_of(ws[i]) && (forall|j: int|
                i < j < ws.len() ==> !"antes:"@.is_prefix_of(#[trigger] ws[j])) ==> query_of(ws).before
                == date_of(ws[i].skip(6)),
        (forall|j: int| 0 <= j < ws.len() ==> !"antes:"@.is_prefix_of(#[trigger] ws[j])) ==> query_of(
            ws,
        ).before is None,
{
    reveal_strlit("depois:");
    reveal_strlit("antes:");
    let n = ws.len() as int;
    let after = Seq::new((n + 1) as nat, |k: int| query_of(ws.take(k)).after);
    let before = Seq::new((n + 1) as nat, |k: int| query_of(ws.take(k)).before);
    let hits_a = Seq::new(n as nat, |k: int| "depois:"@.is_prefix_of(ws[k]));
    let hits_b = Seq::new(n as nat, |k: int| "antes:"@.is_prefix_of(ws[k]));
    let sets_a = Seq::new(n as nat, |k: int| date_of(ws[k].skip(7)));
    let sets_b = Seq::new(n as nat, |k: int| date_of(ws[k].skip(6)));
    assert(ws.take(0) =~= Seq::<Seq<char>>::empty());
    assert forall|k: int| 0 <= k < n implies after[k + 1] == if #[trigger] hits_a[k] {
        sets_a[k]
    } else {
        after[k]
    } && before[k + 1] == if hits_b[k] {
        sets_b[k]
    } else {
        before[k]
    } by {
        let t = ws.take(k + 1);
        lemma_date_step(t);
        assert(t.drop_last() =~= ws.take(k));
        assert(t.last() == ws[k]);
    }
    assert forall|k: int| 0 <= k < n implies before[k + 1] == if #[trigger] hits_b[k] {
        sets_b[k]
    } else {
        before[k]
    } by {
        let t = ws.take(k + 1);
        lemma_date_step(t);
        assert(t.drop_last() =~= ws.take(k));
        assert(t.last() == ws[k]);
    }
    lemma_last_set_wins(after, hits_a, sets_a);
    lemma_last_set_wins(before, hits_b, sets_b);
    assert(ws.take(n) =~= ws);
    assert(after[n] == query_of(ws).after);
    assert(before[n] == query_of(ws).before);
    assert forall|i: int|
        #![trigger ws[i]]
        0 <= i < ws.len() && "depois:"@.is_prefix_of(ws[i]) && (forall|j: int|
            i < j < ws.len() ==> !"depois:"@.is_prefix_of(#[trigger] ws[j])) implies query_of(ws).after
            == date_of(ws[i].skip(7)) by {
        assert(hits_a[i]);
        assert forall|j: int| i < j < n implies !#[trigger] hits_a[j] by {
            assert(!"depois:"@.is_prefix_of(ws[j]));
        }
    }
    assert forall|i: int|
        #![trigger ws[i]]
        0 <= i < ws.len() && "antes:"@.is_prefix_of(ws[i]) && (forall|j: int|
            i < j < ws.len() ==> !"antes:"@.is_prefix_of(#[trigger] ws[j])) implies query_of(ws).before
            == date_of(ws[i].skip(6)) by {
        assert(hits_b[i]);
        assert forall|j: int| i < j < n implies !#[trigger] hits_b[j] by {
            assert(!"antes:"@.is_prefix_of(ws[j]));
        }
    }
    if forall|j: int| 0 <= j < ws.len() ==> !"depois:"@.is_prefix_of(#[trigger] ws[j]) {
        assert forall|j: int| 0 <= j < n implies !#[trigger] hits_a[j] by {
            assert(!"depois:"@.is_prefix_of(ws[j]));
        }
    }
    if forall|j: int| 0 <= j < ws.len() ==> !"antes:"@.is_prefix_of(#[trigger] ws[j]) {
        assert forall|j: int| 0 <= j < n implies !#[trigger] hits_b[j] by {
            assert(!"antes:"@.is_prefix_of(ws[j]));
        }
    }
}

/// One word read, for the author and the free text: an `autor:` word with a value sets the
/// author, an empty one is dropped, a date filter is no text, and any other word is text.
proof fn lemma_word_step(ws: Seq<Seq<char>>)
    requires
        ws.len() > 0,
    ensures
        query_of(ws).author == if "autor:"@.is_prefix_of(ws.last()) && ws.last().len() > 6 {
            Some(ws.last().skip(6))
        } else {
            query_of(ws.drop_last()).author
        },
        query_of(ws).text_words == if "autor:"@.is_prefix_of(ws.last()) || "depois:"@.is_prefix_of(ws.last())
            || "antes:"@.is_prefix_of(ws.last()) {
            query_of(ws.drop_last()).text_words
        } else {
            query_of(ws.drop_last()).text_words.push(ws.last())
        },
{
    reveal_strlit("depois:");
    reveal_strlit("antes:");
    reveal_strlit("autor:");
    let w = ws.last();
    if "autor:"@.is_prefix_of(w) && "depois:"@.is_prefix_of(w) {
        lemma_prefix_char("autor:"@, w, 0);
        lemma_prefix_char("depois:"@, w, 0);
    }
    if "autor:"@.is_prefix_of(w) && "antes:"@.is_prefix_of(w) {
        lemma_prefix_char("autor:"@, w, 1);
        lemma_prefix_char("antes:"@, w, 1);
    }
    if "depois:"@.is_prefix_of(w) && "antes:"@.is_prefix_of(w) {
        lemma_prefix_char("depois:"@, w, 0);
        lemma_prefix_char("antes:"@, w, 0);
    }
}

/// A word of the box that no filter claims.
pub open spec fn is_text_word(w: Seq<char>) -> bool {
    !"autor:"@.is_prefix_of(w) && !"depois:"@.is_prefix_of(w) && !"antes:"@.is_prefix_of(w)
}

/// What the filters leave is the text: every word that is not `autor:`, `depois:` or
/// `antes:`, in the order typed; and the author is the value of the last `autor:` word that has
/// one, or none.
pub proof fn law_the_text_and_the_author_of_a_box(ws: Seq<Seq<char>>)
    ensures
        query_of(ws).text_words == ws.filter(|w: Seq<char>| is_text_word(w)),
        forall|i: int|
            #![trigger ws[i]]
            0 <= i < ws.len() && "autor:"@.is_prefix_of(ws[i]) && ws[i].len() > 6 && (forall|j: int|
                i < j < ws.len() ==> !("autor:"@.is_prefix_of(#[trigger] ws[j]) && ws[j].len() > 6))
                ==> query_of(ws).author == Some(ws[i].skip(6)),
        (forall|j: int| 0 <= j < ws.len() ==> !("autor:"@.is_prefix_of(#[trigger] ws[j]) && ws[j].len() > 6))
            ==> query_of(ws).author is None,
{
    lemma_text_words(ws);
    let n = ws.len() as int;
    let vals = Seq::new((n + 1) as nat, |k: int| query_of(ws.take(k)).author);
    let hits = Seq::new(n as nat, |k: int| "autor:"@.is_prefix_of(ws[k]) && ws[k].len() > 6);
    let sets = Seq::new(n as nat, |k: int| Some(ws[k].skip(6)));
    assert(ws.take(0) =~= Seq::<Seq<char>>::empty());
    assert forall|k: int| 0 <= k < n implies vals[k + 1] == if #[trigger] hits[k] {
        sets[k]
    } else {
        vals[k]
    } by {
        let t = ws.take(k + 1);
        lemma_word_step(t);
        assert(t.drop_last() =~= ws.take(k));
        assert(t.last() == ws[k]);
    }
    lemma_last_set_wins(vals, hits, sets);
    assert(ws.take(n) =~= ws);
    assert(vals[n] == query_of(ws).author);
    assert forall|i: int|
        #![trigger ws[i]]
        0 <= i < ws.len() && "autor:"@.is_prefix_of(ws[i]) && ws[i].len() > 6 && (forall|j: int|
            i < j < ws.len() ==> !("autor:"@.is_prefix_of(#[trigger] ws[j]) && ws[j].len() > 6))
            implies query_of(ws).author == Some(ws[i].skip(6)) by {
        assert(hits[i]);
        assert forall|j: int| i < j < n implies !#[trigger] hits[j] by {
            assert(!("autor:"@.is_prefix_of(ws[j]) && ws[j].len() > 6));
        }
    }
    if forall|j: int| 0 <= j < ws.len() ==> !("autor:"@.is_prefix_of(#[trigger] ws[j]) && ws[j].len() > 6) {
        assert forall|j: int| 0 <= j < n implies !#[trigger] hits[j] by {
            assert(!("autor:"@.is_prefix_of(ws[j]) && ws[j].len() > 6));
        }
    }
}

proof fn lemma_text_words(ws: Seq<Seq<char>>)
    ensures
        query_of(ws).text_words == ws.filter(|w: Seq<char>| is_text_word(w)),
    decreases ws.len(),
{
    reveal(Seq::filter);
    if ws.len() > 0 {
        lemma_text_words(ws.drop_last());
        lemma_word_step(ws);
    }
}

} // verus!
