//! The decisions of the indexing job, which walks a freshly opened repository's history into
//! the search index in the background: whether to run at all, and what the job tells the
//! interface as it goes. The walk and the index are the caller's.
use vstd::prelude::*;
use crate::text::{append, chars_of, dec, dec_exec, eq, string_of};

verus! {

/// How often, in commits, the progress is published again: one event per commit in a hundred
/// thousand would be as many WebSocket messages, and the indicator only has to show it moves.
pub const PROGRESS_EVERY: usize = 500;

pub open spec fn needs_indexing_of(head: Option<Seq<char>>, indexed_tip: Option<Seq<char>>) -> bool {
    match head {
        None => false,
        Some(h) => indexed_tip != Some(h),
    }
}

/// Whether opening a repository starts the job: there is a commit to index (an unborn `HEAD`
/// has none), and the index does not stand at it already (reopening the same repository must
/// not make work). An index that could not be asked counts as standing nowhere.
pub fn needs_indexing(head: Option<&str>, indexed_tip: Option<&str>) -> (b: bool)
    ensures
        b == needs_indexing_of(
            match head {
                Some(h) => Some(h@),
                None => None,
            },
            match indexed_tip {
                Some(t) => Some(t@),
                None => None,
            },
        ),
{
    match head {
        None => false,
        Some(h) => match indexed_tip {
            None => true,
            Some(t) => !eq(&chars_of(h), &chars_of(t)),
        },
    }
}

fn count_text(count: usize, suffix: &str) -> (s: String)
    ensures
        s@ == dec(count as nat) + suffix@,
{
    let mut v = dec_exec(count as u64);
    append(&mut v, &chars_of(suffix));
    string_of(&v)
}

/// The progress note after `count` commits were read: one every [`PROGRESS_EVERY`], saying how
/// many (the total is not known without a second walk, so there is no fraction).
pub fn progress_note(count: usize) -> (note: Option<String>)
    ensures
        count % PROGRESS_EVERY == 0 ==> note is Some && note.unwrap()@ == dec(count as nat) + " commits"@,
        count % PROGRESS_EVERY != 0 ==> note is None,
{
    if count % PROGRESS_EVERY == 0 {
        Some(count_text(count, " commits"))
    } else {
        None
    }
}

/// The job's last log line.
pub fn indexed_note(count: usize) -> (note: String)
    ensures
        note@ == dec(count as nat) + " commits indexados"@,
{
    count_text(count, " commits indexados")
}

} // verus!
