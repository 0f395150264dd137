//! Reading the NUL-separated records of `git log -z --format=%H%x00%an%x00%ae%x00%at%x00%s`.
//!
//! Five fields per commit, each ended by a NUL (the last one too: `-z` replaces the newline git
//! would put between commits by another NUL). The stream is nothing but `field\0` repeated, so
//! cutting at every NUL needs no state about where a commit starts: the [`RecordSplitter`]
//! counts the fields.
use vstd::prelude::*;
use crate::text::{strs, chars_of, lossy_chars, parse_i64, parse_i64_exec, string_of, utf8_lossy};

verus! {

broadcast use vstd::seq_lib::group_seq_properties;

/// One commit read from the stream: the fields a search hit shows.
#[derive(Debug, Clone, PartialEq)]
pub struct StreamedCommit {
    pub oid: String,
    pub author: String,
    pub email: String,
    pub time: i64,
    pub summary: String,
}

pub struct StreamedView {
    pub oid: Seq<char>,
    pub author: Seq<char>,
    pub email: Seq<char>,
    pub time: int,
    pub summary: Seq<char>,
}

impl View for StreamedCommit {
    type V = StreamedView;

    open spec fn view(&self) -> StreamedView {
        StreamedView {
            oid: self.oid@,
            author: self.author@,
            email: self.email@,
            time: self.time as int,
            summary: self.summary@,
        }
    }
}

pub open spec fn commit_views(v: Seq<StreamedCommit>) -> Seq<StreamedView> {
    v.map_values(|c: StreamedCommit| c@)
}

/// Where the first NUL stands.
pub open spec fn first_nul(b: Seq<u8>) -> Option<int>
    decreases b.len(),
{
    if b.len() == 0 {
        None
    } else if b[0] == 0 {
        Some(0)
    } else {
        match first_nul(b.drop_first()) {
            Some(i) => Some(i + 1),
            None => None,
        }
    }
}

pub proof fn lemma_first_nul(b: Seq<u8>)
    ensures
        first_nul(b) matches Some(j) ==> 0 <= j < b.len() && b[j] == 0 && forall|k: int|
            0 <= k < j ==> #[trigger] b[k] != 0,
        first_nul(b) is None ==> forall|k: int| 0 <= k < b.len() ==> #[trigger] b[k] != 0,
    decreases b.len(),
{
    if b.len() > 0 && b[0] != 0 {
        lemma_first_nul(b.drop_first());
        assert forall|k: int| 1 <= k < b.len() implies #[trigger] b[k] == b.drop_first()[k - 1] by {}
    }
}

pub proof fn lemma_first_nul_exact(b: Seq<u8>, j: int)
    requires
        0 <= j < b.len(),
        b[j] == 0,
        forall|k: int| 0 <= k < j ==> #[trigger] b[k] != 0,
    ensures
        first_nul(b) == Some(j),
    decreases j,
{
    if j > 0 {
        assert forall|k: int| 0 <= k < j - 1 implies #[trigger] b.drop_first()[k] != 0 by {
            assert(b.drop_first()[k] == b[k + 1]);
        }
        lemma_first_nul_exact(b.drop_first(), j - 1);
    }
}

/// The fields a stream of bytes closes (each without its NUL), and the unfinished rest.
pub open spec fn fields_of(b: Seq<u8>) -> (Seq<Seq<u8>>, Seq<u8>)
    decreases b.len(),
{
    match first_nul(b) {
        Some(at) => {
            if 0 <= at < b.len() {
                let (more, rest) = fields_of(b.skip(at + 1));
                (seq![b.take(at)] + more, rest)
            } else {
                (seq![], b)
            }
        },
        None => (seq![], b),
    }
}

/// Each field decoded on its own, invalid UTF-8 replaced.
pub open spec fn decoded(fs: Seq<Seq<u8>>) -> Seq<Seq<char>> {
    fs.map_values(|f: Seq<u8>| utf8_lossy(f))
}

/// The commit time: the seconds git wrote, or 0 where they do not read as an `i64`.
pub open spec fn time_of(t: Seq<char>) -> int {
    match parse_i64(t) {
        Some(n) => n,
        None => 0,
    }
}

pub open spec fn commit_of(fs: Seq<Seq<char>>) -> StreamedView {
    StreamedView { oid: fs[0], author: fs[1], email: fs[2], time: time_of(fs[3]), summary: fs[4] }
}

/// The commits that whole groups of five fields make, and the fields left waiting.
pub open spec fn commits_of(fs: Seq<Seq<char>>) -> (Seq<StreamedView>, Seq<Seq<char>>)
    decreases fs.len(),
{
    if fs.len() >= 5 {
        let (more, rest) = commits_of(fs.skip(5));
        (seq![commit_of(fs)] + more, rest)
    } else {
        (seq![], fs)
    }
}

/// One push: the commits it closes, the bytes left, the fields left.
pub open spec fn step(buffer: Seq<u8>, fields: Seq<Seq<char>>, chunk: Seq<u8>) -> (
    Seq<StreamedView>,
    Seq<u8>,
    Seq<Seq<char>>,
) {
    let (closed, rest) = fields_of(buffer + chunk);
    let (commits, left) = commits_of(fields + decoded(closed));
    (commits, rest, left)
}

proof fn lemma_fields_of_concat(x: Seq<u8>, y: Seq<u8>)
    ensures
        fields_of(x).0 + fields_of(fields_of(x).1 + y).0 == fields_of(x + y).0,
        fields_of(fields_of(x).1 + y).1 == fields_of(x + y).1,
    decreases x.len(),
{
    lemma_first_nul(x);
    match first_nul(x) {
        Some(at) => {
            lemma_first_nul(x + y);
            assert forall|k: int| 0 <= k < at implies #[trigger] (x + y)[k] != 0 by {
                assert((x + y)[k] == x[k]);
            }
            assert((x + y)[at] == x[at]);
            lemma_first_nul_exact(x + y, at);
            assert((x + y).take(at) =~= x.take(at));
            assert((x + y).skip(at + 1) =~= x.skip(at + 1) + y);
            lemma_fields_of_concat(x.skip(at + 1), y);
        },
        None => {},
    }
}

proof fn lemma_commits_of_concat(x: Seq<Seq<char>>, y: Seq<Seq<char>>)
    ensures
        commits_of(x).0 + commits_of(commits_of(x).1 + y).0 == commits_of(x + y).0,
        commits_of(commits_of(x).1 + y).1 == commits_of(x + y).1,
    decreases x.len(),
{
    if x.len() >= 5 {
        assert((x + y).skip(5) =~= x.skip(5) + y);
        assert forall|i: int| 0 <= i < 5 implies #[trigger] (x + y)[i] == x[i] by {}
        assert(commit_of(x + y) == commit_of(x));
        lemma_commits_of_concat(x.skip(5), y);
    } else {
        assert(commits_of(x).0 + commits_of(x + y).0 =~= commits_of(x + y).0);
    }
}

/// Reads break the stream anywhere: two pushes close the same commits, in the same order, and
/// leave the same bytes and fields waiting, as one push of the two chunks together.
pub proof fn law_records_ignore_chunk_boundaries(
    buffer: Seq<u8>,
    fields: Seq<Seq<char>>,
    a: Seq<u8>,
    b: Seq<u8>,
)
    ensures
        ({
            let (c1, b1, f1) = step(buffer, fields, a);
            let (c2, b2, f2) = step(b1, f1, b);
            let (c, bb, ff) = step(buffer, fields, a + b);
            c1 + c2 == c && b2 == bb && f2 == ff
        }),
{
    let x = buffer + a;
    assert(buffer + (a + b) =~= x + b);
    lemma_fields_of_concat(x, b);
    let (f1s, r1) = fields_of(x);
    let (f2s, r2) = fields_of(r1 + b);
    assert(decoded(f1s + f2s) =~= decoded(f1s) + decoded(f2s));
    assert(fields + decoded(f1s + f2s) =~= (fields + decoded(f1s)) + decoded(f2s));
    lemma_commits_of_concat(fields + decoded(f1s), decoded(f2s));
}

/// Counts the fields of `git log -z` output across reads that break anywhere.
#[derive(Debug)]
pub struct RecordSplitter {
    /// The bytes of the field under way, without the NUL that will close it.
    buffer: Vec<u8>,
    /// The fields of this commit already closed, waiting for the others.
    fields: Vec<String>,
}

impl RecordSplitter {
    #[verifier::type_invariant]
    spec fn fewer_than_a_commit(self) -> bool {
        self.fields.len() < 5
    }
}

impl View for RecordSplitter {
    type V = (Seq<u8>, Seq<Seq<char>>);

    closed spec fn view(&self) -> (Seq<u8>, Seq<Seq<char>>) {
        (self.buffer@, strs(self.fields@))
    }
}

impl Default for RecordSplitter {
    fn default() -> (s: Self)
        ensures
            s@.0.len() == 0,
            s@.1.len() == 0,
    {
        RecordSplitter { buffer: Vec::new(), fields: Vec::new() }
    }
}

impl RecordSplitter {
    /// Takes a piece of stdout and returns the commits it closed. A read may close several
    /// fields and commits, or none.
    pub fn push(&mut self, chunk: &[u8]) -> (commits: Vec<StreamedCommit>)
        ensures
            commit_views(commits@) == step(old(self)@.0, old(self)@.1, chunk@).0,
            final(self)@.0 == step(old(self)@.0, old(self)@.1, chunk@).1,
            final(self)@.1 == step(old(self)@.0, old(self)@.1, chunk@).2,
            old(self)@.1.len() < 5,
            final(self)@.1.len() < 5,
    {
        proof {
            use_type_invariant(&*self);
        }
        let ghost start = self@;
        assert(start.1.len() < 5);
        let mut rest: Vec<u8> = Vec::new();
        std::mem::swap(&mut rest, &mut self.buffer);
        let mut fields: Vec<String> = Vec::new();
        std::mem::swap(&mut fields, &mut self.fields);
        let mut i: usize = 0;
        while i < chunk.len()
            invariant
                i <= chunk.len(),
                rest@ == start.0 + chunk@.take(i as int),
            decreases chunk.len() - i,
        {
            rest.push(chunk[i]);
            i += 1;
        }
        assert(chunk@.take(chunk.len() as int) =~= chunk@);
        let ghost full = rest@;
        let ghost all = start.1 + decoded(fields_of(full).0);
        let mut commits: Vec<StreamedCommit> = Vec::new();
        loop
            invariant
                start == old(self)@,
                start.1.len() < 5,
                full == start.0 + chunk@,
                all == start.1 + decoded(fields_of(full).0),
                fields@.len() < 5,
                fields_of(full).1 == fields_of(rest@).1,
                commits_of(all) == ({
                    let (c, l) = commits_of(strs(fields@) + decoded(fields_of(rest@).0));
                    (commit_views(commits@) + c, l)
                }),
            decreases rest@.len(),
        {
            match first_nul_exec(&rest) {
                Some(at) => {
                    proof {
                        lemma_first_nul(rest@);
                    }
                    let mut head: Vec<u8> = Vec::new();
                    let mut tail: Vec<u8> = Vec::new();
                    let mut k: usize = 0;
                    while k < rest.len()
                        invariant
                            k <= rest.len(),
                            at < rest.len(),
                            head@ == rest@.take(if k <= at { k as int } else { at as int }),
                            tail@ == if k <= at + 1 {
                                Seq::<u8>::empty()
                            } else {
                                rest@.subrange(at + 1, k as int)
                            },
                        decreases rest.len() - k,
                    {
                        if k < at {
                            head.push(rest[k]);
                        } else if k > at {
                            tail.push(rest[k]);
                        }
                        k += 1;
                    }
                    assert(tail@ =~= rest@.skip(at + 1));
                    let text = lossy_chars(head.as_slice());
                    let field = string_of(&text);
                    let ghost before = strs(fields@);
                    let ghost more = fields_of(tail@).0;
                    proof {
                        assert(decoded(fields_of(rest@).0) =~= seq![field@] + decoded(more));
                        assert(before + decoded(fields_of(rest@).0) =~= before.push(field@)
                            + decoded(more));
                    }
                    fields.push(field);
                    assert(strs(fields@) =~= before.push(field@));
                    if fields.len() == 5 {
                        let commit = commit_from(fields);
                        fields = Vec::new();
                        let ghost done = commits@;
                        commits.push(commit);
                        proof {
                            let fs = before.push(field@) + decoded(more);
                            assert(fs.skip(5) =~= decoded(more));
                            assert(strs(fields@) + decoded(more) =~= decoded(more));
                            assert(commit_views(commits@) =~= commit_views(done).push(commit@));
                            let (c, l) = commits_of(decoded(more));
                            assert(commit_views(done) + (seq![commit_of(fs)] + c) =~=
                                commit_views(commits@) + c);
                        }
                    }
                    rest = tail;
                },
                None => {
                    proof {
                        lemma_first_nul(rest@);
                        assert(strs(fields@) + decoded(fields_of(rest@).0) =~= strs(fields@));
                        assert(commit_views(commits@) + seq![] =~= commit_views(commits@));
                    }
                    *self = RecordSplitter { buffer: rest, fields };
                    return commits;
                },
            }
        }
    }
}

fn first_nul_exec(b: &Vec<u8>) -> (r: Option<usize>)
    ensures
        match r {
            Some(j) => first_nul(b@) == Some(j as int),
            None => first_nul(b@) is None,
        },
{
    let mut i: usize = 0;
    while i < b.len()
        invariant
            i <= b.len(),
            forall|k: int| 0 <= k < i ==> #[trigger] b@[k] != 0,
        decreases b.len() - i,
    {
        if b[i] == 0 {
            proof {
                lemma_first_nul_exact(b@, i as int);
            }
            return Some(i);
        }
        i += 1;
    }
    proof {
        lemma_first_nul(b@);
        if let Some(j) = first_nul(b@) {
            assert(b@[j] != 0);
        }
    }
    None
}

fn commit_from(fields: Vec<String>) -> (c: StreamedCommit)
    requires
        fields@.len() == 5,
    ensures
        c@ == commit_of(strs(fields@)),
{
    let ghost fs = strs(fields@);
    let mut fields = fields;
    let summary = fields.pop().unwrap();
    let time_text = fields.pop().unwrap();
    let email = fields.pop().unwrap();
    let author = fields.pop().unwrap();
    let oid = fields.pop().unwrap();
    let time = match parse_i64_exec(&chars_of(time_text.as_str())) {
        Some(t) => t,
        None => 0,
    };
    StreamedCommit { oid, author, email, time, summary }
}

} // verus!
