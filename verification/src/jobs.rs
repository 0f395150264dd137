//! The book of jobs: everything that takes long, can fail midway and has to be cancellable.
//!
//! **A job's state lives on the server, not in the tab.** The last full state (progress, recent
//! log, result) is what a reloaded page reads, so reloading in the middle of a clone loses
//! nothing.
//!
//! **Clean-up is registered before starting, not after failing**, and always on condition that
//! *we* created the thing: a user's folder is never deleted.
//!
//! The book is the state and its rules; the caller holds the cancellation tokens and the event
//! channel, runs the clean-up this book hands back, and stamps the time.
use vstd::prelude::*;
use crate::text::{strs, append, chars_of, eq, string_of};
use crate::web::hex_exec;

verus! {

broadcast use vstd::seq_lib::group_seq_properties;

/// How many jobs may run at once. Each can be a `git` talking to the network; more does not go
/// faster and turns a repeated click into a denial of service against the user's own machine.
pub const MAX_RUNNING: usize = 8;

/// How many log lines the server keeps per job: enough for a reconnecting tab, not a log file.
pub const LOG_TAIL: usize = 200;

#[derive(Debug, Clone, Copy, PartialEq, Eq, Structural)]
pub enum JobState {
    Running,
    Done,
    Error,
    Cancelled,
}

impl JobState {
    pub fn is_final(self) -> (b: bool)
        ensures
            b == (self != JobState::Running),
    {
        !matches!(self, JobState::Running)
    }
}

/// A password request waiting for an answer. It lives **in the snapshot** so a tab reloaded in
/// the middle of an SSH clone still knows the job waits for it.
#[derive(Debug, Clone)]
pub struct PendingPrompt {
    pub prompt_id: String,
    pub prompt: String,
}

/// The full state of a job: what the `GET` returns and what `job.done` carries. `P` is the
/// progress and `R` the result, which this book stores and never reads.
#[derive(Debug, Clone)]
pub struct JobSnapshot<P, R> {
    pub job_id: String,
    pub kind: String,
    pub state: JobState,
    pub progress: Option<P>,
    pub log: Vec<String>,
    pub started_at: i64,
    pub finished_at: Option<i64>,
    /// A sentence for a human when the state is `Error`; never raw stderr.
    pub message: Option<String>,
    /// The next thing to do; `None` when there is no honest advice.
    pub action: Option<String>,
    pub pending_prompt: Option<PendingPrompt>,
    pub result: Option<R>,
}

/// What to undo if the job does not reach its end.
#[derive(Debug, Clone, PartialEq, Eq)]
pub enum Cleanup {
    /// Remove a folder **that we created**. A folder that was there before never comes here.
    RemoveCreatedDir(String),
}

#[derive(Debug, Clone, Copy, PartialEq, Eq)]
pub enum JobsError {
    Unknown,
    /// Already [`MAX_RUNNING`] operations under way.
    TooMany,
    /// No identifier could be made.
    Id,
}

impl JobsError {
    /// The HTTP status the refusal is answered with: too many running is the client's to retry.
    pub fn status(&self) -> (code: u16)
        ensures
            code == match self {
                JobsError::Unknown => 404u16,
                JobsError::TooMany => 429u16,
                JobsError::Id => 500u16,
            },
    {
        match self {
            JobsError::Unknown => 404,
            JobsError::TooMany => 429,
            JobsError::Id => 500,
        }
    }
}

#[derive(Debug)]
pub struct JobRecord<P, R> {
    pub snapshot: JobSnapshot<P, R>,
    pub cleanup: Vec<Cleanup>,
}

// ---------------------------------------------------------------------------------------------
// the model
// ---------------------------------------------------------------------------------------------
pub open spec fn running_count<P, R>(rs: Seq<JobRecord<P, R>>) -> nat
    decreases rs.len(),
{
    if rs.len() == 0 {
        0
    } else {
        running_count(rs.drop_last()) + if rs.last().snapshot.state == JobState::Running {
            1nat
        } else {
            0nat
        }
    }
}

pub open spec fn ids_unique<P, R>(rs: Seq<JobRecord<P, R>>) -> bool {
    forall|i: int, j: int|
        0 <= i < j < rs.len() ==> #[trigger] rs[i].snapshot.job_id@ != #[trigger] rs[j].snapshot.job_id@
}

pub open spec fn logs_bounded<P, R>(rs: Seq<JobRecord<P, R>>) -> bool {
    forall|i: int| 0 <= i < rs.len() ==> #[trigger] rs[i].snapshot.log@.len() <= LOG_TAIL
}

/// Where the job with this id is.
pub open spec fn position<P, R>(rs: Seq<JobRecord<P, R>>, id: Seq<char>) -> Option<int> {
    if exists|i: int| 0 <= i < rs.len() && rs[i].snapshot.job_id@ == id {
        Some(choose|i: int| 0 <= i < rs.len() && rs[i].snapshot.job_id@ == id)
    } else {
        None
    }
}

/// The log after one more line: the last [`LOG_TAIL`] lines.
pub open spec fn log_after(log: Seq<Seq<char>>, line: Seq<char>) -> Seq<Seq<char>> {
    let l = log.push(line);
    if l.len() > LOG_TAIL {
        l.skip(l.len() - LOG_TAIL)
    } else {
        l
    }
}

/// The ids of the jobs still running, in order.
pub open spec fn unfinished_ids<P, R>(rs: Seq<JobRecord<P, R>>) -> Seq<Seq<char>>
    decreases rs.len(),
{
    if rs.len() == 0 {
        Seq::empty()
    } else if rs.last().snapshot.state == JobState::Running {
        unfinished_ids(rs.drop_last()).push(rs.last().snapshot.job_id@)
    } else {
        unfinished_ids(rs.drop_last())
    }
}

/// The job with this id is over, or gone from the book.
pub open spec fn settled_id<P, R>(rs: Seq<JobRecord<P, R>>, id: Seq<char>) -> bool {
    match position(rs, id) {
        Some(i) => rs[i].snapshot.state != JobState::Running,
        None => true,
    }
}

/// The book: every job of this process, by id.
pub struct JobBook<P, R> {
    records: Vec<JobRecord<P, R>>,
}

impl<P, R> JobBook<P, R> {
    #[verifier::type_invariant]
    spec fn valid(self) -> bool {
        &&& ids_unique(self.records@)
        &&& running_count(self.records@) <= MAX_RUNNING
        &&& logs_bounded(self.records@)
    }
}

impl<P, R> View for JobBook<P, R> {
    type V = Seq<JobRecord<P, R>>;

    closed spec fn view(&self) -> Seq<JobRecord<P, R>> {
        self.records@
    }
}

proof fn lemma_running_count_update<P, R>(rs: Seq<JobRecord<P, R>>, i: int, r: JobRecord<P, R>)
    requires
        0 <= i < rs.len(),
    ensures
        running_count(rs.update(i, r)) + (if rs[i].snapshot.state == JobState::Running {
            1int
        } else {
            0int
        }) == running_count(rs) + (if r.snapshot.state == JobState::Running {
            1int
        } else {
            0int
        }),
    decreases rs.len(),
{
    if i < rs.len() - 1 {
        assert(rs.update(i, r).drop_last() =~= rs.drop_last().update(i, r));
        lemma_running_count_update(rs.drop_last(), i, r);
    } else {
        assert(rs.update(i, r).drop_last() =~= rs.drop_last());
    }
}

proof fn lemma_running_count_remove<P, R>(rs: Seq<JobRecord<P, R>>, i: int)
    requires
        0 <= i < rs.len(),
    ensures
        running_count(rs.remove(i)) + (if rs[i].snapshot.state == JobState::Running {
            1int
        } else {
            0int
        }) == running_count(rs),
    decreases rs.len(),
{
    if i < rs.len() - 1 {
        assert(rs.remove(i).drop_last() =~= rs.drop_last().remove(i));
        lemma_running_count_remove(rs.drop_last(), i);
    } else {
        assert(rs.remove(i) =~= rs.drop_last());
    }
}

proof fn lemma_position<P, R>(rs: Seq<JobRecord<P, R>>, id: Seq<char>, i: int)
    requires
        ids_unique(rs),
        0 <= i < rs.len(),
        rs[i].snapshot.job_id@ == id,
    ensures
        position(rs, id) == Some(i),
{
}

impl<P, R> JobBook<P, R> {
    pub fn new() -> (b: Self)
        ensures
            b@.len() == 0,
    {
        JobBook { records: Vec::new() }
    }

    fn find(&self, id: &str) -> (r: Option<usize>)
        ensures
            match r {
                Some(i) => position(self@, id@) == Some(i as int) && i < self@.len(),
                None => position(self@, id@) is None,
            },
    {
        proof {
            use_type_invariant(self);
        }
        let wanted = chars_of(id);
        let mut i: usize = 0;
        while i < self.records.len()
            invariant
                i <= self.records.len(),
                wanted@ == id@,
                ids_unique(self.records@),
                forall|k: int| 0 <= k < i ==> #[trigger] self.records@[k].snapshot.job_id@ != id@,
            decreases self.records.len() - i,
        {
            if eq(&chars_of(self.records[i].snapshot.job_id.as_str()), &wanted) {
                proof {
                    lemma_position(self.records@, id@, i as int);
                }
                return Some(i);
            }
            i += 1;
        }
        None
    }

    /// How many jobs are running.
    pub fn running(&self) -> (n: usize)
        ensures
            n == running_count(self@),
            n <= MAX_RUNNING,
    {
        proof {
            use_type_invariant(self);
        }
        let mut n: usize = 0;
        let mut i: usize = 0;
        while i < self.records.len()
            invariant
                i <= self.records.len(),
                running_count(self.records@) <= MAX_RUNNING,
                n == running_count(self.records@.take(i as int)),
                n <= i,
            decreases self.records.len() - i,
        {
            assert(self.records@.take(i + 1).drop_last() =~= self.records@.take(i as int));
            proof {
                lemma_running_count_prefix(self.records@, i as int + 1);
            }
            if self.records[i].snapshot.state == JobState::Running {
                n += 1;
            }
            i += 1;
        }
        assert(self.records@.take(i as int) =~= self.records@);
        n
    }

    /// Creates the job, already `Running` and visible: the UI shows "starting…" the instant it
    /// gets its `202`. `job_id` is a fresh random id and `now` the time in milliseconds.
    pub fn create(&mut self, kind: &str, job_id: String, now: i64) -> (r: Result<(), JobsError>)
        ensures
            ids_unique(final(self)@),
            r is Err <==> running_count(old(self)@) >= MAX_RUNNING,
            r matches Err(e) ==> e == JobsError::TooMany && final(self)@ == old(self)@,
            r is Ok ==> ({
                let rs = final(self)@;
                let fresh = rs.last().snapshot;
                &&& rs.len() >= 1
                &&& fresh.job_id@ == job_id@
                &&& fresh.kind@ == kind@
                &&& fresh.state == JobState::Running
                &&& fresh.log@.len() == 0
                &&& fresh.started_at == now
                &&& fresh.finished_at is None
                &&& fresh.progress is None
                &&& fresh.result is None
                &&& fresh.pending_prompt is None
                &&& rs.last().cleanup@.len() == 0
                &&& rs.drop_last() == match position(old(self)@, job_id@) {
                    Some(i) => old(self)@.remove(i),
                    None => old(self)@,
                }
                // the id now names the new record, and no other
                &&& ids_unique(rs)
                &&& position(rs, job_id@) == Some((rs.len() - 1) as int)
            }),
    {
        proof {
            use_type_invariant(&*self);
        }
        if self.running() >= MAX_RUNNING {
            return Err(JobsError::TooMany);
        }
        let found = self.find(job_id.as_str());
        let mut records: Vec<JobRecord<P, R>> = Vec::new();
        std::mem::swap(&mut records, &mut self.records);
        let ghost before = records@;
        if let Some(i) = found {
            let _gone = records.remove(i);
            proof {
                lemma_running_count_remove(before, i as int);
                assert forall|a: int, b: int| 0 <= a < b < records@.len() implies #[trigger] records@[a].snapshot.job_id@
                    != #[trigger] records@[b].snapshot.job_id@ by {
                    let oa = if a < i { a } else { a + 1 };
                    let ob = if b < i { b } else { b + 1 };
                    assert(records@[a] == before[oa] && records@[b] == before[ob]);
                }
            }
        }
        let ghost kept = records@;
        let kind_owned = string_of(&chars_of(kind));
        let fresh = JobRecord {
            snapshot: JobSnapshot {
                job_id,
                kind: kind_owned,
                state: JobState::Running,
                progress: None,
                log: Vec::new(),
                started_at: now,
                finished_at: None,
                message: None,
                action: None,
                pending_prompt: None,
                result: None,
            },
            cleanup: Vec::new(),
        };
        records.push(fresh);
        proof {
            assert(records@.drop_last() =~= kept);
            assert forall|k: int| 0 <= k < kept.len() implies #[trigger] kept[k].snapshot.job_id@ != job_id@ by {
                if found is None {
                    assert(position(before, job_id@) is None);
                } else {
                    let i = found->0 as int;
                    let o = if k < i { k } else { k + 1 };
                    assert(kept[k] == before[o]);
                    assert(before[i].snapshot.job_id@ == job_id@);
                }
            }
            assert forall|a: int, b: int| 0 <= a < b < records@.len() implies #[trigger] records@[a].snapshot.job_id@
                != #[trigger] records@[b].snapshot.job_id@ by {
                if b < kept.len() {
                    assert(records@[a] == kept[a] && records@[b] == kept[b]);
                } else {
                    assert(records@[a] == kept[a]);
                }
            }
            assert forall|k: int| 0 <= k < records@.len() implies #[trigger] records@[k].snapshot.log@.len() <= LOG_TAIL by {
                if k < kept.len() {
                    assert(records@[k] == kept[k]);
                    if found is Some {
                        let i = found->0 as int;
                        let o = if k < i { k } else { k + 1 };
                        assert(kept[k] == before[o]);
                    }
                }
            }
        }
        proof {
            let n = records@.len() - 1;
            assert(records@[n].snapshot.job_id@ == job_id@);
            let c = choose|c: int| 0 <= c < records@.len() && records@[c].snapshot.job_id@ == job_id@;
            if c != n {
                assert(records@[c].snapshot.job_id@ != records@[n].snapshot.job_id@);
            }
        }
        *self = JobBook { records };
        Ok(())
    }

    /// The state of a job; `None` for an id this process does not know.
    pub fn snapshot(&self, job_id: &str) -> (s: Option<&JobSnapshot<P, R>>)
        ensures
            match s {
                Some(snap) => position(self@, job_id@) matches Some(i) && *snap == self@[i].snapshot,
                None => position(self@, job_id@) is None,
            },
    {
        match self.find(job_id) {
            Some(i) => Some(&self.records[i].snapshot),
            None => None,
        }
    }

    /// Asks a job to stop. `Ok(true)` when it runs: the caller fires its cancellation token, and
    /// the job's own task finishes it (marking it cancelled here would lie while `git` still
    /// lives, which is exactly while the partial folder exists). A finished job is left alone.
    pub fn cancel(&self, job_id: &str) -> (r: Result<bool, JobsError>)
        ensures
            match position(self@, job_id@) {
                None => r == Err::<bool, JobsError>(JobsError::Unknown),
                Some(i) => r == Ok::<bool, JobsError>(self@[i].snapshot.state == JobState::Running),
            },
    {
        match self.find(job_id) {
            Some(i) => Ok(!self.records[i].snapshot.state.is_final()),
            None => Err(JobsError::Unknown),
        }
    }

    /// Takes the record of a job out, to change it and put it back.
    fn take_out(&mut self, i: usize) -> (r: (Vec<JobRecord<P, R>>, JobRecord<P, R>))
        requires
            i < old(self)@.len(),
        ensures
            r.0@ == old(self)@.remove(i as int),
            r.1 == old(self)@[i as int],
            final(self)@.len() == 0,
    {
        let mut records: Vec<JobRecord<P, R>> = Vec::new();
        std::mem::swap(&mut records, &mut self.records);
        let rec = records.remove(i);
        (records, rec)
    }

    /// Puts a changed record back where it was.
    fn put_back(&mut self, records: Vec<JobRecord<P, R>>, i: usize, rec: JobRecord<P, R>, Ghost(before): Ghost<Seq<JobRecord<P, R>>>)
        requires
            old(self)@.len() == 0,
            i <= records@.len(),
            records@ == before.remove(i as int),
            i < before.len(),
            ids_unique(before),
            running_count(before) <= MAX_RUNNING,
            logs_bounded(before),
            rec.snapshot.job_id@ == before[i as int].snapshot.job_id@,
            rec.snapshot.log@.len() <= LOG_TAIL,
            rec.snapshot.state == JobState::Running ==> before[i as int].snapshot.state == JobState::Running,
        ensures
            final(self)@ == before.update(i as int, rec),
    {
        let mut records = records;
        records.insert(i, rec);
        proof {
            assert(records@ =~= before.update(i as int, rec));
            lemma_running_count_update(before, i as int, rec);
            assert forall|a: int, b: int| 0 <= a < b < records@.len() implies #[trigger] records@[a].snapshot.job_id@
                != #[trigger] records@[b].snapshot.job_id@ by {
                assert(records@[a].snapshot.job_id@ == before[a].snapshot.job_id@);
                assert(records@[b].snapshot.job_id@ == before[b].snapshot.job_id@);
            }
            assert forall|k: int| 0 <= k < records@.len() implies #[trigger] records@[k].snapshot.log@.len() <= LOG_TAIL by {
                if k != i {
                    assert(records@[k] == before[k]);
                }
            }
        }
        *self = JobBook { records };
    }

    /// Registers what to undo. **Before** starting, always.
    pub fn add_cleanup(&mut self, job_id: &str, cleanup: Cleanup)
        ensures
            ids_unique(final(self)@),
            match position(old(self)@, job_id@) {
                None => final(self)@ == old(self)@,
                Some(i) => final(self)@.len() == old(self)@.len()
                    && final(self)@[i].snapshot == old(self)@[i].snapshot
                    && final(self)@[i].cleanup@ == old(self)@[i].cleanup@.push(cleanup)
                    && forall|k: int| 0 <= k < final(self)@.len() && k != i ==> #[trigger] final(self)@[k] == old(self)@[k],
            },
    {
        proof {
            use_type_invariant(&*self);
        }
        let ghost before = self@;
        if let Some(i) = self.find(job_id) {
            let (records, mut rec) = self.take_out(i);
            rec.cleanup.push(cleanup);
            self.put_back(records, i, rec, Ghost(before));
        }
        proof {
            use_type_invariant(&*self);
        }
    }

    pub fn progress(&mut self, job_id: &str, progress: P)
        ensures
            ids_unique(final(self)@),
            match position(old(self)@, job_id@) {
                None => final(self)@ == old(self)@,
                Some(i) => final(self)@.len() == old(self)@.len()
                    && final(self)@[i].snapshot == (JobSnapshot { progress: Some(progress), ..old(self)@[i].snapshot })
                    && final(self)@[i].cleanup == old(self)@[i].cleanup
                    && forall|k: int| 0 <= k < final(self)@.len() && k != i ==> #[trigger] final(self)@[k] == old(self)@[k],
            },
    {
        proof {
            use_type_invariant(&*self);
        }
        let ghost before = self@;
        if let Some(i) = self.find(job_id) {
            let (records, mut rec) = self.take_out(i);
            rec.snapshot.progress = Some(progress);
            self.put_back(records, i, rec, Ghost(before));
        }
        proof {
            use_type_invariant(&*self);
        }
    }

    /// Adds a line to a job's log, keeping the last [`LOG_TAIL`].
    pub fn log(&mut self, job_id: &str, line: String)
        ensures
            ids_unique(final(self)@),
            match position(old(self)@, job_id@) {
                None => final(self)@ == old(self)@,
                Some(i) => final(self)@.len() == old(self)@.len()
                    && strs(final(self)@[i].snapshot.log@) == log_after(strs(old(self)@[i].snapshot.log@), line@)
                    && final(self)@[i].snapshot == (JobSnapshot { log: final(self)@[i].snapshot.log, ..old(self)@[i].snapshot })
                    && final(self)@[i].cleanup == old(self)@[i].cleanup
                    && forall|k: int| 0 <= k < final(self)@.len() && k != i ==> #[trigger] final(self)@[k] == old(self)@[k],
            },
    {
        proof {
            use_type_invariant(&*self);
        }
        let ghost before = self@;
        if let Some(i) = self.find(job_id) {
            let (records, mut rec) = self.take_out(i);
            push_line(&mut rec.snapshot.log, line);
            self.put_back(records, i, rec, Ghost(before));
        }
        proof {
            use_type_invariant(&*self);
        }
    }

    /// Publishes a password request: the log keeps **the prompt**, never the answer.
    pub fn ask(&mut self, job_id: &str, prompt_id: String, prompt: String)
        ensures
            ids_unique(final(self)@),
            match position(old(self)@, job_id@) {
                None => final(self)@ == old(self)@,
                Some(i) => final(self)@.len() == old(self)@.len()
                    && strs(final(self)@[i].snapshot.log@) == log_after(
                        strs(old(self)@[i].snapshot.log@),
                        "senha pedida: "@ + prompt@,
                    )
                    && final(self)@[i].snapshot.pending_prompt == Some(PendingPrompt { prompt_id, prompt })
                    && final(self)@[i].snapshot == (JobSnapshot {
                        log: final(self)@[i].snapshot.log,
                        pending_prompt: final(self)@[i].snapshot.pending_prompt,
                        ..old(self)@[i].snapshot
                    })
                    && final(self)@[i].cleanup == old(self)@[i].cleanup
                    && forall|k: int| 0 <= k < final(self)@.len() && k != i ==> #[trigger] final(self)@[k] == old(self)@[k],
            },
    {
        proof {
            use_type_invariant(&*self);
        }
        let ghost before = self@;
        if let Some(i) = self.find(job_id) {
            let (records, mut rec) = self.take_out(i);
            let mut line = chars_of("senha pedida: ");
            append(&mut line, &chars_of(prompt.as_str()));
            push_line(&mut rec.snapshot.log, string_of(&line));
            rec.snapshot.pending_prompt = Some(PendingPrompt { prompt_id, prompt });
            self.put_back(records, i, rec, Ghost(before));
        }
        proof {
            use_type_invariant(&*self);
        }
    }

    /// Closes a password request (answered, expired or cancelled): nobody should stare at a
    /// password field that leads nowhere. A newer request is left alone.
    pub fn close_prompt(&mut self, job_id: &str, prompt_id: &str)
        ensures
            ids_unique(final(self)@),
            match position(old(self)@, job_id@) {
                None => final(self)@ == old(self)@,
                Some(i) => final(self)@.len() == old(self)@.len()
                    && final(self)@[i].snapshot.pending_prompt == match old(self)@[i].snapshot.pending_prompt {
                        Some(p) => if p.prompt_id@ == prompt_id@ {
                            None
                        } else {
                            Some(p)
                        },
                        None => None,
                    }
                    && final(self)@[i].snapshot == (JobSnapshot {
                        pending_prompt: final(self)@[i].snapshot.pending_prompt,
                        ..old(self)@[i].snapshot
                    })
                    && final(self)@[i].cleanup == old(self)@[i].cleanup
                    && forall|k: int| 0 <= k < final(self)@.len() && k != i ==> #[trigger] final(self)@[k] == old(self)@[k],
            },
    {
        proof {
            use_type_invariant(&*self);
        }
        let ghost before = self@;
        if let Some(i) = self.find(job_id) {
            let (records, mut rec) = self.take_out(i);
            let same = match &rec.snapshot.pending_prompt {
                Some(p) => eq(&chars_of(p.prompt_id.as_str()), &chars_of(prompt_id)),
                None => false,
            };
            if same {
                rec.snapshot.pending_prompt = None;
            }
            self.put_back(records, i, rec, Ghost(before));
        }
        proof {
            use_type_invariant(&*self);
        }
    }

    /// Ends a job: its final state, when, and what it said. A job that ended has nothing left
    /// to ask. Returns the clean-up to run (outside any lock): none after success, since what
    /// succeeded is never undone; `None` for an unknown id.
    pub fn finish(
        &mut self,
        job_id: &str,
        state: JobState,
        message: Option<String>,
        action: Option<String>,
        result: Option<R>,
        now: i64,
    ) -> (undo: Option<Vec<Cleanup>>)
        requires
            state != JobState::Running,
        ensures
            ids_unique(final(self)@),
            match position(old(self)@, job_id@) {
                None => final(self)@ == old(self)@ && undo is None,
                Some(i) => final(self)@.len() == old(self)@.len()
                    && final(self)@[i].snapshot == (JobSnapshot {
                        state,
                        finished_at: Some(now),
                        message,
                        action,
                        result,
                        pending_prompt: None,
                        ..old(self)@[i].snapshot
                    })
                    && final(self)@[i].cleanup@.len() == 0
                    && (undo matches Some(u) && u@ == if state == JobState::Done {
                        Seq::<Cleanup>::empty()
                    } else {
                        old(self)@[i].cleanup@
                    })
                    && forall|k: int| 0 <= k < final(self)@.len() && k != i ==> #[trigger] final(self)@[k] == old(self)@[k],
            },
    {
        proof {
            use_type_invariant(&*self);
        }
        let ghost before = self@;
        match self.find(job_id) {
            None => None,
            Some(i) => {
                let (records, mut rec) = self.take_out(i);
                rec.snapshot.state = state;
                rec.snapshot.finished_at = Some(now);
                rec.snapshot.message = message;
                rec.snapshot.action = action;
                rec.snapshot.result = result;
                rec.snapshot.pending_prompt = None;
                let mut cleanup: Vec<Cleanup> = Vec::new();
                std::mem::swap(&mut cleanup, &mut rec.cleanup);
                self.put_back(records, i, rec, Ghost(before));
                proof {
                    use_type_invariant(&*self);
                }
                if state == JobState::Done {
                    Some(Vec::new())
                } else {
                    Some(cleanup)
                }
            },
        }
    }

    /// The ids of the jobs not over yet, in the book's order: what shutting down cancels.
    pub fn unfinished(&self) -> (ids: Vec<String>)
        ensures
            strs(ids@) == unfinished_ids(self@),
    {
        let mut ids: Vec<String> = Vec::new();
        let mut i: usize = 0;
        while i < self.records.len()
            invariant
                i <= self.records@.len(),
                strs(ids@) == unfinished_ids(self.records@.take(i as int)),
            decreases self.records@.len() - i,
        {
            assert(self.records@.take(i + 1).drop_last() =~= self.records@.take(i as int));
            let ghost before = ids@;
            if !self.records[i].snapshot.state.is_final() {
                ids.push(self.records[i].snapshot.job_id.clone());
                assert(strs(ids@) =~= strs(before).push(self.records@[i as int].snapshot.job_id@));
            }
            i += 1;
        }
        assert(self.records@.take(i as int) =~= self.records@);
        ids
    }

    /// Whether every one of these jobs is over: a job no longer in the book counts as over,
    /// there is nothing left to wait for.
    pub fn settled(&self, ids: &Vec<String>) -> (b: bool)
        ensures
            b == forall|k: int| 0 <= k < ids@.len() ==> settled_id(self@, #[trigger] ids@[k]@),
    {
        let mut k: usize = 0;
        while k < ids.len()
            invariant
                k <= ids@.len(),
                forall|m: int| 0 <= m < k ==> settled_id(self@, #[trigger] ids@[m]@),
            decreases ids@.len() - k,
        {
            match self.find(ids[k].as_str()) {
                Some(i) => {
                    if !self.records[i].snapshot.state.is_final() {
                        return false;
                    }
                },
                None => {},
            }
            k += 1;
        }
        true
    }

    /// Every job, most recent first: as many as there are, each a job of the book, no job twice.
    pub fn list(&self) -> (r: Vec<&JobSnapshot<P, R>>)
        ensures
            r@.len() == self@.len(),
            forall|k: int| #![trigger r@[k]] 0 <= k < r@.len() ==> exists|i: int|
                0 <= i < self@.len() && *r@[k] == self@[i].snapshot,
            forall|a: int, b: int| 0 <= a < b < r@.len() ==> #[trigger] r@[a].job_id@ != #[trigger] r@[b].job_id@,
            forall|a: int, b: int| 0 <= a < b < r@.len() ==> #[trigger] r@[a].started_at >= #[trigger] r@[b].started_at,
    {
        proof {
            use_type_invariant(self);
        }
        let mut out: Vec<&JobSnapshot<P, R>> = Vec::new();
        let ghost mut idx: Seq<int> = seq![];
        let mut i: usize = 0;
        while i < self.records.len()
            invariant
                i <= self.records.len(),
                ids_unique(self.records@),
                out@.len() == i,
                idx.len() == i,
                forall|k: int| 0 <= k < i ==> 0 <= #[trigger] idx[k] < i,
                forall|k: int| 0 <= k < i ==> *#[trigger] out@[k] == self.records@[idx[k]].snapshot,
                forall|a: int, b: int| 0 <= a < b < i ==> #[trigger] idx[a] != #[trigger] idx[b],
                forall|a: int, b: int| 0 <= a < b < out@.len() ==> #[trigger] out@[a].started_at >= #[trigger] out@[b].started_at,
            decreases self.records.len() - i,
        {
            let s = &self.records[i].snapshot;
            let ghost before = out@;
            let ghost before_idx = idx;
            let mut p: usize = 0;
            while p < out.len() && out[p].started_at >= s.started_at
                invariant
                    p <= out@.len(),
                    out@ == before,
                    forall|k: int| 0 <= k < p ==> #[trigger] out@[k].started_at >= s.started_at,
                decreases out@.len() - p,
            {
                p += 1;
            }
            out.insert(p, s);
            proof {
                idx = before_idx.insert(p as int, i as int);
                assert forall|k: int| 0 <= k < i + 1 implies *#[trigger] out@[k] == self.records@[idx[k]].snapshot by {
                    if k < p {
                        assert(out@[k] == before[k] && idx[k] == before_idx[k]);
                    } else if k > p {
                        assert(out@[k] == before[k - 1] && idx[k] == before_idx[k - 1]);
                    }
                }
                assert forall|k: int| 0 <= k < i + 1 implies 0 <= #[trigger] idx[k] < i + 1 by {
                    if k < p {
                        assert(idx[k] == before_idx[k]);
                    } else if k > p {
                        assert(idx[k] == before_idx[k - 1]);
                    }
                }
                assert forall|a: int, b: int| 0 <= a < b < i + 1 implies #[trigger] idx[a] != #[trigger] idx[b] by {
                    let oa = if a < p { a } else { a - 1 };
                    let ob = if b < p { b } else { b - 1 };
                    if a != p && b != p {
                        assert(idx[a] == before_idx[oa] && idx[b] == before_idx[ob]);
                    } else if a == p {
                        assert(idx[b] == before_idx[ob]);
                    } else {
                        assert(idx[a] == before_idx[oa]);
                    }
                }
                assert forall|a: int, b: int| 0 <= a < b < out@.len() implies #[trigger] out@[a].started_at
                    >= #[trigger] out@[b].started_at by {
                    let oa = if a < p { a } else { a - 1 };
                    let ob = if b < p { b } else { b - 1 };
                    if a != p && b != p {
                        assert(out@[a] == before[oa] && out@[b] == before[ob]);
                    } else if a == p {
                        assert(out@[b] == before[ob]);
                        assert(before[p as int].started_at < s.started_at);
                    } else {
                        assert(out@[a] == before[oa]);
                    }
                }
            }
            i += 1;
        }
        proof {
            assert forall|k: int| #![trigger out@[k]] 0 <= k < out@.len() implies exists|j: int|
                0 <= j < self@.len() && *out@[k] == self@[j].snapshot by {
                assert(*out@[k] == self.records@[idx[k]].snapshot);
                assert(0 <= idx[k] < self@.len());
                assert(*out@[k] == self@[idx[k]].snapshot);
            }
            assert forall|a: int, b: int| 0 <= a < b < out@.len() implies #[trigger] out@[a].job_id@
                != #[trigger] out@[b].job_id@ by {
                assert(*out@[a] == self.records@[idx[a]].snapshot);
                assert(*out@[b] == self.records@[idx[b]].snapshot);
                if idx[a] < idx[b] {
                } else {
                }
            }
        }
        out
    }
}

proof fn lemma_running_count_prefix<P, R>(rs: Seq<JobRecord<P, R>>, n: int)
    requires
        0 < n <= rs.len(),
    ensures
        running_count(rs.take(n)) == running_count(rs.take(n - 1)) + if rs[n - 1].snapshot.state
            == JobState::Running {
            1nat
        } else {
            0nat
        },
{
    assert(rs.take(n).drop_last() =~= rs.take(n - 1));
}

fn push_line(log: &mut Vec<String>, line: String)
    requires
        old(log)@.len() <= LOG_TAIL,
    ensures
        strs(final(log)@) == log_after(strs(old(log)@), line@),
        final(log)@.len() <= LOG_TAIL,
{
    let ghost before = strs(log@);
    if log.len() == LOG_TAIL {
        log.remove(0);
    }
    log.push(line);
    proof {
        if before.len() == LOG_TAIL {
            assert(strs(log@) =~= before.push(line@).skip(1));
        } else {
            assert(strs(log@) =~= before.push(line@));
        }
    }
}

/// An id for a job: 8 random bytes in hex.
pub fn new_id() -> (r: Result<String, JobsError>)
    ensures
        r matches Ok(id) ==> id@.len() == 16 && exists|b: Seq<u8>| b.len() == 8 && id@ == #[trigger] crate::web::hex(b),
        r matches Err(e) ==> e == JobsError::Id,
{
    let mut bytes: Vec<u8> = vec![0u8; 8];
    match crate::web::fill_random(&mut bytes) {
        Ok(()) => {
            let h = hex_exec(bytes.as_slice());
            proof {
                crate::web::lemma_hex_len(bytes@);
            }
            let id = string_of(&h);
            assert(bytes@.len() == 8 && id@ == crate::web::hex(bytes@));
            Ok(id)
        },
        Err(_) => Err(JobsError::Id),
    }
}

/// The answer to starting a job: its id, to follow it by.
#[derive(Debug, Clone)]
pub struct Accepted {
    pub job_id: String,
}

/// The user's answer to a password request. The secret is moved through, never kept.
#[derive(Debug, Clone)]
pub struct AskpassAnswer {
    pub prompt_id: String,
    pub secret: String,
}

} // verus!
