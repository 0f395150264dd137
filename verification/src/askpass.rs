//! An SSH key's passphrase without it ever touching the disk.
//!
//! The whole path serves one rule: **the secret lives in memory and nowhere else**, not in a
//! file, not in the environment, not in `argv`. `git` runs with this program itself as its
//! askpass helper; the helper connects to a private socket and sends the prompt; the prompt
//! becomes an event for the interface; the user's answer goes back through the socket.
//!
//! This module holds the rules of that meeting point: the prompts waiting for an answer, what a
//! prompt's text and id are, and how much a prompt or an answer may weigh. The socket, the
//! channels and the timers are the caller's.
use vstd::prelude::*;
use crate::text::{chars_of, dec, eq, lossy_chars, string_of, trim, trim_exec, utf8_lossy};

verus! {

broadcast use vstd::seq_lib::group_seq_properties;

/// How long `ssh` waits for the user to type: past it the prompt is refused and the clone fails
/// with a message, rather than a job hanging for ever.
pub const ANSWER_TIMEOUT_SECS: u64 = 180;

/// The ceiling of a prompt's text. Ssh's fits in two lines; anything bigger is noise, or an
/// attempt to fill the server's memory.
pub const MAX_PROMPT: usize = 4096;

/// The ceiling of an answer. No key passphrase is longer.
pub const MAX_SECRET: usize = 4096;

#[derive(Debug, Clone, PartialEq, Eq)]
pub enum AskpassError {
    /// No prompt is waiting for this answer.
    Unknown,
    /// The passphrase channel could not be opened; the text is for the log.
    Socket(String),
}

impl AskpassError {
    /// The HTTP status the refusal is answered with.
    pub fn status(&self) -> (code: u16)
        ensures
            code == match self {
                AskpassError::Unknown => 404u16,
                AskpassError::Socket(_) => 500u16,
            },
    {
        match self {
            AskpassError::Unknown => 404,
            AskpassError::Socket(_) => 500,
        }
    }
}

/// The prompts open and waiting for the user, each with what delivers its answer (`S`, a
/// channel of the caller's). It is where the route that answers and the job that asks meet,
/// and that place cannot be the disk.
#[derive(Debug)]
pub struct Prompts<S> {
    waiting: Vec<(String, S)>,
}

pub open spec fn waiting_map<S>(v: Seq<(String, S)>) -> Map<Seq<char>, S>
    decreases v.len(),
{
    if v.len() == 0 {
        Map::empty()
    } else {
        waiting_map(v.drop_last()).insert(v.last().0@, v.last().1)
    }
}

pub open spec fn ids_unique<S>(v: Seq<(String, S)>) -> bool {
    forall|i: int, j: int| 0 <= i < j < v.len() ==> (#[trigger] v[i]).0@ != (#[trigger] v[j]).0@
}

proof fn lemma_waiting_map<S>(v: Seq<(String, S)>)
    requires
        ids_unique(v),
    ensures
        forall|k: Seq<char>| #[trigger] waiting_map(v).contains_key(k) <==> exists|i: int| 0 <= i < v.len() && (#[trigger] v[i]).0@ == k,
        forall|i: int| 0 <= i < v.len() ==> #[trigger] waiting_map(v)[v[i].0@] == v[i].1,
    decreases v.len(),
{
    if v.len() > 0 {
        let w = v.drop_last();
        assert(ids_unique(w));
        lemma_waiting_map(w);
        assert forall|k: Seq<char>| #[trigger] waiting_map(v).contains_key(k) <==> exists|i: int| 0 <= i < v.len() && (#[trigger] v[i]).0@ == k by {
            if waiting_map(v).contains_key(k) && k != v.last().0@ {
                assert(waiting_map(w).contains_key(k));
                let i = choose|i: int| 0 <= i < w.len() && (#[trigger] w[i]).0@ == k;
                assert(v[i] == w[i]);
            }
            if exists|i: int| 0 <= i < v.len() && (#[trigger] v[i]).0@ == k {
                let i = choose|i: int| 0 <= i < v.len() && (#[trigger] v[i]).0@ == k;
                if i < v.len() - 1 {
                    assert(w[i] == v[i]);
                    assert(waiting_map(w).contains_key(k));
                }
            }
        }
        assert forall|i: int| 0 <= i < v.len() implies #[trigger] waiting_map(v)[v[i].0@] == v[i].1 by {
            if i < v.len() - 1 {
                assert(w[i] == v[i]);
                assert(v[i].0@ != v.last().0@);
                assert(waiting_map(w)[w[i].0@] == w[i].1);
            } else {
                assert(v[i] == v.last());
            }
        }
    }
}

proof fn lemma_waiting_remove<S>(v: Seq<(String, S)>, i: int)
    requires
        ids_unique(v),
        0 <= i < v.len(),
    ensures
        ids_unique(v.remove(i)),
        waiting_map(v.remove(i)) == waiting_map(v).remove(v[i].0@),
    decreases v.len(),
{
    let r = v.remove(i);
    assert(ids_unique(r)) by {
        assert forall|a: int, b: int| 0 <= a < b < r.len() implies (#[trigger] r[a]).0@ != (#[trigger] r[b]).0@ by {
            let a0 = if a < i { a } else { a + 1 };
            let b0 = if b < i { b } else { b + 1 };
            assert(r[a] == v[a0] && r[b] == v[b0]);
        }
    }
    lemma_waiting_map(v);
    lemma_waiting_map(r);
    assert forall|k: Seq<char>| #[trigger] waiting_map(r).contains_key(k) <==> waiting_map(v).remove(v[i].0@).contains_key(k) by {
        if waiting_map(r).contains_key(k) {
            let a = choose|a: int| 0 <= a < r.len() && (#[trigger] r[a]).0@ == k;
            let a0 = if a < i { a } else { a + 1 };
            assert(r[a] == v[a0]);
        }
        if waiting_map(v).remove(v[i].0@).contains_key(k) {
            let a = choose|a: int| 0 <= a < v.len() && (#[trigger] v[a]).0@ == k;
            assert(a != i);
            let a1 = if a < i { a } else { a - 1 };
            assert(r[a1] == v[a]);
        }
    }
    assert forall|k: Seq<char>| #[trigger] waiting_map(r).contains_key(k) implies waiting_map(r)[k] == waiting_map(v).remove(v[i].0@)[k] by {
        let a = choose|a: int| 0 <= a < r.len() && (#[trigger] r[a]).0@ == k;
        let a0 = if a < i { a } else { a + 1 };
        assert(r[a] == v[a0]);
    }
    assert(waiting_map(r) =~= waiting_map(v).remove(v[i].0@));
}

impl<S> View for Prompts<S> {
    type V = Map<Seq<char>, S>;

    closed spec fn view(&self) -> Map<Seq<char>, S> {
        waiting_map(self.waiting@)
    }
}

impl<S> Prompts<S> {
    #[verifier::type_invariant]
    closed spec fn unique(&self) -> bool {
        ids_unique(self.waiting@)
    }

    pub fn new() -> (p: Self)
        ensures
            p@ == Map::<Seq<char>, S>::empty(),
    {
        Prompts { waiting: Vec::new() }
    }

    fn position(&self, prompt_id: &str) -> (r: Option<usize>)
        ensures
            match r {
                Some(i) => i < self.waiting@.len() && self.waiting@[i as int].0@ == prompt_id@,
                None => forall|i: int| 0 <= i < self.waiting@.len() ==> (#[trigger] self.waiting@[i]).0@ != prompt_id@,
            },
    {
        let id = chars_of(prompt_id);
        let mut i: usize = 0;
        while i < self.waiting.len()
            invariant
                i <= self.waiting@.len(),
                id@ == prompt_id@,
                forall|k: int| 0 <= k < i ==> (#[trigger] self.waiting@[k]).0@ != prompt_id@,
            decreases self.waiting@.len() - i,
        {
            if eq(&chars_of(self.waiting[i].0.as_str()), &id) {
                return Some(i);
            }
            i += 1;
        }
        None
    }

    /// Waits for an answer to `prompt_id`, delivered through `sender`; a second registration
    /// of the same id replaces the first.
    pub fn register(&mut self, prompt_id: String, sender: S)
        ensures
            final(self)@ == old(self)@.insert(prompt_id@, sender),
    {
        proof {
            use_type_invariant(&*self);
            lemma_waiting_map(self.waiting@);
        }
        let found = self.position(prompt_id.as_str());
        let mut waiting = Vec::new();
        std::mem::swap(&mut waiting, &mut self.waiting);
        let ghost before = waiting@;
        match found {
            Some(i) => {
                waiting.remove(i);
                proof {
                    lemma_waiting_remove(before, i as int);
                }
            },
            None => {
                assert(waiting_map(before).remove(prompt_id@) =~= waiting_map(before)) by {
                    lemma_waiting_map(before);
                }
            },
        }
        let ghost kept = waiting@;
        proof {
            lemma_waiting_map(kept);
        }
        waiting.push((prompt_id, sender));
        proof {
            assert(waiting@.drop_last() =~= kept);
            assert forall|a: int, b: int| 0 <= a < b < waiting@.len() implies (#[trigger] waiting@[a]).0@ != (#[trigger] waiting@[b]).0@ by {
                if b == waiting@.len() - 1 {
                    assert(waiting@[a] == kept[a]);
                    assert(!waiting_map(kept).contains_key(waiting@[b].0@));
                } else {
                    assert(waiting@[a] == kept[a] && waiting@[b] == kept[b]);
                }
            }
            assert(waiting_map(waiting@) =~= waiting_map(before).insert(waiting@.last().0@, waiting@.last().1));
        }
        self.waiting = waiting;
    }

    /// No longer waits for `prompt_id` (answered, timed out, or the job was cancelled).
    pub fn forget(&mut self, prompt_id: &str)
        ensures
            final(self)@ == old(self)@.remove(prompt_id@),
    {
        proof {
            use_type_invariant(&*self);
            lemma_waiting_map(self.waiting@);
        }
        match self.position(prompt_id) {
            Some(i) => {
                let mut waiting = Vec::new();
                std::mem::swap(&mut waiting, &mut self.waiting);
                let ghost before = waiting@;
                waiting.remove(i);
                proof {
                    lemma_waiting_remove(before, i as int);
                }
                self.waiting = waiting;
            },
            None => {
                assert(self@.remove(prompt_id@) =~= self@);
            },
        }
    }

    /// Takes what delivers the user's answer to `prompt_id`: the caller moves the secret
    /// through it, never copying it anywhere that lives longer. `Unknown` when nobody waits.
    pub fn answer(&mut self, prompt_id: &str) -> (r: Result<S, AskpassError>)
        ensures
            old(self)@.contains_key(prompt_id@) ==> r == Ok::<S, AskpassError>(old(self)@[prompt_id@])
                && final(self)@ == old(self)@.remove(prompt_id@),
            !old(self)@.contains_key(prompt_id@) ==> r == Err::<S, AskpassError>(AskpassError::Unknown)
                && final(self)@ == old(self)@,
    {
        proof {
            use_type_invariant(&*self);
            lemma_waiting_map(self.waiting@);
        }
        match self.position(prompt_id) {
            Some(i) => {
                let mut waiting = Vec::new();
                std::mem::swap(&mut waiting, &mut self.waiting);
                let ghost before = waiting@;
                let (_, sender) = waiting.remove(i);
                proof {
                    lemma_waiting_remove(before, i as int);
                }
                self.waiting = waiting;
                Ok(sender)
            },
            None => Err(AskpassError::Unknown),
        }
    }
}

/// A prompt's text as the helper sent it: decoded lossily and trimmed.
pub fn prompt_text(bytes: &[u8]) -> (s: String)
    ensures
        s@ == trim(utf8_lossy(bytes@)),
{
    string_of(&trim_exec(&lossy_chars(bytes)))
}

/// A prompt's id: the job's id, a dash, and the job book's next prompt number.
pub fn prompt_id(job_id: &str, seq: u64) -> (id: String)
    ensures
        id@ == job_id@ + "-"@ + dec(seq as nat),
{
    let mut s = chars_of(job_id);
    s.push('-');
    let n = crate::text::dec_exec(seq);
    crate::text::append(&mut s, &n);
    proof {
        reveal_strlit("-");
        assert(s@ =~= job_id@ + "-"@ + dec(seq as nat));
    }
    string_of(&s)
}

/// Whether an answer is short enough to pass on: a longer one is dropped, and ssh gives up on
/// the key rather than burn an attempt.
pub fn answer_fits(len: usize) -> (b: bool)
    ensures
        b == (len <= MAX_SECRET),
{
    len <= MAX_SECRET
}

} // verus!
