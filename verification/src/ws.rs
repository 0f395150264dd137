//! The one WebSocket, multiplexed by topic: the client subscribes to the topics it cares about
//! and the server filters.
use vstd::prelude::*;
use crate::text::{chars_of, eq, string_of};

verus! {

broadcast use vstd::seq_lib::group_seq_properties;

/// Subscribed without asking: the protocol's own answers (`ready`, `pong`, `resync`). A client
/// without them could not notice it fell behind.
pub const CONTROL: &'static str = "control";

/// What a client sends, once read from JSON.
#[derive(Debug, Clone)]
pub enum ClientMessage {
    Subscribe { topics: Vec<String> },
    Unsubscribe { topics: Vec<String> },
    Ping,
}

/// An immediate answer to a client.
#[derive(Debug, Clone, Copy, PartialEq, Eq)]
pub enum Reply {
    Pong,
}

/// The topics a connection receives.
#[derive(Debug)]
pub struct Topics {
    names: Vec<String>,
}

impl View for Topics {
    type V = Set<Seq<char>>;

    closed spec fn view(&self) -> Set<Seq<char>> {
        Set::new(|t: Seq<char>| exists|i: int| 0 <= i < self.names@.len() && self.names@[i]@ == t)
    }
}

pub open spec fn names_of(v: Seq<String>) -> Set<Seq<char>> {
    Set::new(|t: Seq<char>| exists|i: int| 0 <= i < v.len() && v[i]@ == t)
}

impl Topics {
    /// A new connection: `control` only.
    pub fn new() -> (t: Topics)
        ensures
            t@ == set!["control"@],
    {
        let t = Topics { names: vec![string_of(&chars_of(CONTROL))] };
        assert forall|x: Seq<char>| t@.contains(x) <==> set!["control"@].contains(x) by {
            if x == "control"@ {
                assert(t.names@[0]@ == x);
            }
        }
        assert(t@ =~= set!["control"@]);
        t
    }

    pub fn contains(&self, topic: &str) -> (b: bool)
        ensures
            b == self@.contains(topic@),
    {
        let wanted = chars_of(topic);
        let mut i: usize = 0;
        while i < self.names.len()
            invariant
                i <= self.names.len(),
                wanted@ == topic@,
                forall|k: int| 0 <= k < i ==> self.names@[k]@ != topic@,
            decreases self.names.len() - i,
        {
            if eq(&chars_of(self.names[i].as_str()), &wanted) {
                assert(self@.contains(topic@)) by {
                    assert(self.names@[i as int]@ == topic@);
                }
                return true;
            }
            i += 1;
        }
        false
    }

    fn add(&mut self, topic: &String)
        ensures
            final(self)@ == old(self)@.insert(topic@),
    {
        self.names.push(topic.clone());
        proof {
            let before = old(self).names@;
            assert forall|x: Seq<char>| self@.contains(x) <==> old(self)@.insert(topic@).contains(x) by {
                if self@.contains(x) {
                    let i = choose|i: int| 0 <= i < self.names@.len() && self.names@[i]@ == x;
                    if i < before.len() {
                        assert(before[i]@ == x);
                    }
                }
                if old(self)@.contains(x) {
                    let i = choose|i: int| 0 <= i < before.len() && before[i]@ == x;
                    assert(self.names@[i]@ == x);
                }
                if x == topic@ {
                    assert(self.names@[before.len() as int]@ == x);
                }
            }
            assert(self@ =~= old(self)@.insert(topic@));
        }
    }

    fn remove(&mut self, topic: &String)
        ensures
            final(self)@ == old(self)@.remove(topic@),
    {
        let wanted = chars_of(topic.as_str());
        let mut kept: Vec<String> = Vec::new();
        let mut i: usize = 0;
        while i < self.names.len()
            invariant
                i <= self.names.len(),
                wanted@ == topic@,
                self.names@ == old(self).names@,
                names_of(kept@) == names_of(self.names@.take(i as int)).remove(topic@),
            decreases self.names.len() - i,
        {
            let ghost before = kept@;
            if !eq(&chars_of(self.names[i].as_str()), &wanted) {
                kept.push(self.names[i].clone());
            }
            proof {
                let prefix = self.names@.take(i + 1);
                assert forall|x: Seq<char>| names_of(kept@).contains(x) <==> names_of(prefix).remove(topic@).contains(x) by {
                    if names_of(kept@).contains(x) {
                        let k = choose|k: int| 0 <= k < kept@.len() && kept@[k]@ == x;
                        if k < before.len() {
                            assert(names_of(before).contains(x));
                            let j = choose|j: int| 0 <= j < i && self.names@.take(i as int)[j]@ == x;
                            assert(prefix[j]@ == x);
                        } else {
                            assert(prefix[i as int]@ == x);
                        }
                    }
                    if names_of(prefix).remove(topic@).contains(x) {
                        let j = choose|j: int| 0 <= j < prefix.len() && prefix[j]@ == x;
                        if j < i {
                            assert(self.names@.take(i as int)[j]@ == x);
                            assert(names_of(before).contains(x));
                            let k = choose|k: int| 0 <= k < before.len() && before[k]@ == x;
                            assert(kept@[k]@ == x);
                        } else {
                            assert(kept@[kept@.len() - 1]@ == x);
                        }
                    }
                }
                assert(names_of(kept@) =~= names_of(prefix).remove(topic@));
            }
            i += 1;
        }
        assert(self.names@.take(self.names.len() as int) =~= self.names@);
        self.names = kept;
        proof {
            assert(self@ =~= names_of(self.names@));
            assert(old(self)@ =~= names_of(old(self).names@));
        }
    }

    /// Takes a client's message (`None` when it was not a message at all: almost always a tab
    /// running an old bundle, which dropping would only leave reconnecting in a loop). `control`
    /// cannot be unsubscribed: without it the client would not even get a `resync`.
    pub fn handle(&mut self, message: Option<ClientMessage>) -> (reply: Option<Reply>)
        ensures
            match message {
                Some(ClientMessage::Subscribe { topics }) => final(self)@ == old(self)@.union(names_of(topics@))
                    && reply is None,
                Some(ClientMessage::Unsubscribe { topics }) => final(self)@ == old(self)@.difference(
                    names_of(topics@).remove("control"@),
                ) && reply is None,
                Some(ClientMessage::Ping) => final(self)@ == old(self)@ && reply == Some(Reply::Pong),
                None => final(self)@ == old(self)@ && reply is None,
            },
    {
        match message {
            Some(ClientMessage::Subscribe { topics }) => {
                let mut i: usize = 0;
                while i < topics.len()
                    invariant
                        i <= topics.len(),
                        self@ == old(self)@.union(names_of(topics@.take(i as int))),
                    decreases topics.len() - i,
                {
                    self.add(&topics[i]);
                    proof {
                        lemma_names_take(topics@, i as int);
                        assert(self@ =~= old(self)@.union(names_of(topics@.take(i + 1))));
                    }
                    i += 1;
                }
                assert(topics@.take(topics.len() as int) =~= topics@);
                None
            },
            Some(ClientMessage::Unsubscribe { topics }) => {
                let control = string_of(&chars_of(CONTROL));
                let mut i: usize = 0;
                while i < topics.len()
                    invariant
                        i <= topics.len(),
                        control@ == "control"@,
                        self@ == old(self)@.difference(names_of(topics@.take(i as int)).remove("control"@)),
                    decreases topics.len() - i,
                {
                    if !eq(&chars_of(topics[i].as_str()), &chars_of(control.as_str())) {
                        self.remove(&topics[i]);
                    }
                    proof {
                        lemma_names_take(topics@, i as int);
                        assert(self@ =~= old(self)@.difference(names_of(topics@.take(i + 1)).remove("control"@)));
                    }
                    i += 1;
                }
                assert(topics@.take(topics.len() as int) =~= topics@);
                None
            },
            Some(ClientMessage::Ping) => Some(Reply::Pong),
            None => None,
        }
    }
}

proof fn lemma_names_take(v: Seq<String>, i: int)
    requires
        0 <= i < v.len(),
    ensures
        names_of(v.take(i + 1)) == names_of(v.take(i)).insert(v[i]@),
{
    let a = v.take(i + 1);
    let b = v.take(i);
    assert forall|x: Seq<char>| names_of(a).contains(x) <==> names_of(b).insert(v[i]@).contains(x) by {
        if names_of(a).contains(x) {
            let k = choose|k: int| #![trigger a[k]] 0 <= k < a.len() && a[k]@ == x;
            if k < i {
                assert(b[k] == a[k]);
            }
        }
        if names_of(b).insert(v[i]@).contains(x) {
            if x == v[i]@ {
                assert(a[i] == v[i]);
            } else {
                let k = choose|k: int| #![trigger b[k]] 0 <= k < b.len() && b[k]@ == x;
                assert(a[k] == b[k]);
            }
        }
    }
    assert(names_of(a) =~= names_of(b).insert(v[i]@));
}

/// `control` stays subscribed whatever a client sends.
pub proof fn law_control_stays(before: Set<Seq<char>>, topics: Set<Seq<char>>)
    requires
        before.contains("control"@),
    ensures
        before.union(topics).contains("control"@),
        before.difference(topics.remove("control"@)).contains("control"@),
{
}

/// What the server sends, by kind.
#[derive(Debug, Clone, Copy, PartialEq, Eq)]
pub enum MessageKind {
    Ready,
    Pong,
    Resync,
    JobProgress,
    JobLog,
    JobDone,
    JobError,
    JobAskpass,
    JobAskpassClosed,
}

pub open spec fn topic_of(kind: MessageKind) -> Seq<char> {
    match kind {
        MessageKind::Ready | MessageKind::Pong | MessageKind::Resync => "control"@,
        _ => "job"@,
    }
}

/// The topic a message travels under: the protocol's own under `control`, every job event
/// under `job`.
pub fn topic(kind: MessageKind) -> (t: &'static str)
    ensures
        t@ == topic_of(kind),
{
    match kind {
        MessageKind::Ready | MessageKind::Pong | MessageKind::Resync => CONTROL,
        _ => "job",
    }
}

} // verus!
