//! The text streamed so far into each conversation's draft answer.
use vstd::prelude::*;
use crate::text::str_eq;

verus! {

/// What a channel shows when an answer streamed no text.
pub open spec fn no_response() -> Seq<char> {
    "No Response"@
}

/// The draft text of conversation `k`; empty when it has none.
pub open spec fn draft_of(s: Seq<(Seq<char>, Seq<char>)>, k: Seq<char>) -> Seq<char> {
    if exists|i: int| 0 <= i < s.len() && s[i].0 == k {
        s[choose|i: int| 0 <= i < s.len() && s[i].0 == k].1
    } else {
        Seq::empty()
    }
}

/// `s1` is `s0` with `c` appended to the draft of conversation `t` (begun
/// empty when there is none); the other drafts are kept.
pub open spec fn chunk_pushed(s0: Seq<(Seq<char>, Seq<char>)>, s1: Seq<(Seq<char>, Seq<char>)>, t: Seq<char>, c: Seq<char>) -> bool {
    &&& distinct_drafts(s1)
    &&& has_draft(s1, t)
    &&& draft_of(s1, t) == draft_of(s0, t) + c
    &&& forall|k: Seq<char>| k != t ==> has_draft(s1, k) == has_draft(s0, k)
    &&& forall|k: Seq<char>| k != t ==> draft_of(s1, k) == draft_of(s0, k)
}

/// The final text of a conversation whose draft is `d`.
pub open spec fn final_text(d: Seq<char>) -> Seq<char> {
    if d.len() == 0 {
        no_response()
    } else {
        d
    }
}

/// `s1` is `s0` without the draft of conversation `t`, whose final text is
/// `content`; the other drafts are kept.
pub open spec fn final_taken(s0: Seq<(Seq<char>, Seq<char>)>, s1: Seq<(Seq<char>, Seq<char>)>, t: Seq<char>, content: Seq<char>) -> bool {
    &&& distinct_drafts(s1)
    &&& content == final_text(draft_of(s0, t))
    &&& !has_draft(s1, t)
    &&& forall|k: Seq<char>| k != t ==> has_draft(s1, k) == has_draft(s0, k)
    &&& forall|k: Seq<char>| k != t ==> draft_of(s1, k) == draft_of(s0, k)
}

/// The chunks among `cs` sent to conversation `t` (`ts[i]` is where `cs[i]`
/// went), joined in order.
pub open spec fn chunks_for(ts: Seq<Seq<char>>, cs: Seq<Seq<char>>, t: Seq<char>) -> Seq<char>
    decreases ts.len(),
{
    if ts.len() == 0 || cs.len() == 0 {
        Seq::empty()
    } else {
        let before = chunks_for(ts.drop_last(), cs.drop_last(), t);
        if ts.last() == t {
            before + cs.last()
        } else {
            before
        }
    }
}

/// Law: the final text of a conversation is the chunks streamed to it since
/// its draft began, joined in order, whatever was streamed to the other
/// conversations meanwhile (`No Response` when it streamed no text).
/// `states[i + 1]` is `states[i]` after chunk `cs[i]` was sent to conversation
/// `ts[i]`; `end` is the last state after the final text of `t` was taken.
pub proof fn law_final_text_joins_chunks(
    states: Seq<Seq<(Seq<char>, Seq<char>)>>,
    ts: Seq<Seq<char>>,
    cs: Seq<Seq<char>>,
    t: Seq<char>,
    end: Seq<(Seq<char>, Seq<char>)>,
    content: Seq<char>,
)
    requires
        ts.len() == cs.len(),
        states.len() == ts.len() + 1,
        !has_draft(states[0], t),
        forall|i: int| 0 <= i < ts.len() ==> chunk_pushed(#[trigger] states[i], states[i + 1], ts[i], cs[i]),
        final_taken(states.last(), end, t, content),
    ensures
        content == final_text(chunks_for(ts, cs, t)),
        !has_draft(end, t),
{
    lemma_drafts_collect(states, ts, cs, t, ts.len() as int);
    assert(ts.take(ts.len() as int) =~= ts);
    assert(cs.take(cs.len() as int) =~= cs);
}

proof fn lemma_drafts_collect(
    states: Seq<Seq<(Seq<char>, Seq<char>)>>,
    ts: Seq<Seq<char>>,
    cs: Seq<Seq<char>>,
    t: Seq<char>,
    n: int,
)
    requires
        ts.len() == cs.len(),
        states.len() == ts.len() + 1,
        0 <= n <= ts.len(),
        !has_draft(states[0], t),
        forall|i: int| 0 <= i < ts.len() ==> chunk_pushed(#[trigger] states[i], states[i + 1], ts[i], cs[i]),
    ensures
        draft_of(states[n], t) == chunks_for(ts.take(n), cs.take(n), t),
    decreases n,
{
    if n == 0 {
        assert(draft_of(states[0], t) =~= Seq::<char>::empty());
    } else {
        lemma_drafts_collect(states, ts, cs, t, n - 1);
        assert(chunk_pushed(states[n - 1], states[n], ts[n - 1], cs[n - 1]));
        assert(ts.take(n).drop_last() =~= ts.take(n - 1));
        assert(cs.take(n).drop_last() =~= cs.take(n - 1));
    }
}

/// The conversation `k` has a draft.
pub open spec fn has_draft(s: Seq<(Seq<char>, Seq<char>)>, k: Seq<char>) -> bool {
    exists|i: int| 0 <= i < s.len() && s[i].0 == k
}

/// No conversation occurs twice.
pub open spec fn distinct_drafts(s: Seq<(Seq<char>, Seq<char>)>) -> bool {
    forall|i: int, j: int| 0 <= i < s.len() && 0 <= j < s.len() && i != j ==> s[i].0 != s[j].0
}

/// The drafts being streamed, by conversation.
#[derive(Debug)]
pub struct DraftBuffer {
    entries: Vec<(String, String)>,
}

impl View for DraftBuffer {
    type V = Seq<(Seq<char>, Seq<char>)>;

    closed spec fn view(&self) -> Seq<(Seq<char>, Seq<char>)> {
        self.entries@.map_values(|e: (String, String)| (e.0@, e.1@))
    }
}

proof fn lemma_draft_at(s: Seq<(Seq<char>, Seq<char>)>, i: int)
    requires
        distinct_drafts(s),
        0 <= i < s.len(),
    ensures
        has_draft(s, s[i].0),
        draft_of(s, s[i].0) == s[i].1,
{
    let k = s[i].0;
    assert(has_draft(s, k));
    let j = choose|j: int| 0 <= j < s.len() && s[j].0 == k;
    assert(j == i);
}

impl DraftBuffer {
    /// No drafts.
    pub fn new() -> (b: Self)
        ensures
            b@.len() == 0,
            distinct_drafts(b@),
    {
        let b = DraftBuffer { entries: Vec::new() };
        proof {
            assert(b@ =~= Seq::empty());
        }
        b
    }

    fn index_of(&self, k: &str) -> (r: Option<usize>)
        ensures
            match r {
                Some(i) => i < self@.len() && self@[i as int].0 == k@,
                None => !has_draft(self@, k@),
            },
    {
        let mut i: usize = 0;
        while i < self.entries.len()
            invariant
                i <= self@.len(),
                self@.len() == self.entries@.len(),
                forall|j: int| 0 <= j < i ==> self@[j].0 != k@,
            decreases self@.len() - i,
        {
            if str_eq(self.entries[i].0.as_str(), k) {
                return Some(i);
            }
            i = i + 1;
        }
        None
    }

    /// Append `chunk` to the draft of conversation `thread_id` (begun empty
    /// when there is none); gives the draft's text so far.
    pub fn push_chunk(&mut self, thread_id: &str, chunk: &str) -> (content: String)
        requires
            distinct_drafts(old(self)@),
        ensures
            chunk_pushed(old(self)@, final(self)@, thread_id@, chunk@),
            content@ == draft_of(final(self)@, thread_id@),
    {
        let ghost s0 = self@;
        match self.index_of(thread_id) {
            Some(i) => {
                proof {
                    lemma_draft_at(s0, i as int);
                }
                let mut text = self.entries[i].1.clone();
                text.append(chunk);
                let out = text.clone();
                self.entries.set(i, (thread_id.to_owned(), text));
                proof {
                    assert(self@ =~= s0.update(i as int, (thread_id@, out@)));
                    assert forall|a: int, b: int| 0 <= a < self@.len() && 0 <= b < self@.len() && a != b implies self@[a].0
                        != self@[b].0 by {
                        assert(self@[a].0 == s0[a].0);
                        assert(self@[b].0 == s0[b].0);
                    }
                    lemma_draft_at(self@, i as int);
                    assert forall|k: Seq<char>| k != thread_id@ implies has_draft(self@, k) == has_draft(s0, k) && draft_of(self@, k)
                        == draft_of(s0, k) by {
                        if has_draft(s0, k) {
                            let j = choose|j: int| 0 <= j < s0.len() && s0[j].0 == k;
                            assert(self@[j] == s0[j]);
                            lemma_draft_at(s0, j);
                            lemma_draft_at(self@, j);
                        }
                        if has_draft(self@, k) {
                            let j = choose|j: int| 0 <= j < self@.len() && self@[j].0 == k;
                            assert(self@[j] == s0[j]);
                        }
                    }
                }
                out
            },
            None => {
                let mut text = String::new();
                text.append(chunk);
                let out = text.clone();
                self.entries.push((thread_id.to_owned(), text));
                proof {
                    assert(self@ =~= s0.push((thread_id@, out@)));
                    assert(draft_of(s0, thread_id@) =~= Seq::<char>::empty());
                    assert(out@ =~= Seq::<char>::empty() + chunk@);
                    lemma_draft_at(self@, s0.len() as int);
                    assert forall|k: Seq<char>| k != thread_id@ implies has_draft(self@, k) == has_draft(s0, k) && draft_of(self@, k)
                        == draft_of(s0, k) by {
                        if has_draft(s0, k) {
                            let j = choose|j: int| 0 <= j < s0.len() && s0[j].0 == k;
                            assert(self@[j] == s0[j]);
                            lemma_draft_at(s0, j);
                            lemma_draft_at(self@, j);
                        }
                        if has_draft(self@, k) {
                            let j = choose|j: int| 0 <= j < self@.len() && self@[j].0 == k;
                            assert(self@[j] == s0[j]);
                        }
                    }
                }
                out
            },
        }
    }

    /// Remove the draft of conversation `thread_id` and give its text, or
    /// `No Response` when it streamed no text.
    pub fn take_final(&mut self, thread_id: &str) -> (content: String)
        requires
            distinct_drafts(old(self)@),
        ensures
            final_taken(old(self)@, final(self)@, thread_id@, content@),
    {
        let ghost s0 = self@;
        let text = match self.index_of(thread_id) {
            Some(i) => {
                proof {
                    lemma_draft_at(s0, i as int);
                }
                let e = self.entries.remove(i);
                proof {
                    assert(self@ =~= s0.remove(i as int));
                    assert forall|a: int, b: int| 0 <= a < self@.len() && 0 <= b < self@.len() && a != b implies self@[a].0
                        != self@[b].0 by {
                        let a0 = if a < i { a } else { a + 1 };
                        let b0 = if b < i { b } else { b + 1 };
                        assert(self@[a] == s0[a0]);
                        assert(self@[b] == s0[b0]);
                    }
                    assert(!has_draft(self@, thread_id@)) by {
                        if has_draft(self@, thread_id@) {
                            let j = choose|j: int| 0 <= j < self@.len() && self@[j].0 == thread_id@;
                            let j0 = if j < i { j } else { j + 1 };
                            assert(self@[j] == s0[j0]);
                        }
                    }
                    assert forall|k: Seq<char>| k != thread_id@ implies has_draft(self@, k) == has_draft(s0, k) && draft_of(self@, k)
                        == draft_of(s0, k) by {
                        if has_draft(s0, k) {
                            let j = choose|j: int| 0 <= j < s0.len() && s0[j].0 == k;
                            assert(j != i);
                            let j1 = if j < i { j } else { j - 1 };
                            assert(self@[j1] == s0[j]);
                            lemma_draft_at(s0, j);
                            lemma_draft_at(self@, j1);
                        }
                        if has_draft(self@, k) {
                            let j = choose|j: int| 0 <= j < self@.len() && self@[j].0 == k;
                            let j0 = if j < i { j } else { j + 1 };
                            assert(self@[j] == s0[j0]);
                        }
                    }
                }
                e.1
            },
            None => String::new(),
        };
        if text.as_str().is_empty() {
            "No Response".to_owned()
        } else {
            text
        }
    }
}

} // verus!

verus! {

/// How the final answer of a conversation reaches the channel.
#[derive(Debug)]
pub enum FinalDelivery {
    /// The draft message shows the final text.
    Finalize { message_id: String, content: String },
    /// The final text is sent as a message.
    Send(crate::channel::message::OutgoingResponse),
    /// Nothing is sent.
    Nothing,
}

/// How the final answer `content` of conversation `thread_id` reaches a
/// channel: a channel that updates drafts finalizes the draft, when one was
/// opened; any other channel gets the answer as a final reply.
pub fn final_delivery(supports_drafts: bool, draft_message_id: Option<String>, thread_id: &str, content: String) -> (r:
    FinalDelivery)
    ensures
        supports_drafts ==> match draft_message_id {
            Some(id) => (r matches FinalDelivery::Finalize { message_id, content: c } && message_id@ == id@ && c@ == content@),
            None => r is Nothing,
        },
        !supports_drafts ==> (r matches FinalDelivery::Send(m) && {
            &&& m.content@ == content@
            &&& m.thread_id.deep_view() == Some(thread_id@)
            &&& !m.is_draft
            &&& m.attachments@.len() == 0
            &&& m.metadata@ == "null"@
        }),
{
    if supports_drafts {
        match draft_message_id {
            Some(id) => FinalDelivery::Finalize { message_id: id, content },
            None => FinalDelivery::Nothing,
        }
    } else {
        FinalDelivery::Send(crate::channel::message::OutgoingResponse::reply(thread_id, content))
    }
}

/// The draft opened for conversation `thread_id` while an answer streams:
/// the placeholder, on a channel that updates drafts; none otherwise.
pub fn opening_draft(supports_drafts: bool, thread_id: &str) -> (r: Option<crate::channel::message::OutgoingResponse>)
    ensures
        !supports_drafts ==> r is None,
        supports_drafts ==> (r matches Some(m) && {
            &&& m.content@ == "..."@
            &&& m.thread_id.deep_view() == Some(thread_id@)
            &&& m.is_draft
            &&& m.attachments@.len() == 0
            &&& m.metadata@ == "null"@
        }),
{
    if supports_drafts {
        Some(crate::channel::message::OutgoingResponse::draft_placeholder(thread_id))
    } else {
        None
    }
}

} // verus!
