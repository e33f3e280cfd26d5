//! A conversation thread: a sequence of turns and its lifecycle state.
use vstd::prelude::*;
use crate::ext::{json_quote, json_quote_of, json_string_of, json_string_value, new_uuid, now_nanos};
use crate::message::{
    lemma_messages_view_push, ChatMessage, ChatMessageView, Role, ToolCall, ToolCallView, clone_attachments, clone_opt_string,
    messages_view, plain_message, tool_calls_view,
};
use crate::session::approval::{PendingApproval, PendingApprovalView, approvals_view, clone_approvals};
use crate::session::turn::{
    Turn, TurnState, TurnToolCall, TurnToolCallView, TurnView, recorded_call, turn_tool_calls_view,
};
use crate::text::{decimal, decimal_string};
use crate::utils::{truncate_preview, truncate_preview_spec};

verus! {

/// State of a thread.
#[derive(Debug, Clone, Copy, PartialEq, Eq, Structural)]
pub enum ThreadState {
    /// Thread is idle, waiting for input.
    Idle,
    /// Thread is processing a turn.
    Processing,
    /// Thread is waiting for user approval.
    AwaitingApproval,
    /// Thread has completed (no more turns expected).
    Completed,
    /// Thread was interrupted.
    Interrupted,
}

/// A conversation thread within a session. `metadata` is a JSON document;
/// times are nanoseconds since the epoch.
#[derive(Debug)]
pub struct Thread {
    pub id: u128,
    pub session_id: u128,
    pub user_id: String,
    pub channel: String,
    pub external_thread_id: Option<String>,
    pub state: ThreadState,
    pub turns: Vec<Turn>,
    pub created_at: i64,
    pub updated_at: i64,
    pub metadata: String,
    pub pending_approvals: Vec<PendingApproval>,
}

pub struct ThreadView {
    pub id: u128,
    pub session_id: u128,
    pub user_id: Seq<char>,
    pub channel: Seq<char>,
    pub external_thread_id: Option<Seq<char>>,
    pub state: ThreadState,
    pub turns: Seq<TurnView>,
    pub created_at: i64,
    pub updated_at: i64,
    pub metadata: Seq<char>,
    pub pending_approvals: Seq<PendingApprovalView>,
}

/// Views of a list of turns.
pub open spec fn turns_view(v: Seq<Turn>) -> Seq<TurnView> {
    v.map_values(|t: Turn| t@)
}

impl View for Thread {
    type V = ThreadView;

    open spec fn view(&self) -> ThreadView {
        ThreadView {
            id: self.id,
            session_id: self.session_id,
            user_id: self.user_id@,
            channel: self.channel@,
            external_thread_id: self.external_thread_id.deep_view(),
            state: self.state,
            turns: turns_view(self.turns@),
            created_at: self.created_at,
            updated_at: self.updated_at,
            metadata: self.metadata@,
            pending_approvals: approvals_view(self.pending_approvals@),
        }
    }
}

/// A copy of a list of turns.
pub fn clone_turns(v: &Vec<Turn>) -> (r: Vec<Turn>)
    ensures
        turns_view(r@) == turns_view(v@),
{
    let mut r: Vec<Turn> = Vec::new();
    for i in 0..v.len()
        invariant
            r@.len() == i,
            forall|j: int| 0 <= j < i ==> (#[trigger] r@[j])@ == v@[j]@,
    {
        let x = v[i].clone();
        r.push(x);
    }
    proof {
        assert(turns_view(r@) =~= turns_view(v@));
    }
    r
}

impl Clone for Thread {
    fn clone(&self) -> (r: Self)
        ensures
            r@ == self@,
    {
        Thread {
            id: self.id,
            session_id: self.session_id,
            user_id: self.user_id.clone(),
            channel: self.channel.clone(),
            external_thread_id: clone_opt_string(&self.external_thread_id),
            state: self.state,
            turns: clone_turns(&self.turns),
            created_at: self.created_at,
            updated_at: self.updated_at,
            metadata: self.metadata.clone(),
            pending_approvals: clone_approvals(&self.pending_approvals),
        }
    }
}

/// The JSON document of `serde_json::Value::Null`.
pub open spec fn json_null() -> Seq<char> {
    "null"@
}

/// The thread that `Thread::with_routing` makes, with identifier `id` created at `now`.
pub open spec fn fresh_thread(
    session_id: u128,
    user_id: Seq<char>,
    channel: Seq<char>,
    external_thread_id: Option<Seq<char>>,
    id: u128,
    now: i64,
) -> ThreadView {
    ThreadView {
        id,
        session_id,
        user_id,
        channel,
        external_thread_id,
        state: ThreadState::Idle,
        turns: Seq::empty(),
        created_at: now,
        updated_at: now,
        metadata: json_null(),
        pending_approvals: Seq::empty(),
    }
}

// ── The conversation as messages ──

/// Identifier given to the `i`-th tool call of turn `turn_number`: `turn{n}_{i}`.
pub open spec fn call_id(turn_number: usize, i: int) -> Seq<char> {
    "turn"@ + decimal(turn_number as nat) + "_"@ + decimal(i as nat)
}

/// The text the model is shown for a tool call: its error, else its result
/// (the content of a JSON string, the JSON text of anything else), both cut
/// to 1000 bytes by `truncate_preview`; `OK` when it has neither.
pub open spec fn tool_output_text(tc: TurnToolCallView) -> Seq<char> {
    match tc.error {
        Some(e) => truncate_preview_spec(e, 1000),
        None => match tc.result {
            Some(r) => truncate_preview_spec(
                match json_string_value(r) {
                    Some(s) => s,
                    None => r,
                },
                1000,
            ),
            None => "OK"@,
        },
    }
}

/// The user message that opens a turn.
pub open spec fn user_message(t: TurnView) -> ChatMessageView {
    ChatMessageView { attachments: t.attachments, ..plain_message(Role::User, t.user_input) }
}

/// The `i`-th tool call of a turn as the model requested it.
pub open spec fn call_request(t: TurnView, i: int) -> ToolCallView {
    ToolCallView {
        id: call_id(t.turn_number, i),
        name: t.tool_calls[i].name,
        arguments: t.tool_calls[i].parameters,
    }
}

/// The assistant message that declares all tool calls of a turn.
pub open spec fn calls_message(t: TurnView) -> ChatMessageView {
    ChatMessageView {
        tool_calls: Some(Seq::new(t.tool_calls.len(), |i: int| call_request(t, i))),
        ..plain_message(Role::Assistant, Seq::empty())
    }
}

/// The tool result message of the `i`-th tool call of a turn.
pub open spec fn result_message(t: TurnView, i: int) -> ChatMessageView {
    ChatMessageView {
        tool_call_id: Some(call_id(t.turn_number, i)),
        name: Some(t.tool_calls[i].name),
        ..plain_message(Role::Tool, tool_output_text(t.tool_calls[i]))
    }
}

/// The messages of one turn: `user → [assistant with tool calls → tool result*] → assistant`.
pub open spec fn turn_messages(t: TurnView) -> Seq<ChatMessageView> {
    seq![user_message(t)] + (if t.tool_calls.len() > 0 {
        seq![calls_message(t)] + Seq::new(t.tool_calls.len(), |i: int| result_message(t, i))
    } else {
        Seq::empty()
    }) + (match t.response {
        Some(r) => seq![plain_message(Role::Assistant, r)],
        None => Seq::empty(),
    })
}

/// The messages of a thread: the messages of its turns, in order.
pub open spec fn thread_messages(turns: Seq<TurnView>) -> Seq<ChatMessageView> {
    turns.flat_map(|t: TurnView| turn_messages(t))
}

// ── Lifecycle ──

/// `t` completed with `response` at `at`.
pub open spec fn completed_turn(t: TurnView, response: Option<Seq<char>>, at: i64) -> TurnView {
    TurnView { state: TurnState::Completed, response, completed_at: Some(at), ..t }
}

/// `t` failed with `error` at `at`.
pub open spec fn failed_turn(t: TurnView, error: Seq<char>, at: i64) -> TurnView {
    TurnView { state: TurnState::Failed, error: Some(error), completed_at: Some(at), ..t }
}

/// `t` interrupted at `at`.
pub open spec fn interrupted_turn(t: TurnView, at: i64) -> TurnView {
    TurnView {
        state: TurnState::Interrupted,
        completed_at: Some(at),
        image_content_parts: Seq::empty(),
        ..t
    }
}

/// `turns` with its last turn replaced by `f_last`, when there is one.
pub open spec fn with_last(turns: Seq<TurnView>, f_last: TurnView) -> Seq<TurnView> {
    if turns.len() > 0 {
        turns.update(turns.len() - 1, f_last)
    } else {
        turns
    }
}

/// The completion time stamped on the last turn, or 0 when there is none.
pub open spec fn last_stamp(turns: Seq<TurnView>) -> i64 {
    if turns.len() > 0 {
        match turns.last().completed_at {
            Some(t) => t,
            None => 0,
        }
    } else {
        0
    }
}

impl Thread {
    /// Create a new thread without routing identities.
    pub fn new(session_id: u128) -> (t: Self)
        ensures
            t@ == fresh_thread(session_id, Seq::empty(), Seq::empty(), None, t.id, t.created_at),
    {
        proof {
            reveal_strlit("");
            assert(""@ =~= Seq::<char>::empty());
        }
        Self::with_routing(session_id, "", "", None)
    }

    /// Create a thread with routing identities.
    pub fn with_routing(session_id: u128, user_id: &str, channel: &str, external_thread_id: Option<String>) -> (t: Self)
        ensures
            t@ == fresh_thread(
                session_id,
                user_id@,
                channel@,
                external_thread_id.deep_view(),
                t.id,
                t.created_at,
            ),
    {
        proof {
            reveal_strlit("");
        }
        let now = now_nanos();
        let t = Thread {
            id: new_uuid(),
            session_id,
            user_id: user_id.to_owned(),
            channel: channel.to_owned(),
            external_thread_id,
            state: ThreadState::Idle,
            turns: Vec::new(),
            created_at: now,
            updated_at: now,
            metadata: "null".to_owned(),
            pending_approvals: Vec::new(),
        };
        proof {
            assert(turns_view(t.turns@) =~= Seq::empty());
            assert(approvals_view(t.pending_approvals@) =~= Seq::empty());
        }
        t
    }

    /// The current turn number (1-indexed for display).
    pub fn turn_number(&self) -> (n: usize)
        requires
            self.turns@.len() < usize::MAX,
        ensures
            n == self.turns@.len() + 1,
    {
        self.turns.len() + 1
    }

    /// The last turn.
    pub fn last_turn(&self) -> (r: Option<&Turn>)
        ensures
            match r {
                Some(t) => self.turns@.len() > 0 && t@ == self@.turns.last(),
                None => self.turns@.len() == 0,
            },
    {
        let n = self.turns.len();
        if n == 0 {
            None
        } else {
            Some(&self.turns[n - 1])
        }
    }

    /// Start a new turn with user input; the thread goes to `Processing`.
    pub fn start_turn(&mut self, user_input: &str)
        ensures
            final(self)@ == (ThreadView {
                turns: old(self)@.turns.push(
                    fresh_turn_of(
                        old(self)@,
                        user_input@,
                        final(self)@.turns.last().id,
                        final(self)@.turns.last().started_at,
                    ),
                ),
                state: ThreadState::Processing,
                updated_at: final(self)@.updated_at,
                ..old(self)@
            }),
    {
        let turn_number = self.turns.len();
        let turn = Turn::new(self.session_id, self.id, turn_number, user_input);
        self.turns.push(turn);
        self.state = ThreadState::Processing;
        self.updated_at = now_nanos();
        proof {
            assert(turns_view(self.turns@) =~= turns_view(old(self).turns@).push(turn@));
        }
    }

    /// Complete the current turn with a response; the thread goes back to `Idle`.
    pub fn complete_turn(&mut self, response: Option<String>)
        ensures
            final(self)@ == (ThreadView {
                turns: with_last(
                    old(self)@.turns,
                    completed_turn(
                        old(self)@.turns.last(),
                        response.deep_view(),
                        last_stamp(final(self)@.turns),
                    ),
                ),
                state: ThreadState::Idle,
                updated_at: final(self)@.updated_at,
                ..old(self)@
            }),
    {
        let n = self.turns.len();
        if n > 0 {
            let mut t = self.turns.pop().unwrap();
            t.complete(response);
            self.turns.push(t);
            proof {
                assert(turns_view(self.turns@) =~= turns_view(old(self).turns@).update(n - 1, t@));
            }
        }
        self.state = ThreadState::Idle;
        self.updated_at = now_nanos();
    }

    /// Fail the current turn with an error; the thread goes back to `Idle`.
    pub fn fail_turn(&mut self, error: &str)
        ensures
            final(self)@ == (ThreadView {
                turns: with_last(
                    old(self)@.turns,
                    failed_turn(old(self)@.turns.last(), error@, last_stamp(final(self)@.turns)),
                ),
                state: ThreadState::Idle,
                updated_at: final(self)@.updated_at,
                ..old(self)@
            }),
    {
        let n = self.turns.len();
        if n > 0 {
            let mut t = self.turns.pop().unwrap();
            t.fail(error);
            self.turns.push(t);
            proof {
                assert(turns_view(self.turns@) =~= turns_view(old(self).turns@).update(n - 1, t@));
            }
        }
        self.state = ThreadState::Idle;
        self.updated_at = now_nanos();
    }

    /// Interrupt the current turn; the thread goes to `Interrupted`.
    pub fn interrupt(&mut self)
        ensures
            final(self)@ == (ThreadView {
                turns: with_last(
                    old(self)@.turns,
                    interrupted_turn(old(self)@.turns.last(), last_stamp(final(self)@.turns)),
                ),
                state: ThreadState::Interrupted,
                updated_at: final(self)@.updated_at,
                ..old(self)@
            }),
    {
        let n = self.turns.len();
        if n > 0 {
            let mut t = self.turns.pop().unwrap();
            t.interrupt();
            self.turns.push(t);
            proof {
                assert(turns_view(self.turns@) =~= turns_view(old(self).turns@).update(n - 1, t@));
            }
        }
        self.state = ThreadState::Interrupted;
        self.updated_at = now_nanos();
    }

    /// Resume after interruption: an interrupted thread goes back to `Idle`;
    /// any other thread is left as it is.
    pub fn resume(&mut self)
        ensures
            old(self).state == ThreadState::Interrupted ==> final(self)@ == (ThreadView {
                state: ThreadState::Idle,
                updated_at: final(self)@.updated_at,
                ..old(self)@
            }),
            old(self).state != ThreadState::Interrupted ==> final(self)@ == old(self)@,
    {
        if self.state == ThreadState::Interrupted {
            self.state = ThreadState::Idle;
            self.updated_at = now_nanos();
        }
    }

    /// Take out the last turn; `push_turn` puts it back.
    pub fn take_last_turn(&mut self) -> (r: Option<Turn>)
        ensures
            match r {
                Some(t) => {
                    &&& old(self)@.turns.len() > 0
                    &&& t@ == old(self)@.turns.last()
                    &&& final(self)@ == (ThreadView { turns: old(self)@.turns.drop_last(), ..old(self)@ })
                },
                None => old(self)@.turns.len() == 0 && final(self)@ == old(self)@,
            },
    {
        let r = self.turns.pop();
        proof {
            if old(self).turns@.len() > 0 {
                assert(turns_view(self.turns@) =~= old(self)@.turns.drop_last());
            }
        }
        r
    }

    /// Append a turn.
    pub fn push_turn(&mut self, t: Turn)
        ensures
            final(self)@ == (ThreadView { turns: old(self)@.turns.push(t@), ..old(self)@ }),
    {
        let ghost tv = t@;
        self.turns.push(t);
        proof {
            assert(turns_view(self.turns@) =~= old(self)@.turns.push(tv));
        }
    }

    /// Wait for the user's approval of `approvals`: the thread goes to
    /// `AwaitingApproval` at `now`, holding them.
    pub fn await_approval(&mut self, approvals: Vec<PendingApproval>, now: i64)
        ensures
            final(self)@ == (ThreadView {
                state: ThreadState::AwaitingApproval,
                pending_approvals: approvals_view(approvals@),
                updated_at: now,
                ..old(self)@
            }),
    {
        self.state = ThreadState::AwaitingApproval;
        self.pending_approvals = approvals;
        self.updated_at = now;
    }

    /// Take the pending approvals to act on the user's reply: the thread goes
    /// to `Processing`, holding none; gives them.
    pub fn take_approvals(&mut self) -> (r: Vec<PendingApproval>)
        ensures
            approvals_view(r@) == old(self)@.pending_approvals,
            final(self)@ == (ThreadView {
                state: ThreadState::Processing,
                pending_approvals: Seq::empty(),
                ..old(self)@
            }),
    {
        self.state = ThreadState::Processing;
        let mut r: Vec<PendingApproval> = Vec::new();
        std::mem::swap(&mut r, &mut self.pending_approvals);
        proof {
            assert(approvals_view(self.pending_approvals@) =~= Seq::empty());
        }
        r
    }

    /// The tool names of the pending approvals, in order.
    pub fn pending_tool_names(&self) -> (r: Vec<String>)
        ensures
            r.deep_view() == self@.pending_approvals.map_values(|a: PendingApprovalView| a.tool_name),
    {
        let mut r: Vec<String> = Vec::new();
        let mut i: usize = 0;
        while i < self.pending_approvals.len()
            invariant
                i <= self@.pending_approvals.len(),
                r.deep_view() == self@.pending_approvals.take(i as int).map_values(|a: PendingApprovalView| a.tool_name),
            decreases self@.pending_approvals.len() - i,
        {
            let ghost r0 = r.deep_view();
            r.push(self.pending_approvals[i].tool_name.clone());
            proof {
                assert(self@.pending_approvals[i as int] == self.pending_approvals@[i as int]@);
                assert(r.deep_view() =~= r0.push(self@.pending_approvals[i as int].tool_name));
                assert(self@.pending_approvals.take(i + 1).map_values(|a: PendingApprovalView| a.tool_name) =~= self@.pending_approvals.take(
                    i as int,
                ).map_values(|a: PendingApprovalView| a.tool_name).push(self@.pending_approvals[i as int].tool_name));
                assert(r.deep_view() =~= self@.pending_approvals.take(i + 1).map_values(
                    |a: PendingApprovalView| a.tool_name,
                ));
            }
            i = i + 1;
        }
        proof {
            assert(self@.pending_approvals.take(self@.pending_approvals.len() as int) =~= self@.pending_approvals);
        }
        r
    }

    /// All messages for context building, including tool call history:
    /// `user → [assistant_with_tool_calls → tool_result*] → assistant` per turn.
    pub fn messages(&self) -> (r: Vec<ChatMessage>)
        ensures
            messages_view(r@) == thread_messages(self@.turns),
    {
        let mut out: Vec<ChatMessage> = Vec::new();
        let ghost tv = self@.turns;
        for k in 0..self.turns.len()
            invariant
                tv == self@.turns,
                messages_view(out@) == thread_messages(tv.take(k as int)),
        {
            let turn = &self.turns[k];
            let ghost before = messages_view(out@);
            let ghost t = turn@;
            proof {
                assert(t == tv[k as int]);
            }
            let ghost out0 = out@;
            let um = if turn.attachments.len() == 0 {
                ChatMessage::user(turn.user_input.as_str())
            } else {
                ChatMessage::user_with_attachments(turn.user_input.as_str(), clone_attachments(&turn.attachments))
            };
            proof {
                if turn.attachments@.len() == 0 {
                    assert(t.attachments =~= Seq::empty());
                }
                assert(um@ == user_message(t));
            }
            out.push(um);
            proof {
                lemma_messages_view_push(out0, um);
            }
            let nc = turn.tool_calls.len();
            if nc > 0 {
                let mut calls: Vec<ToolCall> = Vec::new();
                for i in 0..nc
                    invariant
                        turn@ == t,
                        nc == t.tool_calls.len(),
                        calls@.len() == i,
                        forall|j: int| 0 <= j < i ==> (#[trigger] calls@[j])@ == call_request(t, j),
                {
                    let id = call_id_string(turn.turn_number, i);
                    let c = &turn.tool_calls[i];
                    calls.push(ToolCall { id, name: c.name.clone(), arguments: c.parameters.clone() });
                }
                let ghost out1 = out@;
                proof {
                    assert(tool_calls_view(calls@) =~= Seq::new(t.tool_calls.len(), |i: int| call_request(t, i)));
                }
                let cm = ChatMessage::assistant_with_tool_calls(None, calls);
                proof {
                    assert(cm@ == calls_message(t));
                }
                out.push(cm);
                proof {
                    lemma_messages_view_push(out1, cm);
                }
                for i in 0..nc
                    invariant
                        turn@ == t,
                        nc == t.tool_calls.len(),
                        messages_view(out@) == before.push(user_message(t)).push(calls_message(t))
                            + Seq::new(i as nat, |j: int| result_message(t, j)),
                {
                    let ghost prev = messages_view(out@);
                    let ghost out2 = out@;
                    let id = call_id_string(turn.turn_number, i);
                    let c = &turn.tool_calls[i];
                    let content = tool_output_string(c);
                    let rm = ChatMessage::tool_result(id.as_str(), c.name.as_str(), content.as_str());
                    proof {
                        assert(c@ == t.tool_calls[i as int]);
                        assert(rm@ == result_message(t, i as int));
                    }
                    out.push(rm);
                    proof {
                        lemma_messages_view_push(out2, rm);
                        assert(before.push(user_message(t)).push(calls_message(t)) + Seq::new(
                            (i + 1) as nat,
                            |j: int| result_message(t, j),
                        ) =~= prev.push(result_message(t, i as int)));
                    }
                }
            }
            let ghost after_calls = messages_view(out@);
            let ghost out3 = out@;
            match &turn.response {
                Some(resp) => {
                    let am = ChatMessage::assistant(resp.as_str());
                    out.push(am);
                    proof {
                        lemma_messages_view_push(out3, am);
                    }
                },
                None => {},
            }
            proof {
                assert(messages_view(out@) =~= before + turn_messages(t));
                tv.lemma_flat_map_take_append(|t: TurnView| turn_messages(t), k as int);
            }
        }
        proof {
            assert(tv.take(tv.len() as int) =~= tv);
        }
        out
    }

    /// Keep only the most recent `keep` turns, numbering them again from 0;
    /// nothing changes when there are at most `keep` turns.
    pub fn truncate_turns(&mut self, keep: usize)
        ensures
            old(self)@.turns.len() <= keep ==> final(self)@ == old(self)@,
            old(self)@.turns.len() > keep ==> final(self)@ == (ThreadView {
                turns: Seq::new(
                    keep as nat,
                    |i: int|
                        TurnView {
                            turn_number: i as usize,
                            ..old(self)@.turns[old(self)@.turns.len() - keep + i]
                        },
                ),
                ..old(self)@
            }),
    {
        let n = self.turns.len();
        if n > keep {
            let drain = n - keep;
            let mut old_turns: Vec<Turn> = Vec::new();
            std::mem::swap(&mut old_turns, &mut self.turns);
            let ghost ov = turns_view(old_turns@);
            let mut kept: Vec<Turn> = Vec::new();
            let mut i: usize = n;
            while old_turns.len() > drain
                invariant
                    drain + keep == n,
                    ov.len() == n,
                    old_turns@.len() <= n,
                    old_turns@.len() >= drain,
                    kept@.len() == n - old_turns@.len(),
                    forall|j: int| 0 <= j < old_turns@.len() ==> (#[trigger] old_turns@[j])@ == ov[j],
                    forall|j: int|
                        0 <= j < kept@.len() ==> (#[trigger] kept@[j])@ == (TurnView {
                            turn_number: (keep - 1 - j) as usize,
                            ..ov[n - 1 - j]
                        }),
                decreases old_turns@.len(),
            {
                let mut t = old_turns.pop().unwrap();
                let idx = old_turns.len() - drain;
                t.turn_number = idx;
                kept.push(t);
            }
            let mut result: Vec<Turn> = Vec::new();
            while kept.len() > 0
                invariant
                    drain + keep == n,
                    ov.len() == n,
                    kept@.len() + result@.len() == keep,
                    forall|j: int|
                        0 <= j < kept@.len() ==> (#[trigger] kept@[j])@ == (TurnView {
                            turn_number: (keep - 1 - j) as usize,
                            ..ov[n - 1 - j]
                        }),
                    forall|j: int|
                        0 <= j < result@.len() ==> (#[trigger] result@[j])@ == (TurnView {
                            turn_number: j as usize,
                            ..ov[drain + j]
                        }),
                decreases kept@.len(),
            {
                let t = kept.pop().unwrap();
                result.push(t);
            }
            self.turns = result;
            proof {
                assert(turns_view(self.turns@) =~= Seq::new(
                    keep as nat,
                    |i: int| TurnView { turn_number: i as usize, ..ov[n - keep + i] },
                ));
            }
        }
    }
}

// ── Rebuilding turns from messages ──

/// A turn as rebuilt from messages: its user input, its tool calls and its
/// final answer, if any.
pub struct RestoredTurn {
    pub user_input: Seq<char>,
    pub tool_calls: Seq<TurnToolCallView>,
    pub response: Option<Seq<char>>,
}

/// `calls` with the tool result text `content` stored on the call at `idx`
/// when there is one. (A rebuilt turn stores it as a JSON string: see
/// `call_rebuilt_as`.)
pub open spec fn with_tool_result(calls: Seq<TurnToolCallView>, idx: int, content: Seq<char>) -> Seq<TurnToolCallView> {
    if 0 <= idx < calls.len() {
        calls.update(idx, TurnToolCallView { result: Some(content), ..calls[idx] })
    } else {
        calls
    }
}

/// The tool call `a` of a rebuilt turn stands for `b` of `restore_turns`:
/// same name, parameters and error, and a result text `c` stored as the
/// JSON string `json_quote(c)`, which reads back as `c`.
pub open spec fn call_rebuilt_as(a: TurnToolCallView, b: TurnToolCallView) -> bool {
    &&& a.name == b.name
    &&& a.parameters == b.parameters
    &&& a.error == b.error
    &&& match b.result {
        None => a.result is None,
        Some(c) => a.result == Some(json_quote(c)) && json_string_value(json_quote(c)) == Some(c),
    }
}

/// Every call of `a` stands for the call of `b` at the same position.
pub open spec fn calls_rebuilt_as(a: Seq<TurnToolCallView>, b: Seq<TurnToolCallView>) -> bool {
    &&& a.len() == b.len()
    &&& forall|k: int| 0 <= k < a.len() ==> call_rebuilt_as(#[trigger] a[k], b[k])
}

/// Consume the tool result messages at the front of `msgs`, the first one
/// belonging to call `idx`; gives the calls and the messages that follow.
pub open spec fn restore_tool_results(
    msgs: Seq<ChatMessageView>,
    calls: Seq<TurnToolCallView>,
    idx: int,
) -> (Seq<TurnToolCallView>, Seq<ChatMessageView>)
    decreases msgs.len(),
{
    if msgs.len() > 0 && msgs[0].role == Role::Tool {
        restore_tool_results(msgs.drop_first(), with_tool_result(calls, idx, msgs[0].content), idx + 1)
    } else {
        (calls, msgs)
    }
}

pub proof fn lemma_restore_tool_results_len(msgs: Seq<ChatMessageView>, calls: Seq<TurnToolCallView>, idx: int)
    ensures
        restore_tool_results(msgs, calls, idx).1.len() <= msgs.len(),
    decreases msgs.len(),
{
    if msgs.len() > 0 && msgs[0].role == Role::Tool {
        lemma_restore_tool_results_len(msgs.drop_first(), with_tool_result(calls, idx, msgs[0].content), idx + 1);
    }
}

/// The calls that an assistant message requests, without results yet.
pub open spec fn requested_calls(tcs: Seq<ToolCallView>) -> Seq<TurnToolCallView> {
    tcs.map_values(|tc: ToolCallView| recorded_call(tc.name, tc.arguments))
}

/// Consume the rounds of `assistant with tool calls → tool results` at the
/// front of `msgs`; gives the calls and the messages that follow.
pub open spec fn restore_tool_batches(
    msgs: Seq<ChatMessageView>,
    calls: Seq<TurnToolCallView>,
) -> (Seq<TurnToolCallView>, Seq<ChatMessageView>)
    decreases msgs.len(),
{
    if msgs.len() > 0 && msgs[0].role == Role::Assistant && msgs[0].tool_calls is Some {
        let r = restore_tool_results(
            msgs.drop_first(),
            calls + requested_calls(msgs[0].tool_calls->0),
            calls.len() as int,
        );
        proof {
            lemma_restore_tool_results_len(
                msgs.drop_first(),
                calls + requested_calls(msgs[0].tool_calls->0),
                calls.len() as int,
            );
        }
        restore_tool_batches(r.1, r.0)
    } else {
        (calls, msgs)
    }
}

pub proof fn lemma_restore_tool_batches_len(msgs: Seq<ChatMessageView>, calls: Seq<TurnToolCallView>)
    ensures
        restore_tool_batches(msgs, calls).1.len() <= msgs.len(),
    decreases msgs.len(),
{
    if msgs.len() > 0 && msgs[0].role == Role::Assistant && msgs[0].tool_calls is Some {
        let r = restore_tool_results(
            msgs.drop_first(),
            calls + requested_calls(msgs[0].tool_calls->0),
            calls.len() as int,
        );
        lemma_restore_tool_results_len(
            msgs.drop_first(),
            calls + requested_calls(msgs[0].tool_calls->0),
            calls.len() as int,
        );
        lemma_restore_tool_batches_len(r.1, r.0);
    }
}

/// The turns rebuilt from `msgs`: every user message opens a turn, followed
/// by its tool call rounds and an optional assistant answer without tool
/// calls; messages before the first user message are skipped.
pub open spec fn restore_turns(msgs: Seq<ChatMessageView>) -> Seq<RestoredTurn>
    decreases msgs.len(),
{
    if msgs.len() == 0 {
        Seq::empty()
    } else if msgs[0].role != Role::User {
        restore_turns(msgs.drop_first())
    } else {
        let b = restore_tool_batches(msgs.drop_first(), Seq::empty());
        let rest = b.1;
        proof {
            lemma_restore_tool_batches_len(msgs.drop_first(), Seq::empty());
        }
        if rest.len() > 0 && rest[0].role == Role::Assistant && rest[0].tool_calls is None {
            seq![RestoredTurn { user_input: msgs[0].content, tool_calls: b.0, response: Some(rest[0].content) }]
                + restore_turns(rest.drop_first())
        } else {
            seq![RestoredTurn { user_input: msgs[0].content, tool_calls: b.0, response: None }]
                + restore_turns(rest)
        }
    }
}

/// `t` is the `n`-th turn of thread `thread_id` rebuilt as `r`: a fresh turn,
/// completed when `r` has an answer.
pub open spec fn is_restored_turn(t: TurnView, r: RestoredTurn, session_id: u128, thread_id: u128, n: int) -> bool {
    &&& t == TurnView {
        id: t.id,
        thread_id,
        session_id,
        turn_number: n as usize,
        user_input: r.user_input,
        thinking: None,
        response: r.response,
        tool_calls: t.tool_calls,
        state: if r.response is Some {
            TurnState::Completed
        } else {
            TurnState::Processing
        },
        started_at: t.started_at,
        completed_at: t.completed_at,
        error: None,
        image_content_parts: Seq::empty(),
        current_tool_iterations: 0,
        draft_message_id: None,
        attachments: Seq::empty(),
    }
    &&& calls_rebuilt_as(t.tool_calls, r.tool_calls)
    &&& (t.completed_at is Some <==> r.response is Some)
}

/// `turns` are the turns `rs` rebuilt in thread `thread_id`, numbered from 0.
pub open spec fn restored_from(turns: Seq<TurnView>, rs: Seq<RestoredTurn>, session_id: u128, thread_id: u128) -> bool {
    &&& turns.len() == rs.len()
    &&& forall|i: int| 0 <= i < turns.len() ==> is_restored_turn(#[trigger] turns[i], rs[i], session_id, thread_id, i)
}

impl Thread {
    /// Rebuild the turns from a message sequence (see `restore_turns`); the
    /// thread goes to `Idle`.
    pub fn restore_from_messages(&mut self, messages: Vec<ChatMessage>)
        ensures
            final(self)@ == (ThreadView {
                turns: final(self)@.turns,
                state: ThreadState::Idle,
                updated_at: final(self)@.updated_at,
                ..old(self)@
            }),
            restored_from(final(self)@.turns, restore_turns(messages_view(messages@)), old(self).session_id, old(self).id),
    {
        let ghost mv = messages_view(messages@);
        let ghost total = restore_turns(mv);
        let session_id = self.session_id;
        let thread_id = self.id;
        let n = messages.len();
        let mut turns: Vec<Turn> = Vec::new();
        let mut j: usize = 0;
        proof {
            assert(mv.skip(0) =~= mv);
        }
        while j < n
            invariant
                mv == messages_view(messages@),
                total == restore_turns(mv),
                n == messages@.len(),
                j <= n,
                turns@.len() <= total.len(),
                forall|i: int|
                    0 <= i < turns@.len() ==> is_restored_turn(#[trigger] turns@[i]@, total[i], session_id, thread_id, i),
                total.skip(turns@.len() as int) == restore_turns(mv.skip(j as int)),
            decreases n - j,
        {
            let ghost s = mv.skip(j as int);
            proof {
                assert(s[0] == mv[j as int]);
                assert(mv.skip(j + 1) =~= s.drop_first());
            }
            if messages[j].role != Role::User {
                j = j + 1;
            } else {
                let ghost jb = j + 1;
                let mut turn = Turn::new(session_id, thread_id, turns.len(), messages[j].content.as_str());
                let ghost fresh = turn@;
                let ghost mut spec_calls: Seq<TurnToolCallView> = Seq::empty();
                j = j + 1;
                proof {
                    assert(turn@.tool_calls =~= Seq::<TurnToolCallView>::empty());
                }
                while j < n && messages[j].role == Role::Assistant && messages[j].tool_calls.is_some()
                    invariant
                        mv == messages_view(messages@),
                        n == messages@.len(),
                        jb <= j <= n,
                        turn@ == (TurnView { tool_calls: turn@.tool_calls, ..fresh }),
                        calls_rebuilt_as(turn@.tool_calls, spec_calls),
                        restore_tool_batches(mv.skip(jb as int), Seq::empty()) == restore_tool_batches(
                            mv.skip(j as int),
                            spec_calls,
                        ),
                    decreases n - j,
                {
                    let ghost s2 = mv.skip(j as int);
                    let ghost calls0 = turn@.tool_calls;
                    let ghost spec0 = spec_calls;
                    let base = turn.tool_calls.len();
                    proof {
                        assert(s2[0] == mv[j as int]);
                        assert(mv.skip(j + 1) =~= s2.drop_first());
                    }
                    match &messages[j].tool_calls {
                        Some(tcs) => {
                            let ghost tv = tool_calls_view(tcs@);
                            for k in 0..tcs.len()
                                invariant
                                    tv == tool_calls_view(tcs@),
                                    turn@ == (TurnView { tool_calls: turn@.tool_calls, ..fresh }),
                                    turn@.tool_calls == calls0 + requested_calls(tv.take(k as int)),
                                    calls_rebuilt_as(calls0, spec0),
                            {
                                let ghost before = turn@.tool_calls;
                                turn.record_tool_call(tcs[k].name.as_str(), tcs[k].arguments.clone());
                                proof {
                                    assert(requested_calls(tv.take(k + 1)) =~= requested_calls(tv.take(k as int)).push(
                                        recorded_call(tcs@[k as int].name@, tcs@[k as int].arguments@),
                                    ));
                                    assert(turn@.tool_calls =~= calls0 + requested_calls(tv.take(k + 1)));
                                }
                            }
                            proof {
                                assert(tv.take(tcs@.len() as int) =~= tv);
                                assert(s2[0].tool_calls == Some(tv));
                                spec_calls = spec0 + requested_calls(tv);
                                assert(calls_rebuilt_as(turn@.tool_calls, spec_calls)) by {
                                    assert forall|k: int| 0 <= k < turn@.tool_calls.len() implies call_rebuilt_as(
                                        #[trigger] turn@.tool_calls[k],
                                        spec_calls[k],
                                    ) by {
                                        if k < calls0.len() {
                                            assert(turn@.tool_calls[k] == calls0[k]);
                                            assert(spec_calls[k] == spec0[k]);
                                        } else {
                                            assert(turn@.tool_calls[k] == requested_calls(tv)[k - calls0.len()]);
                                            assert(spec_calls[k] == requested_calls(tv)[k - calls0.len()]);
                                        }
                                    }
                                }
                            }
                        },
                        None => {},
                    }
                    j = j + 1;
                    let ghost recorded = spec_calls;
                    let ghost jt = j;
                    let mut pos: usize = 0;
                    while j < n && messages[j].role == Role::Tool
                        invariant
                            mv == messages_view(messages@),
                            n == messages@.len(),
                            jt <= j <= n,
                            pos == j - jt,
                            base <= turn@.tool_calls.len(),
                            turn@ == (TurnView { tool_calls: turn@.tool_calls, ..fresh }),
                            calls_rebuilt_as(turn@.tool_calls, spec_calls),
                            restore_tool_results(mv.skip(jt as int), recorded, base as int) == restore_tool_results(
                                mv.skip(j as int),
                                spec_calls,
                                base + pos,
                            ),
                        decreases n - j,
                    {
                        let ghost s3 = mv.skip(j as int);
                        proof {
                            assert(s3[0] == mv[j as int]);
                            assert(mv.skip(j + 1) =~= s3.drop_first());
                        }
                        let ghost c = mv[j as int].content;
                        if pos < turn.tool_calls.len() - base {
                            let q = json_quote_of(messages[j].content.as_str());
                            let ghost before = turn@.tool_calls;
                            turn.set_tool_result(base + pos, q);
                            proof {
                                let idx = base + pos;
                                spec_calls = with_tool_result(spec_calls, idx as int, c);
                                assert forall|k: int| 0 <= k < turn@.tool_calls.len() implies call_rebuilt_as(
                                    #[trigger] turn@.tool_calls[k],
                                    spec_calls[k],
                                ) by {
                                    if k != idx {
                                        assert(turn@.tool_calls[k] == before[k]);
                                    }
                                }
                            }
                        } else {
                            proof {
                                spec_calls = with_tool_result(spec_calls, (base + pos) as int, c);
                            }
                        }
                        j = j + 1;
                        pos = pos + 1;
                    }
                }
                let mut response: Option<String> = None;
                if j < n && messages[j].role == Role::Assistant && messages[j].tool_calls.is_none() {
                    proof {
                        assert(mv.skip(j as int)[0] == mv[j as int]);
                        assert(mv.skip(j + 1) =~= mv.skip(j as int).drop_first());
                    }
                    response = Some(messages[j].content.clone());
                    j = j + 1;
                }
                let ghost before_complete = turn@;
                match response {
                    Some(r) => {
                        turn.complete(Some(r));
                    },
                    None => {},
                }
                let ghost idx = turns@.len();
                turns.push(turn);
                proof {
                    assert(s[0].role == Role::User);
                    assert(restore_turns(s).len() > 0);
                    assert(total.skip(idx as int)[0] == total[idx as int]);
                    assert(total.skip(idx as int + 1) =~= total.skip(idx as int).drop_first());
                    assert(is_restored_turn(turns@[idx as int]@, total[idx as int], session_id, thread_id, idx as int));
                }
            }
        }
        proof {
            assert(mv.skip(n as int) =~= Seq::<ChatMessageView>::empty());
        }
        self.turns = turns;
        self.state = ThreadState::Idle;
        self.updated_at = now_nanos();
        proof {
            assert forall|i: int| 0 <= i < self.turns@.len() implies is_restored_turn(
                #[trigger] self@.turns[i],
                total[i],
                session_id,
                thread_id,
                i,
            ) by {
                assert(self@.turns[i] == self.turns@[i]@);
            }
        }
    }
}

/// The turn that `start_turn` appends to `th`.
pub open spec fn fresh_turn_of(th: ThreadView, user_input: Seq<char>, id: u128, started_at: i64) -> TurnView {
    crate::session::turn::fresh_turn(th.session_id, th.id, th.turns.len() as usize, user_input, id, started_at)
}

/// `turn{n}_{i}`.
fn call_id_string(turn_number: usize, i: usize) -> (r: String)
    ensures
        r@ == call_id(turn_number, i as int),
{
    let mut r = "turn".to_owned();
    r.append(decimal_string(turn_number).as_str());
    r.append("_");
    r.append(decimal_string(i).as_str());
    r
}

/// The text the model is shown for a tool call.
fn tool_output_string(c: &TurnToolCall) -> (r: String)
    ensures
        r@ == tool_output_text(c@),
{
    match &c.error {
        Some(e) => truncate_preview(e.as_str(), 1000),
        None => match &c.result {
            Some(res) => {
                let raw = match json_string_of(res.as_str()) {
                    Some(s) => s,
                    None => res.clone(),
                };
                truncate_preview(raw.as_str(), 1000)
            },
            None => "OK".to_owned(),
        },
    }
}

} // verus!
