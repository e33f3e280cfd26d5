//! A turn: one complete agentic run started by a user input.
use vstd::prelude::*;
use crate::ext::{new_uuid, now_nanos};
use crate::message::{
    ContentPart, ContentPartView, MessageAttachment, MessageAttachmentView, attachments_view,
    clone_attachments, clone_opt_string, clone_parts, parts_view,
};

verus! {

/// State of a turn.
#[derive(Debug, Clone, Copy, PartialEq, Eq, Structural)]
pub enum TurnState {
    /// The turn is running.
    Processing,
    /// The turn ended with a response.
    Completed,
    /// The turn ended with an error.
    Failed,
    /// The turn was interrupted.
    Interrupted,
}

/// A tool call made during a turn. `parameters` and `result` are JSON documents.
#[derive(Debug)]
pub struct TurnToolCall {
    pub name: String,
    pub parameters: String,
    pub result: Option<String>,
    pub error: Option<String>,
}

pub struct TurnToolCallView {
    pub name: Seq<char>,
    pub parameters: Seq<char>,
    pub result: Option<Seq<char>>,
    pub error: Option<Seq<char>>,
}

impl View for TurnToolCall {
    type V = TurnToolCallView;

    open spec fn view(&self) -> TurnToolCallView {
        TurnToolCallView {
            name: self.name@,
            parameters: self.parameters@,
            result: self.result.deep_view(),
            error: self.error.deep_view(),
        }
    }
}

impl Clone for TurnToolCall {
    fn clone(&self) -> (r: Self)
        ensures
            r@ == self@,
    {
        TurnToolCall {
            name: self.name.clone(),
            parameters: self.parameters.clone(),
            result: clone_opt_string(&self.result),
            error: clone_opt_string(&self.error),
        }
    }
}

/// Views of a list of tool calls of a turn.
pub open spec fn turn_tool_calls_view(v: Seq<TurnToolCall>) -> Seq<TurnToolCallView> {
    v.map_values(|c: TurnToolCall| c@)
}

/// A copy of the tool calls of a turn.
pub fn clone_turn_tool_calls(v: &Vec<TurnToolCall>) -> (r: Vec<TurnToolCall>)
    ensures
        turn_tool_calls_view(r@) == turn_tool_calls_view(v@),
{
    let mut r: Vec<TurnToolCall> = Vec::new();
    for i in 0..v.len()
        invariant
            r@.len() == i,
            forall|j: int| 0 <= j < i ==> (#[trigger] r@[j])@ == v@[j]@,
    {
        let x = v[i].clone();
        r.push(x);
    }
    proof {
        assert(turn_tool_calls_view(r@) =~= turn_tool_calls_view(v@));
    }
    r
}

/// One complete agentic run: user input, reasoning, tool calls and answer.
#[derive(Debug)]
pub struct Turn {
    pub id: u128,
    pub thread_id: u128,
    pub session_id: u128,
    pub turn_number: usize,
    pub user_input: String,
    pub thinking: Option<String>,
    pub response: Option<String>,
    pub tool_calls: Vec<TurnToolCall>,
    pub state: TurnState,
    /// Nanoseconds since the epoch.
    pub started_at: i64,
    pub completed_at: Option<i64>,
    pub error: Option<String>,
    pub image_content_parts: Vec<ContentPart>,
    pub current_tool_iterations: usize,
    pub draft_message_id: Option<String>,
    pub attachments: Vec<MessageAttachment>,
}

pub struct TurnView {
    pub id: u128,
    pub thread_id: u128,
    pub session_id: u128,
    pub turn_number: usize,
    pub user_input: Seq<char>,
    pub thinking: Option<Seq<char>>,
    pub response: Option<Seq<char>>,
    pub tool_calls: Seq<TurnToolCallView>,
    pub state: TurnState,
    pub started_at: i64,
    pub completed_at: Option<i64>,
    pub error: Option<Seq<char>>,
    pub image_content_parts: Seq<ContentPartView>,
    pub current_tool_iterations: usize,
    pub draft_message_id: Option<Seq<char>>,
    pub attachments: Seq<MessageAttachmentView>,
}

impl View for Turn {
    type V = TurnView;

    open spec fn view(&self) -> TurnView {
        TurnView {
            id: self.id,
            thread_id: self.thread_id,
            session_id: self.session_id,
            turn_number: self.turn_number,
            user_input: self.user_input@,
            thinking: self.thinking.deep_view(),
            response: self.response.deep_view(),
            tool_calls: turn_tool_calls_view(self.tool_calls@),
            state: self.state,
            started_at: self.started_at,
            completed_at: self.completed_at,
            error: self.error.deep_view(),
            image_content_parts: parts_view(self.image_content_parts@),
            current_tool_iterations: self.current_tool_iterations,
            draft_message_id: self.draft_message_id.deep_view(),
            attachments: attachments_view(self.attachments@),
        }
    }
}

impl Clone for Turn {
    fn clone(&self) -> (r: Self)
        ensures
            r@ == self@,
    {
        Turn {
            id: self.id,
            thread_id: self.thread_id,
            session_id: self.session_id,
            turn_number: self.turn_number,
            user_input: self.user_input.clone(),
            thinking: clone_opt_string(&self.thinking),
            response: clone_opt_string(&self.response),
            tool_calls: clone_turn_tool_calls(&self.tool_calls),
            state: self.state,
            started_at: self.started_at,
            completed_at: self.completed_at,
            error: clone_opt_string(&self.error),
            image_content_parts: clone_parts(&self.image_content_parts),
            current_tool_iterations: self.current_tool_iterations,
            draft_message_id: clone_opt_string(&self.draft_message_id),
            attachments: clone_attachments(&self.attachments),
        }
    }
}

/// The turn that `Turn::new` makes, with identifier `id` and start time `started_at`.
pub open spec fn fresh_turn(
    session_id: u128,
    thread_id: u128,
    turn_number: usize,
    user_input: Seq<char>,
    id: u128,
    started_at: i64,
) -> TurnView {
    TurnView {
        id,
        thread_id,
        session_id,
        turn_number,
        user_input,
        thinking: None,
        response: None,
        tool_calls: Seq::empty(),
        state: TurnState::Processing,
        started_at,
        completed_at: None,
        error: None,
        image_content_parts: Seq::empty(),
        current_tool_iterations: 0,
        draft_message_id: None,
        attachments: Seq::empty(),
    }
}

/// The tool call that `record_tool_call` appends.
pub open spec fn recorded_call(name: Seq<char>, parameters: Seq<char>) -> TurnToolCallView {
    TurnToolCallView { name, parameters, result: None, error: None }
}

impl Turn {
    /// Start a turn with a fresh identifier, the current time and state `Processing`.
    pub fn new(session_id: u128, thread_id: u128, turn_number: usize, user_input: &str) -> (t: Self)
        ensures
            t@ == fresh_turn(session_id, thread_id, turn_number, user_input@, t.id, t.started_at),
    {
        let id = new_uuid();
        let started_at = now_nanos();
        let t = Turn {
            id,
            thread_id,
            session_id,
            turn_number,
            user_input: user_input.to_owned(),
            thinking: None,
            response: None,
            tool_calls: Vec::new(),
            state: TurnState::Processing,
            started_at,
            completed_at: None,
            error: None,
            image_content_parts: Vec::new(),
            current_tool_iterations: 0,
            draft_message_id: None,
            attachments: Vec::new(),
        };
        proof {
            assert(turn_tool_calls_view(t.tool_calls@) =~= Seq::empty());
            assert(parts_view(t.image_content_parts@) =~= Seq::empty());
            assert(attachments_view(t.attachments@) =~= Seq::empty());
        }
        t
    }

    /// Mark the turn completed with `response`, stamping the completion time.
    pub fn complete(&mut self, response: Option<String>)
        ensures
            final(self)@ == (TurnView {
                state: TurnState::Completed,
                response: response.deep_view(),
                completed_at: final(self)@.completed_at,
                ..old(self)@
            }),
            final(self)@.completed_at is Some,
    {
        self.state = TurnState::Completed;
        self.response = response;
        self.completed_at = Some(now_nanos());
    }

    /// Mark the turn failed with `error`, stamping the completion time.
    pub fn fail(&mut self, error: &str)
        ensures
            final(self)@ == (TurnView {
                state: TurnState::Failed,
                error: Some(error@),
                completed_at: final(self)@.completed_at,
                ..old(self)@
            }),
            final(self)@.completed_at is Some,
    {
        self.state = TurnState::Failed;
        self.error = Some(error.to_owned());
        self.completed_at = Some(now_nanos());
    }

    /// Mark the turn interrupted, stamping the completion time and dropping
    /// its image content.
    pub fn interrupt(&mut self)
        ensures
            final(self)@ == (TurnView {
                state: TurnState::Interrupted,
                completed_at: final(self)@.completed_at,
                image_content_parts: Seq::empty(),
                ..old(self)@
            }),
            final(self)@.completed_at is Some,
    {
        self.state = TurnState::Interrupted;
        self.completed_at = Some(now_nanos());
        self.image_content_parts = Vec::new();
        proof {
            assert(parts_view(self.image_content_parts@) =~= Seq::empty());
        }
    }

    /// Append a tool call without result.
    pub fn record_tool_call(&mut self, name: &str, parameters: String)
        ensures
            final(self)@ == (TurnView {
                tool_calls: old(self)@.tool_calls.push(recorded_call(name@, parameters@)),
                ..old(self)@
            }),
    {
        let call = TurnToolCall { name: name.to_owned(), parameters, result: None, error: None };
        self.tool_calls.push(call);
        proof {
            assert(turn_tool_calls_view(self.tool_calls@) =~= old(self)@.tool_calls.push(
                recorded_call(name@, parameters@),
            ));
        }
    }

    /// Store `result` on the last tool call, if there is one.
    pub fn record_tool_result(&mut self, result: String)
        ensures
            old(self)@.tool_calls.len() == 0 ==> final(self)@ == old(self)@,
            old(self)@.tool_calls.len() > 0 ==> final(self)@ == (TurnView {
                tool_calls: old(self)@.tool_calls.update(
                    old(self)@.tool_calls.len() - 1,
                    TurnToolCallView {
                        result: Some(result@),
                        ..old(self)@.tool_calls.last()
                    },
                ),
                ..old(self)@
            }),
    {
        let n = self.tool_calls.len();
        if n > 0 {
            let mut last = self.tool_calls.pop().unwrap();
            last.result = Some(result);
            self.tool_calls.push(last);
            proof {
                assert(turn_tool_calls_view(self.tool_calls@) =~= old(self)@.tool_calls.update(
                    n - 1,
                    TurnToolCallView { result: Some(result@), ..old(self)@.tool_calls.last() },
                ));
            }
        }
    }

    /// Store `error` on the last tool call, if there is one.
    pub fn record_tool_error(&mut self, error: String)
        ensures
            old(self)@.tool_calls.len() == 0 ==> final(self)@ == old(self)@,
            old(self)@.tool_calls.len() > 0 ==> final(self)@ == (TurnView {
                tool_calls: old(self)@.tool_calls.update(
                    old(self)@.tool_calls.len() - 1,
                    TurnToolCallView {
                        error: Some(error@),
                        ..old(self)@.tool_calls.last()
                    },
                ),
                ..old(self)@
            }),
    {
        let n = self.tool_calls.len();
        if n > 0 {
            let mut last = self.tool_calls.pop().unwrap();
            last.error = Some(error);
            self.tool_calls.push(last);
            proof {
                assert(turn_tool_calls_view(self.tool_calls@) =~= old(self)@.tool_calls.update(
                    n - 1,
                    TurnToolCallView { error: Some(error@), ..old(self)@.tool_calls.last() },
                ));
            }
        }
    }

    /// Store `result` on the tool call at `idx`.
    pub fn set_tool_result(&mut self, idx: usize, result: String)
        requires
            idx < old(self)@.tool_calls.len(),
        ensures
            final(self)@ == (TurnView {
                tool_calls: old(self)@.tool_calls.update(
                    idx as int,
                    TurnToolCallView { result: Some(result@), ..old(self)@.tool_calls[idx as int] },
                ),
                ..old(self)@
            }),
    {
        let mut c = self.tool_calls[idx].clone();
        c.result = Some(result);
        self.tool_calls.set(idx, c);
        proof {
            assert(turn_tool_calls_view(self.tool_calls@) =~= old(self)@.tool_calls.update(
                idx as int,
                TurnToolCallView { result: Some(result@), ..old(self)@.tool_calls[idx as int] },
            ));
        }
    }

    /// Remember the channel's draft message that shows this turn's answer.
    pub fn record_draft_message_id(&mut self, id: Option<String>)
        ensures
            final(self)@ == (TurnView { draft_message_id: id.deep_view(), ..old(self)@ }),
    {
        self.draft_message_id = id;
    }

    /// Append reasoning text to the turn's thinking.
    pub fn record_reasoning(&mut self, text: &str)
        ensures
            final(self)@ == (TurnView {
                thinking: Some(
                    match old(self)@.thinking {
                        Some(t) => t + text@,
                        None => text@,
                    },
                ),
                ..old(self)@
            }),
    {
        let next = match self.thinking.take() {
            Some(t) => t.concat(text),
            None => text.to_owned(),
        };
        self.thinking = Some(next);
    }
}

} // verus!
