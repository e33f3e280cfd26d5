//! The progress of the current turn of a thread, as the binding loop records
//! it: the iteration reached, tool calls and their outcomes, reasoning, the
//! channel's draft message, and the wait for approvals.
use vstd::prelude::*;
use crate::ext::{now_nanos, uuid_text, uuid_to_string, json_string_list_text};
use crate::message::{ChatMessage, ChatMessageView, messages_view};
use crate::session::approval::{PendingApproval, PendingApprovalView, approvals_view};
use crate::session::manager::{
    SessionManager, SessionManagerView, lemma_replace_thread, located, session_has, session_pos, thread_of, with_thread,
};
use crate::session::session::{Session, SessionView, thread_position};
use crate::session::thread::{ThreadState, ThreadView, thread_messages, with_last};
use crate::session::turn::{Turn, TurnToolCallView, TurnView, recorded_call};
use crate::storage::convert::{ToolCallInsertValues, tool_call_row_of};
use crate::storage::ops::{StorageOp, StorageOpView};

verus! {

/// An edit of a turn.
pub enum TurnEdit {
    /// The iteration of the agentic loop reached.
    Iteration(usize),
    /// A tool call, without outcome yet.
    ToolCall { name: String, parameters: String },
    /// The result (JSON text) of the last tool call.
    ToolResult(String),
    /// The error of the last tool call.
    ToolError(String),
    /// More reasoning text.
    Reasoning(String),
    /// The channel's draft message showing the answer.
    Draft(Option<String>),
}

pub enum TurnEditView {
    Iteration(usize),
    ToolCall { name: Seq<char>, parameters: Seq<char> },
    ToolResult(Seq<char>),
    ToolError(Seq<char>),
    Reasoning(Seq<char>),
    Draft(Option<Seq<char>>),
}

impl View for TurnEdit {
    type V = TurnEditView;

    open spec fn view(&self) -> TurnEditView {
        match self {
            TurnEdit::Iteration(n) => TurnEditView::Iteration(*n),
            TurnEdit::ToolCall { name, parameters } => TurnEditView::ToolCall { name: name@, parameters: parameters@ },
            TurnEdit::ToolResult(r) => TurnEditView::ToolResult(r@),
            TurnEdit::ToolError(e) => TurnEditView::ToolError(e@),
            TurnEdit::Reasoning(t) => TurnEditView::Reasoning(t@),
            TurnEdit::Draft(d) => TurnEditView::Draft(d.deep_view()),
        }
    }
}

/// The turn `u` after the edit `e`.
pub open spec fn edited(u: TurnView, e: TurnEditView) -> TurnView {
    match e {
        TurnEditView::Iteration(n) => TurnView { current_tool_iterations: n, ..u },
        TurnEditView::ToolCall { name, parameters } => TurnView {
            tool_calls: u.tool_calls.push(recorded_call(name, parameters)),
            ..u
        },
        TurnEditView::ToolResult(r) => if u.tool_calls.len() == 0 {
            u
        } else {
            TurnView {
                tool_calls: u.tool_calls.update(
                    u.tool_calls.len() - 1,
                    TurnToolCallView { result: Some(r), ..u.tool_calls.last() },
                ),
                ..u
            }
        },
        TurnEditView::ToolError(x) => if u.tool_calls.len() == 0 {
            u
        } else {
            TurnView {
                tool_calls: u.tool_calls.update(
                    u.tool_calls.len() - 1,
                    TurnToolCallView { error: Some(x), ..u.tool_calls.last() },
                ),
                ..u
            }
        },
        TurnEditView::Reasoning(t) => TurnView {
            thinking: Some(
                match u.thinking {
                    Some(x) => x + t,
                    None => t,
                },
            ),
            ..u
        },
        TurnEditView::Draft(d) => TurnView { draft_message_id: d, ..u },
    }
}

fn apply_edit(t: &mut Turn, e: TurnEdit)
    ensures
        final(t)@ == edited(old(t)@, e@),
{
    match e {
        TurnEdit::Iteration(n) => {
            t.current_tool_iterations = n;
        },
        TurnEdit::ToolCall { name, parameters } => {
            t.record_tool_call(name.as_str(), parameters);
        },
        TurnEdit::ToolResult(r) => {
            t.record_tool_result(r);
        },
        TurnEdit::ToolError(x) => {
            t.record_tool_error(x);
        },
        TurnEdit::Reasoning(text) => {
            t.record_reasoning(text.as_str());
        },
        TurnEdit::Draft(d) => {
            t.record_draft_message_id(d);
        },
    }
}

/// The thread `tid` of binding `b` exists and has a turn.
pub open spec fn has_last_turn(v: SessionManagerView, b: Seq<char>, tid: u128) -> bool {
    located(v, b, tid) && thread_of(v, b, tid).turns.len() > 0
}

/// The last turn of thread `tid` of binding `b`.
pub open spec fn last_turn_of(v: SessionManagerView, b: Seq<char>, tid: u128) -> TurnView {
    thread_of(v, b, tid).turns.last()
}

/// The sessions of `v` with the last turn of thread `tid` of binding `b` replaced by `u`.
pub open spec fn with_last_turn(v: SessionManagerView, b: Seq<char>, tid: u128, u: TurnView) -> Seq<SessionView> {
    let o = thread_of(v, b, tid);
    with_thread(v, b, tid, ThreadView { turns: with_last(o.turns, u), ..o })
}

/// `new` is `old` with the edit `e` made to the last turn of thread `tid`
/// of binding `b`, when there is one, and nothing changed otherwise.
pub open spec fn turn_edited(old: SessionManagerView, new: SessionManagerView, b: Seq<char>, tid: u128, e: TurnEditView) -> bool {
    if has_last_turn(old, b, tid) {
        &&& new == (SessionManagerView {
            sessions: with_last_turn(old, b, tid, edited(last_turn_of(old, b, tid), e)),
            ..old
        })
        &&& has_last_turn(new, b, tid)
        &&& last_turn_of(new, b, tid) == edited(last_turn_of(old, b, tid), e)
    } else {
        new == old
    }
}

/// The state of thread `tid` of binding `b`; `Idle` when there is none.
pub open spec fn thread_state_of(v: SessionManagerView, b: Seq<char>, tid: u128) -> ThreadState {
    if located(v, b, tid) {
        thread_of(v, b, tid).state
    } else {
        ThreadState::Idle
    }
}

/// The iteration of the agentic loop recorded on the last turn of thread
/// `tid` of binding `b`; 0 when there is none.
pub open spec fn iteration_of(v: SessionManagerView, b: Seq<char>, tid: u128) -> usize {
    if has_last_turn(v, b, tid) {
        last_turn_of(v, b, tid).current_tool_iterations
    } else {
        0
    }
}

/// `tools` with each of `names` added when it is not there yet, in order.
pub open spec fn approved_tools(tools: Seq<Seq<char>>, names: Seq<Seq<char>>) -> Seq<Seq<char>>
    decreases names.len(),
{
    if names.len() == 0 {
        tools
    } else {
        let before = approved_tools(tools, names.drop_last());
        if before.contains(names.last()) {
            before
        } else {
            before.push(names.last())
        }
    }
}

/// The tool names of the pending approvals of thread `tid` of binding `b`;
/// none when there is no such thread.
pub open spec fn pending_names(v: SessionManagerView, b: Seq<char>, tid: u128) -> Seq<Seq<char>> {
    if located(v, b, tid) {
        thread_of(v, b, tid).pending_approvals.map_values(|a: PendingApprovalView| a.tool_name)
    } else {
        Seq::empty()
    }
}

/// The pending approvals of thread `tid` of binding `b`; none when there is
/// no such thread.
pub open spec fn pending_of(v: SessionManagerView, b: Seq<char>, tid: u128) -> Seq<PendingApprovalView> {
    if located(v, b, tid) {
        thread_of(v, b, tid).pending_approvals
    } else {
        Seq::empty()
    }
}

/// `new` is `old` after `take_pending_approvals` for thread `tid` of binding
/// `b`: the thread is `Processing` and holds no pending approvals.
pub open spec fn approvals_taken(old: SessionManagerView, new: SessionManagerView, b: Seq<char>, tid: u128) -> bool {
    &&& (!located(old, b, tid) ==> new == old)
    &&& (located(old, b, tid) ==> {
        let o = thread_of(old, b, tid);
        let n = ThreadView { state: ThreadState::Processing, pending_approvals: Seq::empty(), ..o };
        &&& located(new, b, tid)
        &&& thread_of(new, b, tid) == n
        &&& new == (SessionManagerView { sessions: with_thread(old, b, tid, n), ..old })
    })
}

/// `new` is `old` after `approve_pending_always` for thread `tid` of binding `b`.
pub open spec fn always_approved(old: SessionManagerView, new: SessionManagerView, b: Seq<char>, tid: u128) -> bool {
    &&& (!session_has(old.sessions, b) ==> new == old)
    &&& (session_has(old.sessions, b) ==> {
            let s = old.session_of(b);
            let tools = approved_tools(s.auto_approved_tools, pending_names(old, b, tid));
            let p = session_pos(old.sessions, b);
            &&& new == (SessionManagerView {
                sessions: old.sessions.update(p, SessionView { auto_approved_tools: tools, ..s }),
                pending_storage: old.queued(
                    seq![
                        StorageOpView::UpdateSessionAutoApprovedTools {
                            session_id: uuid_text(s.id),
                            tools: json_string_list_text(tools),
                        },
                    ],
                ),
                ..old
            })
    })
}

/// `new` is `old` after `record_tool_call` of `name(parameters)` on thread
/// `tid` of binding `b`.
pub open spec fn tool_call_recorded(
    old: SessionManagerView,
    new: SessionManagerView,
    b: Seq<char>,
    tid: u128,
    name: Seq<char>,
    parameters: Seq<char>,
) -> bool {
    &&& (!has_last_turn(old, b, tid) ==> new == old)
    &&& (has_last_turn(old, b, tid) ==> {
        let u = last_turn_of(old, b, tid);
        let nu = edited(u, TurnEditView::ToolCall { name, parameters });
        &&& has_last_turn(new, b, tid)
        &&& last_turn_of(new, b, tid) == nu
        &&& new == (SessionManagerView {
            sessions: with_last_turn(old, b, tid, nu),
            pending_storage: old.queued(
                seq![
                    StorageOpView::InsertToolCall(
                        tool_call_row_of(uuid_text(u.id), u.tool_calls.len() as usize, recorded_call(name, parameters)),
                    ),
                ],
            ),
            ..old
        })
    })
}

/// The outcome of a tool: its result (JSON text), or its error.
pub open spec fn outcome_view(o: Result<String, String>) -> Result<Seq<char>, Seq<char>> {
    match o {
        Ok(r) => Ok(r@),
        Err(x) => Err(x@),
    }
}

/// `new` is `old` after `record_tool_outcome` of `outcome` on thread `tid`
/// of binding `b`.
pub open spec fn tool_outcome_recorded(
    old: SessionManagerView,
    new: SessionManagerView,
    b: Seq<char>,
    tid: u128,
    outcome: Result<Seq<char>, Seq<char>>,
) -> bool {
    &&& (!has_last_turn(old, b, tid) ==> new == old)
    &&& (has_last_turn(old, b, tid) ==> {
        let u = last_turn_of(old, b, tid);
        let e = match outcome {
            Ok(r) => TurnEditView::ToolResult(r),
            Err(x) => TurnEditView::ToolError(x),
        };
        let nu = edited(u, e);
        &&& has_last_turn(new, b, tid)
        &&& last_turn_of(new, b, tid) == nu
        &&& new == (SessionManagerView {
            sessions: with_last_turn(old, b, tid, nu),
            pending_storage: old.queued(
                seq![
                    StorageOpView::UpdateToolCallResult {
                        turn_id: uuid_text(u.id),
                        index: if u.tool_calls.len() > 0 {
                            (u.tool_calls.len() - 1) as usize
                        } else {
                            0
                        },
                        result: match outcome {
                            Ok(r) => Some(r),
                            Err(_) => None,
                        },
                        tool_error: match outcome {
                            Ok(_) => None,
                            Err(x) => Some(x),
                        },
                    },
                ],
            ),
            ..old
        })
    })
}

impl SessionManager {
    /// Make the edit `e` to the last turn of thread `tid` of binding `b`
    /// (see `turn_edited`); gives a copy of the edited turn.
    pub fn edit_last_turn(&mut self, b: &str, tid: u128, e: TurnEdit) -> (r: Option<Turn>)
        requires
            old(self)@.wf(),
        ensures
            final(self)@.wf(),
            turn_edited(old(self)@, final(self)@, b@, tid, e@),
            match r {
                Some(t) => has_last_turn(old(self)@, b@, tid) && t@ == edited(last_turn_of(old(self)@, b@, tid), e@),
                None => !has_last_turn(old(self)@, b@, tid),
            },
    {
        match self.locate(b, tid) {
            None => None,
            Some((si, ti)) => {
                let ghost v0 = self@;
                let ghost o = thread_of(v0, b@, tid);
                let mut th = self.take_thread_at(si, ti);
                let ghost mid = self@;
                match th.take_last_turn() {
                    None => {
                        let ghost tv = th@;
                        self.put_thread_at(si, ti, th);
                        proof {
                            lemma_replace_thread(v0, mid, self@, b@, tid, si as int, ti as int, tv);
                            assert(tv == o);
                            let s = v0.sessions[si as int];
                            assert(s.threads.update(ti as int, o) =~= s.threads);
                            assert(SessionView { threads: s.threads.update(ti as int, o), ..s } == s);
                            assert(with_thread(v0, b@, tid, o) =~= v0.sessions);
                            assert(self@ == v0);
                        }
                        None
                    },
                    Some(mut t) => {
                        apply_edit(&mut t, e);
                        let c = t.clone();
                        th.push_turn(t);
                        let ghost tv = th@;
                        self.put_thread_at(si, ti, th);
                        proof {
                            lemma_replace_thread(v0, mid, self@, b@, tid, si as int, ti as int, tv);
                            assert(tv.turns =~= with_last(o.turns, c@));
                            assert(tv == ThreadView { turns: with_last(o.turns, c@), ..o });
                        }
                        Some(c)
                    },
                }
            },
        }
    }

    /// The state of thread `tid` of binding `b` (see `thread_state_of`).
    pub fn thread_state(&self, b: &str, tid: u128) -> (s: ThreadState)
        requires
            self@.wf(),
        ensures
            s == thread_state_of(self@, b@, tid),
    {
        match self.thread_ref(b, tid) {
            Some(t) => t.state,
            None => ThreadState::Idle,
        }
    }

    /// Thread `tid` of binding `b`.
    pub fn thread_ref(&self, b: &str, tid: u128) -> (r: Option<&crate::session::thread::Thread>)
        requires
            self@.wf(),
        ensures
            match r {
                Some(t) => located(self@, b@, tid) && t@ == thread_of(self@, b@, tid),
                None => !located(self@, b@, tid),
            },
    {
        match self.locate(b, tid) {
            None => None,
            Some((si, ti)) => {
                let s = self.session_at(si);
                proof {
                    assert(s.threads@[ti as int]@ == s@.threads[ti as int]);
                }
                Some(&s.threads[ti])
            },
        }
    }

    /// The messages of thread `tid` of binding `b` for the model (see
    /// `Thread::messages`); none when there is no such thread.
    pub fn thread_messages(&self, b: &str, tid: u128) -> (r: Vec<ChatMessage>)
        requires
            self@.wf(),
        ensures
            messages_view(r@) == if located(self@, b@, tid) {
                thread_messages(thread_of(self@, b@, tid).turns)
            } else {
                Seq::<ChatMessageView>::empty()
            },
    {
        match self.thread_ref(b, tid) {
            Some(t) => t.messages(),
            None => {
                let r: Vec<ChatMessage> = Vec::new();
                proof {
                    assert(messages_view(r@) =~= Seq::<ChatMessageView>::empty());
                }
                r
            },
        }
    }

    /// The iteration recorded on the last turn of thread `tid` (see `iteration_of`).
    pub fn turn_iteration(&self, b: &str, tid: u128) -> (n: usize)
        requires
            self@.wf(),
        ensures
            n == iteration_of(self@, b@, tid),
    {
        match self.thread_ref(b, tid) {
            Some(t) => match t.last_turn() {
                Some(u) => u.current_tool_iterations,
                None => 0,
            },
            None => 0,
        }
    }

    /// Record the tool call `name(parameters)` on the last turn of thread
    /// `tid` of binding `b`, and queue its insertion, when there is a turn.
    pub fn record_tool_call(&mut self, b: &str, tid: u128, name: &str, parameters: &str)
        requires
            old(self)@.wf(),
        ensures
            final(self)@.wf(),
            tool_call_recorded(old(self)@, final(self)@, b@, tid, name@, parameters@),
    {
        let e = TurnEdit::ToolCall { name: name.to_owned(), parameters: parameters.to_owned() };
        match self.edit_last_turn(b, tid, e) {
            None => {},
            Some(t) => {
                proof {
                    assert(t@.tool_calls.len() == t.tool_calls@.len());
                }
                let idx = t.tool_calls.len() - 1;
                let tid_text = uuid_to_string(t.id);
                proof {
                    assert(t.tool_calls@[idx as int]@ == t@.tool_calls[idx as int]);
                    assert(t@.tool_calls[idx as int] == recorded_call(name@, parameters@));
                }
                let values = ToolCallInsertValues::from_tool_call(tid_text.as_str(), idx, &t.tool_calls[idx]);
                self.queue(StorageOp::InsertToolCall(values));
            },
        }
    }

    /// Record the outcome of the last tool call of the last turn of thread
    /// `tid` of binding `b`: its result as JSON text, or its error; and queue
    /// it for the call's row, when there is a turn.
    pub fn record_tool_outcome(&mut self, b: &str, tid: u128, outcome: Result<String, String>)
        requires
            old(self)@.wf(),
        ensures
            final(self)@.wf(),
            tool_outcome_recorded(old(self)@, final(self)@, b@, tid, outcome_view(outcome)),
    {
        let (e, result, error) = match &outcome {
            Ok(r) => (TurnEdit::ToolResult(r.clone()), Some(r.clone()), None),
            Err(x) => (TurnEdit::ToolError(x.clone()), None, Some(x.clone())),
        };
        match self.edit_last_turn(b, tid, e) {
            None => {},
            Some(t) => {
                proof {
                    assert(t@.tool_calls.len() == t.tool_calls@.len());
                }
                let n = t.tool_calls.len();
                let idx: usize = if n > 0 {
                    n - 1
                } else {
                    0
                };
                let turn_id = uuid_to_string(t.id);
                self.queue(StorageOp::UpdateToolCallResult { turn_id, index: idx, result, tool_error: error });
            },
        }
    }

    /// Enter the wait for the user's approval of `approvals` on thread `tid`
    /// of binding `b` (see `Thread::await_approval`), at the current time;
    /// gives that time. Nothing happens when there is no such thread.
    pub fn thread_await_approval(&mut self, b: &str, tid: u128, approvals: Vec<PendingApproval>) -> (r: Option<i64>)
        requires
            old(self)@.wf(),
        ensures
            final(self)@.wf(),
            !located(old(self)@, b@, tid) ==> r is None && final(self)@ == old(self)@,
            located(old(self)@, b@, tid) ==> {
                let o = thread_of(old(self)@, b@, tid);
                let n = ThreadView {
                    state: ThreadState::AwaitingApproval,
                    pending_approvals: approvals_view(approvals@),
                    updated_at: r->0,
                    ..o
                };
                &&& r is Some
                &&& located(final(self)@, b@, tid)
                &&& thread_of(final(self)@, b@, tid) == n
                &&& final(self)@ == (SessionManagerView { sessions: with_thread(old(self)@, b@, tid, n), ..old(self)@ })
            },
    {
        match self.locate(b, tid) {
            None => None,
            Some((si, ti)) => {
                let ghost v0 = self@;
                let mut th = self.take_thread_at(si, ti);
                let ghost mid = self@;
                let now = now_nanos();
                th.await_approval(approvals, now);
                let ghost tv = th@;
                self.put_thread_at(si, ti, th);
                proof {
                    lemma_replace_thread(v0, mid, self@, b@, tid, si as int, ti as int, tv);
                }
                Some(now)
            },
        }
    }

    /// Take the pending approvals of thread `tid` of binding `b` to act on the
    /// user's reply (see `approvals_taken`); gives them. Nothing happens when
    /// there is no such thread.
    pub fn take_pending_approvals(&mut self, b: &str, tid: u128) -> (r: Vec<PendingApproval>)
        requires
            old(self)@.wf(),
        ensures
            final(self)@.wf(),
            approvals_taken(old(self)@, final(self)@, b@, tid),
            approvals_view(r@) == pending_of(old(self)@, b@, tid),
    {
        match self.locate(b, tid) {
            None => {
                let v: Vec<PendingApproval> = Vec::new();
                proof {
                    assert(approvals_view(v@) =~= Seq::<PendingApprovalView>::empty());
                }
                v
            },
            Some((si, ti)) => {
                let ghost v0 = self@;
                let mut th = self.take_thread_at(si, ti);
                let ghost mid = self@;
                let r = th.take_approvals();
                let ghost tv = th@;
                self.put_thread_at(si, ti, th);
                proof {
                    lemma_replace_thread(v0, mid, self@, b@, tid, si as int, ti as int, tv);
                }
                r
            },
        }
    }

    /// Auto-approve, in the session of binding `b`, the tools of the pending
    /// approvals of its thread `tid`, and queue the session's new list of
    /// auto-approved tools. Nothing happens when the binding has no session.
    pub fn approve_pending_always(&mut self, b: &str, tid: u128)
        requires
            old(self)@.wf(),
        ensures
            final(self)@.wf(),
            always_approved(old(self)@, final(self)@, b@, tid),
    {
        let names: Vec<String> = match self.thread_ref(b, tid) {
            Some(t) => t.pending_tool_names(),
            None => {
                let v: Vec<String> = Vec::new();
                proof {
                    assert(v.deep_view() =~= Seq::<Seq<char>>::empty());
                }
                v
            },
        };
        match self.session_index(b) {
            None => {},
            Some(si) => {
                let ghost v0 = self@;
                let ghost s0 = v0.sessions[si as int];
                proof {
                    let p = session_pos(v0.sessions, b@);
                    assert(v0.sessions[p].binding_id == b@);
                    assert(p == si);
                }
                let mut sess = self.take_session_at(si);
                let mut i: usize = 0;
                proof {
                    assert(names.deep_view().take(0) =~= Seq::<Seq<char>>::empty());
                    assert(sess@ == s0);
                }
                while i < names.len()
                    invariant
                        i <= names@.len(),
                        sess@.wf(),
                        sess@ == (SessionView {
                            auto_approved_tools: approved_tools(s0.auto_approved_tools, names.deep_view().take(i as int)),
                            ..s0
                        }),
                    decreases names@.len() - i,
                {
                    proof {
                        assert(names.deep_view().take(i + 1).drop_last() =~= names.deep_view().take(i as int));
                        assert(names.deep_view().take(i + 1).last() == names.deep_view()[i as int]);
                    }
                    sess.auto_approve_tool(names[i].clone());
                    i = i + 1;
                }
                proof {
                    assert(names.deep_view().take(names@.len() as int) =~= names.deep_view());
                }
                let sid = uuid_to_string(sess.id);
                let tools = crate::message::clone_strings(&sess.auto_approved_tools);
                let ghost sv = sess@;
                self.put_session_at(si, sess);
                proof {
                    assert(self@.sessions == v0.sessions.update(si as int, sv));
                }
                self.persist_auto_approve(sid.as_str(), &tools);
            },
        }
    }
}

} // verus!

verus! {

/// The tools that the session of binding `b` auto-approves; none when the
/// binding has no session.
pub open spec fn auto_tools_of(v: SessionManagerView, b: Seq<char>) -> Seq<Seq<char>> {
    if session_has(v.sessions, b) {
        v.session_of(b).auto_approved_tools
    } else {
        Seq::empty()
    }
}

impl SessionManager {
    /// The tools that the session of binding `b` auto-approves (see `auto_tools_of`).
    pub fn auto_approved_tools_of(&self, b: &str) -> (r: Vec<String>)
        requires
            self@.wf(),
        ensures
            r.deep_view() == auto_tools_of(self@, b@),
    {
        match self.session_index(b) {
            Some(si) => {
                proof {
                    let p = session_pos(self@.sessions, b@);
                    assert(self@.sessions[p].binding_id == b@);
                    assert(p == si);
                }
                crate::message::clone_strings(&self.session_at(si).auto_approved_tools)
            },
            None => {
                let r: Vec<String> = Vec::new();
                proof {
                    assert(r.deep_view() =~= Seq::<Seq<char>>::empty());
                }
                r
            },
        }
    }
}

} // verus!

verus! {

impl SessionManager {
    /// Whether thread `tid` of binding `b` has a turn (see `has_last_turn`).
    pub fn has_turn(&self, b: &str, tid: u128) -> (r: bool)
        requires
            self@.wf(),
        ensures
            r == has_last_turn(self@, b@, tid),
    {
        match self.thread_ref(b, tid) {
            Some(t) => t.turns.len() > 0,
            None => false,
        }
    }
}

} // verus!
