//! The agentic loop of a binding, as a machine that the host drives.
//!
//! The host hands over each incoming message with `Binding::handle_message`
//! and does what the returned `Action` asks (call the model, look up or run a
//! tool, write approvals as JSON, report an error on the channel); it hands
//! back what came of it as an `Event` to `Binding::step`, until the action is
//! `Done`. All changes to sessions, threads and turns, and the database
//! writes they queue, are made here.
use vstd::prelude::*;
use crate::binding::approvals::{
    ToolCheck, ToolCheckView, checks_view, prepare_tool_approvals, prepared,
};
use crate::binding::intent::{Dispatch, Intent, dispatch, dispatch_of, intent_of};
use crate::channel::message::IncomingMessage;
use crate::ext::{json_quote, json_quote_of, rfc3339_of, rfc3339_text, uuid_text, uuid_to_string};
use crate::llm::response::{FinishReason, LLMResponse, LLMResponseView};
use crate::message::{ToolCall, ToolCallView, clone_tool_calls, tool_calls_view};
use crate::session::approval::{PendingApproval, PendingApprovalView, approvals_view};
use crate::session::manager::{
    SessionManager, SessionManagerView, located, resolved, route_key, thread_of, turn_completed, turn_failed,
    turn_interrupted, turn_started, with_thread,
};
use crate::session::progress::{
    TurnEdit, TurnEditView, always_approved, auto_tools_of, has_last_turn, iteration_of, thread_state_of,
    tool_call_recorded, tool_outcome_recorded, turn_edited, approvals_taken, pending_of, outcome_view,
};
use crate::session::thread::{ThreadState, ThreadView};
use crate::storage::convert::thread_state_name;
use crate::storage::ops::StorageOpView;

verus! {

/// Where the loop of a binding stands.
#[derive(Debug)]
pub enum Stage {
    /// No message in hand.
    Ready,
    /// Waiting for the model's reply at an iteration of the agentic loop.
    AwaitReply { thread_id: u128, iteration: usize },
    /// Waiting for the checks of the tools that the reply calls.
    AwaitChecks { thread_id: u128, calls: Vec<ToolCall> },
    /// Waiting for the JSON text of the approvals the thread waits for,
    /// since `updated_at`.
    AwaitApprovalsText { thread_id: u128, updated_at: i64 },
    /// Running approved tools: waiting to know whether the tool of
    /// `approvals[index]` exists.
    AwaitToolFound { thread_id: u128, approvals: Vec<PendingApproval>, index: usize },
    /// Waiting for the outcome of the tool of `approvals[index]`.
    AwaitToolOutcome { thread_id: u128, approvals: Vec<PendingApproval>, index: usize },
    /// Waiting for the report of an error on the channel.
    AwaitReport,
}

pub enum StageView {
    Ready,
    AwaitReply { thread_id: u128, iteration: usize },
    AwaitChecks { thread_id: u128, calls: Seq<ToolCallView> },
    AwaitApprovalsText { thread_id: u128, updated_at: i64 },
    AwaitToolFound { thread_id: u128, approvals: Seq<PendingApprovalView>, index: usize },
    AwaitToolOutcome { thread_id: u128, approvals: Seq<PendingApprovalView>, index: usize },
    AwaitReport,
}

impl View for Stage {
    type V = StageView;

    open spec fn view(&self) -> StageView {
        match self {
            Stage::Ready => StageView::Ready,
            Stage::AwaitReply { thread_id, iteration } => StageView::AwaitReply { thread_id: *thread_id, iteration: *iteration },
            Stage::AwaitChecks { thread_id, calls } => StageView::AwaitChecks {
                thread_id: *thread_id,
                calls: tool_calls_view(calls@),
            },
            Stage::AwaitApprovalsText { thread_id, updated_at } => StageView::AwaitApprovalsText {
                thread_id: *thread_id,
                updated_at: *updated_at,
            },
            Stage::AwaitToolFound { thread_id, approvals, index } => StageView::AwaitToolFound {
                thread_id: *thread_id,
                approvals: approvals_view(approvals@),
                index: *index,
            },
            Stage::AwaitToolOutcome { thread_id, approvals, index } => StageView::AwaitToolOutcome {
                thread_id: *thread_id,
                approvals: approvals_view(approvals@),
                index: *index,
            },
            Stage::AwaitReport => StageView::AwaitReport,
        }
    }
}

/// What the host tells the binding.
#[derive(Debug)]
pub enum Event {
    /// The model replied (its streamed parts assembled).
    Replied(LLMResponse),
    /// Calling the model failed.
    ModelFailed(String),
    /// The checks of the tools called, one per call in order (`None` where
    /// no tool has the call's name).
    Checked(Vec<Option<ToolCheck>>),
    /// The thread's pending approvals written as JSON.
    ApprovalsText(String),
    /// Whether the tool asked for exists.
    ToolFound(bool),
    /// The tool ran: its output, or its error.
    ToolDone(Result<String, String>),
    /// The error was reported on the channel.
    Reported,
}

pub enum EventView {
    Replied(LLMResponseView),
    ModelFailed(Seq<char>),
    Checked(Seq<Option<ToolCheckView>>),
    ApprovalsText(Seq<char>),
    ToolFound(bool),
    ToolDone(Result<Seq<char>, Seq<char>>),
    Reported,
}

impl View for Event {
    type V = EventView;

    open spec fn view(&self) -> EventView {
        match self {
            Event::Replied(r) => EventView::Replied(r@),
            Event::ModelFailed(t) => EventView::ModelFailed(t@),
            Event::Checked(c) => EventView::Checked(checks_view(c@)),
            Event::ApprovalsText(t) => EventView::ApprovalsText(t@),
            Event::ToolFound(b) => EventView::ToolFound(*b),
            Event::ToolDone(r) => EventView::ToolDone(
                match r {
                    Ok(o) => Ok(o@),
                    Err(e) => Err(e@),
                },
            ),
            Event::Reported => EventView::Reported,
        }
    }
}

/// What the binding asks of the host.
#[derive(Debug)]
pub enum Action {
    /// Stream the model's completion of the messages of the thread, then
    /// answer `Replied` or `ModelFailed`.
    CallModel { thread_id: u128 },
    /// Look up the tools that `calls` name; answer `Checked`.
    CheckTools { calls: Vec<ToolCall> },
    /// Write the thread's pending approvals as JSON; answer `ApprovalsText`.
    WriteApprovals { thread_id: u128 },
    /// Tell whether tool `name` exists; answer `ToolFound`.
    FindTool { name: String },
    /// Run tool `name` with the JSON `parameters`; answer `ToolDone`.
    RunTool { name: String, parameters: String },
    /// Send `text` to conversation `thread` on the channel; answer `Reported`.
    Report { thread: String, text: String },
    /// Nothing more to do for the message.
    Done,
    /// The event did not fit where the loop stands; nothing was done.
    Ignored,
}

pub enum ActionView {
    CallModel { thread_id: u128 },
    CheckTools { calls: Seq<ToolCallView> },
    WriteApprovals { thread_id: u128 },
    FindTool { name: Seq<char> },
    RunTool { name: Seq<char>, parameters: Seq<char> },
    Report { thread: Seq<char>, text: Seq<char> },
    Done,
    Ignored,
}

impl View for Action {
    type V = ActionView;

    open spec fn view(&self) -> ActionView {
        match self {
            Action::CallModel { thread_id } => ActionView::CallModel { thread_id: *thread_id },
            Action::CheckTools { calls } => ActionView::CheckTools { calls: tool_calls_view(calls@) },
            Action::WriteApprovals { thread_id } => ActionView::WriteApprovals { thread_id: *thread_id },
            Action::FindTool { name } => ActionView::FindTool { name: name@ },
            Action::RunTool { name, parameters } => ActionView::RunTool { name: name@, parameters: parameters@ },
            Action::Report { thread, text } => ActionView::Report { thread: thread@, text: text@ },
            Action::Done => ActionView::Done,
            Action::Ignored => ActionView::Ignored,
        }
    }
}

/// The binding of an agent to a channel: its identifier, the user's time
/// zone, the bound on the iterations of the agentic loop, the conversation
/// that errors are reported to, and where its loop stands.
#[derive(Debug)]
pub struct Binding {
    binding_id: String,
    user_tz: String,
    max_iterations: usize,
    reply_to: String,
    stage: Stage,
}

pub struct BindingView {
    pub binding_id: Seq<char>,
    pub user_tz: Seq<char>,
    pub max_iterations: usize,
    pub reply_to: Seq<char>,
    pub stage: StageView,
}

impl View for Binding {
    type V = BindingView;

    closed spec fn view(&self) -> BindingView {
        BindingView {
            binding_id: self.binding_id@,
            user_tz: self.user_tz@,
            max_iterations: self.max_iterations,
            reply_to: self.reply_to@,
            stage: self.stage@,
        }
    }
}

impl BindingView {
    /// An iteration awaited is below the bound, and a tool run is one of the
    /// approvals in hand.
    pub open spec fn wf(self) -> bool {
        match self.stage {
            StageView::AwaitReply { iteration, .. } => iteration < self.max_iterations,
            StageView::AwaitToolFound { approvals, index, .. } => index < approvals.len(),
            StageView::AwaitToolOutcome { approvals, index, .. } => index < approvals.len(),
            _ => true,
        }
    }
}

impl Binding {
    #[verifier::type_invariant]
    spec fn well_formed(self) -> bool {
        self@.wf()
    }
}

// ── The transitions ──

/// The binding with no message in hand.
pub open spec fn ready(b: BindingView) -> BindingView {
    BindingView { stage: StageView::Ready, ..b }
}

/// The error of a turn that reached the bound on iterations.
pub open spec fn max_iterations_text() -> Seq<char> {
    "Max iterations reached"@
}

/// The error of a turn whose tools the user rejected.
pub open spec fn rejected_text() -> Seq<char> {
    "Tool approval rejected"@
}

/// What is recorded of a tool's outcome: its output as a JSON string, or its error.
pub open spec fn recorded_outcome(res: Result<Seq<char>, Seq<char>>) -> Result<Seq<char>, Seq<char>> {
    match res {
        Ok(output) => Ok(json_quote(output)),
        Err(x) => Err(x),
    }
}

/// What the channel is told when the user rejects the tools.
pub open spec fn rejected_notice() -> Seq<char> {
    "❌ Rejected"@
}

/// What the channel is told when a turn reaches the bound on iterations.
pub open spec fn max_iterations_notice() -> Seq<char> {
    "⚠️ Max tool iterations reached"@
}

/// What the channel is told when the user interrupts a thread.
pub open spec fn interrupted_notice() -> Seq<char> {
    "⏸️ Interrupted"@
}

/// The error of a run that reached a tool that is not there.
pub open spec fn tool_not_found_text() -> Seq<char> {
    "Tool not found"@
}

/// The error of a reply that finished for reason `r`, when that is an error.
pub open spec fn finish_error_text(r: FinishReason) -> Seq<char> {
    match r {
        FinishReason::ContentFilter => "LLM error: ContentFilter"@,
        _ => "LLM error: Unknown"@,
    }
}

/// Iteration `it` of the agentic loop on thread `tid`: below the bound it is
/// recorded on the turn and the model is called; at the bound the turn fails
/// and the channel is told.
pub open spec fn iterated(
    b: BindingView,
    m0: SessionManagerView,
    m1: SessionManagerView,
    tid: u128,
    it: usize,
    b1: BindingView,
    act: ActionView,
) -> bool {
    if it < b.max_iterations {
        &&& turn_edited(m0, m1, b.binding_id, tid, TurnEditView::Iteration(it))
        &&& b1 == (BindingView { stage: StageView::AwaitReply { thread_id: tid, iteration: it }, ..b })
        &&& act == ActionView::CallModel { thread_id: tid }
    } else {
        &&& turn_failed(m0, m1, b.binding_id, tid, max_iterations_text())
        &&& b1 == (BindingView { stage: StageView::AwaitReport, ..b })
        &&& act == ActionView::Report { thread: b.reply_to, text: max_iterations_notice() }
    }
}

/// The agentic loop begins (again) on thread `tid`, at the iteration its
/// turn recorded.
pub open spec fn loop_begun(
    b: BindingView,
    m0: SessionManagerView,
    m1: SessionManagerView,
    tid: u128,
    b1: BindingView,
    act: ActionView,
) -> bool {
    iterated(b, m0, m1, tid, iteration_of(m0, b.binding_id, tid), b1, act)
}

/// The run failed with `text`: the turn fails and the error is reported.
pub open spec fn run_failed(
    b: BindingView,
    m0: SessionManagerView,
    m1: SessionManagerView,
    tid: u128,
    text: Seq<char>,
    b1: BindingView,
    act: ActionView,
) -> bool {
    &&& turn_failed(m0, m1, b.binding_id, tid, text)
    &&& b1 == (BindingView { stage: StageView::AwaitReport, ..b })
    &&& act == ActionView::Report { thread: b.reply_to, text }
}

/// The approved tools run one after the other from `approvals[index]`; after
/// the last, the agentic loop begins again.
pub open spec fn tool_next(
    b: BindingView,
    m0: SessionManagerView,
    m1: SessionManagerView,
    tid: u128,
    approvals: Seq<PendingApprovalView>,
    index: int,
    b1: BindingView,
    act: ActionView,
) -> bool {
    if 0 <= index < approvals.len() {
        &&& m1 == m0
        &&& b1 == (BindingView {
            stage: StageView::AwaitToolFound { thread_id: tid, approvals, index: index as usize },
            ..b
        })
        &&& act == ActionView::FindTool { name: approvals[index].tool_name }
    } else {
        loop_begun(b, m0, m1, tid, b1, act)
    }
}

/// All of `approvals` run without asking.
pub open spec fn all_auto(approvals: Seq<PendingApprovalView>) -> bool {
    forall|i: int| 0 <= i < approvals.len() ==> #[trigger] approvals[i].auto_approved
}

/// The approval requests of a reply are in: when all run without asking,
/// the tools run; otherwise the thread waits for approval of all of them.
pub open spec fn tools_chosen(
    b: BindingView,
    m0: SessionManagerView,
    m1: SessionManagerView,
    tid: u128,
    approvals: Seq<PendingApprovalView>,
    b1: BindingView,
    act: ActionView,
) -> bool {
    if all_auto(approvals) {
        tool_next(b, m0, m1, tid, approvals, 0, b1, act)
    } else if located(m0, b.binding_id, tid) {
        let o = thread_of(m0, b.binding_id, tid);
        let n = thread_of(m1, b.binding_id, tid);
        &&& located(m1, b.binding_id, tid)
        &&& n == (ThreadView {
            state: ThreadState::AwaitingApproval,
            pending_approvals: approvals,
            updated_at: n.updated_at,
            ..o
        })
        &&& m1 == (SessionManagerView { sessions: with_thread(m0, b.binding_id, tid, n), ..m0 })
        &&& b1 == (BindingView {
            stage: StageView::AwaitApprovalsText { thread_id: tid, updated_at: n.updated_at },
            ..b
        })
        &&& act == ActionView::WriteApprovals { thread_id: tid }
    } else {
        &&& m1 == m0
        &&& b1 == ready(b)
        &&& act == ActionView::Done
    }
}

/// The checks `checks` given for `n` calls, one per call: missing ones count
/// as tools not found, extra ones are dropped.
pub open spec fn aligned(checks: Seq<Option<ToolCheckView>>, n: nat) -> Seq<Option<ToolCheckView>> {
    Seq::new(n, |i: int| if i < checks.len() { checks[i] } else { None })
}

} // verus!

verus! {

/// What `step` does with event `e`, from binding `b0` and sessions `m0` to
/// `b1` and `m1`, asking `act` of the host. An event that does not fit the
/// stage changes nothing.
pub open spec fn stepped(
    b0: BindingView,
    m0: SessionManagerView,
    e: EventView,
    b1: BindingView,
    m1: SessionManagerView,
    act: ActionView,
) -> bool {
    let bid = b0.binding_id;
    match (b0.stage, e) {
        (StageView::AwaitReply { thread_id: tid, iteration: it }, EventView::Replied(r)) => match r.finish_reason {
            FinishReason::Stop => {
                &&& turn_completed(m0, m1, bid, tid, r.content)
                &&& b1 == ready(b0)
                &&& act == ActionView::Done
            },
            FinishReason::ToolUse => {
                &&& turn_edited(m0, m1, bid, tid, TurnEditView::Iteration((it + 1) as usize))
                &&& b1 == (BindingView { stage: StageView::AwaitChecks { thread_id: tid, calls: r.tool_calls }, ..b0 })
                &&& act == ActionView::CheckTools { calls: r.tool_calls }
            },
            FinishReason::Length | FinishReason::Reasoning => iterated(b0, m0, m1, tid, (it + 1) as usize, b1, act),
            _ => run_failed(b0, m0, m1, tid, finish_error_text(r.finish_reason), b1, act),
        },
        (StageView::AwaitReply { thread_id: tid, .. }, EventView::ModelFailed(t)) => run_failed(b0, m0, m1, tid, t, b1, act),
        (StageView::AwaitChecks { thread_id: tid, calls }, EventView::Checked(checks)) => exists|approvals: Seq<PendingApprovalView>|
            {
                &&& prepared(approvals, calls, aligned(checks, calls.len()), auto_tools_of(m0, bid), b0.user_tz)
                &&& tools_chosen(b0, m0, m1, tid, approvals, b1, act)
            },
        (StageView::AwaitApprovalsText { thread_id: tid, updated_at }, EventView::ApprovalsText(text)) => {
            &&& m1 == (SessionManagerView {
                pending_storage: m0.queued(
                    seq![
                        StorageOpView::UpdateThreadPendingApprovals {
                            thread_id: uuid_text(tid),
                            state: thread_state_name(ThreadState::AwaitingApproval),
                            pending_approvals: text,
                            updated_at: rfc3339_text(updated_at),
                        },
                    ],
                ),
                ..m0
            })
            &&& b1 == ready(b0)
            &&& act == ActionView::Done
        },
        (StageView::AwaitToolFound { thread_id: tid, approvals, index }, EventView::ToolFound(found)) => if index
            < approvals.len() {
            if found {
                let a = approvals[index as int];
                &&& tool_call_recorded(m0, m1, bid, tid, a.tool_name, a.parameters)
                &&& b1 == (BindingView { stage: StageView::AwaitToolOutcome { thread_id: tid, approvals, index }, ..b0 })
                &&& act == ActionView::RunTool { name: a.tool_name, parameters: a.parameters }
            } else {
                run_failed(b0, m0, m1, tid, tool_not_found_text(), b1, act)
            }
        } else {
            tool_next(b0, m0, m1, tid, approvals, index + 1, b1, act)
        },
        (StageView::AwaitToolOutcome { thread_id: tid, approvals, index }, EventView::ToolDone(res)) => exists|
            mid: SessionManagerView,
        |
            {
                &&& #[trigger] tool_outcome_recorded(m0, mid, bid, tid, recorded_outcome(res))
                &&& tool_next(b0, mid, m1, tid, approvals, index + 1, b1, act)
            },
        (StageView::AwaitReport, EventView::Reported) => {
            &&& m1 == m0
            &&& b1 == ready(b0)
            &&& act == ActionView::Done
        },
        _ => {
            &&& m1 == m0
            &&& b1 == b0
            &&& act == ActionView::Ignored
        },
    }
}

/// What `handle_message` does once the message's thread `tid` is resolved
/// (sessions `m1`): it dispatches on the message's intent and the thread's
/// state (see `dispatch_of`), from `b` (ready, reporting to `reply_to`) to
/// `b1` and `fin`, asking `act` of the host.
pub open spec fn handled(
    b: BindingView,
    m1: SessionManagerView,
    fin: SessionManagerView,
    tid: u128,
    content: Seq<char>,
    b1: BindingView,
    act: ActionView,
) -> bool {
    let bid = b.binding_id;
    match dispatch_of(intent_of(content), thread_state_of(m1, bid, tid)) {
        Dispatch::StartTurn => exists|m2: SessionManagerView|
            turn_started(m1, m2, bid, tid, content) && loop_begun(b, m2, fin, tid, b1, act),
        Dispatch::InterruptAndStartTurn => exists|m2: SessionManagerView, m3: SessionManagerView|
            {
                &&& turn_interrupted(m1, m2, bid, tid)
                &&& turn_started(m2, m3, bid, tid, content)
                &&& loop_begun(b, m3, fin, tid, b1, act)
            },
        Dispatch::Approve { always } => exists|m2: SessionManagerView, m3: SessionManagerView|
            {
                &&& (if always {
                    always_approved(m1, m2, bid, tid)
                } else {
                    m2 == m1
                })
                &&& approvals_taken(m2, m3, bid, tid)
                &&& tool_next(b, m3, fin, tid, pending_of(m2, bid, tid), 0, b1, act)
            },
        Dispatch::Reject => exists|m2: SessionManagerView|
            {
                &&& approvals_taken(m1, m2, bid, tid)
                &&& turn_failed(m2, fin, bid, tid, rejected_text())
                &&& b1 == (BindingView { stage: StageView::AwaitReport, ..b })
                &&& act == ActionView::Report { thread: b.reply_to, text: rejected_notice() }
            },
        Dispatch::Interrupt => {
            &&& turn_interrupted(m1, fin, bid, tid)
            &&& b1 == (BindingView { stage: StageView::AwaitReport, ..b })
            &&& act == ActionView::Report { thread: b.reply_to, text: interrupted_notice() }
        },
        Dispatch::Ignore => {
            &&& fin == m1
            &&& b1 == b
            &&& act == ActionView::Done
        },
    }
}

/// The conversation that errors about a message are reported to: the
/// message's thread, or the internal thread `tid`.
pub open spec fn reply_target(thread_id: Option<Seq<char>>, tid: u128) -> Seq<char> {
    match thread_id {
        Some(t) => t,
        None => uuid_text(tid),
    }
}

} // verus!

verus! {

fn align_checks(checks: Vec<Option<ToolCheck>>, n: usize) -> (r: Vec<Option<ToolCheck>>)
    ensures
        checks_view(r@) == aligned(checks_view(checks@), n as nat),
{
    let ghost cv = checks_view(checks@);
    let mut v = checks;
    while v.len() > n
        invariant
            checks_view(v@) == cv.take(v@.len() as int),
            v@.len() <= cv.len(),
            v@.len() == cv.len() || v@.len() >= n,
        decreases v@.len(),
    {
        let ghost v0 = v@;
        v.pop();
        proof {
            assert(checks_view(v@) =~= cv.take(v@.len() as int));
        }
    }
    proof {
        assert(checks_view(v@) =~= aligned(cv, v@.len() as nat));
    }
    while v.len() < n
        invariant
            checks_view(v@) == aligned(cv, v@.len() as nat),
            cv.len() <= v@.len() || n <= v@.len(),
            v@.len() <= n,
        decreases n - v@.len(),
    {
        let ghost v0 = checks_view(v@);
        v.push(None);
        proof {
            assert(checks_view(v@) =~= v0.push(None));
            assert(checks_view(v@) =~= aligned(cv, v@.len() as nat));
        }
    }
    proof {
        assert(checks_view(v@) =~= aligned(cv, n as nat));
    }
    v
}

impl Binding {
    /// A binding with no message in hand.
    pub fn new(binding_id: &str, user_tz: &str, max_iterations: usize) -> (b: Self)
        ensures
            b@ == (BindingView {
                binding_id: binding_id@,
                user_tz: user_tz@,
                max_iterations,
                reply_to: Seq::empty(),
                stage: StageView::Ready,
            }),
    {
        Binding {
            binding_id: binding_id.to_owned(),
            user_tz: user_tz.to_owned(),
            max_iterations,
            reply_to: String::new(),
            stage: Stage::Ready,
        }
    }

    fn iterate(&mut self, sm: &mut SessionManager, tid: u128, it: usize) -> (act: Action)
        requires
            old(sm)@.wf(),
        ensures
            final(sm)@.wf(),
            iterated(old(self)@, old(sm)@, final(sm)@, tid, it, final(self)@, act@),
    {
        if it < self.max_iterations {
            sm.edit_last_turn(self.binding_id.as_str(), tid, TurnEdit::Iteration(it));
            self.stage = Stage::AwaitReply { thread_id: tid, iteration: it };
            Action::CallModel { thread_id: tid }
        } else {
            sm.thread_fail_turn(self.binding_id.as_str(), tid, "Max iterations reached");
            self.stage = Stage::AwaitReport;
            proof {
                reveal_strlit("⚠️ Max tool iterations reached");
            }
            Action::Report { thread: self.reply_to.clone(), text: "⚠️ Max tool iterations reached".to_owned() }
        }
    }

    fn begin_loop(&mut self, sm: &mut SessionManager, tid: u128) -> (act: Action)
        requires
            old(sm)@.wf(),
        ensures
            final(sm)@.wf(),
            loop_begun(old(self)@, old(sm)@, final(sm)@, tid, final(self)@, act@),
    {
        let it = sm.turn_iteration(self.binding_id.as_str(), tid);
        self.iterate(sm, tid, it)
    }

    fn fail_run(&mut self, sm: &mut SessionManager, tid: u128, text: &str) -> (act: Action)
        requires
            old(sm)@.wf(),
        ensures
            final(sm)@.wf(),
            run_failed(old(self)@, old(sm)@, final(sm)@, tid, text@, final(self)@, act@),
    {
        sm.thread_fail_turn(self.binding_id.as_str(), tid, text);
        self.stage = Stage::AwaitReport;
        Action::Report { thread: self.reply_to.clone(), text: text.to_owned() }
    }

    fn tool_next(&mut self, sm: &mut SessionManager, tid: u128, approvals: Vec<PendingApproval>, index: usize) -> (act: Action)
        requires
            old(sm)@.wf(),
        ensures
            final(sm)@.wf(),
            tool_next(old(self)@, old(sm)@, final(sm)@, tid, approvals_view(approvals@), index as int, final(self)@, act@),
    {
        if index < approvals.len() {
            let name = approvals[index].tool_name.clone();
            proof {
                assert(approvals_view(approvals@)[index as int] == approvals@[index as int]@);
            }
            self.stage = Stage::AwaitToolFound { thread_id: tid, approvals, index };
            Action::FindTool { name }
        } else {
            self.begin_loop(sm, tid)
        }
    }

    fn choose_tools(&mut self, sm: &mut SessionManager, tid: u128, approvals: Vec<PendingApproval>) -> (act: Action)
        requires
            old(sm)@.wf(),
        ensures
            final(sm)@.wf(),
            tools_chosen(old(self)@, old(sm)@, final(sm)@, tid, approvals_view(approvals@), final(self)@, act@),
    {
        let ghost av = approvals_view(approvals@);
        let mut all = true;
        let mut i: usize = 0;
        while i < approvals.len()
            invariant
                av == approvals_view(approvals@),
                i <= approvals@.len(),
                all == (forall|j: int| 0 <= j < i ==> #[trigger] av[j].auto_approved),
            decreases approvals@.len() - i,
        {
            proof {
                assert(av[i as int] == approvals@[i as int]@);
            }
            let ghost all0 = all;
            if !approvals[i].auto_approved {
                all = false;
            }
            proof {
                if all {
                    assert forall|j: int| 0 <= j < i + 1 implies #[trigger] av[j].auto_approved by {
                        if j < i {
                            assert(all0);
                        }
                    }
                } else {
                    if av[i as int].auto_approved {
                        assert(!all0);
                        let w = choose|w: int| 0 <= w < i && !av[w].auto_approved;
                        assert(!av[w].auto_approved);
                    }
                }
            }
            i = i + 1;
        }
        if all {
            self.tool_next(sm, tid, approvals, 0)
        } else {
            match sm.thread_await_approval(self.binding_id.as_str(), tid, approvals) {
                Some(at) => {
                    self.stage = Stage::AwaitApprovalsText { thread_id: tid, updated_at: at };
                    Action::WriteApprovals { thread_id: tid }
                },
                None => {
                    self.stage = Stage::Ready;
                    Action::Done
                },
            }
        }
    }
}

} // verus!

verus! {

impl Binding {
    /// Take in what came of the last action (see `stepped`); gives the next
    /// action.
    pub fn step(&mut self, sm: &mut SessionManager, e: Event) -> (act: Action)
        requires
            old(sm)@.wf(),
        ensures
            final(sm)@.wf(),
            stepped(old(self)@, old(sm)@, e@, final(self)@, final(sm)@, act@),
    {
        proof {
            use_type_invariant(&*self);
        }
        let ghost b0 = self@;
        let ghost m0 = sm@;
        let ghost ev = e@;
        let ghost mut witness: Seq<PendingApprovalView> = Seq::empty();
        let ghost mut mid_witness: SessionManagerView = m0;
        let mut st = Stage::Ready;
        std::mem::swap(&mut st, &mut self.stage);
        proof {
            assert(st@ == b0.stage);
            assert(self@ == ready(b0));
        }
        let act = match (st, e) {
            (Stage::AwaitReply { thread_id: tid, iteration: it }, Event::Replied(r)) => {
                match r.finish_reason {
                    FinishReason::Stop => {
                        sm.thread_complete_turn(self.binding_id.as_str(), tid, r.content);
                        Action::Done
                    },
                    FinishReason::ToolUse => {
                        sm.edit_last_turn(self.binding_id.as_str(), tid, TurnEdit::Iteration(it + 1));
                        let calls = clone_tool_calls(&r.tool_calls);
                        self.stage = Stage::AwaitChecks { thread_id: tid, calls };
                        Action::CheckTools { calls: r.tool_calls }
                    },
                    FinishReason::Length | FinishReason::Reasoning => {
                        self.stage = Stage::AwaitReply { thread_id: tid, iteration: it };
                        proof {
                            assert(self@ == b0);
                        }
                        let act = self.iterate(sm, tid, it + 1);
                        proof {
                            assert(iterated(b0, m0, sm@, tid, (it + 1) as usize, self@, act@));
                        }
                        act
                    },
                    FinishReason::ContentFilter => {
                        self.stage = Stage::AwaitReply { thread_id: tid, iteration: it };
                        proof {
                            reveal_strlit("LLM error: ContentFilter");
                            assert(self@ == b0);
                        }
                        let act = self.fail_run(sm, tid, "LLM error: ContentFilter");
                        proof {
                            assert(run_failed(b0, m0, sm@, tid, finish_error_text(FinishReason::ContentFilter), self@, act@));
                        }
                        act
                    },
                    FinishReason::Unknown => {
                        self.stage = Stage::AwaitReply { thread_id: tid, iteration: it };
                        proof {
                            assert(self@ == b0);
                        }
                        let act = self.fail_run(sm, tid, "LLM error: Unknown");
                        proof {
                            assert(run_failed(b0, m0, sm@, tid, finish_error_text(FinishReason::Unknown), self@, act@));
                        }
                        act
                    },
                }
            },
            (Stage::AwaitReply { thread_id: tid, iteration: it }, Event::ModelFailed(t)) => {
                self.stage = Stage::AwaitReply { thread_id: tid, iteration: it };
                proof {
                    assert(self@ == b0);
                }
                self.fail_run(sm, tid, t.as_str())
            },
            (Stage::AwaitChecks { thread_id: tid, calls }, Event::Checked(checks0)) => {
                let ghost cv0 = checks_view(checks0@);
                proof {
                    assert(ev == EventView::Checked(cv0));
                }
                let n = calls.len();
                let checks = align_checks(checks0, n);
                proof {
                    assert(checks_view(checks@).len() == checks@.len());
                }
                let auto = sm.auto_approved_tools_of(self.binding_id.as_str());
                let approvals = prepare_tool_approvals(&calls, &checks, &auto, self.user_tz.as_str());
                let ghost av = approvals_view(approvals@);
                let act = self.choose_tools(sm, tid, approvals);
                proof {
                    assert(prepared(av, tool_calls_view(calls@), aligned(cv0, n as nat), auto_tools_of(m0, b0.binding_id), b0.user_tz));
                    assert(tools_chosen(b0, m0, sm@, tid, av, self@, act@));
                    witness = av;
                }
                act
            },
            (Stage::AwaitApprovalsText { thread_id: tid, updated_at }, Event::ApprovalsText(text)) => {
                let tid_text = uuid_to_string(tid);
                let at_text = rfc3339_of(updated_at);
                sm.persist_thread_awaiting_approval(tid_text.as_str(), text.as_str(), at_text.as_str());
                Action::Done
            },
            (Stage::AwaitToolFound { thread_id: tid, approvals, index }, Event::ToolFound(found)) => {
                let n = approvals.len();
                if index < n {
                    if found {
                        let name = approvals[index].tool_name.clone();
                        let parameters = approvals[index].parameters.clone();
                        proof {
                            assert(approvals_view(approvals@)[index as int] == approvals@[index as int]@);
                        }
                        sm.record_tool_call(self.binding_id.as_str(), tid, name.as_str(), parameters.as_str());
                        self.stage = Stage::AwaitToolOutcome { thread_id: tid, approvals, index };
                        Action::RunTool { name, parameters }
                    } else {
                        proof {
                            reveal_strlit("Tool not found");
                        }
                        let act = self.fail_run(sm, tid, "Tool not found");
                        proof {
                            assert(run_failed(b0, m0, sm@, tid, tool_not_found_text(), self@, act@));
                        }
                        act
                    }
                } else {
                    self.tool_next(sm, tid, approvals, n)
                }
            },
            (Stage::AwaitToolOutcome { thread_id: tid, approvals, index }, Event::ToolDone(res)) => {
                let n = approvals.len();
                let next = if index < n {
                    index + 1
                } else {
                    n
                };
                let ghost rv = match ev {
                    EventView::ToolDone(r) => recorded_outcome(r),
                    _ => Err(Seq::empty()),
                };
                let outcome = match res {
                    Ok(output) => Ok(json_quote_of(output.as_str())),
                    Err(x) => Err(x),
                };
                proof {
                    assert(outcome_view(outcome) == rv);
                }
                sm.record_tool_outcome(self.binding_id.as_str(), tid, outcome);
                let ghost mid = sm@;
                let ghost av = approvals_view(approvals@);
                let act = self.tool_next(sm, tid, approvals, next);
                proof {
                    assert(tool_outcome_recorded(m0, mid, b0.binding_id, tid, rv));
                    assert(tool_next(b0, mid, sm@, tid, av, index + 1, self@, act@));
                    mid_witness = mid;
                }
                act
            },
            (Stage::AwaitReport, Event::Reported) => Action::Done,
            (st, _) => {
                self.stage = st;
                proof {
                    assert(self@ == b0);
                }
                Action::Ignored
            },
        };
        proof {
            match (b0.stage, ev) {
                (StageView::AwaitChecks { thread_id, calls }, EventView::Checked(checks)) => {
                    assert(prepared(witness, calls, aligned(checks, calls.len()), auto_tools_of(m0, b0.binding_id), b0.user_tz));
                    assert(tools_chosen(b0, m0, sm@, thread_id, witness, self@, act@));
                },
                (StageView::AwaitToolOutcome { thread_id, approvals, index }, EventView::ToolDone(res)) => {
                    assert(tool_outcome_recorded(m0, mid_witness, b0.binding_id, thread_id, recorded_outcome(res)));
                    assert(tool_next(b0, mid_witness, sm@, thread_id, approvals, index + 1, self@, act@));
                },
                _ => {},
            }
        }
        act
    }

    /// Take in an incoming message (see `handled`): its conversation is
    /// resolved to a thread, errors about it go to the message's thread (or
    /// the internal one), and the binding acts on its intent; gives the first
    /// action. A run left unfinished is dropped.
    pub fn handle_message(&mut self, sm: &mut SessionManager, message: &IncomingMessage) -> (act: Action)
        requires
            old(sm)@.wf(),
        ensures
            final(sm)@.wf(),
            exists|m1: SessionManagerView, tid: u128|
                {
                    &&& resolved(
                        old(sm)@,
                        m1,
                        route_key(
                            old(self)@.binding_id,
                            message.user_id@,
                            message.channel@,
                            message.thread_id.deep_view(),
                        ),
                        tid,
                    )
                    &&& handled(
                        BindingView {
                            reply_to: reply_target(message.thread_id.deep_view(), tid),
                            stage: StageView::Ready,
                            ..old(self)@
                        },
                        m1,
                        final(sm)@,
                        tid,
                        message.content@,
                        final(self)@,
                        act@,
                    )
                },
    {
        let intent = Intent::parse(message);
        let ext: Option<&str> = match &message.thread_id {
            Some(t) => Some(t.as_str()),
            None => None,
        };
        proof {
            assert(ext.deep_view() == message.thread_id.deep_view());
        }
        let tid = sm.resolve_thread(self.binding_id.as_str(), message.user_id.as_str(), message.channel.as_str(), ext);
        let ghost m1 = sm@;
        let state = sm.thread_state(self.binding_id.as_str(), tid);
        self.stage = Stage::Ready;
        self.reply_to = match &message.thread_id {
            Some(t) => t.clone(),
            None => uuid_to_string(tid),
        };
        let ghost b = self@;
        let content = message.content.as_str();
        match dispatch(intent, state) {
            Dispatch::StartTurn => {
                sm.thread_start_turn(self.binding_id.as_str(), tid, content);
                let ghost m2 = sm@;
                let act = self.begin_loop(sm, tid);
                proof {
                    assert(turn_started(m1, m2, b.binding_id, tid, content@) && loop_begun(b, m2, sm@, tid, self@, act@));
                }
                act
            },
            Dispatch::InterruptAndStartTurn => {
                sm.thread_interrupt(self.binding_id.as_str(), tid);
                let ghost m2 = sm@;
                sm.thread_start_turn(self.binding_id.as_str(), tid, content);
                let ghost m3 = sm@;
                let act = self.begin_loop(sm, tid);
                proof {
                    assert(turn_interrupted(m1, m2, b.binding_id, tid) && turn_started(m2, m3, b.binding_id, tid, content@)
                        && loop_begun(b, m3, sm@, tid, self@, act@));
                }
                act
            },
            Dispatch::Approve { always } => {
                if always {
                    sm.approve_pending_always(self.binding_id.as_str(), tid);
                }
                let ghost m2 = sm@;
                let approvals = sm.take_pending_approvals(self.binding_id.as_str(), tid);
                let ghost m3 = sm@;
                let act = self.tool_next(sm, tid, approvals, 0);
                proof {
                    assert(approvals_taken(m2, m3, b.binding_id, tid)
                        && tool_next(b, m3, sm@, tid, pending_of(m2, b.binding_id, tid), 0, self@, act@));
                }
                act
            },
            Dispatch::Reject => {
                let _ = sm.take_pending_approvals(self.binding_id.as_str(), tid);
                let ghost m2 = sm@;
                sm.thread_fail_turn(self.binding_id.as_str(), tid, "Tool approval rejected");
                self.stage = Stage::AwaitReport;
                proof {
                    reveal_strlit("❌ Rejected");
                }
                let act = Action::Report { thread: self.reply_to.clone(), text: "❌ Rejected".to_owned() };
                proof {
                    assert(approvals_taken(m1, m2, b.binding_id, tid) && turn_failed(m2, sm@, b.binding_id, tid, rejected_text()));
                }
                act
            },
            Dispatch::Interrupt => {
                sm.thread_interrupt(self.binding_id.as_str(), tid);
                self.stage = Stage::AwaitReport;
                proof {
                    reveal_strlit("⏸️ Interrupted");
                }
                Action::Report { thread: self.reply_to.clone(), text: "⏸️ Interrupted".to_owned() }
            },
            Dispatch::Ignore => Action::Done,
        }
    }
}

} // verus!

verus! {

/// A piece of a reasoning block streamed by the model: its text, its
/// summary, or content that is not shown (encrypted or redacted).
#[derive(Debug)]
pub enum ReasoningPiece {
    Text(String),
    Summary(String),
    Hidden,
}

/// A part of the model's streamed reply: text, a reasoning block, or
/// anything else (tool calls, deltas, the final response).
#[derive(Debug)]
pub enum StreamPart {
    Text(String),
    Reasoning(Vec<ReasoningPiece>),
    Other,
}

/// The shown text of a reasoning piece.
pub open spec fn piece_text(p: ReasoningPiece) -> Option<Seq<char>> {
    match p {
        ReasoningPiece::Text(t) => Some(t@),
        ReasoningPiece::Summary(t) => Some(t@),
        ReasoningPiece::Hidden => None,
    }
}

/// Reasoning text `t` as the channel shows it while streaming.
pub open spec fn think_chunk(t: Seq<char>) -> Seq<char> {
    "<think>\n"@ + t + "\n</think>\n\n"@
}

/// The texts shown of the pieces `ps`, in order.
pub open spec fn shown_texts(ps: Seq<ReasoningPiece>) -> Seq<Seq<char>> {
    ps.filter_map(|p: ReasoningPiece| piece_text(p))
}

/// What the channel gets of a streamed part: text as it is, each shown piece
/// of reasoning wrapped in `<think>` tags, nothing of the rest.
pub open spec fn stream_chunks(part: StreamPart) -> Seq<Seq<char>> {
    match part {
        StreamPart::Text(t) => seq![t@],
        StreamPart::Reasoning(ps) => shown_texts(ps@).map_values(|t: Seq<char>| think_chunk(t)),
        StreamPart::Other => Seq::empty(),
    }
}

/// The reasoning text that a streamed part adds to the turn.
pub open spec fn stream_reasoning(part: StreamPart) -> Seq<Seq<char>> {
    match part {
        StreamPart::Reasoning(ps) => shown_texts(ps@),
        _ => Seq::empty(),
    }
}

fn think_text(t: &str) -> (r: String)
    ensures
        r@ == think_chunk(t@),
{
    let mut r = "<think>\n".to_owned();
    r.append(t);
    r.append("\n</think>\n\n");
    r
}

impl Binding {
    /// The identifier of the binding.
    pub fn binding_id(&self) -> (r: &str)
        ensures
            r@ == self@.binding_id,
    {
        self.binding_id.as_str()
    }

    /// Remember on the current turn of thread `tid` the channel's draft
    /// message `draft_message_id` that shows the answer being streamed.
    pub fn on_draft(&self, sm: &mut SessionManager, tid: u128, draft_message_id: Option<String>)
        requires
            old(sm)@.wf(),
            located(old(sm)@, self@.binding_id, tid),
        ensures
            final(sm)@.wf(),
            turn_edited(old(sm)@, final(sm)@, self@.binding_id, tid, TurnEditView::Draft(draft_message_id.deep_view())),
    {
        sm.edit_last_turn(self.binding_id.as_str(), tid, TurnEdit::Draft(draft_message_id));
    }

    /// Take in a part of the model's reply streamed for thread `tid`: its
    /// shown reasoning is added to the current turn's thinking (see
    /// `stream_reasoning`); gives the chunks to send to the channel, in order
    /// (see `stream_chunks`).
    pub fn on_stream_part(&self, sm: &mut SessionManager, tid: u128, part: StreamPart) -> (chunks: Vec<String>)
        requires
            old(sm)@.wf(),
        ensures
            final(sm)@.wf(),
            chunks.deep_view() == stream_chunks(part),
            stream_reasoning(part).len() == 0 ==> final(sm)@ == old(sm)@,
            stream_reasoning(part).len() > 0 ==> turn_edited(
                old(sm)@,
                final(sm)@,
                self@.binding_id,
                tid,
                TurnEditView::Reasoning(crate::llm::response::concat(stream_reasoning(part))),
            ),
    {
        let ghost pv = part;
        let mut chunks: Vec<String> = Vec::new();
        match part {
            StreamPart::Text(t) => {
                chunks.push(t);
                proof {
                    assert(chunks.deep_view() =~= stream_chunks(pv));
                }
            },
            StreamPart::Reasoning(ps) => {
                let ghost texts = shown_texts(ps@);
                let mut all = String::new();
                let mut any = false;
                let mut i: usize = 0;
                while i < ps.len()
                    invariant
                        texts == shown_texts(ps@),
                        i <= ps@.len(),
                        chunks.deep_view() == shown_texts(ps@.take(i as int)).map_values(|t: Seq<char>| think_chunk(t)),
                        all@ == crate::llm::response::concat(shown_texts(ps@.take(i as int))),
                        any == (shown_texts(ps@.take(i as int)).len() > 0),
                    decreases ps@.len() - i,
                {
                    proof {
                        assert(ps@.take(i + 1).drop_last() =~= ps@.take(i as int));
                        assert(ps@.take(i + 1).last() == ps@[i as int]);
                    }
                    let ghost c0 = chunks.deep_view();
                    let ghost a0 = shown_texts(ps@.take(i as int));
                    match &ps[i] {
                        ReasoningPiece::Text(t) => {
                            chunks.push(think_text(t.as_str()));
                            all.append(t.as_str());
                            any = true;
                            proof {
                                assert(shown_texts(ps@.take(i + 1)) == a0.push(t@));
                                assert(shown_texts(ps@.take(i + 1)).drop_last() =~= a0);
                                assert(chunks.deep_view() =~= c0.push(think_chunk(t@)));
                                assert(a0.push(t@).map_values(|t: Seq<char>| think_chunk(t)) =~= a0.map_values(
                                    |t: Seq<char>| think_chunk(t),
                                ).push(think_chunk(t@)));
                            }
                        },
                        ReasoningPiece::Summary(t) => {
                            chunks.push(think_text(t.as_str()));
                            all.append(t.as_str());
                            any = true;
                            proof {
                                assert(shown_texts(ps@.take(i + 1)) == a0.push(t@));
                                assert(shown_texts(ps@.take(i + 1)).drop_last() =~= a0);
                                assert(chunks.deep_view() =~= c0.push(think_chunk(t@)));
                                assert(a0.push(t@).map_values(|t: Seq<char>| think_chunk(t)) =~= a0.map_values(
                                    |t: Seq<char>| think_chunk(t),
                                ).push(think_chunk(t@)));
                            }
                        },
                        ReasoningPiece::Hidden => {
                            proof {
                                assert(shown_texts(ps@.take(i + 1)) == a0);
                            }
                        },
                    }
                    i = i + 1;
                }
                proof {
                    assert(ps@.take(ps@.len() as int) =~= ps@);
                }
                if any {
                    sm.edit_last_turn(self.binding_id.as_str(), tid, TurnEdit::Reasoning(all));
                }
            },
            StreamPart::Other => {
                proof {
                    assert(chunks.deep_view() =~= stream_chunks(pv));
                }
            },
        }
        chunks
    }
}

} // verus!
