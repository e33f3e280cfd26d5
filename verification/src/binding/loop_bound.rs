//! How often one turn calls the model: never more than the binding's bound
//! on iterations, however the replies go and however often tools run.
use vstd::prelude::*;
use crate::binding::approvals::prepared;
use crate::binding::driver::{
    aligned, all_auto, max_iterations_notice, max_iterations_text, ActionView, BindingView, EventView, StageView, handled,
    iterated, loop_begun, stepped, tool_next, tools_chosen,
};
use crate::binding::intent::{Dispatch, Intent, dispatch_of, intent_of};
use crate::binding::laws::lemma_always_keeps;
use crate::llm::response::FinishReason;
use crate::session::approval::PendingApprovalView;
use crate::session::manager::{SessionManagerView, located, thread_of, turn_failed, turn_interrupted, turn_started};
use crate::session::progress::{
    always_approved, approvals_taken, auto_tools_of, has_last_turn, iteration_of, pending_of, thread_state_of,
    tool_outcome_recorded,
};
use crate::session::thread::ThreadState;

verus! {

/// What moves a binding on while a turn of thread `tid` lasts: a step of its
/// loop, or a message on that thread that is no new input (a yes, no,
/// always or stop), handled once the thread is resolved.
pub enum Move {
    Step(EventView),
    Reply(Seq<char>),
}

/// The move `mv` takes binding `b0` and sessions `m0` to `b1` and `m1`,
/// asking `act` of the host.
pub open spec fn moved(
    b0: BindingView,
    m0: SessionManagerView,
    mv: Move,
    b1: BindingView,
    m1: SessionManagerView,
    act: ActionView,
    tid: u128,
) -> bool {
    match mv {
        Move::Step(e) => stepped(b0, m0, e, b1, m1, act),
        Move::Reply(content) => {
            &&& m0.wf()
            &&& b0.stage == StageView::Ready
            &&& intent_of(content) != Intent::UserInput
            &&& handled(b0, m0, m1, tid, content, b1, act)
        },
    }
}

/// `moves` lead from `bs[0]`, `ms[0]` through `bs[i]`, `ms[i]`, asking
/// `acts[i]` at move `i`.
pub open spec fn history(
    bs: Seq<BindingView>,
    ms: Seq<SessionManagerView>,
    moves: Seq<Move>,
    acts: Seq<ActionView>,
    tid: u128,
) -> bool {
    &&& bs.len() == moves.len() + 1
    &&& ms.len() == moves.len() + 1
    &&& acts.len() == moves.len()
    &&& forall|i: int| 0 <= i < moves.len() ==> #[trigger] moved(bs[i], ms[i], moves[i], bs[i + 1], ms[i + 1], acts[i], tid)
}

/// How many of `acts` ask the host to call the model for thread `tid`.
pub open spec fn model_calls(acts: Seq<ActionView>, tid: u128) -> nat
    decreases acts.len(),
{
    if acts.len() == 0 {
        0
    } else {
        model_calls(acts.drop_last(), tid) + if acts.last() == (ActionView::CallModel { thread_id: tid }) {
            1nat
        } else {
            0nat
        }
    }
}

/// 1 when `act` asks to call the model for thread `tid`, else 0.
pub open spec fn one_call(act: ActionView, tid: u128) -> int {
    if act == (ActionView::CallModel { thread_id: tid }) {
        1
    } else {
        0
    }
}

/// Where a turn of thread `tid` can stand: in the loop of that thread, with
/// its last turn recording the iteration reached, or done, or paused while
/// the thread waits for approval.
pub open spec fn in_turn(b: BindingView, m: SessionManagerView, tid: u128) -> bool {
    let bid = b.binding_id;
    let rec = has_last_turn(m, bid, tid) && iteration_of(m, bid, tid) <= b.max_iterations;
    match b.stage {
        StageView::Ready => thread_state_of(m, bid, tid) == ThreadState::AwaitingApproval ==> rec,
        StageView::AwaitReply { thread_id, iteration } => {
            &&& thread_id == tid
            &&& has_last_turn(m, bid, tid)
            &&& iteration_of(m, bid, tid) == iteration
            &&& iteration < b.max_iterations
        },
        StageView::AwaitChecks { thread_id, .. } => thread_id == tid && rec,
        StageView::AwaitToolFound { thread_id, .. } => thread_id == tid && rec,
        StageView::AwaitToolOutcome { thread_id, .. } => thread_id == tid && rec,
        StageView::AwaitApprovalsText { thread_id, .. } => {
            &&& thread_id == tid
            &&& rec
            &&& thread_state_of(m, bid, tid) == ThreadState::AwaitingApproval
        },
        StageView::AwaitReport => thread_state_of(m, bid, tid) != ThreadState::AwaitingApproval,
    }
}

/// How many more times the turn may still call the model.
pub open spec fn calls_left(b: BindingView, m: SessionManagerView, tid: u128) -> int {
    let bid = b.binding_id;
    let rest = b.max_iterations - iteration_of(m, bid, tid);
    match b.stage {
        StageView::Ready => if thread_state_of(m, bid, tid) == ThreadState::AwaitingApproval {
            rest
        } else {
            0
        },
        StageView::AwaitReply { iteration, .. } => b.max_iterations - iteration - 1,
        StageView::AwaitReport => 0,
        _ => rest,
    }
}

/// Calls still allowed after iteration `it` of a loop bounded by `max`.
pub open spec fn left_after(max: usize, it: usize) -> int {
    if it < max {
        max - it
    } else {
        0
    }
}

proof fn lemma_calls_left_nonneg(b: BindingView, m: SessionManagerView, tid: u128)
    requires
        in_turn(b, m, tid),
    ensures
        calls_left(b, m, tid) >= 0,
{
}

/// A turn failed or ended leaves its thread not waiting for approval.
proof fn lemma_failed_not_waiting(m0: SessionManagerView, m1: SessionManagerView, bid: Seq<char>, tid: u128, text: Seq<char>)
    requires
        located(m0, bid, tid),
        turn_failed(m0, m1, bid, tid, text),
    ensures
        thread_state_of(m1, bid, tid) == ThreadState::Idle,
{
}

/// Iteration `it`: a call uses up one of the calls left.
proof fn lemma_iterated(
    b: BindingView,
    m0: SessionManagerView,
    m1: SessionManagerView,
    tid: u128,
    it: usize,
    b1: BindingView,
    act: ActionView,
)
    requires
        has_last_turn(m0, b.binding_id, tid),
        iterated(b, m0, m1, tid, it, b1, act),
    ensures
        in_turn(b1, m1, tid),
        b1.binding_id == b.binding_id,
        b1.max_iterations == b.max_iterations,
        calls_left(b1, m1, tid) + one_call(act, tid) <= left_after(b.max_iterations, it),
{
    if it >= b.max_iterations {
        lemma_failed_not_waiting(m0, m1, b.binding_id, tid, max_iterations_text());
    }
}

/// The loop begun again uses up one call, at most.
proof fn lemma_loop_begun(b: BindingView, m0: SessionManagerView, m1: SessionManagerView, tid: u128, b1: BindingView, act: ActionView)
    requires
        has_last_turn(m0, b.binding_id, tid),
        iteration_of(m0, b.binding_id, tid) <= b.max_iterations,
        loop_begun(b, m0, m1, tid, b1, act),
    ensures
        in_turn(b1, m1, tid),
        b1.binding_id == b.binding_id,
        b1.max_iterations == b.max_iterations,
        calls_left(b1, m1, tid) + one_call(act, tid) <= b.max_iterations - iteration_of(m0, b.binding_id, tid),
{
    lemma_iterated(b, m0, m1, tid, iteration_of(m0, b.binding_id, tid), b1, act);
}

/// Going on with approved tools uses up one call, at most.
proof fn lemma_tool_next(
    b: BindingView,
    m0: SessionManagerView,
    m1: SessionManagerView,
    tid: u128,
    approvals: Seq<PendingApprovalView>,
    index: int,
    b1: BindingView,
    act: ActionView,
)
    requires
        has_last_turn(m0, b.binding_id, tid),
        iteration_of(m0, b.binding_id, tid) <= b.max_iterations,
        tool_next(b, m0, m1, tid, approvals, index, b1, act),
    ensures
        in_turn(b1, m1, tid),
        b1.binding_id == b.binding_id,
        b1.max_iterations == b.max_iterations,
        calls_left(b1, m1, tid) + one_call(act, tid) <= b.max_iterations - iteration_of(m0, b.binding_id, tid),
{
    if !(0 <= index < approvals.len()) {
        lemma_loop_begun(b, m0, m1, tid, b1, act);
    }
}

/// One step of the loop never adds to the calls a turn has left.
proof fn lemma_step(b0: BindingView, m0: SessionManagerView, e: EventView, b1: BindingView, m1: SessionManagerView, act: ActionView, tid: u128)
    requires
        in_turn(b0, m0, tid),
        stepped(b0, m0, e, b1, m1, act),
    ensures
        in_turn(b1, m1, tid),
        b1.binding_id == b0.binding_id,
        b1.max_iterations == b0.max_iterations,
        calls_left(b1, m1, tid) + one_call(act, tid) <= calls_left(b0, m0, tid),
{
    let bid = b0.binding_id;
    match (b0.stage, e) {
        (StageView::AwaitReply { thread_id, iteration: it }, EventView::Replied(r)) => {
            match r.finish_reason {
                FinishReason::Stop => {},
                FinishReason::ToolUse => {},
                FinishReason::Length | FinishReason::Reasoning => {
                    lemma_iterated(b0, m0, m1, tid, (it + 1) as usize, b1, act);
                },
                _ => {
                    lemma_failed_not_waiting(m0, m1, bid, tid, crate::binding::driver::finish_error_text(r.finish_reason));
                },
            }
        },
        (StageView::AwaitReply { thread_id, .. }, EventView::ModelFailed(t)) => {
            lemma_failed_not_waiting(m0, m1, bid, tid, t);
        },
        (StageView::AwaitChecks { thread_id, calls }, EventView::Checked(checks)) => {
            let approvals = choose|approvals: Seq<PendingApprovalView>|
                {
                    &&& prepared(approvals, calls, aligned(checks, calls.len()), auto_tools_of(m0, bid), b0.user_tz)
                    &&& tools_chosen(b0, m0, m1, tid, approvals, b1, act)
                };
            if all_auto(approvals) {
                lemma_tool_next(b0, m0, m1, tid, approvals, 0, b1, act);
            }
        },
        (StageView::AwaitToolFound { thread_id, approvals, index }, EventView::ToolFound(found)) => {
            if index < approvals.len() {
                if !found {
                    lemma_failed_not_waiting(m0, m1, bid, tid, crate::binding::driver::tool_not_found_text());
                }
            } else {
                lemma_tool_next(b0, m0, m1, tid, approvals, index + 1, b1, act);
            }
        },
        (StageView::AwaitToolOutcome { thread_id, approvals, index }, EventView::ToolDone(res)) => {
            let mid = choose|mid: SessionManagerView|
                {
                    &&& #[trigger] tool_outcome_recorded(m0, mid, bid, tid, crate::binding::driver::recorded_outcome(res))
                    &&& tool_next(b0, mid, m1, tid, approvals, index + 1, b1, act)
                };
            lemma_tool_next(b0, mid, m1, tid, approvals, index + 1, b1, act);
        },
        _ => {},
    }
}

/// A yes, no, always or stop never adds to the calls a turn has left.
proof fn lemma_reply(b0: BindingView, m0: SessionManagerView, content: Seq<char>, b1: BindingView, m1: SessionManagerView, act: ActionView, tid: u128)
    requires
        in_turn(b0, m0, tid),
        moved(b0, m0, Move::Reply(content), b1, m1, act, tid),
    ensures
        in_turn(b1, m1, tid),
        b1.binding_id == b0.binding_id,
        b1.max_iterations == b0.max_iterations,
        calls_left(b1, m1, tid) + one_call(act, tid) <= calls_left(b0, m0, tid),
{
    let bid = b0.binding_id;
    match dispatch_of(intent_of(content), thread_state_of(m0, bid, tid)) {
        Dispatch::Approve { always } => {
            let (m2, m3) = choose|m2: SessionManagerView, m3: SessionManagerView|
                {
                    &&& (if always {
                        always_approved(m0, m2, bid, tid)
                    } else {
                        m2 == m0
                    })
                    &&& approvals_taken(m2, m3, bid, tid)
                    &&& tool_next(b0, m3, m1, tid, pending_of(m2, bid, tid), 0, b1, act)
                };
            if always {
                lemma_always_keeps(m0, m2, bid, tid);
            }
            lemma_tool_next(b0, m3, m1, tid, pending_of(m2, bid, tid), 0, b1, act);
        },
        Dispatch::Reject => {
            let m2 = choose|m2: SessionManagerView|
                approvals_taken(m0, m2, bid, tid) && turn_failed(m2, m1, bid, tid, crate::binding::driver::rejected_text());
            lemma_failed_not_waiting(m2, m1, bid, tid, crate::binding::driver::rejected_text());
        },
        _ => {},
    }
}

proof fn lemma_history(
    bs: Seq<BindingView>,
    ms: Seq<SessionManagerView>,
    moves: Seq<Move>,
    acts: Seq<ActionView>,
    tid: u128,
    n: int,
)
    requires
        history(bs, ms, moves, acts, tid),
        in_turn(bs[0], ms[0], tid),
        0 <= n <= moves.len(),
    ensures
        in_turn(bs[n], ms[n], tid),
        bs[n].binding_id == bs[0].binding_id,
        bs[n].max_iterations == bs[0].max_iterations,
        model_calls(acts.take(n), tid) + calls_left(bs[n], ms[n], tid) <= calls_left(bs[0], ms[0], tid),
    decreases n,
{
    if n > 0 {
        lemma_history(bs, ms, moves, acts, tid, n - 1);
        let k = n - 1;
        assert(moved(bs[k], ms[k], moves[k], bs[k + 1], ms[k + 1], acts[k], tid));
        match moves[k] {
            Move::Step(e) => lemma_step(bs[k], ms[k], e, bs[n], ms[n], acts[k], tid),
            Move::Reply(c) => lemma_reply(bs[k], ms[k], c, bs[n], ms[n], acts[k], tid),
        }
        assert(acts.take(n).drop_last() =~= acts.take(k));
        assert(acts.take(n).last() == acts[k]);
    }
}

/// Law: a turn calls the model at most `max_iterations` times. From the
/// input that starts the turn on thread `tid`, through any run of steps of
/// the loop and of yes, no, always or stop replies on that thread, the host
/// is asked to call the model for the thread no more often than the
/// binding's bound on iterations. Every reply that calls tools uses up an
/// iteration, whether the tools run at once or after approval.
pub proof fn law_turn_calls_model_at_most_max(
    b: BindingView,
    m1: SessionManagerView,
    tid: u128,
    content: Seq<char>,
    act0: ActionView,
    bs: Seq<BindingView>,
    ms: Seq<SessionManagerView>,
    moves: Seq<Move>,
    acts: Seq<ActionView>,
)
    requires
        located(m1, b.binding_id, tid),
        intent_of(content) == Intent::UserInput,
        thread_state_of(m1, b.binding_id, tid) == ThreadState::Idle || thread_state_of(m1, b.binding_id, tid)
            == ThreadState::AwaitingApproval,
        history(bs, ms, moves, acts, tid),
        handled(b, m1, ms[0], tid, content, bs[0], act0),
    ensures
        one_call(act0, tid) + model_calls(acts, tid) <= b.max_iterations,
{
    let bid = b.binding_id;
    let fin = ms[0];
    let m2 = if thread_state_of(m1, bid, tid) == ThreadState::Idle {
        choose|m2: SessionManagerView| turn_started(m1, m2, bid, tid, content) && loop_begun(b, m2, fin, tid, bs[0], act0)
    } else {
        let (mi, m2) = choose|mi: SessionManagerView, m2: SessionManagerView|
            {
                &&& turn_interrupted(m1, mi, bid, tid)
                &&& turn_started(mi, m2, bid, tid, content)
                &&& loop_begun(b, m2, fin, tid, bs[0], act0)
            };
        m2
    };
    assert(has_last_turn(m2, bid, tid));
    assert(iteration_of(m2, bid, tid) == 0);
    lemma_loop_begun(b, m2, fin, tid, bs[0], act0);
    lemma_history(bs, ms, moves, acts, tid, moves.len() as int);
    assert(acts.take(moves.len() as int) =~= acts);
    lemma_calls_left_nonneg(bs[moves.len() as int], ms[moves.len() as int], tid);
}

/// Law: once the turn has used up its iterations, going on with the loop
/// fails the turn with "Max iterations reached" and tells the channel, in
/// place of calling the model.
pub proof fn law_bound_fails_turn(
    b: BindingView,
    m0: SessionManagerView,
    m1: SessionManagerView,
    tid: u128,
    b1: BindingView,
    act: ActionView,
)
    requires
        iteration_of(m0, b.binding_id, tid) >= b.max_iterations,
        loop_begun(b, m0, m1, tid, b1, act),
    ensures
        turn_failed(m0, m1, b.binding_id, tid, max_iterations_text()),
        b1.stage == StageView::AwaitReport,
        act == (ActionView::Report { thread: b.reply_to, text: max_iterations_notice() }),
{
}

} // verus!
