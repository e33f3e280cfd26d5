//! What holds of every message the binding handles and every step it takes.
use vstd::prelude::*;
use crate::binding::approvals::prepared;
use crate::binding::driver::{
    aligned, all_auto, interrupted_notice, rejected_notice, rejected_text,
    BindingView, EventView, ActionView, StageView, handled, iterated, loop_begun, run_failed, stepped, tool_next,
    tools_chosen,
};
use crate::binding::intent::{Intent, intent_of};
use crate::session::manager::{
    SessionManagerView, located, session_has, session_pos, sessions_wf, thread_of, turn_failed, turn_interrupted,
    turn_started, with_thread,
};
use crate::session::progress::{
    approvals_taken, pending_of,
    always_approved, approved_tools, auto_tools_of, has_last_turn, last_turn_of, pending_names, thread_state_of, turn_edited,
    with_last_turn,
};
use crate::session::approval::PendingApprovalView;
use crate::session::session::{SessionView, has_thread, thread_position};
use crate::session::thread::{ThreadState, ThreadView, with_last};
use crate::storage::convert::thread_state_name;
use crate::storage::ops::StorageOpView;
use crate::ext::{rfc3339_text, uuid_text};

verus! {

proof fn lemma_thread_of_id(v: SessionManagerView, b: Seq<char>, tid: u128)
    requires
        located(v, b, tid),
    ensures
        thread_of(v, b, tid).id == tid,
{
    let s = v.session_of(b);
    assert(has_thread(s.threads, tid));
    let q = thread_position(s.threads, tid);
    assert(s.threads[q].id == tid);
}

/// Replacing thread `tid` of binding `b` by a thread with the same
/// identifier keeps the sessions well formed and the thread found.
proof fn lemma_with_thread(v: SessionManagerView, b: Seq<char>, tid: u128, t: ThreadView)
    requires
        v.wf(),
        located(v, b, tid),
        t.id == tid,
    ensures
        (SessionManagerView { sessions: with_thread(v, b, tid, t), ..v }).wf(),
        located(SessionManagerView { sessions: with_thread(v, b, tid, t), ..v }, b, tid),
        thread_of(SessionManagerView { sessions: with_thread(v, b, tid, t), ..v }, b, tid) == t,
        (SessionManagerView { sessions: with_thread(v, b, tid, t), ..v }).session_of(b).auto_approved_tools
            == v.session_of(b).auto_approved_tools,
{
    let v2 = SessionManagerView { sessions: with_thread(v, b, tid, t), ..v };
    let si = session_pos(v.sessions, b);
    let s = v.sessions[si];
    assert(s.binding_id == b);
    let ti = thread_position(s.threads, tid);
    assert(s.threads[ti].id == tid);
    let ns = SessionView { threads: s.threads.update(ti, t), ..s };
    assert(v2.sessions == v.sessions.update(si, ns));
    assert(s.wf());
    assert(ns.wf()) by {
        assert forall|i: int, j: int| 0 <= i < ns.threads.len() && 0 <= j < ns.threads.len() && i != j implies ns.threads[i].id
            != ns.threads[j].id by {
            if i != ti && j != ti {
                assert(ns.threads[i] == s.threads[i]);
                assert(ns.threads[j] == s.threads[j]);
            } else if i == ti {
                assert(ns.threads[j] == s.threads[j]);
            } else {
                assert(ns.threads[i] == s.threads[i]);
            }
        }
    }
    assert(sessions_wf(v2.sessions)) by {
        assert forall|i: int| 0 <= i < v2.sessions.len() implies (#[trigger] v2.sessions[i]).wf() by {
            if i != si {
                assert(v2.sessions[i] == v.sessions[i]);
            }
        }
        assert forall|i: int, j: int| 0 <= i < v2.sessions.len() && 0 <= j < v2.sessions.len() && i != j implies v2.sessions[i].binding_id
            != v2.sessions[j].binding_id by {
            assert(v2.sessions[i].binding_id == v.sessions[i].binding_id);
            assert(v2.sessions[j].binding_id == v.sessions[j].binding_id);
        }
    }
    assert(v2.sessions[si] == ns);
    assert(session_has(v2.sessions, b));
    let p = session_pos(v2.sessions, b);
    assert(v2.sessions[p].binding_id == b);
    assert(p == si);
    assert(ns.threads[ti].id == tid);
    assert(has_thread(ns.threads, tid));
    let q = thread_position(ns.threads, tid);
    assert(ns.threads[q].id == tid);
    assert(q == ti);
}

/// An edit of the last turn keeps the thread, its state and its number of turns.
proof fn lemma_edit_keeps(m0: SessionManagerView, m1: SessionManagerView, b: Seq<char>, tid: u128, e: crate::session::progress::TurnEditView)
    requires
        m0.wf(),
        located(m0, b, tid),
        turn_edited(m0, m1, b, tid, e),
    ensures
        m1.wf(),
        located(m1, b, tid),
        thread_of(m1, b, tid).turns.len() == thread_of(m0, b, tid).turns.len(),
        thread_of(m1, b, tid).state == thread_of(m0, b, tid).state,
        thread_of(m1, b, tid).turns.len() > 0 ==> thread_of(m1, b, tid).turns.last().user_input == thread_of(m0, b, tid).turns.last().user_input,
        auto_tools_of(m1, b) == auto_tools_of(m0, b),
        thread_of(m1, b, tid).pending_approvals == thread_of(m0, b, tid).pending_approvals,
{
    if has_last_turn(m0, b, tid) {
        let o = thread_of(m0, b, tid);
        lemma_thread_of_id(m0, b, tid);
        let t = ThreadView { turns: with_last(o.turns, crate::session::progress::edited(last_turn_of(m0, b, tid), e)), ..o };
        lemma_with_thread(m0, b, tid, t);
    }
}

/// A failed turn keeps the thread and its number of turns; the thread is idle.
proof fn lemma_fail_keeps(m0: SessionManagerView, m1: SessionManagerView, b: Seq<char>, tid: u128, err: Seq<char>)
    requires
        m0.wf(),
        located(m0, b, tid),
        turn_failed(m0, m1, b, tid, err),
    ensures
        m1.wf(),
        located(m1, b, tid),
        thread_of(m1, b, tid).turns.len() == thread_of(m0, b, tid).turns.len(),
        thread_of(m1, b, tid).turns.len() > 0 ==> thread_of(m1, b, tid).turns.last().user_input == thread_of(m0, b, tid).turns.last().user_input,
        auto_tools_of(m1, b) == auto_tools_of(m0, b),
        thread_of(m1, b, tid).pending_approvals == thread_of(m0, b, tid).pending_approvals,
        thread_of(m1, b, tid).state == ThreadState::Idle,
{
    lemma_thread_of_id(m0, b, tid);
    lemma_with_thread(m0, b, tid, thread_of(m1, b, tid));
}

/// The agentic loop, begun, keeps the thread and its number of turns.
proof fn lemma_loop_keeps(b: BindingView, m0: SessionManagerView, m1: SessionManagerView, tid: u128, b1: BindingView, act: ActionView)
    requires
        m0.wf(),
        located(m0, b.binding_id, tid),
        loop_begun(b, m0, m1, tid, b1, act),
    ensures
        m1.wf(),
        located(m1, b.binding_id, tid),
        thread_of(m1, b.binding_id, tid).turns.len() == thread_of(m0, b.binding_id, tid).turns.len(),
        thread_of(m1, b.binding_id, tid).turns.len() > 0 ==> thread_of(m1, b.binding_id, tid).turns.last().user_input == thread_of(
            m0,
            b.binding_id,
            tid,
        ).turns.last().user_input,
        auto_tools_of(m1, b.binding_id) == auto_tools_of(m0, b.binding_id),
        thread_of(m1, b.binding_id, tid).pending_approvals == thread_of(m0, b.binding_id, tid).pending_approvals,
        thread_of(m1, b.binding_id, tid).state == thread_of(m0, b.binding_id, tid).state || thread_of(m1, b.binding_id, tid).state
            == ThreadState::Idle,
{
    let it = crate::session::progress::iteration_of(m0, b.binding_id, tid);
    if it < b.max_iterations {
        lemma_edit_keeps(m0, m1, b.binding_id, tid, crate::session::progress::TurnEditView::Iteration(it));
    } else {
        lemma_fail_keeps(m0, m1, b.binding_id, tid, crate::binding::driver::max_iterations_text());
    }
}

/// Taking the pending approvals keeps the thread's turns and the session's
/// auto-approved tools; the thread is processing and holds none.
proof fn lemma_taken_keeps(m0: SessionManagerView, m1: SessionManagerView, b: Seq<char>, tid: u128)
    requires
        m0.wf(),
        located(m0, b, tid),
        approvals_taken(m0, m1, b, tid),
    ensures
        m1.wf(),
        located(m1, b, tid),
        thread_of(m1, b, tid).turns == thread_of(m0, b, tid).turns,
        thread_of(m1, b, tid).pending_approvals.len() == 0,
        thread_of(m1, b, tid).state == ThreadState::Processing,
        auto_tools_of(m1, b) == auto_tools_of(m0, b),
{
    lemma_thread_of_id(m0, b, tid);
    lemma_with_thread(m0, b, tid, thread_of(m1, b, tid));
}

/// Going on with the approved tools from `index` keeps the thread's turns,
/// its pending approvals and the session's auto-approved tools.
proof fn lemma_tool_next_keeps(
    b: BindingView,
    m0: SessionManagerView,
    m1: SessionManagerView,
    tid: u128,
    approvals: Seq<PendingApprovalView>,
    index: int,
    b1: BindingView,
    act: ActionView,
)
    requires
        m0.wf(),
        located(m0, b.binding_id, tid),
        tool_next(b, m0, m1, tid, approvals, index, b1, act),
    ensures
        m1.wf(),
        located(m1, b.binding_id, tid),
        thread_of(m1, b.binding_id, tid).turns.len() == thread_of(m0, b.binding_id, tid).turns.len(),
        auto_tools_of(m1, b.binding_id) == auto_tools_of(m0, b.binding_id),
        thread_of(m1, b.binding_id, tid).pending_approvals == thread_of(m0, b.binding_id, tid).pending_approvals,
        thread_of(m1, b.binding_id, tid).state == thread_of(m0, b.binding_id, tid).state || thread_of(m1, b.binding_id, tid).state
            == ThreadState::Idle,
{
    if !(0 <= index < approvals.len()) {
        lemma_loop_keeps(b, m0, m1, tid, b1, act);
    }
}

/// Law: a reply to an approval request (yes, no or always) never starts a
/// turn: the thread keeps its number of turns, whatever the reply and the
/// thread's state.
pub proof fn law_approval_reply_starts_no_turn(
    b: BindingView,
    m1: SessionManagerView,
    fin: SessionManagerView,
    tid: u128,
    content: Seq<char>,
    b1: BindingView,
    act: ActionView,
)
    requires
        m1.wf(),
        located(m1, b.binding_id, tid),
        handled(b, m1, fin, tid, content, b1, act),
        intent_of(content) == Intent::ApprovalAccept || intent_of(content) == Intent::ApprovalReject || intent_of(content)
            == Intent::ApprovalAlways,
    ensures
        located(fin, b.binding_id, tid),
        thread_of(fin, b.binding_id, tid).turns.len() == thread_of(m1, b.binding_id, tid).turns.len(),
{
    let bid = b.binding_id;
    let st = thread_state_of(m1, bid, tid);
    if st == ThreadState::AwaitingApproval {
        if intent_of(content) == Intent::ApprovalReject {
            let m2 = choose|m2: SessionManagerView|
                approvals_taken(m1, m2, bid, tid) && turn_failed(m2, fin, bid, tid, rejected_text());
            lemma_taken_keeps(m1, m2, bid, tid);
            lemma_fail_keeps(m2, fin, bid, tid, rejected_text());
        } else {
            let (m2, m3) = choose|m2: SessionManagerView, m3: SessionManagerView|
                {
                    &&& (if intent_of(content) == Intent::ApprovalAlways {
                        always_approved(m1, m2, bid, tid)
                    } else {
                        m2 == m1
                    })
                    &&& approvals_taken(m2, m3, bid, tid)
                    &&& tool_next(b, m3, fin, tid, pending_of(m2, bid, tid), 0, b1, act)
                };
            if intent_of(content) == Intent::ApprovalAlways {
                lemma_always_keeps(m1, m2, bid, tid);
            }
            lemma_taken_keeps(m2, m3, bid, tid);
            lemma_tool_next_keeps(b, m3, fin, tid, pending_of(m2, bid, tid), 0, b1, act);
        }
    }
}

/// Auto-approving tools keeps the threads.
pub(crate) proof fn lemma_always_keeps(m0: SessionManagerView, m1: SessionManagerView, b: Seq<char>, tid: u128)
    requires
        m0.wf(),
        located(m0, b, tid),
        always_approved(m0, m1, b, tid),
    ensures
        m1.wf(),
        located(m1, b, tid),
        thread_of(m1, b, tid) == thread_of(m0, b, tid),
{
    let p = session_pos(m0.sessions, b);
    let s = m0.session_of(b);
    assert(m0.sessions[p].binding_id == b);
    let tools = crate::session::progress::approved_tools(s.auto_approved_tools, crate::session::progress::pending_names(m0, b, tid));
    let ns = SessionView { auto_approved_tools: tools, ..s };
    assert(m1.sessions == m0.sessions.update(p, ns));
    lemma_approved_tools_distinct(s.auto_approved_tools, crate::session::progress::pending_names(m0, b, tid));
    assert(sessions_wf(m1.sessions)) by {
        assert(s.wf());
        assert forall|i: int| 0 <= i < m1.sessions.len() implies (#[trigger] m1.sessions[i]).wf() by {
            if i != p {
                assert(m1.sessions[i] == m0.sessions[i]);
            }
        }
        assert forall|i: int, j: int| 0 <= i < m1.sessions.len() && 0 <= j < m1.sessions.len() && i != j implies m1.sessions[i].binding_id
            != m1.sessions[j].binding_id by {
            assert(m1.sessions[i].binding_id == m0.sessions[i].binding_id);
            assert(m1.sessions[j].binding_id == m0.sessions[j].binding_id);
        }
    }
    assert(m1.sessions[p] == ns);
    assert(session_has(m1.sessions, b));
    let q = session_pos(m1.sessions, b);
    assert(m1.sessions[q].binding_id == b);
    assert(q == p);
}

/// Adding names that are not there yet keeps a list of distinct names distinct.
pub proof fn lemma_approved_tools_distinct(tools: Seq<Seq<char>>, names: Seq<Seq<char>>)
    requires
        crate::session::session::distinct_strings(tools),
    ensures
        crate::session::session::distinct_strings(crate::session::progress::approved_tools(tools, names)),
    decreases names.len(),
{
    if names.len() > 0 {
        lemma_approved_tools_distinct(tools, names.drop_last());
        let before = crate::session::progress::approved_tools(tools, names.drop_last());
        if !before.contains(names.last()) {
            let after = before.push(names.last());
            assert forall|i: int, j: int| 0 <= i < after.len() && 0 <= j < after.len() && i != j implies after[i] != after[j] by {
                if i == before.len() {
                    assert(after[j] == before[j]);
                } else if j == before.len() {
                    assert(after[i] == before[i]);
                }
            }
        }
    }
}

/// The tools auto-approved after adding `names` are those before and `names`.
proof fn lemma_approved_tools_contains(tools: Seq<Seq<char>>, names: Seq<Seq<char>>)
    ensures
        forall|x: Seq<char>| tools.contains(x) ==> approved_tools(tools, names).contains(x),
        forall|i: int| 0 <= i < names.len() ==> approved_tools(tools, names).contains(#[trigger] names[i]),
    decreases names.len(),
{
    if names.len() > 0 {
        let front = names.drop_last();
        lemma_approved_tools_contains(tools, front);
        let before = approved_tools(tools, front);
        let after = approved_tools(tools, names);
        assert forall|x: Seq<char>| before.contains(x) implies after.contains(x) by {
            if !before.contains(names.last()) {
                let k = choose|k: int| 0 <= k < before.len() && before[k] == x;
                assert(after[k] == x);
            }
        }
        assert forall|i: int| 0 <= i < names.len() implies after.contains(#[trigger] names[i]) by {
            if i < names.len() - 1 {
                assert(front[i] == names[i]);
                assert(before.contains(front[i]));
            } else if !before.contains(names.last()) {
                assert(after[before.len() as int] == names.last());
            }
        }
    }
}

/// Law: replying "always" to a thread waiting for approval auto-approves,
/// for the binding's session, every tool the thread was waiting for, and
/// keeps the tools it auto-approved before.
pub proof fn law_always_reply_approves(
    b: BindingView,
    m1: SessionManagerView,
    fin: SessionManagerView,
    tid: u128,
    content: Seq<char>,
    b1: BindingView,
    act: ActionView,
)
    requires
        m1.wf(),
        located(m1, b.binding_id, tid),
        handled(b, m1, fin, tid, content, b1, act),
        intent_of(content) == Intent::ApprovalAlways,
        thread_state_of(m1, b.binding_id, tid) == ThreadState::AwaitingApproval,
    ensures
        forall|i: int|
            0 <= i < pending_names(m1, b.binding_id, tid).len() ==> auto_tools_of(fin, b.binding_id).contains(
                #[trigger] pending_names(m1, b.binding_id, tid)[i],
            ),
        forall|x: Seq<char>| auto_tools_of(m1, b.binding_id).contains(x) ==> auto_tools_of(fin, b.binding_id).contains(x),
{
    let bid = b.binding_id;
    let (m2, m3) = choose|m2: SessionManagerView, m3: SessionManagerView|
        {
            &&& always_approved(m1, m2, bid, tid)
            &&& approvals_taken(m2, m3, bid, tid)
            &&& tool_next(b, m3, fin, tid, pending_of(m2, bid, tid), 0, b1, act)
        };
    lemma_always_keeps(m1, m2, bid, tid);
    lemma_taken_keeps(m2, m3, bid, tid);
    lemma_tool_next_keeps(b, m3, fin, tid, pending_of(m2, bid, tid), 0, b1, act);
    let s = m1.session_of(bid);
    let p = session_pos(m1.sessions, bid);
    assert(m1.sessions[p].binding_id == bid);
    lemma_approved_tools_contains(s.auto_approved_tools, pending_names(m1, bid, tid));
    let q = session_pos(m2.sessions, bid);
    assert(m2.sessions[q].binding_id == bid);
    assert(q == p);
    assert(auto_tools_of(m2, bid) == approved_tools(s.auto_approved_tools, pending_names(m1, bid, tid)));
}

/// Law: a reply to a thread waiting for approval takes its pending
/// approvals: afterwards the thread holds none. A "no" fails the turn, leaves
/// the thread idle and tells the channel it was rejected. A "yes" or "always"
/// leaves the thread processing and runs the approved tools first, in order,
/// beginning with the first of them.
pub proof fn law_reply_takes_approvals(
    b: BindingView,
    m1: SessionManagerView,
    fin: SessionManagerView,
    tid: u128,
    content: Seq<char>,
    b1: BindingView,
    act: ActionView,
)
    requires
        m1.wf(),
        located(m1, b.binding_id, tid),
        handled(b, m1, fin, tid, content, b1, act),
        intent_of(content) == Intent::ApprovalAccept || intent_of(content) == Intent::ApprovalReject || intent_of(content)
            == Intent::ApprovalAlways,
        thread_state_of(m1, b.binding_id, tid) == ThreadState::AwaitingApproval,
    ensures
        located(fin, b.binding_id, tid),
        thread_of(fin, b.binding_id, tid).pending_approvals.len() == 0,
        intent_of(content) == Intent::ApprovalReject ==> {
            &&& thread_of(fin, b.binding_id, tid).state == ThreadState::Idle
            &&& act == ActionView::Report { thread: b.reply_to, text: rejected_notice() }
        },
        intent_of(content) != Intent::ApprovalReject && pending_of(m1, b.binding_id, tid).len() > 0 ==> {
            &&& thread_of(fin, b.binding_id, tid).state == ThreadState::Processing
            &&& b1.stage == StageView::AwaitToolFound {
                thread_id: tid,
                approvals: pending_of(m1, b.binding_id, tid),
                index: 0,
            }
            &&& act == ActionView::FindTool { name: pending_of(m1, b.binding_id, tid)[0].tool_name }
        },
{
    let bid = b.binding_id;
    if intent_of(content) == Intent::ApprovalReject {
        let m2 = choose|m2: SessionManagerView|
            approvals_taken(m1, m2, bid, tid) && turn_failed(m2, fin, bid, tid, rejected_text());
        lemma_taken_keeps(m1, m2, bid, tid);
        lemma_fail_keeps(m2, fin, bid, tid, rejected_text());
    } else {
        let (m2, m3) = choose|m2: SessionManagerView, m3: SessionManagerView|
            {
                &&& (if intent_of(content) == Intent::ApprovalAlways {
                    always_approved(m1, m2, bid, tid)
                } else {
                    m2 == m1
                })
                &&& approvals_taken(m2, m3, bid, tid)
                &&& tool_next(b, m3, fin, tid, pending_of(m2, bid, tid), 0, b1, act)
            };
        if intent_of(content) == Intent::ApprovalAlways {
            lemma_always_keeps(m1, m2, bid, tid);
        }
        assert(pending_of(m2, bid, tid) == pending_of(m1, bid, tid));
        lemma_taken_keeps(m2, m3, bid, tid);
        lemma_tool_next_keeps(b, m3, fin, tid, pending_of(m2, bid, tid), 0, b1, act);
    }
}

/// Law: the step that takes in the checks of a reply's tool calls leaves a
/// thread that was not waiting for approval waiting for it only with a
/// non-empty list of pending approvals, one of which is not auto-approved;
/// the host is then asked to write them (see
/// `law_written_approvals_are_queued`). When every approval runs without
/// asking, the thread is not left waiting.
pub proof fn law_waiting_thread_holds_approvals(
    b0: BindingView,
    m0: SessionManagerView,
    e: EventView,
    b1: BindingView,
    m1: SessionManagerView,
    act: ActionView,
    tid: u128,
)
    requires
        m0.wf(),
        located(m0, b0.binding_id, tid),
        thread_state_of(m0, b0.binding_id, tid) != ThreadState::AwaitingApproval,
        b0.stage matches StageView::AwaitChecks { thread_id, .. } && thread_id == tid,
        e is Checked,
        stepped(b0, m0, e, b1, m1, act),
    ensures
        located(m1, b0.binding_id, tid),
        thread_state_of(m1, b0.binding_id, tid) == ThreadState::AwaitingApproval ==> {
            let p = thread_of(m1, b0.binding_id, tid).pending_approvals;
            &&& p.len() > 0
            &&& exists|i: int| 0 <= i < p.len() && !(#[trigger] p[i]).auto_approved
            &&& act == ActionView::WriteApprovals { thread_id: tid }
            &&& b1.stage matches StageView::AwaitApprovalsText { thread_id, .. } && thread_id == tid
        },
{
    let bid = b0.binding_id;
    match (b0.stage, e) {
        (StageView::AwaitChecks { thread_id, calls }, EventView::Checked(checks)) => {
            let approvals = choose|approvals: Seq<PendingApprovalView>|
                {
                    &&& prepared(approvals, calls, aligned(checks, calls.len()), auto_tools_of(m0, bid), b0.user_tz)
                    &&& tools_chosen(b0, m0, m1, tid, approvals, b1, act)
                };
            if all_auto(approvals) {
                lemma_tool_next_keeps(b0, m0, m1, tid, approvals, 0, b1, act);
            } else {
                let w = choose|i: int| 0 <= i < approvals.len() && !approvals[i].auto_approved;
                let o = thread_of(m0, bid, tid);
                let n = thread_of(m1, bid, tid);
                lemma_thread_of_id(m0, bid, tid);
                lemma_with_thread(m0, bid, tid, n);
                assert(n.pending_approvals[w] == approvals[w]);
            }
        },
        _ => {},
    }
}

/// Law: the approvals the host wrote for a waiting thread are queued for the
/// database (when the manager is persistent) as the thread's pending
/// approvals, with its state stored as awaiting approval; nothing else
/// changes, and the binding is ready for the next message.
pub proof fn law_written_approvals_are_queued(
    b0: BindingView,
    m0: SessionManagerView,
    text: Seq<char>,
    b1: BindingView,
    m1: SessionManagerView,
    act: ActionView,
    tid: u128,
    updated_at: i64,
)
    requires
        b0.stage == (StageView::AwaitApprovalsText { thread_id: tid, updated_at }),
        stepped(b0, m0, EventView::ApprovalsText(text), b1, m1, act),
    ensures
        m1.sessions == m0.sessions,
        m1.thread_map == m0.thread_map,
        m1.pending_storage == m0.queued(
            seq![
                StorageOpView::UpdateThreadPendingApprovals {
                    thread_id: uuid_text(tid),
                    state: thread_state_name(ThreadState::AwaitingApproval),
                    pending_approvals: text,
                    updated_at: rfc3339_text(updated_at),
                },
            ],
        ),
        b1.stage == StageView::Ready,
        act == ActionView::Done,
{
}

/// Law: a yes, no or always on a thread that is not waiting for approval
/// changes no session and does nothing: no tool runs and nothing is sent.
pub proof fn law_stray_reply_changes_nothing(
    b: BindingView,
    m1: SessionManagerView,
    fin: SessionManagerView,
    tid: u128,
    content: Seq<char>,
    b1: BindingView,
    act: ActionView,
)
    requires
        handled(b, m1, fin, tid, content, b1, act),
        intent_of(content) == Intent::ApprovalAccept || intent_of(content) == Intent::ApprovalReject || intent_of(content)
            == Intent::ApprovalAlways,
        thread_state_of(m1, b.binding_id, tid) != ThreadState::AwaitingApproval,
    ensures
        fin == m1,
        b1 == b,
        act == ActionView::Done,
{
}

/// Law: input on an idle thread, or on a thread waiting for approval, starts
/// exactly one turn, which carries the input.
pub proof fn law_input_starts_one_turn(
    b: BindingView,
    m1: SessionManagerView,
    fin: SessionManagerView,
    tid: u128,
    content: Seq<char>,
    b1: BindingView,
    act: ActionView,
)
    requires
        m1.wf(),
        located(m1, b.binding_id, tid),
        handled(b, m1, fin, tid, content, b1, act),
        intent_of(content) == Intent::UserInput,
        thread_state_of(m1, b.binding_id, tid) == ThreadState::Idle || thread_state_of(m1, b.binding_id, tid)
            == ThreadState::AwaitingApproval,
    ensures
        located(fin, b.binding_id, tid),
        thread_of(fin, b.binding_id, tid).turns.len() == thread_of(m1, b.binding_id, tid).turns.len() + 1,
        thread_of(fin, b.binding_id, tid).turns.last().user_input == content,
{
    let bid = b.binding_id;
    lemma_thread_of_id(m1, bid, tid);
    if thread_state_of(m1, bid, tid) == ThreadState::Idle {
        let m2 = choose|m2: SessionManagerView| turn_started(m1, m2, bid, tid, content) && loop_begun(b, m2, fin, tid, b1, act);
        lemma_with_thread(m1, bid, tid, thread_of(m2, bid, tid));
        lemma_loop_keeps(b, m2, fin, tid, b1, act);
    } else {
        let (m2, m3) = choose|m2: SessionManagerView, m3: SessionManagerView|
            {
                &&& turn_interrupted(m1, m2, bid, tid)
                &&& turn_started(m2, m3, bid, tid, content)
                &&& loop_begun(b, m3, fin, tid, b1, act)
            };
        lemma_with_thread(m1, bid, tid, thread_of(m2, bid, tid));
        lemma_thread_of_id(m2, bid, tid);
        lemma_with_thread(m2, bid, tid, thread_of(m3, bid, tid));
        lemma_loop_keeps(b, m3, fin, tid, b1, act);
    }
}

/// Law: an interrupt leaves the thread interrupted, whatever state it was in,
/// and the channel is told so.
pub proof fn law_interrupt_interrupts(
    b: BindingView,
    m1: SessionManagerView,
    fin: SessionManagerView,
    tid: u128,
    content: Seq<char>,
    b1: BindingView,
    act: ActionView,
)
    requires
        m1.wf(),
        located(m1, b.binding_id, tid),
        handled(b, m1, fin, tid, content, b1, act),
        intent_of(content) == Intent::Interrupt,
    ensures
        located(fin, b.binding_id, tid),
        thread_of(fin, b.binding_id, tid).state == ThreadState::Interrupted,
        act == (ActionView::Report { thread: b.reply_to, text: interrupted_notice() }),
{
}

} // verus!

verus! {

/// Law: every step keeps the loop within its bound: an iteration awaited
/// stays below the binding's bound on iterations, and a tool run is one of
/// the approvals in hand.
pub proof fn law_steps_stay_bounded(
    b0: BindingView,
    m0: SessionManagerView,
    e: EventView,
    b1: BindingView,
    m1: SessionManagerView,
    act: ActionView,
)
    requires
        b0.wf(),
        stepped(b0, m0, e, b1, m1, act),
    ensures
        b1.wf(),
{
}

/// Law: handling a message leaves the loop within its bound.
pub proof fn law_handling_stays_bounded(
    b: BindingView,
    m1: SessionManagerView,
    fin: SessionManagerView,
    tid: u128,
    content: Seq<char>,
    b1: BindingView,
    act: ActionView,
)
    requires
        b.stage == StageView::Ready,
        handled(b, m1, fin, tid, content, b1, act),
    ensures
        b1.wf(),
{
}

} // verus!
