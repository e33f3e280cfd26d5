//! Database writes requested by the session manager, for the host to perform.
use vstd::prelude::*;
use crate::storage::convert::{
    SessionInsertValues, SessionRowView, ThreadInsertValues, ThreadRowView, ToolCallInsertValues,
    ToolCallRowView, TurnInsertValues, TurnRowView,
};

verus! {

/// One database write: an insertion of a row, or an update of named columns
/// of the row with the given identifier.
#[derive(Debug)]
pub enum StorageOp {
    InsertSession(SessionInsertValues),
    DeleteSession { session_id: String },
    UpdateSessionActiveThread { session_id: String, thread_id: String },
    UpdateSessionAutoApprovedTools { session_id: String, tools: String },
    InsertThread(ThreadInsertValues),
    UpdateThreadState { thread_id: String, state: String, updated_at: String },
    UpdateThreadPendingApprovals { thread_id: String, state: String, pending_approvals: String, updated_at: String },
    InsertTurn(TurnInsertValues),
    CompleteTurn { turn_id: String, response: Option<String>, thinking: Option<String>, completed_at: String },
    FailTurn { turn_id: String, error: String, completed_at: String },
    InterruptTurn { turn_id: String, completed_at: String },
    InsertToolCall(ToolCallInsertValues),
    UpdateToolCallResult { turn_id: String, index: usize, result: Option<String>, tool_error: Option<String> },
}

pub enum StorageOpView {
    InsertSession(SessionRowView),
    DeleteSession { session_id: Seq<char> },
    UpdateSessionActiveThread { session_id: Seq<char>, thread_id: Seq<char> },
    UpdateSessionAutoApprovedTools { session_id: Seq<char>, tools: Seq<char> },
    InsertThread(ThreadRowView),
    UpdateThreadState { thread_id: Seq<char>, state: Seq<char>, updated_at: Seq<char> },
    UpdateThreadPendingApprovals {
        thread_id: Seq<char>,
        state: Seq<char>,
        pending_approvals: Seq<char>,
        updated_at: Seq<char>,
    },
    InsertTurn(TurnRowView),
    CompleteTurn {
        turn_id: Seq<char>,
        response: Option<Seq<char>>,
        thinking: Option<Seq<char>>,
        completed_at: Seq<char>,
    },
    FailTurn { turn_id: Seq<char>, error: Seq<char>, completed_at: Seq<char> },
    InterruptTurn { turn_id: Seq<char>, completed_at: Seq<char> },
    InsertToolCall(ToolCallRowView),
    UpdateToolCallResult {
        turn_id: Seq<char>,
        index: usize,
        result: Option<Seq<char>>,
        tool_error: Option<Seq<char>>,
    },
}

impl View for StorageOp {
    type V = StorageOpView;

    open spec fn view(&self) -> StorageOpView {
        match self {
            StorageOp::InsertSession(v) => StorageOpView::InsertSession(v@),
            StorageOp::DeleteSession { session_id } => StorageOpView::DeleteSession { session_id: session_id@ },
            StorageOp::UpdateSessionActiveThread { session_id, thread_id } => StorageOpView::UpdateSessionActiveThread {
                session_id: session_id@,
                thread_id: thread_id@,
            },
            StorageOp::UpdateSessionAutoApprovedTools { session_id, tools } => StorageOpView::UpdateSessionAutoApprovedTools {
                session_id: session_id@,
                tools: tools@,
            },
            StorageOp::InsertThread(v) => StorageOpView::InsertThread(v@),
            StorageOp::UpdateThreadState { thread_id, state, updated_at } => StorageOpView::UpdateThreadState {
                thread_id: thread_id@,
                state: state@,
                updated_at: updated_at@,
            },
            StorageOp::UpdateThreadPendingApprovals { thread_id, state, pending_approvals, updated_at } => StorageOpView::UpdateThreadPendingApprovals {
                thread_id: thread_id@,
                state: state@,
                pending_approvals: pending_approvals@,
                updated_at: updated_at@,
            },
            StorageOp::InsertTurn(v) => StorageOpView::InsertTurn(v@),
            StorageOp::CompleteTurn { turn_id, response, thinking, completed_at } => StorageOpView::CompleteTurn {
                turn_id: turn_id@,
                response: response.deep_view(),
                thinking: thinking.deep_view(),
                completed_at: completed_at@,
            },
            StorageOp::FailTurn { turn_id, error, completed_at } => StorageOpView::FailTurn {
                turn_id: turn_id@,
                error: error@,
                completed_at: completed_at@,
            },
            StorageOp::InterruptTurn { turn_id, completed_at } => StorageOpView::InterruptTurn {
                turn_id: turn_id@,
                completed_at: completed_at@,
            },
            StorageOp::InsertToolCall(v) => StorageOpView::InsertToolCall(v@),
            StorageOp::UpdateToolCallResult { turn_id, index, result, tool_error } => StorageOpView::UpdateToolCallResult {
                turn_id: turn_id@,
                index: *index,
                result: result.deep_view(),
                tool_error: tool_error.deep_view(),
            },
        }
    }
}

/// Views of a list of database writes.
pub open spec fn ops_view(v: Seq<StorageOp>) -> Seq<StorageOpView> {
    v.map_values(|o: StorageOp| o@)
}

/// Appending a write appends its view.
pub proof fn lemma_ops_view_push(s: Seq<StorageOp>, o: StorageOp)
    ensures
        ops_view(s.push(o)) == ops_view(s).push(o@),
{
    assert(ops_view(s.push(o)) =~= ops_view(s).push(o@));
}

} // verus!
