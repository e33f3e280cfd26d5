//! Tool calls waiting for the user's approval.
use vstd::prelude::*;
use crate::message::{ChatMessage, ChatMessageView, clone_messages, clone_opt_string, messages_view};

verus! {

/// Pending tool approval request stored on a thread. `parameters` and
/// `display_parameters` are JSON documents.
#[derive(Debug)]
pub struct PendingApproval {
    pub auto_approved: bool,
    /// Unique request ID.
    pub request_id: u128,
    /// Tool name requiring approval.
    pub tool_name: String,
    /// Tool parameters (original values, used for execution).
    pub parameters: String,
    /// Redacted tool parameters, for display.
    pub display_parameters: String,
    /// Description of what the tool will do.
    pub description: String,
    /// Tool call ID from the model.
    pub tool_call_id: String,
    /// Context messages at the time of the request.
    pub context_messages: Vec<ChatMessage>,
    /// User timezone at the time the approval was requested.
    pub user_timezone: Option<String>,
}

pub struct PendingApprovalView {
    pub auto_approved: bool,
    pub request_id: u128,
    pub tool_name: Seq<char>,
    pub parameters: Seq<char>,
    pub display_parameters: Seq<char>,
    pub description: Seq<char>,
    pub tool_call_id: Seq<char>,
    pub context_messages: Seq<ChatMessageView>,
    pub user_timezone: Option<Seq<char>>,
}

impl View for PendingApproval {
    type V = PendingApprovalView;

    open spec fn view(&self) -> PendingApprovalView {
        PendingApprovalView {
            auto_approved: self.auto_approved,
            request_id: self.request_id,
            tool_name: self.tool_name@,
            parameters: self.parameters@,
            display_parameters: self.display_parameters@,
            description: self.description@,
            tool_call_id: self.tool_call_id@,
            context_messages: messages_view(self.context_messages@),
            user_timezone: self.user_timezone.deep_view(),
        }
    }
}

impl Clone for PendingApproval {
    fn clone(&self) -> (r: Self)
        ensures
            r@ == self@,
    {
        PendingApproval {
            auto_approved: self.auto_approved,
            request_id: self.request_id,
            tool_name: self.tool_name.clone(),
            parameters: self.parameters.clone(),
            display_parameters: self.display_parameters.clone(),
            description: self.description.clone(),
            tool_call_id: self.tool_call_id.clone(),
            context_messages: clone_messages(&self.context_messages),
            user_timezone: clone_opt_string(&self.user_timezone),
        }
    }
}

/// Views of a list of approvals.
pub open spec fn approvals_view(v: Seq<PendingApproval>) -> Seq<PendingApprovalView> {
    v.map_values(|a: PendingApproval| a@)
}

/// A copy of a list of approvals.
pub fn clone_approvals(v: &Vec<PendingApproval>) -> (r: Vec<PendingApproval>)
    ensures
        approvals_view(r@) == approvals_view(v@),
{
    let mut r: Vec<PendingApproval> = Vec::new();
    for i in 0..v.len()
        invariant
            r@.len() == i,
            forall|j: int| 0 <= j < i ==> (#[trigger] r@[j])@ == v@[j]@,
    {
        let x = v[i].clone();
        r.push(x);
    }
    proof {
        assert(approvals_view(r@) =~= approvals_view(v@));
    }
    r
}

} // verus!
