//! Which tool calls of a reply run at once, and which wait for the user.
use vstd::prelude::*;
use crate::ext::new_uuid;
use crate::message::{ChatMessage, ToolCall, ToolCallView, messages_view, tool_calls_view};
use crate::session::approval::{PendingApproval, PendingApprovalView, approvals_view};
use crate::session::thread::json_null;
use crate::text::contains_str;

verus! {

/// Whether a tool call needs the user's approval.
#[derive(Debug, Clone, Copy, PartialEq, Eq, Structural)]
pub enum ApprovalRequirement {
    /// It runs at once.
    Never,
    /// It waits for approval unless the session auto-approves the tool.
    UnlessAutoApproved,
    /// It always waits for approval.
    Always,
}

/// What the binding learns of the tool that a call names: its description,
/// and whether this call needs approval.
#[derive(Debug)]
pub struct ToolCheck {
    pub description: String,
    pub requirement: ApprovalRequirement,
}

pub struct ToolCheckView {
    pub description: Seq<char>,
    pub requirement: ApprovalRequirement,
}

impl View for ToolCheck {
    type V = ToolCheckView;

    open spec fn view(&self) -> ToolCheckView {
        ToolCheckView { description: self.description@, requirement: self.requirement }
    }
}

/// Views of the checks of the calls of a reply (`None` where no tool has the
/// call's name).
pub open spec fn checks_view(v: Seq<Option<ToolCheck>>) -> Seq<Option<ToolCheckView>> {
    v.map_values(|c: Option<ToolCheck>| match c {
        Some(k) => Some(k@),
        None => None,
    })
}

/// The calls whose tool was found, each with its check, in order.
pub open spec fn found_calls(calls: Seq<ToolCallView>, checks: Seq<Option<ToolCheckView>>) -> Seq<(ToolCallView, ToolCheckView)>
    decreases calls.len(),
{
    if calls.len() == 0 || checks.len() == 0 {
        Seq::empty()
    } else {
        let rest = found_calls(calls.drop_last(), checks.drop_last());
        match checks.last() {
            Some(k) => rest.push((calls.last(), k)),
            None => rest,
        }
    }
}

/// A call runs without asking when its tool never needs approval, or needs
/// it unless auto-approved and the session auto-approves it.
pub open spec fn runs_unasked(req: ApprovalRequirement, auto_approved_tools: Seq<Seq<char>>, name: Seq<char>) -> bool {
    match req {
        ApprovalRequirement::Never => true,
        ApprovalRequirement::UnlessAutoApproved => auto_approved_tools.contains(name),
        ApprovalRequirement::Always => false,
    }
}

/// The approval request for `call` of a found tool, with identifier `request_id`.
pub open spec fn approval_for(
    call: ToolCallView,
    check: ToolCheckView,
    auto_approved_tools: Seq<Seq<char>>,
    user_tz: Seq<char>,
    request_id: u128,
) -> PendingApprovalView {
    PendingApprovalView {
        auto_approved: runs_unasked(check.requirement, auto_approved_tools, call.name),
        request_id,
        tool_name: call.name,
        parameters: call.arguments,
        display_parameters: json_null(),
        description: check.description,
        tool_call_id: call.id,
        context_messages: Seq::empty(),
        user_timezone: Some(user_tz),
    }
}

/// `r` holds one approval request per call of a found tool, in order (see
/// `approval_for`), each with its own request identifier.
pub open spec fn prepared(
    r: Seq<PendingApprovalView>,
    calls: Seq<ToolCallView>,
    checks: Seq<Option<ToolCheckView>>,
    auto_approved_tools: Seq<Seq<char>>,
    user_tz: Seq<char>,
) -> bool {
    let found = found_calls(calls, checks);
    &&& r.len() == found.len()
    &&& forall|i: int|
        0 <= i < r.len() ==> #[trigger] r[i] == approval_for(found[i].0, found[i].1, auto_approved_tools, user_tz, r[i].request_id)
}

/// The approval requests for the tool calls `calls` of a reply, given the
/// check of each call's tool (`checks`, in the same order), the tools that
/// the session auto-approves and the user's time zone (see `prepared`).
/// Calls of tools that were not found are left out; each request gets a
/// fresh identifier.
pub fn prepare_tool_approvals(
    calls: &Vec<ToolCall>,
    checks: &Vec<Option<ToolCheck>>,
    auto_approved_tools: &Vec<String>,
    user_tz: &str,
) -> (r: Vec<PendingApproval>)
    requires
        checks@.len() == calls@.len(),
    ensures
        prepared(
            approvals_view(r@),
            tool_calls_view(calls@),
            checks_view(checks@),
            auto_approved_tools.deep_view(),
            user_tz@,
        ),
{
    let ghost cs = tool_calls_view(calls@);
    let ghost ks = checks_view(checks@);
    let ghost auto = auto_approved_tools.deep_view();
    let mut r: Vec<PendingApproval> = Vec::new();
    let mut i: usize = 0;
    proof {
        assert(found_calls(cs.take(0), ks.take(0)) =~= Seq::empty());
    }
    while i < calls.len()
        invariant
            cs == tool_calls_view(calls@),
            ks == checks_view(checks@),
            auto == auto_approved_tools.deep_view(),
            checks@.len() == calls@.len(),
            i <= calls@.len(),
            prepared(approvals_view(r@), cs.take(i as int), ks.take(i as int), auto, user_tz@),
        decreases calls@.len() - i,
    {
        let ghost found0 = found_calls(cs.take(i as int), ks.take(i as int));
        proof {
            assert(cs.take(i + 1).drop_last() =~= cs.take(i as int));
            assert(ks.take(i + 1).drop_last() =~= ks.take(i as int));
            assert(cs.take(i + 1).last() == cs[i as int]);
            assert(ks.take(i + 1).last() == ks[i as int]);
        }
        match &checks[i] {
            Some(k) => {
                let tc = &calls[i];
                let auto_approved = match k.requirement {
                    ApprovalRequirement::Never => true,
                    ApprovalRequirement::UnlessAutoApproved => contains_str(auto_approved_tools, tc.name.as_str()),
                    ApprovalRequirement::Always => false,
                };
                let context: Vec<ChatMessage> = Vec::new();
                let a = PendingApproval {
                    auto_approved,
                    request_id: new_uuid(),
                    tool_name: tc.name.clone(),
                    parameters: tc.arguments.clone(),
                    display_parameters: "null".to_owned(),
                    description: k.description.clone(),
                    tool_call_id: tc.id.clone(),
                    context_messages: context,
                    user_timezone: Some(user_tz.to_owned()),
                };
                let ghost r0 = approvals_view(r@);
                proof {
                    reveal_strlit("null");
                    assert(messages_view(context@) =~= Seq::empty());
                    assert(ks[i as int] == Some(k@));
                    assert(a@ == approval_for(cs[i as int], k@, auto, user_tz@, a.request_id));
                }
                r.push(a);
                proof {
                    assert(approvals_view(r@) =~= r0.push(a@));
                    let found = found_calls(cs.take(i + 1), ks.take(i + 1));
                    assert(found == found0.push((cs[i as int], k@)));
                    assert forall|j: int| 0 <= j < approvals_view(r@).len() implies #[trigger] approvals_view(r@)[j] == approval_for(
                        found[j].0,
                        found[j].1,
                        auto,
                        user_tz@,
                        approvals_view(r@)[j].request_id,
                    ) by {
                        if j < r0.len() {
                            assert(approvals_view(r@)[j] == r0[j]);
                            assert(found[j] == found0[j]);
                        }
                    }
                }
            },
            None => {
                proof {
                    assert(ks[i as int] is None);
                }
            },
        }
        i = i + 1;
    }
    proof {
        assert(cs.take(calls@.len() as int) =~= cs);
        assert(ks.take(calls@.len() as int) =~= ks);
    }
    r
}

/// Law: a call of a tool that always needs approval is never run without
/// asking, whatever the session auto-approves.
pub proof fn law_always_asks(auto_approved_tools: Seq<Seq<char>>, name: Seq<char>)
    ensures
        !runs_unasked(ApprovalRequirement::Always, auto_approved_tools, name),
{
}

} // verus!
