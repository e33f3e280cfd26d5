//! What an incoming message asks for, and what the binding does about it.
use vstd::prelude::*;
use crate::channel::message::IncomingMessage;
use crate::session::thread::ThreadState;
use crate::text::{eq_ignore_ascii_case, eq_ignore_ascii_case_seq, starts_with, starts_with_seq, trim, trim_seq};

verus! {

/// What an incoming message asks for.
#[derive(Debug, Clone, Copy, PartialEq, Eq, Structural)]
pub enum Intent {
    UserInput,
    ApprovalAccept,
    ApprovalReject,
    ApprovalAlways,
    Interrupt,
}

/// The intent of a message with content `content`: once trimmed, `yes`/`y`
/// accepts, `no`/`n` rejects, `always`/`a` accepts for good (each without
/// regard to ASCII case); a leading `/stop` or `/interrupt` interrupts;
/// anything else is input.
pub open spec fn intent_of(content: Seq<char>) -> Intent {
    let c = trim_seq(content);
    if eq_ignore_ascii_case_seq(c, "yes"@) || eq_ignore_ascii_case_seq(c, "y"@) {
        Intent::ApprovalAccept
    } else if eq_ignore_ascii_case_seq(c, "no"@) || eq_ignore_ascii_case_seq(c, "n"@) {
        Intent::ApprovalReject
    } else if eq_ignore_ascii_case_seq(c, "always"@) || eq_ignore_ascii_case_seq(c, "a"@) {
        Intent::ApprovalAlways
    } else if starts_with_seq(c, "/stop"@) || starts_with_seq(c, "/interrupt"@) {
        Intent::Interrupt
    } else {
        Intent::UserInput
    }
}

impl Intent {
    /// The intent of `message` (see `intent_of`).
    pub fn parse(message: &IncomingMessage) -> (i: Self)
        ensures
            i == intent_of(message.content@),
    {
        let content = trim(message.content.as_str());
        if eq_ignore_ascii_case(content, "yes") || eq_ignore_ascii_case(content, "y") {
            return Intent::ApprovalAccept;
        }
        if eq_ignore_ascii_case(content, "no") || eq_ignore_ascii_case(content, "n") {
            return Intent::ApprovalReject;
        }
        if eq_ignore_ascii_case(content, "always") || eq_ignore_ascii_case(content, "a") {
            return Intent::ApprovalAlways;
        }
        if starts_with(content, "/stop") || starts_with(content, "/interrupt") {
            return Intent::Interrupt;
        }
        Intent::UserInput
    }
}

/// What the binding does with a message, given its intent and the state of
/// its thread.
#[derive(Debug, Clone, Copy, PartialEq, Eq, Structural)]
pub enum Dispatch {
    /// Start a turn with the message and run the loop.
    StartTurn,
    /// Interrupt the turn waiting for approval, then start a turn with the message.
    InterruptAndStartTurn,
    /// Approve the pending tools (for good when `always`) and run the loop again.
    Approve { always: bool },
    /// Reject the pending tools: the turn fails.
    Reject,
    /// Interrupt the thread.
    Interrupt,
    /// Nothing to do.
    Ignore,
}

/// The dispatch of a message: input starts a turn on an idle thread, and
/// interrupts the wait of a thread awaiting approval first; approval replies
/// act on a thread awaiting approval only; an interrupt acts in any state;
/// anything else is ignored.
pub open spec fn dispatch_of(intent: Intent, state: ThreadState) -> Dispatch {
    match (intent, state) {
        (Intent::UserInput, ThreadState::Idle) => Dispatch::StartTurn,
        (Intent::UserInput, ThreadState::AwaitingApproval) => Dispatch::InterruptAndStartTurn,
        (Intent::ApprovalAccept, ThreadState::AwaitingApproval) => Dispatch::Approve { always: false },
        (Intent::ApprovalAlways, ThreadState::AwaitingApproval) => Dispatch::Approve { always: true },
        (Intent::ApprovalReject, ThreadState::AwaitingApproval) => Dispatch::Reject,
        (Intent::Interrupt, _) => Dispatch::Interrupt,
        _ => Dispatch::Ignore,
    }
}

/// The dispatch of a message (see `dispatch_of`).
pub fn dispatch(intent: Intent, state: ThreadState) -> (d: Dispatch)
    ensures
        d == dispatch_of(intent, state),
{
    match (intent, state) {
        (Intent::UserInput, ThreadState::Idle) => Dispatch::StartTurn,
        (Intent::UserInput, ThreadState::AwaitingApproval) => Dispatch::InterruptAndStartTurn,
        (Intent::ApprovalAccept, ThreadState::AwaitingApproval) => Dispatch::Approve { always: false },
        (Intent::ApprovalAlways, ThreadState::AwaitingApproval) => Dispatch::Approve { always: true },
        (Intent::ApprovalReject, ThreadState::AwaitingApproval) => Dispatch::Reject,
        (Intent::Interrupt, _) => Dispatch::Interrupt,
        _ => Dispatch::Ignore,
    }
}

/// Law: an approval reply acts only on a thread awaiting approval; on a
/// thread in any other state it is ignored.
pub proof fn law_approval_needs_waiting_thread(intent: Intent, state: ThreadState)
    requires
        intent == Intent::ApprovalAccept || intent == Intent::ApprovalReject || intent == Intent::ApprovalAlways,
        state != ThreadState::AwaitingApproval,
    ensures
        dispatch_of(intent, state) == Dispatch::Ignore,
{
}

/// Law: an interrupt acts whatever the state of the thread.
pub proof fn law_interrupt_in_any_state(state: ThreadState)
    ensures
        dispatch_of(Intent::Interrupt, state) == Dispatch::Interrupt,
{
}

} // verus!
