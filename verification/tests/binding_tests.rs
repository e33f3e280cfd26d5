use xclaw::binding::approvals::{ApprovalRequirement, ToolCheck, prepare_tool_approvals};
use xclaw::binding::driver::{Action, Binding, Event, ReasoningPiece, StreamPart};
use xclaw::binding::intent::{Dispatch, Intent, dispatch};
use xclaw::binding::prompt::build_system_prompt;
use xclaw::channel::message::IncomingMessage;
use xclaw::llm::response::{AssistantPart, FinishReason, LLMResponse};
use xclaw::message::ToolCall;
use xclaw::session::manager::SessionManager;
use xclaw::session::thread::ThreadState;
use xclaw::session::turn::TurnState;
use xclaw::storage::ops::StorageOp;

const B: &str = "main@websocket";

fn msg(content: &str) -> IncomingMessage {
    IncomingMessage {
        id: 1,
        external_id: None,
        channel: "websocket".to_string(),
        user_id: "u1".to_string(),
        user_name: None,
        content: content.to_string(),
        thread_id: None,
        received_at: 0,
        metadata: "null".to_string(),
        timezone: None,
        attachments: vec![],
    }
}

fn text_reply(t: &str) -> LLMResponse {
    LLMResponse::new(vec![AssistantPart::Text(t.to_string())])
}

fn tool_reply(name: &str) -> LLMResponse {
    LLMResponse::new(vec![AssistantPart::ToolCall(ToolCall {
        id: "call_1".to_string(),
        name: name.to_string(),
        arguments: "{\"path\":\"a.txt\"}".to_string(),
    })])
}

fn start(b: &mut Binding, sm: &mut SessionManager, content: &str) -> u128 {
    match b.handle_message(sm, &msg(content)) {
        Action::CallModel { thread_id } => thread_id,
        other => panic!("unexpected {:?}", other),
    }
}

#[test]
fn intent_parse() {
    assert!(matches!(Intent::parse(&msg("yes")), Intent::ApprovalAccept));
    assert!(matches!(Intent::parse(&msg(" Y ")), Intent::ApprovalAccept));
    assert!(matches!(Intent::parse(&msg("No")), Intent::ApprovalReject));
    assert!(matches!(Intent::parse(&msg("n")), Intent::ApprovalReject));
    assert!(matches!(Intent::parse(&msg("ALWAYS")), Intent::ApprovalAlways));
    assert!(matches!(Intent::parse(&msg("a")), Intent::ApprovalAlways));
    assert!(matches!(Intent::parse(&msg("/stop")), Intent::Interrupt));
    assert!(matches!(Intent::parse(&msg("  /interrupt please")), Intent::Interrupt));
    assert!(matches!(Intent::parse(&msg("yes please")), Intent::UserInput));
    assert!(matches!(Intent::parse(&msg("stop")), Intent::UserInput));
    assert!(matches!(Intent::parse(&msg("")), Intent::UserInput));
}

#[test]
fn dispatch_table() {
    assert_eq!(dispatch(Intent::UserInput, ThreadState::Idle), Dispatch::StartTurn);
    assert_eq!(dispatch(Intent::UserInput, ThreadState::AwaitingApproval), Dispatch::InterruptAndStartTurn);
    assert_eq!(dispatch(Intent::UserInput, ThreadState::Processing), Dispatch::Ignore);
    assert_eq!(dispatch(Intent::ApprovalAccept, ThreadState::AwaitingApproval), Dispatch::Approve { always: false });
    assert_eq!(dispatch(Intent::ApprovalAlways, ThreadState::AwaitingApproval), Dispatch::Approve { always: true });
    assert_eq!(dispatch(Intent::ApprovalReject, ThreadState::AwaitingApproval), Dispatch::Reject);
    assert_eq!(dispatch(Intent::ApprovalAccept, ThreadState::Idle), Dispatch::Ignore);
    assert_eq!(dispatch(Intent::ApprovalReject, ThreadState::Interrupted), Dispatch::Ignore);
    for s in [ThreadState::Idle, ThreadState::Processing, ThreadState::AwaitingApproval, ThreadState::Completed, ThreadState::Interrupted] {
        assert_eq!(dispatch(Intent::Interrupt, s), Dispatch::Interrupt);
    }
}

#[test]
fn a_message_is_answered() {
    let mut sm = SessionManager::new();
    let mut b = Binding::new(B, "UTC", 5);
    let t = start(&mut b, &mut sm, "hello");
    assert!(matches!(b.step(&mut sm, Event::Replied(text_reply("hi there"))), Action::Done));
    let th = sm.thread_ref(B, t).unwrap();
    assert_eq!(th.state, ThreadState::Idle);
    assert_eq!(th.turns.len(), 1);
    assert_eq!(th.turns[0].state, TurnState::Completed);
    assert_eq!(th.turns[0].response.as_deref(), Some("hi there"));
    assert_eq!(th.turns[0].current_tool_iterations, 0);
}

#[test]
fn tools_needing_approval_make_the_thread_wait() {
    let mut sm = SessionManager::new();
    let mut b = Binding::new(B, "Asia/Shanghai", 5);
    let t = start(&mut b, &mut sm, "read a.txt");
    match b.step(&mut sm, Event::Replied(tool_reply("file_read"))) {
        Action::CheckTools { calls } => assert_eq!(calls[0].name, "file_read"),
        other => panic!("unexpected {:?}", other),
    }
    let check = ToolCheck { description: "Read a file".to_string(), requirement: ApprovalRequirement::Always };
    match b.step(&mut sm, Event::Checked(vec![Some(check)])) {
        Action::WriteApprovals { thread_id } => assert_eq!(thread_id, t),
        other => panic!("unexpected {:?}", other),
    }
    {
        let th = sm.thread_ref(B, t).unwrap();
        assert_eq!(th.state, ThreadState::AwaitingApproval);
        assert_eq!(th.pending_approvals.len(), 1);
        let a = &th.pending_approvals[0];
        assert!(!a.auto_approved);
        assert_eq!(a.tool_name, "file_read");
        assert_eq!(a.parameters, "{\"path\":\"a.txt\"}");
        assert_eq!(a.description, "Read a file");
        assert_eq!(a.tool_call_id, "call_1");
        assert_eq!(a.display_parameters, "null");
        assert_eq!(a.user_timezone.as_deref(), Some("Asia/Shanghai"));
    }
    assert!(matches!(b.step(&mut sm, Event::ApprovalsText("[]".to_string())), Action::Done));
    // Approving takes the approvals and runs the approved tools first, on the same turn.
    match b.handle_message(&mut sm, &msg("yes")) {
        Action::FindTool { name } => assert_eq!(name, "file_read"),
        other => panic!("unexpected {:?}", other),
    }
    {
        let th = sm.thread_ref(B, t).unwrap();
        assert_eq!(th.turns.len(), 1);
        assert_eq!(th.state, ThreadState::Processing);
        assert!(th.pending_approvals.is_empty());
    }
    assert!(matches!(b.step(&mut sm, Event::ToolFound(true)), Action::RunTool { .. }));
    // Then the loop goes on.
    match b.step(&mut sm, Event::ToolDone(Ok("a".to_string()))) {
        Action::CallModel { thread_id } => assert_eq!(thread_id, t),
        other => panic!("unexpected {:?}", other),
    }
    assert_eq!(sm.thread_ref(B, t).unwrap().turns[0].tool_calls[0].result.as_deref(), Some("\"a\""));
    assert!(matches!(b.step(&mut sm, Event::Replied(text_reply("done"))), Action::Done));
    let th = sm.thread_ref(B, t).unwrap();
    assert_eq!(th.turns.len(), 1);
    assert_eq!(th.state, ThreadState::Idle);
}

#[test]
fn rejecting_fails_the_turn() {
    let mut sm = SessionManager::new();
    let mut b = Binding::new(B, "UTC", 5);
    let t = start(&mut b, &mut sm, "read");
    b.step(&mut sm, Event::Replied(tool_reply("file_read")));
    let check = ToolCheck { description: "d".to_string(), requirement: ApprovalRequirement::UnlessAutoApproved };
    b.step(&mut sm, Event::Checked(vec![Some(check)]));
    b.step(&mut sm, Event::ApprovalsText("[]".to_string()));
    match b.handle_message(&mut sm, &msg("no")) {
        Action::Report { thread, text } => {
            assert_eq!(thread, uuid::Uuid::from_u128(t).to_string());
            assert_eq!(text, "❌ Rejected");
        },
        other => panic!("unexpected {:?}", other),
    }
    {
        let th = sm.thread_ref(B, t).unwrap();
        assert_eq!(th.turns.len(), 1);
        assert_eq!(th.state, ThreadState::Idle);
        assert!(th.pending_approvals.is_empty());
        assert_eq!(th.turns[0].state, TurnState::Failed);
        assert_eq!(th.turns[0].error.as_deref(), Some("Tool approval rejected"));
    }
    assert!(matches!(b.step(&mut sm, Event::Reported), Action::Done));
}

#[test]
fn always_approves_the_tools_for_the_session() {
    let mut sm = SessionManager::new();
    let mut b = Binding::new(B, "UTC", 5);
    start(&mut b, &mut sm, "read");
    b.step(&mut sm, Event::Replied(tool_reply("file_read")));
    let check = ToolCheck { description: "d".to_string(), requirement: ApprovalRequirement::UnlessAutoApproved };
    b.step(&mut sm, Event::Checked(vec![Some(check)]));
    b.step(&mut sm, Event::ApprovalsText("[]".to_string()));
    match b.handle_message(&mut sm, &msg("always")) {
        Action::FindTool { name } => assert_eq!(name, "file_read"),
        other => panic!("unexpected {:?}", other),
    }
    assert_eq!(sm.auto_approved_tools_of(B), vec!["file_read".to_string()]);
}

#[test]
fn auto_approved_tools_run_at_once() {
    let mut sm = SessionManager::new();
    let mut b = Binding::new(B, "UTC", 5);
    let t = start(&mut b, &mut sm, "read");
    b.step(&mut sm, Event::Replied(tool_reply("file_read")));
    let check = ToolCheck { description: "d".to_string(), requirement: ApprovalRequirement::Never };
    match b.step(&mut sm, Event::Checked(vec![Some(check)])) {
        Action::FindTool { name } => assert_eq!(name, "file_read"),
        other => panic!("unexpected {:?}", other),
    }
    match b.step(&mut sm, Event::ToolFound(true)) {
        Action::RunTool { name, parameters } => {
            assert_eq!(name, "file_read");
            assert_eq!(parameters, "{\"path\":\"a.txt\"}");
        },
        other => panic!("unexpected {:?}", other),
    }
    // After the last tool the loop begins again.
    assert!(matches!(b.step(&mut sm, Event::ToolDone(Ok("contents".to_string()))), Action::CallModel { .. }));
    {
        let th = sm.thread_ref(B, t).unwrap();
        assert_eq!(th.turns[0].tool_calls.len(), 1);
        assert_eq!(th.turns[0].tool_calls[0].name, "file_read");
        assert_eq!(th.turns[0].tool_calls[0].result.as_deref(), Some("\"contents\""));
    }
    assert!(matches!(b.step(&mut sm, Event::Replied(text_reply("final"))), Action::Done));
    let th = sm.thread_ref(B, t).unwrap();
    assert_eq!(th.turns[0].response.as_deref(), Some("final"));
}

#[test]
fn tool_errors_are_recorded() {
    let mut sm = SessionManager::new();
    let mut b = Binding::new(B, "UTC", 5);
    let t = start(&mut b, &mut sm, "read");
    b.step(&mut sm, Event::Replied(tool_reply("file_read")));
    let check = ToolCheck { description: "d".to_string(), requirement: ApprovalRequirement::Never };
    b.step(&mut sm, Event::Checked(vec![Some(check)]));
    b.step(&mut sm, Event::ToolFound(true));
    assert!(matches!(b.step(&mut sm, Event::ToolDone(Err("no such file".to_string()))), Action::CallModel { .. }));
    let th = sm.thread_ref(B, t).unwrap();
    assert_eq!(th.turns[0].tool_calls[0].error.as_deref(), Some("no such file"));
}

#[test]
fn an_approved_tool_that_is_gone_ends_the_run() {
    let mut sm = SessionManager::new();
    let mut b = Binding::new(B, "UTC", 5);
    let t = start(&mut b, &mut sm, "read");
    b.step(&mut sm, Event::Replied(tool_reply("file_read")));
    let check = ToolCheck { description: "d".to_string(), requirement: ApprovalRequirement::Never };
    b.step(&mut sm, Event::Checked(vec![Some(check)]));
    match b.step(&mut sm, Event::ToolFound(false)) {
        Action::Report { text, .. } => assert_eq!(text, "Tool not found"),
        other => panic!("unexpected {:?}", other),
    }
    let th = sm.thread_ref(B, t).unwrap();
    assert_eq!(th.turns[0].state, TurnState::Failed);
    assert_eq!(th.turns[0].error.as_deref(), Some("Tool not found"));
    assert_eq!(th.turns[0].tool_calls.len(), 0);
    assert!(matches!(b.step(&mut sm, Event::Reported), Action::Done));
}

#[test]
fn missing_tools_are_skipped() {
    let mut sm = SessionManager::new();
    let mut b = Binding::new(B, "UTC", 5);
    let t = start(&mut b, &mut sm, "read");
    b.step(&mut sm, Event::Replied(tool_reply("file_read")));
    // No tool found for the call: no approval, the loop begins again.
    assert!(matches!(b.step(&mut sm, Event::Checked(vec![None])), Action::CallModel { .. }));
    assert_eq!(sm.thread_ref(B, t).unwrap().turns[0].tool_calls.len(), 0);
}

#[test]
fn the_loop_stops_at_the_bound() {
    let mut sm = SessionManager::new();
    let mut b = Binding::new(B, "UTC", 2);
    let t = start(&mut b, &mut sm, "think");
    let thinking = LLMResponse::new(vec![AssistantPart::Reasoning("hmm".to_string())]);
    assert_eq!(thinking.finish_reason, FinishReason::Reasoning);
    assert!(matches!(b.step(&mut sm, Event::Replied(thinking)), Action::CallModel { .. }));
    assert_eq!(sm.thread_ref(B, t).unwrap().turns[0].current_tool_iterations, 1);
    let thinking = LLMResponse::new(vec![AssistantPart::Reasoning("more".to_string())]);
    match b.step(&mut sm, Event::Replied(thinking)) {
        Action::Report { text, .. } => assert_eq!(text, "⚠️ Max tool iterations reached"),
        other => panic!("unexpected {:?}", other),
    }
    assert!(matches!(b.step(&mut sm, Event::Reported), Action::Done));
    let th = sm.thread_ref(B, t).unwrap();
    assert_eq!(th.turns[0].state, TurnState::Failed);
    assert_eq!(th.turns[0].error.as_deref(), Some("Max iterations reached"));
}

#[test]
fn model_errors_are_reported() {
    let mut sm = SessionManager::new();
    let mut b = Binding::new(B, "UTC", 5);
    let t = start(&mut b, &mut sm, "hello");
    match b.step(&mut sm, Event::ModelFailed("boom".to_string())) {
        Action::Report { thread, text } => {
            assert_eq!(thread, uuid::Uuid::from_u128(t).to_string());
            assert_eq!(text, "boom");
        },
        other => panic!("unexpected {:?}", other),
    }
    assert!(matches!(b.step(&mut sm, Event::Reported), Action::Done));
    let th = sm.thread_ref(B, t).unwrap();
    assert_eq!(th.turns[0].error.as_deref(), Some("boom"));
}

#[test]
fn filtered_replies_are_errors() {
    let mut sm = SessionManager::new();
    let mut b = Binding::new(B, "UTC", 5);
    let mut m = msg("hello");
    m.thread_id = Some("ext-9".to_string());
    assert!(matches!(b.handle_message(&mut sm, &m), Action::CallModel { .. }));
    let mut r = text_reply("x");
    r.finish_reason = FinishReason::ContentFilter;
    match b.step(&mut sm, Event::Replied(r)) {
        Action::Report { thread, text } => {
            assert_eq!(thread, "ext-9");
            assert_eq!(text, "LLM error: ContentFilter");
        },
        other => panic!("unexpected {:?}", other),
    }
}

#[test]
fn interrupt_and_ignored_messages() {
    let mut sm = SessionManager::new();
    let mut b = Binding::new(B, "UTC", 5);
    let t = start(&mut b, &mut sm, "hello");
    // Input while the thread is processing is ignored.
    assert!(matches!(b.handle_message(&mut sm, &msg("more")), Action::Done));
    assert_eq!(sm.thread_ref(B, t).unwrap().turns.len(), 1);
    match b.handle_message(&mut sm, &msg("/stop")) {
        Action::Report { thread, text } => {
            assert_eq!(thread, uuid::Uuid::from_u128(t).to_string());
            assert_eq!(text, "⏸️ Interrupted");
        },
        other => panic!("unexpected {:?}", other),
    }
    assert!(matches!(b.step(&mut sm, Event::Reported), Action::Done));
    let th = sm.thread_ref(B, t).unwrap();
    assert_eq!(th.state, ThreadState::Interrupted);
    assert_eq!(th.turns[0].state, TurnState::Interrupted);
    // An approval reply on a thread that waits for none is ignored.
    assert!(matches!(b.handle_message(&mut sm, &msg("yes")), Action::Done));
}

#[test]
fn unexpected_events_are_ignored() {
    let mut sm = SessionManager::new();
    let mut b = Binding::new(B, "UTC", 5);
    assert!(matches!(b.step(&mut sm, Event::Reported), Action::Ignored));
    start(&mut b, &mut sm, "hello");
    assert!(matches!(b.step(&mut sm, Event::ToolFound(true)), Action::Ignored));
    assert!(matches!(b.step(&mut sm, Event::Replied(text_reply("ok"))), Action::Done));
}

#[test]
fn streamed_parts() {
    let mut sm = SessionManager::new();
    let mut b = Binding::new(B, "UTC", 5);
    let t = start(&mut b, &mut sm, "hello");
    b.on_draft(&mut sm, t, Some("draft-1".to_string()));
    let chunks = b.on_stream_part(&mut sm, t, StreamPart::Text("Hi".to_string()));
    assert_eq!(chunks, vec!["Hi".to_string()]);
    let chunks = b.on_stream_part(
        &mut sm,
        t,
        StreamPart::Reasoning(vec![
            ReasoningPiece::Text("a".to_string()),
            ReasoningPiece::Hidden,
            ReasoningPiece::Summary("b".to_string()),
        ]),
    );
    assert_eq!(chunks, vec!["<think>\na\n</think>\n\n".to_string(), "<think>\nb\n</think>\n\n".to_string()]);
    assert!(b.on_stream_part(&mut sm, t, StreamPart::Other).is_empty());
    let th = sm.thread_ref(B, t).unwrap();
    assert_eq!(th.turns[0].thinking.as_deref(), Some("ab"));
    assert_eq!(th.turns[0].draft_message_id.as_deref(), Some("draft-1"));
}

#[test]
fn approvals_of_found_tools() {
    let calls = vec![
        ToolCall { id: "1".to_string(), name: "a".to_string(), arguments: "{}".to_string() },
        ToolCall { id: "2".to_string(), name: "b".to_string(), arguments: "{}".to_string() },
        ToolCall { id: "3".to_string(), name: "c".to_string(), arguments: "{}".to_string() },
    ];
    let checks = vec![
        Some(ToolCheck { description: "A".to_string(), requirement: ApprovalRequirement::UnlessAutoApproved }),
        None,
        Some(ToolCheck { description: "C".to_string(), requirement: ApprovalRequirement::UnlessAutoApproved }),
    ];
    let auto = vec!["c".to_string()];
    let r = prepare_tool_approvals(&calls, &checks, &auto, "UTC");
    assert_eq!(r.len(), 2);
    assert_eq!(r[0].tool_name, "a");
    assert!(!r[0].auto_approved);
    assert_eq!(r[1].tool_name, "c");
    assert!(r[1].auto_approved);
    assert_ne!(r[0].request_id, r[1].request_id);
}

#[test]
fn system_prompt_sections() {
    let p = build_system_prompt(Some("be kind"), None, Some(""), Some("xclaw"));
    assert!(p.starts_with("You are xclaw Agent, a best general assistant.\n## Safety\n"));
    assert!(p.ends_with("explicitly requested by the user.\n## Agent Instructions\n\nbe kind\n## Identity\n\nxclaw"));
    let bare = build_system_prompt(None, None, None, None);
    assert!(bare.ends_with("unless explicitly requested by the user.\n"));
}

#[test]
fn written_approvals_are_queued_for_the_database() {
    let mut sm = SessionManager::from_loaded(vec![]);
    let mut b = Binding::new(B, "UTC", 5);
    let t = start(&mut b, &mut sm, "read a.txt");
    b.step(&mut sm, Event::Replied(tool_reply("file_read")));
    let check = ToolCheck { description: "Read a file".to_string(), requirement: ApprovalRequirement::Always };
    assert!(matches!(b.step(&mut sm, Event::Checked(vec![Some(check)])), Action::WriteApprovals { .. }));
    sm.take_storage_ops();
    assert!(matches!(b.step(&mut sm, Event::ApprovalsText("[{\"tool_name\":\"file_read\"}]".to_string())), Action::Done));
    let ops = sm.take_storage_ops();
    assert_eq!(ops.len(), 1);
    match &ops[0] {
        StorageOp::UpdateThreadPendingApprovals { thread_id, state, pending_approvals, .. } => {
            assert_eq!(thread_id, &uuid::Uuid::from_u128(t).to_string());
            assert_eq!(state, "AwaitingApproval");
            assert_eq!(pending_approvals, "[{\"tool_name\":\"file_read\"}]");
        },
        other => panic!("unexpected {:?}", other),
    }
    assert_eq!(sm.thread_ref(B, t).unwrap().state, ThreadState::AwaitingApproval);
}

#[test]
fn a_yes_to_an_idle_thread_does_nothing() {
    let mut sm = SessionManager::new();
    let mut b = Binding::new(B, "UTC", 5);
    let t = start(&mut b, &mut sm, "hello");
    b.step(&mut sm, Event::Replied(text_reply("hi")));
    assert!(matches!(b.handle_message(&mut sm, &msg("yes")), Action::Done));
    let th = sm.thread_ref(B, t).unwrap();
    assert_eq!(th.state, ThreadState::Idle);
    assert_eq!(th.turns.len(), 1);
    assert!(th.pending_approvals.is_empty());
}

#[test]
fn tools_that_run_at_once_use_up_iterations() {
    let mut sm = SessionManager::new();
    let mut b = Binding::new(B, "UTC", 3);
    let t = start(&mut b, &mut sm, "read again and again");
    let mut calls = 1;
    loop {
        match b.step(&mut sm, Event::Replied(tool_reply("file_read"))) {
            Action::CheckTools { .. } => {},
            other => panic!("unexpected {:?}", other),
        }
        let check = ToolCheck { description: "d".to_string(), requirement: ApprovalRequirement::Never };
        assert!(matches!(b.step(&mut sm, Event::Checked(vec![Some(check)])), Action::FindTool { .. }));
        assert!(matches!(b.step(&mut sm, Event::ToolFound(true)), Action::RunTool { .. }));
        match b.step(&mut sm, Event::ToolDone(Ok("a".to_string()))) {
            Action::CallModel { thread_id } => {
                assert_eq!(thread_id, t);
                calls += 1;
                assert_eq!(sm.thread_ref(B, t).unwrap().turns[0].current_tool_iterations, calls - 1);
            },
            Action::Report { text, .. } => {
                assert_eq!(text, "⚠️ Max tool iterations reached");
                break;
            },
            other => panic!("unexpected {:?}", other),
        }
        assert!(calls <= 3);
    }
    assert_eq!(calls, 3);
    let th = sm.thread_ref(B, t).unwrap();
    assert_eq!(th.turns[0].state, TurnState::Failed);
    assert_eq!(th.turns[0].error.as_deref(), Some("Max iterations reached"));
    assert_eq!(th.turns[0].tool_calls.len(), 3);
}
