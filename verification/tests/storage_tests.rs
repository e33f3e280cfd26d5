use xclaw::session::session::Session;
use xclaw::session::thread::{Thread, ThreadState};
use xclaw::session::turn::{Turn, TurnState, TurnToolCall};
use xclaw::storage::convert::{
    ConvertError, SessionInsertValues, SessionRow, ThreadInsertValues, ThreadRow, ToolCallInsertValues, ToolCallRow,
    TurnInsertValues, TurnRow, session_from_row, thread_from_row, thread_state_from_str, thread_state_to_str,
    tool_call_from_row, turn_from_row, turn_state_from_str, turn_state_to_str,
};

#[test]
fn state_names_round_trip() {
    for s in [ThreadState::Idle, ThreadState::Processing, ThreadState::AwaitingApproval, ThreadState::Completed, ThreadState::Interrupted] {
        assert_eq!(thread_state_from_str(thread_state_to_str(s)).unwrap(), s);
    }
    for s in [TurnState::Processing, TurnState::Completed, TurnState::Failed, TurnState::Interrupted] {
        assert_eq!(turn_state_from_str(turn_state_to_str(s)).unwrap(), s);
    }
    assert_eq!(thread_state_to_str(ThreadState::AwaitingApproval), "AwaitingApproval");
    assert!(matches!(thread_state_from_str("idle"), Err(ConvertError::UnknownThreadState(_))));
    assert!(matches!(turn_state_from_str("Running"), Err(ConvertError::UnknownTurnState(_))));
}

#[test]
fn turn_rows_round_trip() {
    let mut t = Turn::new(1, 2, 3, "hello");
    t.record_tool_call("tool", "{\"a\":1}".to_string());
    t.record_tool_result("\"ok\"".to_string());
    t.record_reasoning("why");
    t.complete(Some("answer".to_string()));
    let v = TurnInsertValues::from_turn(&t);
    assert_eq!(v.turn_number, 3);
    assert_eq!(v.state, "Completed");
    let row = TurnRow {
        id: v.id.clone(),
        thread_id: v.thread_id.clone(),
        session_id: v.session_id.clone(),
        turn_number: v.turn_number,
        user_input: v.user_input.clone(),
        thinking: v.thinking.clone(),
        response: v.response.clone(),
        state: v.state.clone(),
        started_at: v.started_at.clone(),
        completed_at: v.completed_at.clone(),
        error: v.error.clone(),
        current_tool_iterations: v.current_tool_iterations,
        draft_message_id: v.draft_message_id.clone(),
    };
    let tc = ToolCallInsertValues::from_tool_call(&v.id, 0, &t.tool_calls[0]);
    let call = tool_call_from_row(ToolCallRow {
        id: 1,
        turn_id: tc.turn_id.clone(),
        call_index: tc.call_index,
        name: tc.name.clone(),
        parameters: tc.parameters.clone(),
        result: tc.result.clone(),
        error: tc.error.clone(),
    });
    assert_eq!(call.result.as_deref(), Some("\"ok\""));
    let back = turn_from_row(row, vec![call]).unwrap();
    assert_eq!(back.id, t.id);
    assert_eq!(back.thread_id, 2);
    assert_eq!(back.session_id, 1);
    assert_eq!(back.user_input, "hello");
    assert_eq!(back.thinking.as_deref(), Some("why"));
    assert_eq!(back.response.as_deref(), Some("answer"));
    assert_eq!(back.state, TurnState::Completed);
    assert_eq!(back.started_at, t.started_at);
    assert_eq!(back.completed_at, t.completed_at);
    assert_eq!(back.tool_calls.len(), 1);
}

#[test]
fn bad_rows_are_refused() {
    let row = TurnRow {
        id: "not-a-uuid".to_string(),
        thread_id: uuid::Uuid::from_u128(2).to_string(),
        session_id: uuid::Uuid::from_u128(1).to_string(),
        turn_number: 0,
        user_input: String::new(),
        thinking: None,
        response: None,
        state: "Completed".to_string(),
        started_at: "2024-01-01T00:00:00+00:00".to_string(),
        completed_at: None,
        error: None,
        current_tool_iterations: 0,
        draft_message_id: None,
    };
    assert!(matches!(turn_from_row(row, vec![]), Err(ConvertError::InvalidUuid(_))));
}

#[test]
fn thread_and_session_rows_round_trip() {
    let mut s = Session::new("main@ws");
    let tid = s.create_thread();
    s.auto_approve_tool("file_read".to_string());
    let th = &s.threads[0];
    let tv = ThreadInsertValues::from_thread(th, "[]".to_string());
    assert_eq!(tv.state, "Idle");
    assert_eq!(tv.metadata, "null");
    let trow = ThreadRow {
        id: tv.id.clone(),
        session_id: tv.session_id.clone(),
        user_id: tv.user_id.clone(),
        channel: tv.channel.clone(),
        external_thread_id: tv.external_thread_id.clone(),
        state: tv.state.clone(),
        metadata: tv.metadata.clone(),
        pending_approvals: tv.pending_approvals.clone(),
        created_at: tv.created_at.clone(),
        updated_at: tv.updated_at.clone(),
    };
    let back: Thread = thread_from_row(trow, vec![], vec![]).unwrap();
    assert_eq!(back.id, tid);
    assert_eq!(back.session_id, s.id);
    assert_eq!(back.created_at, th.created_at);
    let sv = SessionInsertValues::from_session(&s);
    assert_eq!(sv.auto_approved_tools, "[\"file_read\"]");
    let srow = SessionRow {
        id: sv.id.clone(),
        binding_id: sv.binding_id.clone(),
        active_thread_id: sv.active_thread_id.clone(),
        auto_approved_tools: sv.auto_approved_tools.clone(),
        metadata: sv.metadata.clone(),
        created_at: sv.created_at.clone(),
        last_active_at: sv.last_active_at.clone(),
    };
    let back = session_from_row(srow, vec![back]).unwrap();
    assert_eq!(back.id, s.id);
    assert_eq!(back.binding_id, "main@ws");
    assert_eq!(back.active_thread, Some(tid));
    assert_eq!(back.auto_approved_tools, vec!["file_read".to_string()]);
    assert_eq!(back.threads.len(), 1);
    assert_eq!(back.last_active_at, s.last_active_at);
}

#[test]
fn tool_call_rows() {
    let tc = TurnToolCall { name: "n".to_string(), parameters: "{}".to_string(), result: None, error: Some("e".to_string()) };
    let v = ToolCallInsertValues::from_tool_call("turn", 4, &tc);
    assert_eq!(v.call_index, 4);
    assert_eq!(v.error.as_deref(), Some("e"));
}
