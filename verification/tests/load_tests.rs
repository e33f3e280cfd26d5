use xclaw::session::session::Session;
use xclaw::session::thread::{Thread, ThreadState};
use xclaw::session::turn::TurnState;
use xclaw::storage::convert::{
    ConvertError, SessionInsertValues, SessionRow, ThreadInsertValues, ThreadRow, ToolCallInsertValues, ToolCallRow,
    TurnInsertValues, TurnRow,
};
use xclaw::storage::load::{StoredThread, sessions_from_rows};

const AT: &str = "2024-05-01T10:00:00+00:00";

fn id(n: u128) -> String {
    uuid::Uuid::from_u128(n).to_string()
}

fn session_row(n: u128) -> SessionRow {
    SessionRow {
        id: id(n),
        binding_id: format!("binding-{}", n),
        active_thread_id: None,
        auto_approved_tools: "[\"shell\",\"shell\"]".to_string(),
        metadata: "{}".to_string(),
        created_at: AT.to_string(),
        last_active_at: AT.to_string(),
    }
}

fn thread_row(n: u128, session: u128, user: &str) -> StoredThread {
    StoredThread {
        row: ThreadRow {
            id: id(n),
            session_id: id(session),
            user_id: user.to_string(),
            channel: "websocket".to_string(),
            external_thread_id: None,
            state: "Idle".to_string(),
            metadata: "null".to_string(),
            pending_approvals: "[]".to_string(),
            created_at: AT.to_string(),
            updated_at: AT.to_string(),
        },
        pending_approvals: Vec::new(),
    }
}

fn turn_row(n: u128, thread: u128, session: u128, number: i32, state: &str) -> TurnRow {
    TurnRow {
        id: id(n),
        thread_id: id(thread),
        session_id: id(session),
        turn_number: number,
        user_input: format!("input {}", number),
        thinking: None,
        response: None,
        state: state.to_string(),
        started_at: AT.to_string(),
        completed_at: None,
        error: None,
        current_tool_iterations: 0,
        draft_message_id: None,
    }
}

fn call_row(turn: u128, index: i32, name: &str) -> ToolCallRow {
    ToolCallRow {
        id: index,
        turn_id: id(turn),
        call_index: index,
        name: name.to_string(),
        parameters: "{\"a\":1}".to_string(),
        result: None,
        error: None,
    }
}

#[test]
fn rows_are_grouped_into_sessions() {
    let sessions = vec![session_row(1), session_row(2)];
    let threads = vec![thread_row(10, 1, "alice"), thread_row(20, 2, "bob")];
    let turns = vec![
        turn_row(100, 10, 1, 1, "Completed"),
        turn_row(200, 20, 2, 1, "Completed"),
        turn_row(101, 10, 1, 2, "Processing"),
    ];
    let calls = vec![call_row(100, 0, "read"), call_row(200, 0, "write"), call_row(100, 1, "list")];
    let out = sessions_from_rows(sessions, threads, turns, calls).unwrap();
    assert_eq!(out.len(), 2);
    assert_eq!(out[0].id, 1);
    assert_eq!(out[0].binding_id, "binding-1");
    assert_eq!(out[0].auto_approved_tools, vec!["shell".to_string()]);
    assert_eq!(out[0].threads.len(), 1);
    let t = &out[0].threads[0];
    assert_eq!(t.id, 10);
    assert_eq!(t.user_id, "alice");
    assert_eq!(t.state, ThreadState::Idle);
    assert_eq!(t.turns.len(), 2);
    assert_eq!(t.turns[0].id, 100);
    assert_eq!(t.turns[1].id, 101);
    assert_eq!(t.turns[1].state, TurnState::Processing);
    let names: Vec<&str> = t.turns[0].tool_calls.iter().map(|c| c.name.as_str()).collect();
    assert_eq!(names, vec!["read", "list"]);
    assert!(t.turns[1].tool_calls.is_empty());
    assert_eq!(out[1].threads.len(), 1);
    assert_eq!(out[1].threads[0].turns.len(), 1);
    assert_eq!(out[1].threads[0].turns[0].tool_calls[0].name, "write");
}

#[test]
fn session_without_threads_reads_back_empty() {
    let out = sessions_from_rows(vec![session_row(3)], Vec::new(), Vec::new(), Vec::new()).unwrap();
    assert_eq!(out.len(), 1);
    assert!(out[0].threads.is_empty());
    assert!(sessions_from_rows(Vec::new(), Vec::new(), Vec::new(), Vec::new()).unwrap().is_empty());
}

#[test]
fn repeated_thread_row_takes_the_place_of_the_first() {
    let threads = vec![thread_row(10, 1, "first"), thread_row(10, 1, "second")];
    let turns = vec![turn_row(100, 10, 1, 1, "Completed")];
    let out = sessions_from_rows(vec![session_row(1)], threads, turns, Vec::new()).unwrap();
    assert_eq!(out[0].threads.len(), 1);
    assert_eq!(out[0].threads[0].user_id, "second");
    assert!(out[0].threads[0].turns.is_empty());
}

#[test]
fn orphan_rows_are_ignored() {
    let threads = vec![thread_row(10, 9, "nobody")];
    let turns = vec![turn_row(100, 11, 1, 1, "Completed")];
    let calls = vec![call_row(555, 0, "lost")];
    let out = sessions_from_rows(vec![session_row(1)], threads, turns, calls).unwrap();
    assert!(out[0].threads.is_empty());
}

#[test]
fn a_bad_turn_row_fails_the_load() {
    let turns = vec![turn_row(100, 10, 1, 1, "Running")];
    let r = sessions_from_rows(vec![session_row(1)], vec![thread_row(10, 1, "a")], turns, Vec::new());
    assert!(matches!(r, Err(ConvertError::UnknownTurnState(_))));
    let mut bad = thread_row(10, 1, "a");
    bad.row.state = "Sleeping".to_string();
    let r = sessions_from_rows(vec![session_row(1)], vec![bad], Vec::new(), Vec::new());
    assert!(matches!(r, Err(ConvertError::UnknownThreadState(_))));
    let mut s = session_row(1);
    s.created_at = "yesterday".to_string();
    let r = sessions_from_rows(vec![s], Vec::new(), Vec::new(), Vec::new());
    assert!(matches!(r, Err(ConvertError::InvalidDatetime(_))));
}

#[test]
fn saved_sessions_read_back_as_themselves() {
    let mut session = Session::new("agent@ws");
    let mut a = Thread::with_routing(session.id, "alice", "websocket", Some("ext-a".to_string()));
    let mut b = Thread::with_routing(session.id, "bob", "websocket", None);
    a.start_turn("first");
    a.complete_turn(Some("one".to_string()));
    b.start_turn("other");
    a.start_turn("second");
    session.threads.push(a);
    session.threads.push(b);

    let sv = SessionInsertValues::from_session(&session);
    let session_row = SessionRow {
        id: sv.id.clone(),
        binding_id: sv.binding_id.clone(),
        active_thread_id: sv.active_thread_id.clone(),
        auto_approved_tools: sv.auto_approved_tools.clone(),
        metadata: sv.metadata.clone(),
        created_at: sv.created_at.clone(),
        last_active_at: sv.last_active_at.clone(),
    };
    let mut threads = Vec::new();
    let mut turns = Vec::new();
    let mut calls = Vec::new();
    for t in &session.threads {
        let tv = ThreadInsertValues::from_thread(t, "[]".to_string());
        threads.push(StoredThread {
            row: ThreadRow {
                id: tv.id.clone(),
                session_id: tv.session_id.clone(),
                user_id: tv.user_id.clone(),
                channel: tv.channel.clone(),
                external_thread_id: tv.external_thread_id.clone(),
                state: tv.state.clone(),
                metadata: tv.metadata.clone(),
                pending_approvals: tv.pending_approvals.clone(),
                created_at: tv.created_at.clone(),
                updated_at: tv.updated_at.clone(),
            },
            pending_approvals: Vec::new(),
        });
        for u in &t.turns {
            let uv = TurnInsertValues::from_turn(u);
            turns.push(TurnRow {
                id: uv.id.clone(),
                thread_id: uv.thread_id.clone(),
                session_id: uv.session_id.clone(),
                turn_number: uv.turn_number,
                user_input: uv.user_input.clone(),
                thinking: uv.thinking.clone(),
                response: uv.response.clone(),
                state: uv.state.clone(),
                started_at: uv.started_at.clone(),
                completed_at: uv.completed_at.clone(),
                error: uv.error.clone(),
                current_tool_iterations: uv.current_tool_iterations,
                draft_message_id: uv.draft_message_id.clone(),
            });
            for (i, c) in u.tool_calls.iter().enumerate() {
                let cv = ToolCallInsertValues::from_tool_call(&uv.id, i, c);
                calls.push(ToolCallRow {
                    id: 0,
                    turn_id: cv.turn_id.clone(),
                    call_index: cv.call_index,
                    name: cv.name.clone(),
                    parameters: cv.parameters.clone(),
                    result: cv.result.clone(),
                    error: cv.error.clone(),
                });
            }
        }
    }
    // The database returns the turns by turn number, across threads.
    turns.sort_by_key(|r| r.turn_number);

    let back = sessions_from_rows(vec![session_row], threads, turns, calls).unwrap();
    assert_eq!(back.len(), 1);
    let s = &back[0];
    assert_eq!(s.id, session.id);
    assert_eq!(s.binding_id, "agent@ws");
    assert_eq!(s.created_at, session.created_at);
    assert_eq!(s.threads.len(), 2);
    for (x, y) in s.threads.iter().zip(session.threads.iter()) {
        assert_eq!(x.id, y.id);
        assert_eq!(x.user_id, y.user_id);
        assert_eq!(x.external_thread_id, y.external_thread_id);
        assert_eq!(x.state, y.state);
        assert_eq!(x.turns.len(), y.turns.len());
        for (p, q) in x.turns.iter().zip(y.turns.iter()) {
            assert_eq!(p.id, q.id);
            assert_eq!(p.turn_number, q.turn_number);
            assert_eq!(p.user_input, q.user_input);
            assert_eq!(p.response, q.response);
            assert_eq!(p.state, q.state);
            assert_eq!(p.started_at, q.started_at);
            assert_eq!(p.completed_at, q.completed_at);
        }
    }
}

#[test]
fn the_first_refusal_is_reported() {
    let mut s = session_row(1);
    s.last_active_at = "later".to_string();
    let mut t = thread_row(10, 1, "a");
    t.row.created_at = "soon".to_string();
    let mut bad_id = turn_row(100, 10, 1, 1, "Completed");
    bad_id.thread_id = "thread-ten".to_string();
    let bad_state = turn_row(101, 10, 1, 2, "Running");
    let r = sessions_from_rows(vec![s], vec![t], vec![bad_state, bad_id], Vec::new());
    match r {
        Err(ConvertError::UnknownTurnState(x)) => assert_eq!(x, "Running"),
        other => panic!("unexpected: {:?}", other.map(|v| v.len())),
    }
    let mut s = session_row(1);
    s.last_active_at = "later".to_string();
    let mut t = thread_row(10, 1, "a");
    t.row.created_at = "soon".to_string();
    let r = sessions_from_rows(vec![s], vec![t], Vec::new(), Vec::new());
    match r {
        Err(ConvertError::InvalidDatetime(x)) => assert_eq!(x, "soon"),
        other => panic!("unexpected: {:?}", other.map(|v| v.len())),
    }
}
