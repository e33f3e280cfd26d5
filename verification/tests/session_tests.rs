use xclaw::session::manager::{SessionManager, ThreadKey};
use xclaw::session::session::Session;
use xclaw::session::thread::ThreadState;
use xclaw::session::turn::TurnState;
use xclaw::storage::ops::StorageOp;

const B: &str = "main@websocket";

#[test]
fn thread_key_constructors() {
    let k = ThreadKey::new("b", "u", "c", Some("t".to_string()));
    assert_eq!(k.binding_id, "b");
    assert_eq!(k.external_thread_id.as_deref(), Some("t"));
    let k2 = ThreadKey::without_thread("b", "u", "c");
    assert!(k2.external_thread_id.is_none());
    assert!(!k.same_as(&k2));
    assert!(k2.same_as(&ThreadKey::without_thread("b", "u", "c")));
}

#[test]
fn same_conversation_resolves_to_same_thread() {
    let mut sm = SessionManager::new();
    let t1 = sm.resolve_thread(B, "user1", "websocket", None);
    let t2 = sm.resolve_thread(B, "user1", "websocket", None);
    assert_eq!(t1, t2);
    let s = sm.session(B).unwrap();
    assert_eq!(s.threads.len(), 1);
    assert_eq!(s.active_thread, Some(t1));
    assert_eq!(s.threads[0].user_id, "user1");
    assert_eq!(s.threads[0].channel, "websocket");
    assert_eq!(s.threads[0].state, ThreadState::Idle);
}

#[test]
fn different_conversations_resolve_to_different_threads() {
    let mut sm = SessionManager::new();
    let none = sm.resolve_thread(B, "user1", "websocket", None);
    let some = sm.resolve_thread(B, "user1", "websocket", Some("ext-1"));
    let other_ext = sm.resolve_thread(B, "user1", "websocket", Some("ext-2"));
    let other_channel = sm.resolve_thread(B, "user1", "discord", None);
    let other_user = sm.resolve_thread(B, "user2", "websocket", None);
    let ids = [none, some, other_ext, other_channel, other_user];
    for i in 0..ids.len() {
        for j in 0..ids.len() {
            if i != j {
                assert_ne!(ids[i], ids[j]);
            }
        }
    }
    // Earlier routes are kept.
    assert_eq!(sm.resolve_thread(B, "user1", "websocket", None), none);
    assert_eq!(sm.resolve_thread(B, "user1", "websocket", Some("ext-1")), some);
    assert_eq!(sm.session(B).unwrap().threads.len(), 5);
}

#[test]
fn get_or_create_session_is_stable() {
    let mut sm = SessionManager::new();
    let a = sm.get_or_create_session(B);
    let b = sm.get_or_create_session(B);
    assert_eq!(a, b);
    assert!(sm.session("other").is_none());
}

#[test]
fn turn_lifecycle() {
    let mut sm = SessionManager::new();
    let t = sm.resolve_thread(B, "u", "websocket", None);
    sm.thread_start_turn(B, t, "hello");
    {
        let th = sm.thread_ref(B, t).unwrap();
        assert_eq!(th.state, ThreadState::Processing);
        assert_eq!(th.turns.len(), 1);
        assert_eq!(th.turns[0].user_input, "hello");
        assert_eq!(th.turns[0].state, TurnState::Processing);
    }
    sm.thread_complete_turn(B, t, Some("hi".to_string()));
    {
        let th = sm.thread_ref(B, t).unwrap();
        assert_eq!(th.state, ThreadState::Idle);
        assert_eq!(th.turns[0].state, TurnState::Completed);
        assert_eq!(th.turns[0].response.as_deref(), Some("hi"));
        assert!(th.turns[0].completed_at.is_some());
    }
    sm.thread_start_turn(B, t, "again");
    sm.thread_fail_turn(B, t, "broken");
    {
        let th = sm.thread_ref(B, t).unwrap();
        assert_eq!(th.state, ThreadState::Idle);
        assert_eq!(th.turns[1].state, TurnState::Failed);
        assert_eq!(th.turns[1].error.as_deref(), Some("broken"));
    }
    sm.thread_start_turn(B, t, "third");
    sm.thread_interrupt(B, t);
    let th = sm.thread_ref(B, t).unwrap();
    assert_eq!(th.state, ThreadState::Interrupted);
    assert_eq!(th.turns[2].state, TurnState::Interrupted);
}

#[test]
fn unknown_thread_changes_nothing() {
    let mut sm = SessionManager::new();
    sm.thread_start_turn(B, 7, "hello");
    assert!(sm.session(B).is_none());
    assert_eq!(sm.thread_state(B, 7), ThreadState::Idle);
    assert_eq!(sm.thread_messages(B, 7).len(), 0);
}

#[test]
fn in_memory_manager_queues_no_writes() {
    let mut sm = SessionManager::new();
    let t = sm.resolve_thread(B, "u", "websocket", None);
    sm.thread_start_turn(B, t, "x");
    assert!(sm.take_storage_ops().is_empty());
}

#[test]
fn persistent_manager_queues_writes_in_order() {
    let mut sm = SessionManager::from_loaded(vec![]);
    let t = sm.resolve_thread(B, "u", "websocket", None);
    let ops = sm.take_storage_ops();
    assert_eq!(ops.len(), 3);
    assert!(matches!(ops[0], StorageOp::InsertSession(_)));
    match &ops[1] {
        StorageOp::InsertThread(v) => {
            assert_eq!(v.user_id, "u");
            assert_eq!(v.state, "Idle");
            assert_eq!(v.pending_approvals, "[]");
        },
        other => panic!("unexpected {:?}", other),
    }
    match &ops[2] {
        StorageOp::UpdateSessionActiveThread { thread_id, .. } => {
            assert_eq!(thread_id, &uuid::Uuid::from_u128(t).to_string());
        },
        other => panic!("unexpected {:?}", other),
    }
    sm.thread_start_turn(B, t, "hello");
    let ops = sm.take_storage_ops();
    assert_eq!(ops.len(), 2);
    match &ops[0] {
        StorageOp::InsertTurn(v) => {
            assert_eq!(v.user_input, "hello");
            assert_eq!(v.state, "Processing");
            assert_eq!(v.turn_number, 0);
        },
        other => panic!("unexpected {:?}", other),
    }
    match &ops[1] {
        StorageOp::UpdateThreadState { state, .. } => assert_eq!(state, "Processing"),
        other => panic!("unexpected {:?}", other),
    }
    sm.thread_complete_turn(B, t, Some("done".to_string()));
    let ops = sm.take_storage_ops();
    assert_eq!(ops.len(), 2);
    match &ops[0] {
        StorageOp::CompleteTurn { response, .. } => assert_eq!(response.as_deref(), Some("done")),
        other => panic!("unexpected {:?}", other),
    }
    match &ops[1] {
        StorageOp::UpdateThreadState { state, .. } => assert_eq!(state, "Idle"),
        other => panic!("unexpected {:?}", other),
    }
    sm.thread_start_turn(B, t, "next");
    sm.take_storage_ops();
    sm.thread_fail_turn(B, t, "boom");
    let ops = sm.take_storage_ops();
    match &ops[0] {
        StorageOp::FailTurn { error, .. } => assert_eq!(error, "boom"),
        other => panic!("unexpected {:?}", other),
    }
    sm.thread_interrupt(B, t);
    let ops = sm.take_storage_ops();
    assert!(matches!(ops[0], StorageOp::InterruptTurn { .. }));
    match &ops[1] {
        StorageOp::UpdateThreadState { state, .. } => assert_eq!(state, "Interrupted"),
        other => panic!("unexpected {:?}", other),
    }
}

#[test]
fn persist_helpers_queue_their_writes() {
    let mut sm = SessionManager::from_loaded(vec![]);
    sm.persist_tool_result("turn-1", 2, Some("\"ok\""), None);
    sm.persist_thread_awaiting_approval("th", "[]", "2024-01-01T00:00:00+00:00");
    sm.persist_thread_state("th", ThreadState::Completed, "now");
    sm.persist_auto_approve("s", &vec!["b".to_string(), "a".to_string()]);
    let ops = sm.take_storage_ops();
    assert_eq!(ops.len(), 4);
    match &ops[0] {
        StorageOp::UpdateToolCallResult { turn_id, index, result, tool_error } => {
            assert_eq!(turn_id, "turn-1");
            assert_eq!(*index, 2);
            assert_eq!(result.as_deref(), Some("\"ok\""));
            assert!(tool_error.is_none());
        },
        other => panic!("unexpected {:?}", other),
    }
    match &ops[1] {
        StorageOp::UpdateThreadPendingApprovals { state, .. } => assert_eq!(state, "AwaitingApproval"),
        other => panic!("unexpected {:?}", other),
    }
    match &ops[2] {
        StorageOp::UpdateThreadState { state, .. } => assert_eq!(state, "Completed"),
        other => panic!("unexpected {:?}", other),
    }
    match &ops[3] {
        StorageOp::UpdateSessionAutoApprovedTools { tools, .. } => assert_eq!(tools, "[\"b\",\"a\"]"),
        other => panic!("unexpected {:?}", other),
    }
}

#[test]
fn pruning_removes_idle_sessions_and_their_routes() {
    let mut sm = SessionManager::from_loaded(vec![]);
    let t = sm.resolve_thread(B, "u", "websocket", None);
    sm.take_storage_ops();
    assert_eq!(sm.prune_idle_before(i64::MIN), 0);
    assert!(sm.take_storage_ops().is_empty());
    assert_eq!(sm.prune_idle_before(i64::MAX), 1);
    assert!(sm.session(B).is_none());
    let ops = sm.take_storage_ops();
    assert_eq!(ops.len(), 1);
    assert!(matches!(ops[0], StorageOp::DeleteSession { .. }));
    let t2 = sm.resolve_thread(B, "u", "websocket", None);
    assert_ne!(t, t2);
}

#[test]
fn pruning_by_age_keeps_fresh_sessions() {
    let mut sm = SessionManager::new();
    sm.resolve_thread(B, "u", "websocket", None);
    assert_eq!(sm.prune_stale_sessions(3600), 0);
    assert!(sm.session(B).is_some());
}

#[test]
fn startup_interrupts_unfinished_work() {
    let mut s = Session::new(B);
    let t = s.create_thread();
    s.threads[0].user_id = "u".to_string();
    s.threads[0].channel = "websocket".to_string();
    s.threads[0].start_turn("hello");
    assert_eq!(s.threads[0].state, ThreadState::Processing);
    let mut sm = SessionManager::from_loaded_at(vec![s], 42);
    let th = sm.thread_ref(B, t).unwrap();
    assert_eq!(th.state, ThreadState::Idle);
    assert_eq!(th.updated_at, 42);
    assert_eq!(th.turns[0].state, TurnState::Interrupted);
    assert_eq!(th.turns[0].completed_at, Some(42));
    // The conversation is routed to the stored thread.
    assert_eq!(sm.resolve_thread(B, "u", "websocket", None), t);
    assert!(sm.take_storage_ops().is_empty());
}

#[test]
fn startup_keeps_the_last_session_of_a_binding() {
    let first = Session::new(B);
    let second = Session::new(B);
    let id2 = second.id;
    let sm = SessionManager::from_loaded_at(vec![first, second], 0);
    assert_eq!(sm.session(B).unwrap().id, id2);
}

#[test]
fn register_thread_routes_the_conversation() {
    let mut sm = SessionManager::new();
    let mut s = Session::new(B);
    let t = s.create_thread();
    sm.register_thread(B, "u", "websocket", Some("x"), t, s);
    assert_eq!(sm.resolve_thread(B, "u", "websocket", Some("x")), t);
}

#[test]
fn loaded_threads_are_found_again_by_their_conversations() {
    let mut s = Session::new(B);
    let a = s.create_thread();
    let b = s.create_thread();
    s.threads[0].user_id = "u".to_string();
    s.threads[0].channel = "discord".to_string();
    s.threads[0].external_thread_id = Some("x1".to_string());
    s.threads[1].user_id = "u".to_string();
    s.threads[1].channel = "discord".to_string();
    s.threads[1].external_thread_id = Some("x2".to_string());
    let mut sm = SessionManager::from_loaded(vec![s]);
    assert_eq!(sm.resolve_thread(B, "u", "discord", Some("x2")), b);
    assert_eq!(sm.resolve_thread(B, "u", "discord", Some("x1")), a);
    assert_eq!(sm.session(B).unwrap().threads.len(), 2);
    assert!(sm.take_storage_ops().is_empty());
}
