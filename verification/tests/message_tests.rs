use xclaw::binding::convert::{ModelMessage, UserPart, to_model_message};
use xclaw::llm::response::AssistantPart;
use xclaw::message::{ChatMessage, ContentPart, MediaKind, MessageAttachment, Role, ToolCall};
use xclaw::session::thread::{Thread, ThreadState};
use xclaw::session::turn::TurnState;

fn attachment(kind: MediaKind, mime: &str) -> MessageAttachment {
    MessageAttachment { attachment_id: "a1".to_string(), kind, mime_type: mime.to_string(), filename: None }
}

#[test]
fn chat_message_constructors() {
    let m = ChatMessage::system("s");
    assert_eq!(m.role, Role::System);
    assert_eq!(m.content, "s");
    assert!(m.tool_calls.is_none());
    let m = ChatMessage::tool_result("id", "name", "out");
    assert_eq!(m.role, Role::Tool);
    assert_eq!(m.tool_call_id.as_deref(), Some("id"));
    assert_eq!(m.name.as_deref(), Some("name"));
    let m = ChatMessage::assistant_with_tool_calls(None, vec![]);
    assert_eq!(m.role, Role::Assistant);
    assert_eq!(m.content, "");
    let m = ChatMessage::user_with_parts("u", vec![ContentPart::Text("t".to_string())]);
    assert_eq!(m.content_parts.len(), 1);
    let m = ChatMessage::user_with_attachments("u", vec![attachment(MediaKind::Image, "image/png")]);
    assert_eq!(m.attachments.len(), 1);
}

#[test]
fn thread_messages_follow_the_turns() {
    let mut t = Thread::with_routing(1, "u", "c", None);
    t.start_turn("read it");
    let mut turn = t.take_last_turn().unwrap();
    turn.record_tool_call("file_read", "{\"p\":1}".to_string());
    turn.record_tool_result("\"text\"".to_string());
    t.push_turn(turn);
    t.complete_turn(Some("done".to_string()));
    let ms = t.messages();
    assert_eq!(ms.len(), 4);
    assert_eq!(ms[0].role, Role::User);
    assert_eq!(ms[0].content, "read it");
    assert_eq!(ms[1].role, Role::Assistant);
    let calls = ms[1].tool_calls.as_ref().unwrap();
    assert_eq!(calls[0].id, "turn0_0");
    assert_eq!(calls[0].name, "file_read");
    assert_eq!(ms[2].role, Role::Tool);
    assert_eq!(ms[2].content, "text");
    assert_eq!(ms[2].tool_call_id.as_deref(), Some("turn0_0"));
    assert_eq!(ms[3].role, Role::Assistant);
    assert_eq!(ms[3].content, "done");
}

#[test]
fn restoring_a_thread_from_its_messages() {
    let mut t = Thread::with_routing(1, "u", "c", None);
    t.start_turn("first");
    t.complete_turn(Some("one".to_string()));
    t.start_turn("second");
    let ms = t.messages();
    let mut r = Thread::new(1);
    r.restore_from_messages(ms);
    assert_eq!(r.state, ThreadState::Idle);
    assert_eq!(r.turns.len(), 2);
    assert_eq!(r.turns[0].user_input, "first");
    assert_eq!(r.turns[0].response.as_deref(), Some("one"));
    assert_eq!(r.turns[0].state, TurnState::Completed);
    assert_eq!(r.turns[1].user_input, "second");
    assert!(r.turns[1].response.is_none());
    assert_eq!(r.messages().len(), t.messages().len());
}

#[test]
fn thread_turn_helpers() {
    let mut t = Thread::new(9);
    assert_eq!(t.turn_number(), 1);
    assert!(t.last_turn().is_none());
    t.start_turn("a");
    t.start_turn("b");
    t.start_turn("c");
    assert_eq!(t.turn_number(), 4);
    t.truncate_turns(2);
    assert_eq!(t.turns.len(), 2);
    assert_eq!(t.turns[0].user_input, "b");
    assert_eq!(t.turns[0].turn_number, 0);
    t.interrupt();
    assert_eq!(t.state, ThreadState::Interrupted);
    t.resume();
    assert_eq!(t.state, ThreadState::Idle);
}

#[test]
fn messages_for_the_model() {
    let user = ChatMessage::user_with_attachments(
        "look",
        vec![attachment(MediaKind::Image, "image/png"), attachment(MediaKind::Audio, "audio/ogg")],
    );
    match to_model_message(&user, &vec![Some(vec![104, 105]), None]) {
        ModelMessage::User(parts) => {
            assert_eq!(parts.len(), 2);
            match &parts[0] {
                UserPart::Media { kind, data, mime_type } => {
                    assert_eq!(*kind, MediaKind::Image);
                    assert_eq!(data, "aGk=");
                    assert_eq!(mime_type, "image/png");
                },
                other => panic!("unexpected {:?}", other),
            }
            assert!(matches!(&parts[1], UserPart::Text(t) if t == "look"));
        },
        other => panic!("unexpected {:?}", other),
    }
    let calls = vec![ToolCall { id: "1".to_string(), name: "t".to_string(), arguments: "{}".to_string() }];
    match to_model_message(&ChatMessage::assistant_with_tool_calls(Some("x".to_string()), calls), &vec![]) {
        ModelMessage::Assistant(parts) => {
            assert_eq!(parts.len(), 2);
            assert!(matches!(&parts[0], AssistantPart::Text(t) if t == "x"));
            assert!(matches!(&parts[1], AssistantPart::ToolCall(c) if c.name == "t"));
        },
        other => panic!("unexpected {:?}", other),
    }
    match to_model_message(&ChatMessage::assistant_with_tool_calls(None, vec![]), &vec![]) {
        ModelMessage::Assistant(parts) => {
            assert_eq!(parts.len(), 1);
            assert!(matches!(&parts[0], AssistantPart::Text(t) if t.is_empty()));
        },
        other => panic!("unexpected {:?}", other),
    }
    match to_model_message(&ChatMessage::tool_result("c1", "t", "out"), &vec![]) {
        ModelMessage::User(parts) => {
            assert!(matches!(&parts[0], UserPart::ToolResult { id, text } if id == "c1" && text == "out"));
        },
        other => panic!("unexpected {:?}", other),
    }
    match to_model_message(&ChatMessage::system("sys"), &vec![]) {
        ModelMessage::User(parts) => assert!(matches!(&parts[0], UserPart::Text(t) if t == "sys")),
        other => panic!("unexpected {:?}", other),
    }
}

#[test]
fn restoring_keeps_turn_contents_whatever_their_numbers() {
    let mut t = Thread::with_routing(1, "u", "c", None);
    let tid = t.id;
    let mut a = xclaw::session::turn::Turn::new(1, tid, 5, "read it");
    a.record_tool_call("file_read", "{\"path\":\"a\"}".to_string());
    a.record_tool_result("\"contents\"".to_string());
    a.complete(Some("done".to_string()));
    let b = xclaw::session::turn::Turn::new(1, tid, 7, "again");
    t.turns.push(a);
    t.turns.push(b);
    let mut r = Thread::new(1);
    r.restore_from_messages(t.messages());
    assert_eq!(r.turns.len(), 2);
    assert_eq!(r.turns[0].turn_number, 0);
    assert_eq!(r.turns[1].turn_number, 1);
    assert_eq!(r.turns[0].user_input, "read it");
    assert_eq!(r.turns[0].response.as_deref(), Some("done"));
    assert_eq!(r.turns[0].tool_calls.len(), 1);
    assert_eq!(r.turns[0].tool_calls[0].name, "file_read");
    assert_eq!(r.turns[0].tool_calls[0].parameters, "{\"path\":\"a\"}");
    assert_eq!(r.turns[0].tool_calls[0].result.as_deref(), Some("\"contents\""));
    assert!(r.turns[0].tool_calls[0].error.is_none());
    assert_eq!(r.turns[1].user_input, "again");
    assert!(r.turns[1].response.is_none());
}
