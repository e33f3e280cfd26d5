//! Chat messages as the language model takes them.
use vstd::prelude::*;
use crate::ext::{base64_encode, base64_standard};
use crate::llm::response::{AssistantPart, AssistantPartView};
use crate::message::{
    ChatMessage, ChatMessageView, MediaKind, MessageAttachmentView, Role, ToolCall, ToolCallView, tool_calls_view,
};

verus! {

/// A part of a user message for the model.
#[derive(Debug)]
pub enum UserPart {
    Text(String),
    /// An attachment: its kind, its bytes in standard base64, its MIME type.
    Media { kind: MediaKind, data: String, mime_type: String },
    /// The result of the tool call `id`.
    ToolResult { id: String, text: String },
}

pub enum UserPartView {
    Text(Seq<char>),
    Media { kind: MediaKind, data: Seq<char>, mime_type: Seq<char> },
    ToolResult { id: Seq<char>, text: Seq<char> },
}

impl View for UserPart {
    type V = UserPartView;

    open spec fn view(&self) -> UserPartView {
        match self {
            UserPart::Text(t) => UserPartView::Text(t@),
            UserPart::Media { kind, data, mime_type } => UserPartView::Media {
                kind: *kind,
                data: data@,
                mime_type: mime_type@,
            },
            UserPart::ToolResult { id, text } => UserPartView::ToolResult { id: id@, text: text@ },
        }
    }
}

/// A message for the model: from the user, or from the assistant.
#[derive(Debug)]
pub enum ModelMessage {
    User(Vec<UserPart>),
    Assistant(Vec<AssistantPart>),
}

pub enum ModelMessageView {
    User(Seq<UserPartView>),
    Assistant(Seq<AssistantPartView>),
}

/// Views of the parts of a user message.
pub open spec fn user_parts_view(v: Seq<UserPart>) -> Seq<UserPartView> {
    v.map_values(|p: UserPart| p@)
}

/// Views of the parts of an assistant message.
pub open spec fn assistant_parts_view(v: Seq<AssistantPart>) -> Seq<AssistantPartView> {
    v.map_values(|p: AssistantPart| p@)
}

impl View for ModelMessage {
    type V = ModelMessageView;

    open spec fn view(&self) -> ModelMessageView {
        match self {
            ModelMessage::User(v) => ModelMessageView::User(user_parts_view(v@)),
            ModelMessage::Assistant(v) => ModelMessageView::Assistant(assistant_parts_view(v@)),
        }
    }
}

/// Views of the bytes loaded for the attachments of a message (`None` where
/// loading failed).
pub open spec fn loaded_view(v: Seq<Option<Vec<u8>>>) -> Seq<Option<Seq<u8>>> {
    v.map_values(|o: Option<Vec<u8>>| match o {
        Some(b) => Some(b@),
        None => None,
    })
}

/// The media parts of the attachments `atts` whose bytes were loaded, in order.
pub open spec fn media_parts(atts: Seq<MessageAttachmentView>, bytes: Seq<Option<Seq<u8>>>) -> Seq<UserPartView>
    decreases atts.len(),
{
    if atts.len() == 0 || bytes.len() == 0 {
        Seq::empty()
    } else {
        let rest = media_parts(atts.drop_last(), bytes.drop_last());
        match bytes.last() {
            Some(b) => rest.push(
                UserPartView::Media { kind: atts.last().kind, data: base64_standard(b), mime_type: atts.last().mime_type },
            ),
            None => rest,
        }
    }
}

/// The parts of an assistant message with tool calls: its text when it has
/// some, then one part per call; its text alone when that leaves nothing.
pub open spec fn call_parts(content: Seq<char>, calls: Seq<ToolCallView>) -> Seq<AssistantPartView> {
    let parts = (if content.len() > 0 {
        seq![AssistantPartView::Text(content)]
    } else {
        Seq::empty()
    }) + calls.map_values(|c: ToolCallView| AssistantPartView::ToolCall(c));
    if parts.len() == 0 {
        seq![AssistantPartView::Text(content)]
    } else {
        parts
    }
}

/// The message `m` for the model, given the bytes loaded for its
/// attachments: user and system messages carry their loaded attachments then
/// their text; assistant messages their text and tool calls; tool results
/// become a user message with the result of the call.
pub open spec fn model_message_of(m: ChatMessageView, bytes: Seq<Option<Seq<u8>>>) -> ModelMessageView {
    match m.role {
        Role::User | Role::System => ModelMessageView::User(
            media_parts(m.attachments, bytes).push(UserPartView::Text(m.content)),
        ),
        Role::Assistant => match m.tool_calls {
            Some(calls) => ModelMessageView::Assistant(call_parts(m.content, calls)),
            None => ModelMessageView::Assistant(seq![AssistantPartView::Text(m.content)]),
        },
        Role::Tool => ModelMessageView::User(
            seq![
                UserPartView::ToolResult {
                    id: match m.tool_call_id {
                        Some(i) => i,
                        None => Seq::empty(),
                    },
                    text: m.content,
                },
            ],
        ),
    }
}

/// Law: an assistant message that called tools reaches the model with every
/// one of its calls, in order, one part each, after its text when it has
/// some; no call is dropped, repeated or added.
pub proof fn law_assistant_message_keeps_every_call(m: ChatMessageView, bytes: Seq<Option<Seq<u8>>>)
    requires
        m.role == Role::Assistant,
        m.tool_calls is Some,
        m.tool_calls->0.len() > 0,
    ensures
        ({
            let calls = m.tool_calls->0;
            let off: int = if m.content.len() > 0 { 1 } else { 0 };
            &&& model_message_of(m, bytes) is Assistant
            &&& model_message_of(m, bytes)->Assistant_0.len() == off + calls.len()
            &&& forall|k: int| 0 <= k < calls.len() ==> model_message_of(m, bytes)->Assistant_0[off + k]
                == AssistantPartView::ToolCall(#[trigger] calls[k])
            &&& m.content.len() > 0 ==> model_message_of(m, bytes)->Assistant_0[0] == AssistantPartView::Text(m.content)
        }),
{
    let calls = m.tool_calls->0;
    let head: Seq<AssistantPartView> = if m.content.len() > 0 {
        seq![AssistantPartView::Text(m.content)]
    } else {
        Seq::empty()
    };
    let parts = head + calls.map_values(|c: ToolCallView| AssistantPartView::ToolCall(c));
    assert(parts.len() > 0);
    assert(call_parts(m.content, calls) == parts);
    assert forall|k: int| 0 <= k < calls.len() implies parts[head.len() + k] == AssistantPartView::ToolCall(#[trigger] calls[k]) by {
        assert(parts[head.len() + k] == calls.map_values(|c: ToolCallView| AssistantPartView::ToolCall(c))[k]);
    }
}

/// The message `msg` for the model (see `model_message_of`), given the bytes
/// loaded for each of its attachments, in order (`None` where loading failed).
pub fn to_model_message(msg: &ChatMessage, bytes: &Vec<Option<Vec<u8>>>) -> (r: ModelMessage)
    requires
        bytes@.len() == msg.attachments@.len(),
    ensures
        r@ == model_message_of(msg@, loaded_view(bytes@)),
{
    match msg.role {
        Role::User | Role::System => {
            let ghost atts = msg@.attachments;
            let ghost bs = loaded_view(bytes@);
            let mut parts: Vec<UserPart> = Vec::new();
            let mut i: usize = 0;
            proof {
                assert(user_parts_view(parts@) =~= media_parts(atts.take(0), bs.take(0)));
            }
            while i < msg.attachments.len()
                invariant
                    atts == msg@.attachments,
                    bs == loaded_view(bytes@),
                    bytes@.len() == msg.attachments@.len(),
                    i <= msg.attachments@.len(),
                    user_parts_view(parts@) == media_parts(atts.take(i as int), bs.take(i as int)),
                decreases msg.attachments@.len() - i,
            {
                proof {
                    assert(atts.take(i + 1).drop_last() =~= atts.take(i as int));
                    assert(bs.take(i + 1).drop_last() =~= bs.take(i as int));
                    assert(atts.take(i + 1).last() == atts[i as int]);
                    assert(bs.take(i + 1).last() == bs[i as int]);
                    assert(atts[i as int] == msg.attachments@[i as int]@);
                }
                match &bytes[i] {
                    Some(b) => {
                        let a = &msg.attachments[i];
                        let ghost p0 = user_parts_view(parts@);
                        let part = UserPart::Media { kind: a.kind, data: base64_encode(b), mime_type: a.mime_type.clone() };
                        parts.push(part);
                        proof {
                            assert(user_parts_view(parts@) =~= p0.push(part@));
                        }
                    },
                    None => {},
                }
                i = i + 1;
            }
            proof {
                assert(atts.take(msg.attachments@.len() as int) =~= atts);
                assert(bs.take(msg.attachments@.len() as int) =~= bs);
            }
            let ghost p1 = user_parts_view(parts@);
            parts.push(UserPart::Text(msg.content.clone()));
            proof {
                assert(user_parts_view(parts@) =~= p1.push(UserPartView::Text(msg.content@)));
            }
            ModelMessage::User(parts)
        },
        Role::Assistant => match &msg.tool_calls {
            Some(calls) => {
                let mut parts: Vec<AssistantPart> = Vec::new();
                let ghost cs = tool_calls_view(calls@);
                let ghost head: Seq<AssistantPartView> = if msg.content@.len() > 0 {
                    seq![AssistantPartView::Text(msg.content@)]
                } else {
                    Seq::empty()
                };
                if !msg.content.as_str().is_empty() {
                    parts.push(AssistantPart::Text(msg.content.clone()));
                }
                proof {
                    assert(assistant_parts_view(parts@) =~= head);
                }
                let mut i: usize = 0;
                while i < calls.len()
                    invariant
                        cs == tool_calls_view(calls@),
                        i <= calls@.len(),
                        assistant_parts_view(parts@) == head + cs.take(i as int).map_values(
                            |c: ToolCallView| AssistantPartView::ToolCall(c),
                        ),
                    decreases calls@.len() - i,
                {
                    let ghost p0 = assistant_parts_view(parts@);
                    parts.push(AssistantPart::ToolCall(calls[i].clone()));
                    proof {
                        assert(cs[i as int] == calls@[i as int]@);
                        assert(cs.take(i + 1).map_values(|c: ToolCallView| AssistantPartView::ToolCall(c)) =~= cs.take(
                            i as int,
                        ).map_values(|c: ToolCallView| AssistantPartView::ToolCall(c)).push(AssistantPartView::ToolCall(cs[i as int])));
                        assert(assistant_parts_view(parts@) =~= p0.push(AssistantPartView::ToolCall(cs[i as int])));
                    }
                    i = i + 1;
                }
                proof {
                    assert(cs.take(calls@.len() as int) =~= cs);
                }
                if parts.len() == 0 {
                    let mut one: Vec<AssistantPart> = Vec::new();
                    one.push(AssistantPart::Text(msg.content.clone()));
                    proof {
                        assert(assistant_parts_view(one@) =~= seq![AssistantPartView::Text(msg.content@)]);
                    }
                    ModelMessage::Assistant(one)
                } else {
                    ModelMessage::Assistant(parts)
                }
            },
            None => {
                let mut one: Vec<AssistantPart> = Vec::new();
                one.push(AssistantPart::Text(msg.content.clone()));
                proof {
                    assert(assistant_parts_view(one@) =~= seq![AssistantPartView::Text(msg.content@)]);
                }
                ModelMessage::Assistant(one)
            },
        },
        Role::Tool => {
            let id = match &msg.tool_call_id {
                Some(i) => i.clone(),
                None => String::new(),
            };
            let mut one: Vec<UserPart> = Vec::new();
            one.push(UserPart::ToolResult { id, text: msg.content.clone() });
            proof {
                assert(user_parts_view(one@) =~= seq![
                    UserPartView::ToolResult {
                        id: match msg@.tool_call_id {
                            Some(i) => i,
                            None => Seq::empty(),
                        },
                        text: msg.content@,
                    },
                ]);
            }
            ModelMessage::User(one)
        },
    }
}

} // verus!
