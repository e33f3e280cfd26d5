//! Chat messages exchanged with the language model.
use vstd::prelude::*;

verus! {

/// Author of a chat message.
#[derive(Debug, Clone, Copy, PartialEq, Eq, Structural)]
pub enum Role {
    System,
    User,
    Assistant,
    Tool,
}

/// A tool call requested by the assistant. `arguments` is a JSON document.
#[derive(Debug)]
pub struct ToolCall {
    pub id: String,
    pub name: String,
    pub arguments: String,
}

pub struct ToolCallView {
    pub id: Seq<char>,
    pub name: Seq<char>,
    pub arguments: Seq<char>,
}

impl View for ToolCall {
    type V = ToolCallView;

    open spec fn view(&self) -> ToolCallView {
        ToolCallView { id: self.id@, name: self.name@, arguments: self.arguments@ }
    }
}

impl Clone for ToolCall {
    fn clone(&self) -> (r: Self)
        ensures
            r@ == self@,
    {
        ToolCall { id: self.id.clone(), name: self.name.clone(), arguments: self.arguments.clone() }
    }
}

/// Kind of media attached to a message.
#[derive(Debug, Clone, Copy, PartialEq, Eq, Structural)]
pub enum MediaKind {
    Image,
    Audio,
    Document,
}

/// A stored attachment referenced from a message.
#[derive(Debug)]
pub struct MessageAttachment {
    pub attachment_id: String,
    pub kind: MediaKind,
    pub mime_type: String,
    pub filename: Option<String>,
}

pub struct MessageAttachmentView {
    pub attachment_id: Seq<char>,
    pub kind: MediaKind,
    pub mime_type: Seq<char>,
    pub filename: Option<Seq<char>>,
}

impl View for MessageAttachment {
    type V = MessageAttachmentView;

    open spec fn view(&self) -> MessageAttachmentView {
        MessageAttachmentView {
            attachment_id: self.attachment_id@,
            kind: self.kind,
            mime_type: self.mime_type@,
            filename: self.filename.deep_view(),
        }
    }
}

impl Clone for MessageAttachment {
    fn clone(&self) -> (r: Self)
        ensures
            r@ == self@,
    {
        MessageAttachment {
            attachment_id: self.attachment_id.clone(),
            kind: self.kind,
            mime_type: self.mime_type.clone(),
            filename: clone_opt_string(&self.filename),
        }
    }
}

/// A part of a multimodal message.
#[derive(Debug)]
pub enum ContentPart {
    Text(String),
    ImageUrl(String),
}

pub enum ContentPartView {
    Text(Seq<char>),
    ImageUrl(Seq<char>),
}

impl View for ContentPart {
    type V = ContentPartView;

    open spec fn view(&self) -> ContentPartView {
        match self {
            ContentPart::Text(t) => ContentPartView::Text(t@),
            ContentPart::ImageUrl(u) => ContentPartView::ImageUrl(u@),
        }
    }
}

impl Clone for ContentPart {
    fn clone(&self) -> (r: Self)
        ensures
            r@ == self@,
    {
        match self {
            ContentPart::Text(t) => ContentPart::Text(t.clone()),
            ContentPart::ImageUrl(u) => ContentPart::ImageUrl(u.clone()),
        }
    }
}

/// A copy of an optional string.
pub fn clone_opt_string(s: &Option<String>) -> (r: Option<String>)
    ensures
        r.deep_view() == s.deep_view(),
{
    match s {
        Some(x) => Some(x.clone()),
        None => None,
    }
}

/// A copy of a list of strings.
pub fn clone_strings(v: &Vec<String>) -> (r: Vec<String>)
    ensures
        r.deep_view() == v.deep_view(),
{
    let mut r: Vec<String> = Vec::new();
    for i in 0..v.len()
        invariant
            r@.len() == i,
            r.deep_view() == v.deep_view().take(i as int),
    {
        let x = v[i].clone();
        r.push(x);
        proof {
            assert(r.deep_view()[i as int] == v.deep_view()[i as int]);
            assert(r.deep_view() =~= v.deep_view().take(i + 1));
        }
    }
    proof {
        assert(v.deep_view().take(v.len() as int) =~= v.deep_view());
    }
    r
}

/// Views of a list of tool calls.
pub open spec fn tool_calls_view(v: Seq<ToolCall>) -> Seq<ToolCallView> {
    v.map_values(|t: ToolCall| t@)
}

/// Views of a list of attachments.
pub open spec fn attachments_view(v: Seq<MessageAttachment>) -> Seq<MessageAttachmentView> {
    v.map_values(|a: MessageAttachment| a@)
}

/// Views of a list of content parts.
pub open spec fn parts_view(v: Seq<ContentPart>) -> Seq<ContentPartView> {
    v.map_values(|p: ContentPart| p@)
}

/// A copy of a list of tool calls.
pub fn clone_tool_calls(v: &Vec<ToolCall>) -> (r: Vec<ToolCall>)
    ensures
        tool_calls_view(r@) == tool_calls_view(v@),
{
    let mut r: Vec<ToolCall> = Vec::new();
    for i in 0..v.len()
        invariant
            r@.len() == i,
            forall|j: int| 0 <= j < i ==> (#[trigger] r@[j])@ == v@[j]@,
    {
        let x = v[i].clone();
        r.push(x);
    }
    proof {
        assert(tool_calls_view(r@) =~= tool_calls_view(v@));
    }
    r
}

/// A copy of a list of attachments.
pub fn clone_attachments(v: &Vec<MessageAttachment>) -> (r: Vec<MessageAttachment>)
    ensures
        attachments_view(r@) == attachments_view(v@),
{
    let mut r: Vec<MessageAttachment> = Vec::new();
    for i in 0..v.len()
        invariant
            r@.len() == i,
            forall|j: int| 0 <= j < i ==> (#[trigger] r@[j])@ == v@[j]@,
    {
        let x = v[i].clone();
        r.push(x);
    }
    proof {
        assert(attachments_view(r@) =~= attachments_view(v@));
    }
    r
}

/// A copy of a list of content parts.
pub fn clone_parts(v: &Vec<ContentPart>) -> (r: Vec<ContentPart>)
    ensures
        parts_view(r@) == parts_view(v@),
{
    let mut r: Vec<ContentPart> = Vec::new();
    for i in 0..v.len()
        invariant
            r@.len() == i,
            forall|j: int| 0 <= j < i ==> (#[trigger] r@[j])@ == v@[j]@,
    {
        let x = v[i].clone();
        r.push(x);
    }
    proof {
        assert(parts_view(r@) =~= parts_view(v@));
    }
    r
}

/// A message of the conversation sent to the language model.
#[derive(Debug)]
pub struct ChatMessage {
    pub role: Role,
    pub content: String,
    /// Multimodal content parts.
    pub content_parts: Vec<ContentPart>,
    /// Stored attachments of a user message.
    pub attachments: Vec<MessageAttachment>,
    /// Tool call ID if this is a tool result message.
    pub tool_call_id: Option<String>,
    /// Name of the tool for tool results.
    pub name: Option<String>,
    /// Tool calls made by the assistant.
    pub tool_calls: Option<Vec<ToolCall>>,
}

pub struct ChatMessageView {
    pub role: Role,
    pub content: Seq<char>,
    pub content_parts: Seq<ContentPartView>,
    pub attachments: Seq<MessageAttachmentView>,
    pub tool_call_id: Option<Seq<char>>,
    pub name: Option<Seq<char>>,
    pub tool_calls: Option<Seq<ToolCallView>>,
}

impl View for ChatMessage {
    type V = ChatMessageView;

    open spec fn view(&self) -> ChatMessageView {
        ChatMessageView {
            role: self.role,
            content: self.content@,
            content_parts: parts_view(self.content_parts@),
            attachments: attachments_view(self.attachments@),
            tool_call_id: self.tool_call_id.deep_view(),
            name: self.name.deep_view(),
            tool_calls: match self.tool_calls {
                Some(v) => Some(tool_calls_view(v@)),
                None => None,
            },
        }
    }
}

impl Clone for ChatMessage {
    fn clone(&self) -> (r: Self)
        ensures
            r@ == self@,
    {
        ChatMessage {
            role: self.role,
            content: self.content.clone(),
            content_parts: clone_parts(&self.content_parts),
            attachments: clone_attachments(&self.attachments),
            tool_call_id: clone_opt_string(&self.tool_call_id),
            name: clone_opt_string(&self.name),
            tool_calls: match &self.tool_calls {
                Some(v) => Some(clone_tool_calls(v)),
                None => None,
            },
        }
    }
}

/// A copy of a list of chat messages.
pub fn clone_messages(v: &Vec<ChatMessage>) -> (r: Vec<ChatMessage>)
    ensures
        messages_view(r@) == messages_view(v@),
{
    let mut r: Vec<ChatMessage> = Vec::new();
    for i in 0..v.len()
        invariant
            r@.len() == i,
            forall|j: int| 0 <= j < i ==> (#[trigger] r@[j])@ == v@[j]@,
    {
        let x = v[i].clone();
        r.push(x);
    }
    proof {
        assert(messages_view(r@) =~= messages_view(v@));
    }
    r
}

/// Views of a list of chat messages.
pub open spec fn messages_view(v: Seq<ChatMessage>) -> Seq<ChatMessageView> {
    v.map_values(|m: ChatMessage| m@)
}

/// Appending a message appends its view.
pub proof fn lemma_messages_view_push(s: Seq<ChatMessage>, m: ChatMessage)
    ensures
        messages_view(s.push(m)) == messages_view(s).push(m@),
{
    assert(messages_view(s.push(m)) =~= messages_view(s).push(m@));
}

/// A message with `role` and `content` and nothing else.
pub open spec fn plain_message(role: Role, content: Seq<char>) -> ChatMessageView {
    ChatMessageView {
        role,
        content,
        content_parts: Seq::empty(),
        attachments: Seq::empty(),
        tool_call_id: None,
        name: None,
        tool_calls: None,
    }
}

impl ChatMessage {
    /// Create a system message.
    pub fn system(content: &str) -> (m: Self)
        ensures
            m@ == plain_message(Role::System, content@),
    {
        Self::plain(Role::System, content)
    }

    /// Create a user message.
    pub fn user(content: &str) -> (m: Self)
        ensures
            m@ == plain_message(Role::User, content@),
    {
        Self::plain(Role::User, content)
    }

    /// Create a user message with multimodal content parts.
    pub fn user_with_parts(content: &str, parts: Vec<ContentPart>) -> (m: Self)
        ensures
            m@ == (ChatMessageView {
                content_parts: parts_view(parts@),
                ..plain_message(Role::User, content@)
            }),
    {
        let mut m = Self::plain(Role::User, content);
        m.content_parts = parts;
        m
    }

    /// Create a user message that carries stored attachments.
    pub fn user_with_attachments(content: &str, attachments: Vec<MessageAttachment>) -> (m: Self)
        ensures
            m@ == (ChatMessageView {
                attachments: attachments_view(attachments@),
                ..plain_message(Role::User, content@)
            }),
    {
        let mut m = Self::plain(Role::User, content);
        m.attachments = attachments;
        m
    }

    /// Create an assistant message.
    pub fn assistant(content: &str) -> (m: Self)
        ensures
            m@ == plain_message(Role::Assistant, content@),
    {
        Self::plain(Role::Assistant, content)
    }

    /// Create an assistant message that includes tool calls; an empty list
    /// of calls gives a message without tool calls.
    pub fn assistant_with_tool_calls(content: Option<String>, tool_calls: Vec<ToolCall>) -> (m: Self)
        ensures
            m@ == (ChatMessageView {
                tool_calls: if tool_calls@.len() == 0 {
                    None
                } else {
                    Some(tool_calls_view(tool_calls@))
                },
                ..plain_message(
                    Role::Assistant,
                    match content {
                        Some(c) => c@,
                        None => Seq::empty(),
                    },
                )
            }),
    {
        let text = match content {
            Some(c) => c,
            None => String::new(),
        };
        let calls = if tool_calls.len() == 0 {
            None
        } else {
            Some(tool_calls)
        };
        let mut m = Self::plain(Role::Assistant, "");
        m.content = text;
        m.tool_calls = calls;
        m
    }

    /// Create a tool result message.
    pub fn tool_result(tool_call_id: &str, name: &str, content: &str) -> (m: Self)
        ensures
            m@ == (ChatMessageView {
                tool_call_id: Some(tool_call_id@),
                name: Some(name@),
                ..plain_message(Role::Tool, content@)
            }),
    {
        let mut m = Self::plain(Role::Tool, content);
        m.tool_call_id = Some(tool_call_id.to_owned());
        m.name = Some(name.to_owned());
        m
    }

    fn plain(role: Role, content: &str) -> (m: Self)
        ensures
            m@ == plain_message(role, content@),
    {
        let m = ChatMessage {
            role,
            content: content.to_owned(),
            content_parts: Vec::new(),
            attachments: Vec::new(),
            tool_call_id: None,
            name: None,
            tool_calls: None,
        };
        proof {
            assert(parts_view(m.content_parts@) =~= Seq::empty());
            assert(attachments_view(m.attachments@) =~= Seq::empty());
        }
        m
    }
}

} // verus!
