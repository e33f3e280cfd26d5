//! Messages received from and sent to the external channels.
use vstd::prelude::*;
use crate::channel::attachment::IncomingAttachment;

verus! {

/// A message received from an external channel. `received_at` counts
/// nanoseconds since the epoch; `metadata` is a JSON document.
#[derive(Debug)]
pub struct IncomingMessage {
    /// Unique message ID.
    pub id: u128,
    /// The channel's own identifier of the message, where it has one.
    pub external_id: Option<String>,
    /// Channel this message came from.
    pub channel: String,
    /// User identifier within the channel.
    pub user_id: String,
    /// Optional display name.
    pub user_name: Option<String>,
    /// Message content.
    pub content: String,
    /// Thread/conversation ID for threaded conversations.
    pub thread_id: Option<String>,
    /// When the message was received.
    pub received_at: i64,
    /// Channel-specific metadata.
    pub metadata: String,
    /// IANA timezone string from the client (e.g. "America/New_York").
    pub timezone: Option<String>,
    /// File or media attachments on this message.
    pub attachments: Vec<IncomingAttachment>,
}

/// Response to send back to a channel. `metadata` is a JSON document.
#[derive(Debug)]
pub struct OutgoingResponse {
    /// The content to send.
    pub content: String,
    /// Optional thread ID to reply in.
    pub thread_id: Option<String>,
    /// Whether this is a draft (streaming) or final message.
    pub is_draft: bool,
    /// Optional file paths to attach.
    pub attachments: Vec<String>,
    /// Channel-specific metadata for the response.
    pub metadata: String,
}

impl OutgoingResponse {
    /// The final reply `content` in conversation `thread_id`, without
    /// attachments or metadata (JSON `null`).
    pub fn reply(thread_id: &str, content: String) -> (r: Self)
        ensures
            r.content@ == content@,
            r.thread_id.deep_view() == Some(thread_id@),
            !r.is_draft,
            r.attachments@.len() == 0,
            r.metadata@ == "null"@,
    {
        OutgoingResponse {
            content,
            thread_id: Some(thread_id.to_owned()),
            is_draft: false,
            attachments: Vec::new(),
            metadata: "null".to_owned(),
        }
    }

    /// The placeholder draft `...` opened in conversation `thread_id` while
    /// the answer streams in.
    pub fn draft_placeholder(thread_id: &str) -> (r: Self)
        ensures
            r.content@ == "..."@,
            r.thread_id.deep_view() == Some(thread_id@),
            r.is_draft,
            r.attachments@.len() == 0,
            r.metadata@ == "null"@,
    {
        OutgoingResponse {
            content: "...".to_owned(),
            thread_id: Some(thread_id.to_owned()),
            is_draft: true,
            attachments: Vec::new(),
            metadata: "null".to_owned(),
        }
    }
}

/// Message to send through a channel.
#[derive(Debug)]
pub struct SendMessage {
    pub content: String,
    pub recipient: String,
    pub subject: Option<String>,
    /// Platform thread identifier for threaded replies.
    pub thread_ts: Option<String>,
}

} // verus!
