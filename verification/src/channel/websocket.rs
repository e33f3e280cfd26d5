//! Messages of the WebSocket channel.
use vstd::prelude::*;
use crate::channel::attachment::IncomingAttachment;
use crate::channel::message::IncomingMessage;
use crate::ext::{json_canonical, json_canonical_of, json_field_str, json_str_field, new_uuid, now_nanos};

verus! {

/// Why a frame was refused.
#[derive(Debug, Clone, Copy, PartialEq, Eq, Structural)]
pub enum FrameError {
    /// The frame is no JSON document.
    InvalidJson,
}

/// The message that user `user_id` sent in the text frame `text`: the
/// frame's `content` (empty when it has none) and `thread_id` strings, the
/// frame itself as metadata; refused when the frame is no JSON document.
/// The message gets a fresh identifier and the current time.
pub fn parse_message(user_id: &str, text: &str) -> (r: Result<IncomingMessage, FrameError>)
    ensures
        json_canonical(text@) is None ==> r == Err::<IncomingMessage, FrameError>(FrameError::InvalidJson),
        json_canonical(text@) matches Some(meta) ==> r matches Ok(m) && {
            &&& m.external_id is None
            &&& m.channel@ == "websocket"@
            &&& m.user_id@ == user_id@
            &&& m.user_name is None
            &&& m.content@ == match json_field_str(text@, "content"@) {
                Some(c) => c,
                None => Seq::empty(),
            }
            &&& m.thread_id.deep_view() == json_field_str(text@, "thread_id"@)
            &&& m.metadata@ == meta
            &&& m.timezone is None
            &&& m.attachments@.len() == 0
        },
{
    let meta = match json_canonical_of(text) {
        Some(v) => v,
        None => {
            return Err(FrameError::InvalidJson);
        },
    };
    let content = match json_str_field(text, "content") {
        Some(c) => c,
        None => String::new(),
    };
    let thread_id = json_str_field(text, "thread_id");
    let attachments: Vec<IncomingAttachment> = Vec::new();
    Ok(IncomingMessage {
        id: new_uuid(),
        external_id: None,
        channel: "websocket".to_owned(),
        user_id: user_id.to_owned(),
        user_name: None,
        content,
        thread_id,
        received_at: now_nanos(),
        metadata: meta,
        timezone: None,
        attachments,
    })
}

} // verus!
