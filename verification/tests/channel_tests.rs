use xclaw::attachment::{AttachmentRecord, AttachmentSource, attachment_source, kind_to_str, media_kind, message_attachment, mime_to_ext, storage_key, stored_size};
use xclaw::channel::attachment::{AttachmentKind, IncomingAttachment};
use xclaw::channel::draft::{DraftBuffer, FinalDelivery, final_delivery, opening_draft};
use xclaw::channel::message::{OutgoingResponse, SendMessage};
use xclaw::channel::websocket::{FrameError, parse_message};
use xclaw::message::MediaKind;

fn attachment(mime: &str, data: Vec<u8>, url: Option<&str>) -> IncomingAttachment {
    IncomingAttachment {
        id: "f1".to_string(),
        kind: AttachmentKind::from_mime_type(mime),
        mime_type: mime.to_string(),
        filename: Some("x".to_string()),
        size_bytes: None,
        source_url: url.map(|u| u.to_string()),
        storage_key: None,
        extracted_text: None,
        data,
        duration_secs: None,
    }
}

#[test]
fn attachment_kind_from_mime_type() {
    assert_eq!(AttachmentKind::from_mime_type("audio/ogg"), AttachmentKind::Audio);
    assert_eq!(AttachmentKind::from_mime_type("image/png"), AttachmentKind::Image);
    assert_eq!(AttachmentKind::from_mime_type(" image/jpeg ; q=1"), AttachmentKind::Image);
    assert_eq!(AttachmentKind::from_mime_type("application/pdf"), AttachmentKind::Document);
    assert_eq!(AttachmentKind::from_mime_type(""), AttachmentKind::Document);
    assert_eq!(AttachmentKind::from_mime_type("text/plain;audio/ogg"), AttachmentKind::Document);
}

#[test]
fn mime_extensions() {
    assert_eq!(mime_to_ext("image/jpeg"), "jpg");
    assert_eq!(mime_to_ext("image/svg+xml"), "svg");
    assert_eq!(mime_to_ext("audio/mp3"), "mp3");
    assert_eq!(mime_to_ext("audio/x-wav"), "wav");
    assert_eq!(mime_to_ext("audio/webm"), "weba");
    assert_eq!(mime_to_ext("audio/m4a"), "m4a");
    assert_eq!(mime_to_ext("text/html; charset=utf-8"), "html");
    assert_eq!(mime_to_ext("application/json"), "json");
    assert_eq!(mime_to_ext("video/mp4"), "bin");
    assert_eq!(kind_to_str(&AttachmentKind::Audio), "audio");
    assert_eq!(kind_to_str(&AttachmentKind::Image), "image");
    assert_eq!(kind_to_str(&AttachmentKind::Document), "document");
    assert_eq!(storage_key("abc", "image/png"), "abc.png");
    assert_eq!(storage_key("abc", "x/y"), "abc.bin");
}

#[test]
fn attachment_sources_and_records() {
    assert!(matches!(attachment_source(&attachment("image/png", vec![1], Some("http://x"))), AttachmentSource::Inline));
    match attachment_source(&attachment("image/png", vec![], Some("http://x"))) {
        AttachmentSource::Download(u) => assert_eq!(u, "http://x"),
        other => panic!("unexpected {:?}", other),
    }
    assert!(matches!(attachment_source(&attachment("image/png", vec![], None)), AttachmentSource::Missing));
    assert_eq!(stored_size(10), Some(10));
    assert_eq!(stored_size(i32::MAX as u64), Some(i32::MAX));
    assert_eq!(stored_size(i32::MAX as u64 + 1), None);
    let a = attachment("audio/ogg", vec![1, 2, 3], None);
    let rec = AttachmentRecord::stored("id-1".to_string(), &a, 3);
    assert_eq!(rec.kind, "audio");
    assert_eq!(rec.size_bytes, 3);
    let m = message_attachment(&rec, &a);
    assert_eq!(m.attachment_id, "id-1");
    assert_eq!(m.kind, MediaKind::Audio);
    assert_eq!(media_kind(AttachmentKind::Document), MediaKind::Document);
}

#[test]
fn websocket_frames() {
    let m = parse_message("u1", "{\"content\":\"hello\",\"thread_id\":\"t1\"}").unwrap();
    assert_eq!(m.channel, "websocket");
    assert_eq!(m.user_id, "u1");
    assert_eq!(m.content, "hello");
    assert_eq!(m.thread_id.as_deref(), Some("t1"));
    assert_eq!(m.metadata, "{\"content\":\"hello\",\"thread_id\":\"t1\"}");
    assert!(m.external_id.is_none());
    let m = parse_message("u1", "{\"other\":1}").unwrap();
    assert_eq!(m.content, "");
    assert!(m.thread_id.is_none());
    let m = parse_message("u1", "[1,2]").unwrap();
    assert_eq!(m.content, "");
    assert!(matches!(parse_message("u1", "not json"), Err(FrameError::InvalidJson)));
}

#[test]
fn draft_buffer_accumulates_per_conversation() {
    let mut b = DraftBuffer::new();
    assert_eq!(b.push_chunk("t1", "Hel"), "Hel");
    assert_eq!(b.push_chunk("t2", "x"), "x");
    assert_eq!(b.push_chunk("t1", "lo"), "Hello");
    assert_eq!(b.take_final("t1"), "Hello");
    assert_eq!(b.take_final("t1"), "No Response");
    assert_eq!(b.take_final("t2"), "x");
    assert_eq!(b.push_chunk("t3", ""), "");
    assert_eq!(b.take_final("t3"), "No Response");
}

#[test]
fn final_delivery_by_channel_kind() {
    match final_delivery(true, Some("m1".to_string()), "t", "text".to_string()) {
        FinalDelivery::Finalize { message_id, content } => {
            assert_eq!(message_id, "m1");
            assert_eq!(content, "text");
        },
        other => panic!("unexpected {:?}", other),
    }
    assert!(matches!(final_delivery(true, None, "t", "text".to_string()), FinalDelivery::Nothing));
    match final_delivery(false, Some("m1".to_string()), "t", "text".to_string()) {
        FinalDelivery::Send(r) => {
            assert_eq!(r.content, "text");
            assert_eq!(r.thread_id.as_deref(), Some("t"));
            assert!(!r.is_draft);
            assert_eq!(r.metadata, "null");
        },
        other => panic!("unexpected {:?}", other),
    }
    let d = opening_draft(true, "t").unwrap();
    assert_eq!(d.content, "...");
    assert!(d.is_draft);
    assert!(opening_draft(false, "t").is_none());
    let r = OutgoingResponse::reply("t9", "x".to_string());
    assert_eq!(r.thread_id.as_deref(), Some("t9"));
    let s = SendMessage { content: "c".to_string(), recipient: "r".to_string(), subject: None, thread_ts: None };
    assert_eq!(s.recipient, "r");
}

#[test]
fn attachment_bytes_in_base64_and_fresh_ids() {
    assert_eq!(xclaw::attachment::attachment_base64(&vec![104, 105]), "aGk=");
    assert_eq!(xclaw::attachment::attachment_base64(&vec![]), "");
    let a = xclaw::attachment::new_attachment_id();
    let b = xclaw::attachment::new_attachment_id();
    assert!(uuid::Uuid::parse_str(&a).is_ok());
    assert_eq!(uuid::Uuid::parse_str(&a).unwrap().to_string(), a);
    assert_ne!(a, b);
}
