//! Attachments kept by the host: where their bytes come from, the key they
//! are stored under, and the record of each.
use vstd::prelude::*;
use crate::channel::attachment::{AttachmentKind, IncomingAttachment, base_mime};
use crate::message::{MediaKind, MessageAttachment, clone_opt_string};
use crate::text::{find, find_seq, str_eq, trim, trim_seq};
use crate::ext::{base64_encode, base64_standard, new_uuid, uuid_parse, uuid_text, uuid_to_string};

verus! {

/// The bytes of an attachment in standard base64, as the model's API takes them.
pub fn attachment_base64(bytes: &Vec<u8>) -> (r: String)
    ensures
        r@ == base64_standard(bytes@),
{
    base64_encode(bytes)
}

/// A fresh identifier for a new attachment: the text of a random identifier,
/// which reads back as that identifier.
pub fn new_attachment_id() -> (r: String)
    ensures
        exists|id: u128| r@ == uuid_text(id) && uuid_parse(r@) == Some(id),
{
    let id = new_uuid();
    let r = uuid_to_string(id);
    proof {
        assert(r@ == uuid_text(id) && uuid_parse(r@) == Some(id));
    }
    r
}

/// A stored attachment.
#[derive(Debug)]
pub struct AttachmentRecord {
    pub id: String,
    pub kind: String,
    pub mime_type: String,
    pub filename: Option<String>,
    pub size_bytes: u64,
}

/// The name of an attachment kind as stored.
pub open spec fn kind_name(kind: AttachmentKind) -> Seq<char> {
    match kind {
        AttachmentKind::Audio => "audio"@,
        AttachmentKind::Image => "image"@,
        AttachmentKind::Document => "document"@,
    }
}

/// The name of an attachment kind as stored (see `kind_name`).
pub fn kind_to_str(kind: &AttachmentKind) -> (r: &'static str)
    ensures
        r@ == kind_name(*kind),
{
    match kind {
        AttachmentKind::Audio => "audio",
        AttachmentKind::Image => "image",
        AttachmentKind::Document => "document",
    }
}

/// The file extension for a MIME type without parameters; `bin` for
/// unknown types.
pub open spec fn ext_of_base(base: Seq<char>) -> Seq<char> {
    if base == "image/jpeg"@ {
        "jpg"@
    } else if base == "image/png"@ {
        "png"@
    } else if base == "image/gif"@ {
        "gif"@
    } else if base == "image/webp"@ {
        "webp"@
    } else if base == "image/svg+xml"@ {
        "svg"@
    } else if base == "audio/mpeg"@ || base == "audio/mp3"@ {
        "mp3"@
    } else if base == "audio/ogg"@ {
        "ogg"@
    } else if base == "audio/wav"@ || base == "audio/x-wav"@ {
        "wav"@
    } else if base == "audio/webm"@ {
        "weba"@
    } else if base == "audio/mp4"@ || base == "audio/m4a"@ {
        "m4a"@
    } else if base == "application/pdf"@ {
        "pdf"@
    } else if base == "text/plain"@ {
        "txt"@
    } else if base == "text/html"@ {
        "html"@
    } else if base == "application/json"@ {
        "json"@
    } else {
        "bin"@
    }
}

/// The file extension for MIME type `mime` (see `ext_of_base` and `base_mime`).
pub fn mime_to_ext(mime: &str) -> (r: &'static str)
    ensures
        r@ == ext_of_base(base_mime(mime@)),
{
    let head = match find(mime, ";") {
        Some(i) => mime.substring_char(0, i),
        None => mime,
    };
    proof {
        if let Some(i) = find_seq(mime@, ";"@) {
            assert(head@ =~= mime@.take(i));
        }
    }
    let base = trim(head);
    if str_eq(base, "image/jpeg") {
        "jpg"
    } else if str_eq(base, "image/png") {
        "png"
    } else if str_eq(base, "image/gif") {
        "gif"
    } else if str_eq(base, "image/webp") {
        "webp"
    } else if str_eq(base, "image/svg+xml") {
        "svg"
    } else if str_eq(base, "audio/mpeg") || str_eq(base, "audio/mp3") {
        "mp3"
    } else if str_eq(base, "audio/ogg") {
        "ogg"
    } else if str_eq(base, "audio/wav") || str_eq(base, "audio/x-wav") {
        "wav"
    } else if str_eq(base, "audio/webm") {
        "weba"
    } else if str_eq(base, "audio/mp4") || str_eq(base, "audio/m4a") {
        "m4a"
    } else if str_eq(base, "application/pdf") {
        "pdf"
    } else if str_eq(base, "text/plain") {
        "txt"
    } else if str_eq(base, "text/html") {
        "html"
    } else if str_eq(base, "application/json") {
        "json"
    } else {
        "bin"
    }
}

/// The key an attachment is stored under: its identifier and the extension
/// of its MIME type.
pub open spec fn storage_key_of(id: Seq<char>, mime: Seq<char>) -> Seq<char> {
    id + "."@ + ext_of_base(base_mime(mime))
}

/// The key attachment `id` of MIME type `mime` is stored under (see `storage_key_of`).
pub fn storage_key(id: &str, mime: &str) -> (r: String)
    ensures
        r@ == storage_key_of(id@, mime@),
{
    let mut r = id.to_owned();
    r.append(".");
    r.append(mime_to_ext(mime));
    r
}

/// Where the bytes of an incoming attachment come from.
#[derive(Debug)]
pub enum AttachmentSource {
    /// The bytes came with the message.
    Inline,
    /// The bytes are downloaded from this URL.
    Download(String),
    /// The attachment has neither bytes nor a URL.
    Missing,
}

/// Where the bytes of an incoming attachment come from: its own bytes when
/// it has some, else its URL, else nowhere.
pub fn attachment_source(a: &IncomingAttachment) -> (r: AttachmentSource)
    ensures
        a.data@.len() > 0 ==> r is Inline,
        a.data@.len() == 0 ==> match a.source_url {
            Some(u) => r matches AttachmentSource::Download(x) && x@ == u@,
            None => r is Missing,
        },
{
    if a.data.len() > 0 {
        AttachmentSource::Inline
    } else {
        match &a.source_url {
            Some(u) => AttachmentSource::Download(u.clone()),
            None => AttachmentSource::Missing,
        }
    }
}

/// The size stored in the database: the size when a 32-bit column holds it.
pub fn stored_size(size_bytes: u64) -> (r: Option<i32>)
    ensures
        size_bytes <= i32::MAX ==> r == Some(size_bytes as i32),
        size_bytes > i32::MAX ==> r is None,
{
    if size_bytes <= 2147483647u64 {
        Some(size_bytes as i32)
    } else {
        None
    }
}

/// The media kind of an attachment kind.
pub open spec fn media_kind_of(k: AttachmentKind) -> MediaKind {
    match k {
        AttachmentKind::Audio => MediaKind::Audio,
        AttachmentKind::Image => MediaKind::Image,
        AttachmentKind::Document => MediaKind::Document,
    }
}

/// The media kind of an attachment kind (see `media_kind_of`).
pub fn media_kind(k: AttachmentKind) -> (r: MediaKind)
    ensures
        r == media_kind_of(k),
{
    match k {
        AttachmentKind::Audio => MediaKind::Audio,
        AttachmentKind::Image => MediaKind::Image,
        AttachmentKind::Document => MediaKind::Document,
    }
}

impl AttachmentRecord {
    /// The record of incoming attachment `a`, stored as `id` with `size_bytes` bytes.
    pub fn stored(id: String, a: &IncomingAttachment, size_bytes: u64) -> (r: Self)
        ensures
            r.id@ == id@,
            r.kind@ == kind_name(a.kind),
            r.mime_type@ == a.mime_type@,
            r.filename.deep_view() == a.filename.deep_view(),
            r.size_bytes == size_bytes,
    {
        AttachmentRecord {
            id,
            kind: kind_to_str(&a.kind).to_owned(),
            mime_type: a.mime_type.clone(),
            filename: clone_opt_string(&a.filename),
            size_bytes,
        }
    }
}

/// The attachment of a message for the stored record `record` of incoming
/// attachment `a`.
pub fn message_attachment(record: &AttachmentRecord, a: &IncomingAttachment) -> (r: MessageAttachment)
    ensures
        r.attachment_id@ == record.id@,
        r.kind == media_kind_of(a.kind),
        r.mime_type@ == a.mime_type@,
        r.filename.deep_view() == a.filename.deep_view(),
{
    MessageAttachment {
        attachment_id: record.id.clone(),
        kind: media_kind(a.kind),
        mime_type: a.mime_type.clone(),
        filename: clone_opt_string(&a.filename),
    }
}

} // verus!
