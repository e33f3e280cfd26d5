//! Attachments carried on incoming messages.
use vstd::prelude::*;
use crate::text::{find, find_seq, starts_with, starts_with_seq, trim, trim_seq};

verus! {

/// Kind of attachment carried on an incoming message.
#[derive(Debug, Clone, Copy, PartialEq, Eq, Structural)]
pub enum AttachmentKind {
    /// Audio content (voice notes, audio files).
    Audio,
    /// Image content (photos, screenshots).
    Image,
    /// Document content (PDFs, files).
    Document,
}

/// The MIME type `mime` without its parameters: what comes before the first
/// `;`, without surrounding white space.
pub open spec fn base_mime(mime: Seq<char>) -> Seq<char> {
    match find_seq(mime, ";"@) {
        Some(i) => trim_seq(mime.take(i)),
        None => trim_seq(mime),
    }
}

/// The kind of an attachment of MIME type `mime`: audio and image types by
/// their prefix, documents otherwise.
pub open spec fn kind_of_mime(mime: Seq<char>) -> AttachmentKind {
    let base = base_mime(mime);
    if starts_with_seq(base, "audio/"@) {
        AttachmentKind::Audio
    } else if starts_with_seq(base, "image/"@) {
        AttachmentKind::Image
    } else {
        AttachmentKind::Document
    }
}

impl AttachmentKind {
    /// The kind of an attachment of MIME type `mime` (see `kind_of_mime`).
    pub fn from_mime_type(mime: &str) -> (k: Self)
        ensures
            k == kind_of_mime(mime@),
    {
        let head = match find(mime, ";") {
            Some(i) => {
                mime.substring_char(0, i)
            },
            None => mime,
        };
        proof {
            if let Some(i) = find_seq(mime@, ";"@) {
                assert(head@ =~= mime@.take(i));
            }
        }
        let base = trim(head);
        if starts_with(base, "audio/") {
            AttachmentKind::Audio
        } else if starts_with(base, "image/") {
            AttachmentKind::Image
        } else {
            AttachmentKind::Document
        }
    }
}

/// A file or media attachment on an incoming message.
#[derive(Debug)]
pub struct IncomingAttachment {
    /// Unique identifier within the channel.
    pub id: String,
    /// What kind of content this is.
    pub kind: AttachmentKind,
    /// MIME type (e.g., "image/jpeg", "audio/ogg", "application/pdf").
    pub mime_type: String,
    /// Original filename, if known.
    pub filename: Option<String>,
    /// File size in bytes, if known.
    pub size_bytes: Option<u64>,
    /// URL to download the file from the channel's API.
    pub source_url: Option<String>,
    /// Opaque key for host-side storage.
    pub storage_key: Option<String>,
    /// Extracted text content (e.g., OCR result, PDF text, audio transcript).
    pub extracted_text: Option<String>,
    /// Raw file bytes (for small files downloaded by the channel).
    pub data: Vec<u8>,
    /// Duration in seconds (for audio and video).
    pub duration_secs: Option<u32>,
}

} // verus!
