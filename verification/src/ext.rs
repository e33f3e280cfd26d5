//! Calls into `uuid`, `chrono`, `serde_json`, `base64` and `std::path`.
//!
//! Identifiers are held as the `u128` value of a `uuid::Uuid`, instants as
//! nanoseconds since the Unix epoch (the range of `chrono`'s
//! `DateTime::from_timestamp_nanos`), and JSON documents as their text.
use vstd::prelude::*;
use base64::Engine;

verus! {

/// Text of the identifier `id` as `uuid::Uuid`'s `Display` writes it.
pub uninterp spec fn uuid_text(id: u128) -> Seq<char>;

/// What `uuid::Uuid::parse_str` gives for `s`, as the `u128` value of the identifier.
pub uninterp spec fn uuid_parse(s: Seq<char>) -> Option<u128>;

/// Text of the instant `t` (nanoseconds since the epoch) as
/// `chrono::DateTime::<Utc>::to_rfc3339` writes it.
pub uninterp spec fn rfc3339_text(t: i64) -> Seq<char>;

/// What `chrono::DateTime::parse_from_rfc3339` gives for `s`, in nanoseconds
/// since the epoch; `None` where it refuses `s` or the instant has no `i64` count.
pub uninterp spec fn rfc3339_parse(s: Seq<char>) -> Option<i64>;

/// The JSON document that `serde_json` writes for the JSON string `s`.
pub uninterp spec fn json_quote(s: Seq<char>) -> Seq<char>;

/// The content of the JSON document `text` when `serde_json` reads it as a
/// JSON string, `None` when it reads something else or refuses it.
pub uninterp spec fn json_string_value(text: Seq<char>) -> Option<Seq<char>>;

/// The JSON document `text` as `serde_json` writes it again after reading it
/// into a `serde_json::Value`; `None` when `serde_json` refuses it.
pub uninterp spec fn json_canonical(text: Seq<char>) -> Option<Seq<char>>;

/// The JSON array of strings that `serde_json` writes for `items`.
pub uninterp spec fn json_string_list_text(items: Seq<Seq<char>>) -> Seq<char>;

/// The strings of the JSON array `text` as `serde_json` reads it into a
/// `Vec<String>`; `None` when it refuses it.
pub uninterp spec fn json_string_list(text: Seq<char>) -> Option<Seq<Seq<char>>>;

/// The standard base64 text of `bytes` (`base64::engine::general_purpose::STANDARD`).
pub uninterp spec fn base64_standard(bytes: Seq<u8>) -> Seq<char>;

/// The last component of the path `p` as `std::path::Path::file_name` gives it.
/// The separators are those of the platform the library is built for (`/`
/// on Unix, `/` and `\` on Windows), so this name stands for one target.
pub uninterp spec fn path_file_name(p: Seq<char>) -> Option<Seq<char>>;

/// A fresh random identifier: `uuid::Uuid::new_v4`. Nothing is promised of its value.
#[verifier::external_body]
pub(crate) fn new_uuid() -> (id: u128) {
    uuid::Uuid::new_v4().as_u128()
}

/// The current time: `chrono::Utc::now`, in nanoseconds since the epoch
/// (`i64::MAX` past the year 2262). Nothing is promised of its value.
#[verifier::external_body]
pub(crate) fn now_nanos() -> (t: i64) {
    chrono::Utc::now().timestamp_nanos_opt().unwrap_or(i64::MAX)
}

/// `uuid::Uuid::from_u128(id).to_string()`: the hyphenated lower-case text of
/// the identifier, which `uuid::Uuid::parse_str` reads back as `id`.
#[verifier::external_body]
pub(crate) fn uuid_to_string(id: u128) -> (s: String)
    ensures
        s@ == uuid_text(id),
        uuid_parse(s@) == Some(id),
{
    uuid::Uuid::from_u128(id).to_string()
}

/// `uuid::Uuid::parse_str(s)`, as the `u128` value of the identifier read.
#[verifier::external_body]
pub(crate) fn parse_uuid(s: &str) -> (r: Option<u128>)
    ensures
        r == uuid_parse(s@),
{
    match uuid::Uuid::parse_str(s) {
        Ok(u) => Some(u.as_u128()),
        Err(_) => None,
    }
}

/// `chrono::DateTime::from_timestamp_nanos(t).to_rfc3339()`. The text keeps
/// every nanosecond, so `chrono::DateTime::parse_from_rfc3339` reads back `t`.
#[verifier::external_body]
pub(crate) fn rfc3339_of(t: i64) -> (s: String)
    ensures
        s@ == rfc3339_text(t),
        rfc3339_parse(s@) == Some(t),
{
    chrono::DateTime::from_timestamp_nanos(t).to_rfc3339()
}

/// `chrono::DateTime::parse_from_rfc3339(s)`, converted to UTC and counted in
/// nanoseconds since the epoch.
#[verifier::external_body]
pub(crate) fn parse_rfc3339(s: &str) -> (r: Option<i64>)
    ensures
        r == rfc3339_parse(s@),
{
    match chrono::DateTime::parse_from_rfc3339(s) {
        Ok(d) => d.with_timezone(&chrono::Utc).timestamp_nanos_opt(),
        Err(_) => None,
    }
}

/// `serde_json::Value::String(s).to_string()`: the JSON document holding the
/// string `s`, which `serde_json` reads back as a string equal to `s`.
#[verifier::external_body]
pub(crate) fn json_quote_of(s: &str) -> (r: String)
    ensures
        r@ == json_quote(s@),
        json_string_value(r@) == Some(s@),
{
    serde_json::Value::String(s.to_string()).to_string()
}

/// Reads `text` with `serde_json::from_str::<serde_json::Value>` and gives the
/// content when it is a JSON string.
#[verifier::external_body]
pub(crate) fn json_string_of(text: &str) -> (r: Option<String>)
    ensures
        r.deep_view() == json_string_value(text@),
{
    match serde_json::from_str::<serde_json::Value>(text) {
        Ok(serde_json::Value::String(s)) => Some(s),
        _ => None,
    }
}

/// Reads `text` with `serde_json::from_str::<serde_json::Value>` and writes
/// the value again with `to_string`.
#[verifier::external_body]
pub(crate) fn json_canonical_of(text: &str) -> (r: Option<String>)
    ensures
        r.deep_view() == json_canonical(text@),
{
    match serde_json::from_str::<serde_json::Value>(text) {
        Ok(v) => Some(v.to_string()),
        Err(_) => None,
    }
}

/// `serde_json::to_string(items)` for a list of strings (it never fails for
/// one); `serde_json::from_str::<Vec<String>>` reads the text back as `items`.
#[verifier::external_body]
pub(crate) fn json_string_list_of(items: &Vec<String>) -> (r: String)
    ensures
        r@ == json_string_list_text(items.deep_view()),
        json_string_list(r@) == Some(items.deep_view()),
{
    match serde_json::to_string(items) {
        Ok(s) => s,
        Err(_) => String::new(),
    }
}

/// `serde_json::from_str::<Vec<String>>(text)`.
#[verifier::external_body]
pub(crate) fn parse_json_string_list(text: &str) -> (r: Option<Vec<String>>)
    ensures
        r.deep_view() == json_string_list(text@),
{
    match serde_json::from_str::<Vec<String>>(text) {
        Ok(v) => Some(v),
        Err(_) => None,
    }
}

/// `base64::engine::general_purpose::STANDARD.encode(bytes)`.
#[verifier::external_body]
pub(crate) fn base64_encode(bytes: &Vec<u8>) -> (r: String)
    ensures
        r@ == base64_standard(bytes@),
{
    base64::engine::general_purpose::STANDARD.encode(bytes)
}

/// `std::path::Path::new(p).file_name()`, as text.
#[verifier::external_body]
pub(crate) fn file_name_of(p: &str) -> (r: Option<String>)
    ensures
        r.deep_view() == path_file_name(p@),
{
    match std::path::Path::new(p).file_name() {
        Some(n) => match n.to_str() {
            Some(t) => Some(t.to_string()),
            None => None,
        },
        None => None,
    }
}

} // verus!

verus! {

/// The string that `serde_json` finds at key `key` of the JSON document
/// `text` (`value[key].as_str()` on the value read): `None` when `text` is
/// refused, is no object, lacks the key, or holds no string there.
pub uninterp spec fn json_field_str(text: Seq<char>, key: Seq<char>) -> Option<Seq<char>>;

/// Reads `text` with `serde_json::from_str::<serde_json::Value>` and gives
/// the string at key `key`.
#[verifier::external_body]
pub(crate) fn json_str_field(text: &str, key: &str) -> (r: Option<String>)
    ensures
        r.deep_view() == json_field_str(text@, key@),
{
    match serde_json::from_str::<serde_json::Value>(text) {
        Ok(v) => match v[key].as_str() {
            Some(s) => Some(s.to_string()),
            None => None,
        },
        Err(_) => None,
    }
}

} // verus!

verus! {

/// The path `base` joined with `part` as `std::path::Path::join` makes it, as text.
/// The separator it puts in, and what counts as an absolute `part`, are those
/// of the platform the library is built for, so this name stands for one target.
pub uninterp spec fn path_join(base: Seq<char>, part: Seq<char>) -> Seq<char>;

/// `std::path::Path::new(base).join(part)`, as text (both are text, so the
/// path is too).
#[verifier::external_body]
pub(crate) fn join_path(base: &str, part: &str) -> (r: String)
    ensures
        r@ == path_join(base@, part@),
{
    std::path::Path::new(base).join(part).to_string_lossy().into_owned()
}

} // verus!
