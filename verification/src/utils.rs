//! Small text helpers.
use vstd::prelude::*;
use vstd::utf8::*;
use vstd::string::StringSliceAdditionalSpecFns;
use crate::text::{starts_with, ends_with, starts_with_seq, ends_with_seq};

verus! {

/// The largest character boundary of the UTF-8 text `bytes` that is at most `max`.
pub open spec fn floor_char_boundary(bytes: Seq<u8>, max: int) -> int {
    choose|e: int|
        0 <= e <= max && is_char_boundary(bytes, e) && forall|f: int|
            e < f <= max ==> !is_char_boundary(bytes, f)
}

/// The characters `...`.
pub open spec fn ellipsis() -> Seq<char> {
    seq!['.', '.', '.']
}

/// What `truncate_preview(s, max)` gives: `s` itself when its UTF-8 encoding
/// has at most `max` bytes; otherwise the characters encoded in the bytes
/// before the largest character boundary at most `max`, followed by `...`,
/// and, when `s` starts with `<tool_output`, a new line and `</tool_output>`.
pub open spec fn truncate_preview_spec(s: Seq<char>, max: int) -> Seq<char> {
    let bytes = encode_utf8(s);
    if bytes.len() <= max {
        s
    } else {
        let head = decode_utf8(bytes.subrange(0, floor_char_boundary(bytes, max))) + ellipsis();
        if starts_with_seq(s, "<tool_output"@) && !ends_with_seq(head, "</tool_output>"@) {
            head + "\n</tool_output>"@
        } else {
            head
        }
    }
}

/// Shorten `s` to at most `max_bytes` bytes at a character boundary, marking
/// the cut with `...` and re-closing a cut `<tool_output>` block.
pub fn truncate_preview(s: &str, max_bytes: usize) -> (r: String)
    ensures
        r@ == truncate_preview_spec(s@, max_bytes as int),
{
    broadcast use encode_utf8_valid_utf8, is_char_boundary_start_end_of_seq, encode_utf8_decode_utf8;

    let ghost bytes = s.spec_bytes();
    let n: usize = s.as_bytes().len();
    if n <= max_bytes {
        return s.to_owned();
    }
    let mut end: usize = max_bytes;
    while end > 0 && !s.is_char_boundary(end)
        invariant
            end <= max_bytes,
            max_bytes < bytes.len(),
            bytes == s.spec_bytes(),
            forall|f: int| end < f <= max_bytes ==> !is_char_boundary(bytes, f),
        decreases end,
    {
        end = end - 1;
    }
    proof {
        assert(is_char_boundary(bytes, 0));
        assert(is_char_boundary(bytes, end as int));
        let e = floor_char_boundary(bytes, max_bytes as int);
        assert(0 <= e <= max_bytes && is_char_boundary(bytes, e) && forall|f: int|
            e < f <= max_bytes ==> !is_char_boundary(bytes, f));
        assert(e == end);
    }
    let (head, _tail) = s.split_at(end);
    proof {
        assert(head.spec_bytes() == encode_utf8(head@));
        assert(decode_utf8(encode_utf8(head@)) == head@);
    }
    let mut result = head.to_owned();
    result.append("...");
    proof {
        reveal_strlit("...");
        assert("..."@ =~= ellipsis());
    }
    if starts_with(s, "<tool_output") && !ends_with(result.as_str(), "</tool_output>") {
        result.append("\n</tool_output>");
    }
    result
}

} // verus!
