use xclaw::text::{contains, contains_str, decimal_string, eq_ignore_ascii_case, ends_with, find, starts_with, str_eq, trim};
use xclaw::utils::truncate_preview;

#[test]
fn truncate_preview_keeps_short_text() {
    assert_eq!(truncate_preview("hello", 10), "hello");
    assert_eq!(truncate_preview("hello", 5), "hello");
    assert_eq!(truncate_preview("", 0), "");
}

#[test]
fn truncate_preview_cuts_at_a_char_boundary() {
    // 'é' takes bytes 1 and 2: byte 2 is no boundary, so the cut falls at 1.
    assert_eq!(truncate_preview("héllo", 2), "h...");
    assert_eq!(truncate_preview("héllo", 3), "hé...");
    assert_eq!(truncate_preview("abcdef", 3), "abc...");
    assert_eq!(truncate_preview("abc", 0), "...");
}

#[test]
fn truncate_preview_recloses_a_cut_tool_output() {
    let s = "<tool_output>abcdefghij</tool_output>";
    assert_eq!(truncate_preview(s, 15), "<tool_output>ab...\n</tool_output>");
    assert_eq!(truncate_preview(s, 100), s);
}

#[test]
fn text_helpers() {
    assert_eq!(trim("  x y \n"), "x y");
    assert_eq!(trim("\u{3000}z\t"), "z");
    assert!(starts_with("/stop now", "/stop"));
    assert!(!starts_with("/st", "/stop"));
    assert!(ends_with("a.json", ".json"));
    assert!(contains("please claim task #1", "claim task"));
    assert!(!contains("abc", "abd"));
    assert_eq!(find("a;b;c", ";"), Some(1));
    assert_eq!(find("abc", ";"), None);
    assert_eq!(find("认领任务x", "x"), Some(4));
    assert!(eq_ignore_ascii_case("YeS", "yes"));
    assert!(!eq_ignore_ascii_case("yes", "ye"));
    assert!(str_eq("same", "same"));
    assert!(!str_eq("same", "Same"));
    assert_eq!(decimal_string(0), "0");
    assert_eq!(decimal_string(120), "120");
    let v = vec!["a".to_string(), "b".to_string()];
    assert!(contains_str(&v, "b"));
    assert!(!contains_str(&v, "c"));
}
