use parse_message::domain::{js_whitespace, sanitize_path_segment, trim, truncate_path_segment};
use parse_message::text::text_before;

#[test]
fn trim_removes_ecmascript_whitespace_only() {
    assert_eq!(trim("\u{feff}\u{3000} a b \u{2028}\t"), "a b");
    assert_eq!(trim("\u{200b}x\u{200b}"), "\u{200b}x\u{200b}");
    assert_eq!(trim("   "), "");
    assert_eq!(trim(trim("  x  ")), trim("  x  "));
    assert!(js_whitespace('\u{a0}'));
    assert!(!js_whitespace('\u{200b}'));
}

#[test]
fn sanitizing_replaces_forbidden_characters() {
    assert_eq!(sanitize_path_segment(" a\\b/c:d*e?f\"g<h>i|j#k^l[m]n "), "a-b-c-d-e-f-g-h-i-j-k-l-m-n");
    assert_eq!(sanitize_path_segment("日本語"), "日本語");
}

#[test]
fn truncation_keeps_short_text_and_cuts_long_text() {
    assert_eq!(truncate_path_segment("abc", 3), "abc");
    assert_eq!(truncate_path_segment("ab - cd", 4), "ab");
    assert_eq!(truncate_path_segment("日本語テキスト", 3), "日本語");
    assert_eq!(truncate_path_segment("- -x", 2), "");
}

#[test]
fn text_order_agrees_with_str_order() {
    let samples = ["", "a", "A", "ab", "b", "é", "z", "Z-", "retry", "Retry", "\u{10FFFF}", "\u{FFFF}"];
    for a in samples {
        for b in samples {
            assert_eq!(text_before(a, b), a < b, "{a:?} < {b:?}");
        }
    }
}
