use parse_message::domain::headers::{rate_limit_header, rate_limit_headers};

fn entry(name: &str, value: Option<&str>) -> (String, Option<String>) {
    (name.to_string(), value.map(|v| v.to_string()))
}

#[test]
fn keeps_only_rate_limit_headers_with_text_values() {
    let entries = vec![
        entry("Set-Cookie", Some("secret=1")),
        entry("retry-after", Some("1.5")),
        entry("X-RATELIMIT-REMAINING", Some("0")),
        entry("x-ratelimit-reset-after", None),
        entry("Content-Type", Some("application/json")),
    ];
    let kept = rate_limit_headers(&entries);
    assert_eq!(
        kept,
        vec![
            ("X-RATELIMIT-REMAINING".to_string(), "0".to_string()),
            ("retry-after".to_string(), "1.5".to_string()),
        ]
    );
}

#[test]
fn a_later_header_of_the_same_name_replaces_the_earlier() {
    let entries = vec![
        entry("Retry-After", Some("1")),
        entry("X-RateLimit-Reset-After", Some("2")),
        entry("Retry-After", Some("3")),
    ];
    let kept = rate_limit_headers(&entries);
    assert_eq!(
        kept,
        vec![
            ("Retry-After".to_string(), "3".to_string()),
            ("X-RateLimit-Reset-After".to_string(), "2".to_string()),
        ]
    );
}

#[test]
fn no_headers_keep_nothing() {
    assert!(rate_limit_headers(&[]).is_empty());
    assert!(rate_limit_headers(&[entry("Set-Cookie", Some("a"))]).is_empty());
}

#[test]
fn header_names_match_ignoring_ascii_case_only() {
    assert!(rate_limit_header("RETRY-AFTER"));
    assert!(rate_limit_header("x-ratelimit-remaining"));
    assert!(!rate_limit_header("Retry-After "));
    assert!(!rate_limit_header("Retry_After"));
    assert!(!rate_limit_header("Retry-Afteŕ"));
}

#[test]
fn kept_headers_come_in_ascending_name_order() {
    let entries = vec![
        entry("x-ratelimit-reset-after", Some("3")),
        entry("Retry-After", Some("1")),
        entry("X-RateLimit-Remaining", Some("2")),
        entry("retry-after", Some("4")),
    ];
    let names: Vec<String> = rate_limit_headers(&entries).into_iter().map(|(n, _)| n).collect();
    let mut sorted = names.clone();
    sorted.sort();
    assert_eq!(names, sorted);
    assert_eq!(names, vec!["Retry-After", "X-RateLimit-Remaining", "retry-after", "x-ratelimit-reset-after"]);
}
