use parse_message::domain::messages::{extract_url, processed};
use parse_message::domain::models::{DiscordAuthor, DiscordMember, DiscordMessage};

#[test]
fn extracts_the_first_url_and_ignores_messages_without_one() {
    assert_eq!(
        extract_url("  https://example.com  "),
        Some("https://example.com".to_owned())
    );
    assert_eq!(
        extract_url("check this out https://example.com/path?q=1 thanks"),
        Some("https://example.com/path?q=1".to_owned())
    );
    assert_eq!(extract_url("hello world"), None);
    assert_eq!(extract_url(""), None);
}

fn message(id: &str) -> DiscordMessage {
    DiscordMessage {
        id: id.into(),
        content: "https://example.com".into(),
        timestamp: "2026-06-30T15:30:00Z".into(),
        author: None,
        member: None,
    }
}

#[test]
fn file_name_uses_the_sanitized_title_when_one_is_available() {
    let processed_message = processed(
        "content".into(),
        Some("  A: Title / With * Illegal? Chars  "),
        message("123"),
        "UTC",
    )
    .unwrap();

    assert_eq!(
        processed_message.file_name,
        "20260630_153000_A- Title - With - Illegal- Chars"
    );
}

#[test]
fn file_name_falls_back_to_the_message_id_without_a_usable_title() {
    assert_eq!(
        processed("content".into(), None, message("123"), "UTC")
            .unwrap()
            .file_name,
        "20260630_153000_123"
    );
    assert_eq!(
        processed("content".into(), Some("   "), message("124"), "UTC")
            .unwrap()
            .file_name,
        "20260630_153000_124"
    );
}

#[test]
fn file_name_truncates_long_titles_without_a_dangling_separator() {
    let title = "a".repeat(105);
    let processed_message =
        processed("content".into(), Some(&title), message("123"), "UTC").unwrap();

    assert_eq!(
        processed_message.file_name,
        format!("20260630_153000_{}", "a".repeat(100))
    );
}

#[test]
fn truncated_titles_drop_trailing_separators() {
    let title = format!("{} - rest", "b".repeat(98));
    let p = processed("c".into(), Some(&title), message("1"), "UTC").unwrap();
    assert_eq!(p.file_name, format!("20260630_153000_{}", "b".repeat(98)));
}

#[test]
fn extraction_matches_the_regex_the_pattern_describes() {
    let re = regex_lite::Regex::new(r"https?://\S+").unwrap();
    let samples = [
        "https://",
        "http://x",
        "xhttps://a b",
        "see http:// then https://ok.example/x\ty",
        "\u{3000}https://wide\u{3000}space\u{3000}",
        "HTTPS://upper.case",
        "https:/missing",
        "ahttp://a.b\u{a0}c https://d",
        "text\nhttp://line\u{b}tab",
        "httpss://x http://y",
    ];
    for s in samples {
        let trimmed = s.trim_matches(|c: char| {
            matches!(c, '\u{0009}'..='\u{000d}' | '\u{0020}' | '\u{00a0}' | '\u{1680}' | '\u{2000}'..='\u{200a}'
                | '\u{2028}' | '\u{2029}' | '\u{202f}' | '\u{205f}' | '\u{3000}' | '\u{feff}')
        });
        let expected = re.find(trimmed).map(|m| m.as_str().to_owned());
        assert_eq!(extract_url(s), expected, "input: {s:?}");
    }
}

#[test]
fn author_name_prefers_nick_then_global_name_then_username_then_id() {
    let mut m = message("5");
    m.author = Some(DiscordAuthor {
        id: Some("77".into()),
        username: Some(" user ".into()),
        global_name: Some("  ".into()),
        bot: None,
    });
    m.member = Some(DiscordMember { nick: None });
    let p = processed("md".into(), None, m.clone(), "UTC").unwrap();
    assert_eq!(p.author_name, "user");
    assert_eq!(p.author_id, "77");
    assert_eq!(p.markdown, "md");
    assert_eq!(p.message_id, "5");
    assert_eq!(p.timestamp, "2026-06-30T15:30:00Z");

    m.member = Some(DiscordMember { nick: Some(" Nick ".into()) });
    assert_eq!(processed("md".into(), None, m.clone(), "UTC").unwrap().author_name, "Nick");

    m.member = None;
    m.author.as_mut().unwrap().username = None;
    assert_eq!(processed("md".into(), None, m.clone(), "UTC").unwrap().author_name, "77");

    m.author = None;
    let p = processed("md".into(), None, m, "UTC").unwrap();
    assert_eq!(p.author_name, "Unknown");
    assert_eq!(p.author_id, "");
}

#[test]
fn times_are_converted_into_the_zone() {
    let mut m = message("9");
    m.timestamp = "2026-06-30T15:30:45.999+02:00".into();
    assert_eq!(
        processed("x".into(), None, m.clone(), "Asia/Tokyo").unwrap().file_name,
        "20260630_223045_9"
    );
    assert_eq!(
        processed("x".into(), None, m.clone(), "America/New_York").unwrap().file_name,
        "20260630_093045_9"
    );
}

#[test]
fn bad_timestamps_and_zones_are_errors() {
    let mut m = message("9");
    assert_eq!(
        processed("x".into(), None, m.clone(), "Mars/Base").unwrap_err(),
        "Invalid time zone: Mars/Base"
    );
    m.timestamp = "yesterday".into();
    assert_eq!(
        processed("x".into(), None, m, "UTC").unwrap_err(),
        "Invalid timestamp: yesterday"
    );
}
