use parse_message::domain::messages::processed;
use parse_message::domain::models::{DiscordMessage, ProcessedMessage};
use parse_message::domain::storage::{individual_id, plan, StorageInput};

fn message(id: &str) -> DiscordMessage {
    DiscordMessage {
        id: id.into(),
        content: "hello".into(),
        timestamp: "2026-06-30T15:30:00Z".into(),
        author: None,
        member: None,
    }
}

#[test]
fn storage_plan_deduplicates_by_message_id() {
    let clipping = processed("clip".into(), None, message("2"), "Asia/Tokyo").unwrap();
    let input = StorageInput {
        clipping_directory: "Clips".into(),
        messages: vec![clipping.clone(), clipping],
        existing_ids: vec![],
    };
    let plan = plan(input.clone());
    assert_eq!(plan.writes.len(), 1);
    assert_eq!(plan.writes[0].path, "Clips/20260701_003000_2.md");

    let plan = parse_message::domain::storage::plan(StorageInput {
        existing_ids: vec!["2".into()],
        ..input
    });
    assert!(plan.writes.is_empty());
}

#[test]
fn individual_ids_reject_lookalike_names_without_parsing_calendar_dates() {
    for (name, expected) in [
        ("20260701_123456_0001.md", "0001"),
        ("99999999_999999_123.md", "123"),
    ] {
        assert_eq!(individual_id(name).as_deref(), Some(expected));
    }
    for name in [
        "2026071_123456_1.md",
        "20260701_12345_1.md",
        "20260701_123456_.md",
        "20260701_123456_1_2.md",
        "20260701_123456_１２.md",
        "２０２６0701_123456_1.md",
        "20260701_123456_1.md\n",
        "20260701_123456_1.MD",
        "notes/20260701_123456_1.md",
    ] {
        assert!(individual_id(name).is_none(), "name: {name:?}");
    }
}

fn clip(id: &str, file: &str, markdown: &str) -> ProcessedMessage {
    ProcessedMessage {
        message_id: id.into(),
        timestamp: String::new(),
        author_id: String::new(),
        author_name: String::new(),
        markdown: markdown.into(),
        file_name: file.into(),
    }
}

#[test]
fn plans_keep_message_order_and_content() {
    let p = plan(StorageInput {
        clipping_directory: "D".into(),
        messages: vec![clip("1", "a", "A"), clip("2", "b", "B"), clip("1", "c", "C"), clip("3", "d", "D")],
        existing_ids: vec!["3".into()],
    });
    let got: Vec<(String, String)> = p.writes.into_iter().map(|w| (w.path, w.content)).collect();
    assert_eq!(got, vec![("D/a.md".to_string(), "A".to_string()), ("D/b.md".to_string(), "B".to_string())]);
}

#[test]
fn saved_untitled_clippings_are_found_by_id() {
    let p = processed("x".into(), None, message("123456789"), "UTC").unwrap();
    let name = format!("{}.md", p.file_name);
    assert_eq!(individual_id(&name).as_deref(), Some("123456789"));
}
