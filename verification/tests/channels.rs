use parse_message::domain::channels::{
    directory, display_name, duplicate_path, path_segment, rename, validation_error, INVALID_NAME,
};
use parse_message::domain::models::DiscordChannelSettings;

fn channel(id: &str, name: &str) -> DiscordChannelSettings {
    DiscordChannelSettings {
        id: id.into(),
        name: name.into(),
        last_processed_message_id: None,
    }
}

#[test]
fn channel_rename_rejects_collisions_without_mutating_original_data() {
    let channels = vec![channel("1", "first"), channel("2", "second")];
    assert!(rename(&channels, 1, "FIRST").is_err());
    assert!(rename(&channels, 1, "../bad").is_err());
    assert_eq!(rename(&channels, 1, "  new  ").unwrap(), "new");
    assert_eq!(channels[1].name, "second");
}

#[test]
fn rename_reports_each_refusal() {
    let channels = vec![channel("1", "first"), channel("2", "second")];
    assert_eq!(rename(&channels, 0, "a/b").unwrap_err(), INVALID_NAME);
    assert_eq!(rename(&channels, 0, " .. ").unwrap_err(), INVALID_NAME);
    assert_eq!(rename(&channels, 5, "ok").unwrap_err(), "Channel no longer exists.");
    assert_eq!(
        rename(&channels, 1, "First").unwrap_err(),
        "Channel name is already in use as folder \"First\". Enter a unique channel name."
    );
    assert_eq!(rename(&channels, 0, "first").unwrap(), "first");
}

#[test]
fn names_are_validated_for_folders() {
    assert_eq!(validation_error("."), Some(INVALID_NAME));
    assert_eq!(validation_error(".."), Some(INVALID_NAME));
    assert_eq!(validation_error("..."), None);
    for bad in ["a\\b", "a:b", "a*b", "a?b", "a\"b", "a<b", "a>b", "a|b", "a#b", "a^b", "a[b", "a]b"] {
        assert_eq!(validation_error(bad), Some(INVALID_NAME), "{bad}");
    }
    assert_eq!(validation_error("notes 2024"), None);
}

#[test]
fn display_name_falls_back_to_the_id() {
    assert_eq!(display_name(&channel("42", "")), "42");
    assert_eq!(display_name(&channel("42", "news")), "news");
}

#[test]
fn path_segments_sanitize_and_fall_back() {
    assert_eq!(path_segment(&channel("1", " a:b ")), "a-b");
    assert_eq!(path_segment(&channel("1", "..")), "1");
    assert_eq!(path_segment(&channel("9/9", "")), "9-9");
    assert_eq!(path_segment(&channel("", "   ")), "channel");
}

#[test]
fn directories_join_the_base_and_the_segment() {
    assert_eq!(directory("Logs/", &channel("1", "news")), "Logs/news");
    assert_eq!(directory("Logs//", &channel("1", "")), "Logs/1");
    assert_eq!(directory("", &channel("1", "news")), "news");
    assert_eq!(directory("///", &channel("1", "news")), "news");
}

#[test]
fn duplicates_are_found_after_unicode_normalization_and_lowercasing() {
    assert_eq!(duplicate_path(&[channel("1", "Café"), channel("2", "cafe\u{301}")]), Some("cafe\u{301}".to_string()));
    assert_eq!(duplicate_path(&[channel("1", "A"), channel("2", "b"), channel("3", "a")]), Some("a".to_string()));
    assert_eq!(duplicate_path(&[channel("1", "a"), channel("2", "b")]), None);
    assert_eq!(duplicate_path(&[channel("7", ""), channel("8", "7")]), Some("7".to_string()));
    assert_eq!(duplicate_path(&[]), None);
}
