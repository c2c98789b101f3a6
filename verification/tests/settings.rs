use parse_message::domain::json::{JsonNumber, JsonValue};
use parse_message::domain::models::{DiscordChannelSettings, DiscordPluginSettings};
use parse_message::domain::settings::{
    change_channel_id, configured_indices, control_patch, get_control, migrate, normalize, settings_to_json,
    snapshot, SCHEMA_VERSION,
};

fn channel(id: &str, name: &str) -> DiscordChannelSettings {
    DiscordChannelSettings {
        id: id.into(),
        name: name.into(),
        last_processed_message_id: None,
    }
}

fn text(s: &str) -> JsonValue {
    JsonValue::String(s.into())
}

fn object(entries: Vec<(&str, JsonValue)>) -> JsonValue {
    JsonValue::Object(entries.into_iter().map(|(k, v)| (k.to_string(), v)).collect())
}

#[test]
fn cursor_is_preserved_only_when_channel_id_is_unchanged() {
    let mut channel = channel("1", "notes");
    channel.last_processed_message_id = Some("99".into());
    assert_eq!(change_channel_id(channel.clone(), "1".into()), channel);
    assert!(
        change_channel_id(channel, "2".into())
            .last_processed_message_id
            .is_none()
    );
}

#[test]
fn controls_validate_without_resetting_other_settings() {
    assert_eq!(
        control_patch("clippingDirectoryName", &text(" \u{feff} ")).unwrap(),
        text("DiscordClippings")
    );
    assert_eq!(
        control_patch("sendSyncNotifications", &JsonValue::Bool(false)).unwrap(),
        JsonValue::Bool(false)
    );
    assert!(control_patch("sendSyncNotifications", &text("false")).is_err());
    assert!(control_patch("channels", &JsonValue::Array(vec![])).is_err());
}

#[test]
fn control_errors_name_the_key() {
    assert_eq!(
        control_patch("sendSyncNotifications", &text("false")).unwrap_err(),
        "Setting \"sendSyncNotifications\" requires a boolean value."
    );
    assert_eq!(control_patch("channels", &JsonValue::Null).unwrap_err(), "Unknown setting key \"channels\".");
    assert_eq!(control_patch("botToken", &JsonValue::Bool(true)).unwrap(), text(""));
    assert_eq!(control_patch("botToken", &text("  abc ")).unwrap(), text("abc"));
    assert_eq!(control_patch("noNewNotificationTemplate", &text("")).unwrap(), text("⚠️ No new messages."));
}

#[test]
fn defaults_are_the_documented_ones() {
    let d = DiscordPluginSettings::default();
    assert_eq!(d.settings_version, SCHEMA_VERSION);
    assert_eq!(d.clipping_directory_name, "DiscordClippings");
    assert_eq!(d.bot_token, "");
    assert!(d.channels.is_empty());
    assert!(d.enable_auto_sync_on_startup && d.send_sync_notifications);
    assert_eq!(d.notification_templates.saved, "✅ {count} messages saved.");
    assert_eq!(d.notification_templates.no_new, "⚠️ No new messages.");
}

#[test]
fn legacy_settings_are_migrated_to_a_channel_list() {
    let raw = object(vec![
        ("channelId", text(" 123 ")),
        ("lastProcessedMessageId", text("456")),
        ("botToken", text(" token ")),
        ("enableAutoSyncOnStartup", JsonValue::Bool(false)),
    ]);
    let result = migrate(&raw);
    assert!(result.did_migrate);
    let s = result.settings;
    assert_eq!(s.channels, vec![DiscordChannelSettings {
        id: "123".into(),
        name: "".into(),
        last_processed_message_id: Some("456".into()),
    }]);
    assert_eq!(s.bot_token, "token");
    assert!(!s.enable_auto_sync_on_startup);
    assert!(s.send_sync_notifications);
    assert_eq!(s.clipping_directory_name, "DiscordClippings");
}

#[test]
fn channel_lists_drop_blank_and_repeated_ids_and_non_objects() {
    let raw = object(vec![
        ("settingsVersion", JsonValue::Number(JsonNumber::PosInt(3))),
        ("channels", JsonValue::Array(vec![
            object(vec![("id", text("1")), ("name", text(" one ")), ("lastProcessedMessageId", text(" "))]),
            text("not a channel"),
            object(vec![("id", text(" "))]),
            object(vec![("id", text("1")), ("name", text("again"))]),
            object(vec![("id", text("2")), ("lastProcessedMessageId", text("9"))]),
        ])),
        ("notificationTemplates", object(vec![("saved", text(" {count} ok ")), ("noNew", JsonValue::Bool(true))])),
    ]);
    let result = migrate(&raw);
    assert!(!result.did_migrate);
    let s = result.settings;
    assert_eq!(s.channels, vec![
        channel("1", "one"),
        DiscordChannelSettings { id: "2".into(), name: "".into(), last_processed_message_id: Some("9".into()) },
    ]);
    assert_eq!(s.notification_templates.saved, "{count} ok");
    assert_eq!(s.notification_templates.no_new, "⚠️ No new messages.");
}

#[test]
fn versions_other_than_the_current_one_migrate() {
    let old = object(vec![("settingsVersion", JsonValue::Number(JsonNumber::PosInt(2)))]);
    assert!(migrate(&old).did_migrate);
    let float = object(vec![("settingsVersion", JsonValue::Number(JsonNumber::FloatBits(3.0f64.to_bits())))]);
    assert!(migrate(&float).did_migrate);
    assert!(!migrate(&JsonValue::Null).did_migrate);
    assert_eq!(migrate(&JsonValue::Null).settings, DiscordPluginSettings::default());
}

#[test]
fn normalizing_stored_settings_changes_nothing() {
    let raw = object(vec![
        ("channels", JsonValue::Array(vec![
            object(vec![("id", text("5")), ("name", text("a")), ("lastProcessedMessageId", text("8"))]),
            object(vec![("id", text("6"))]),
        ])),
        ("clippingDirectoryName", text(" Clips ")),
    ]);
    let once = normalize(&raw);
    let twice = normalize(&settings_to_json(&once));
    assert_eq!(once, twice);
    assert!(!migrate(&settings_to_json(&once)).did_migrate);
    assert_eq!(configured_indices(&once.channels), vec![0, 1]);
}

#[test]
fn configured_indices_skip_blank_and_repeated_ids() {
    let cs = vec![channel("", "x"), channel("1", "a"), channel("1", "b"), channel("2", "c")];
    assert_eq!(configured_indices(&cs), vec![1, 3]);
}

#[test]
fn controls_read_the_stored_form() {
    let mut s = DiscordPluginSettings::default();
    s.channels.push(channel("1", "n"));
    assert_eq!(get_control(&s, "savedNotificationTemplate"), text("✅ {count} messages saved."));
    assert_eq!(get_control(&s, "clippingDirectoryName"), text("DiscordClippings"));
    assert_eq!(get_control(&s, "settingsVersion"), JsonValue::Number(JsonNumber::PosInt(3)));
    assert_eq!(get_control(&s, "enableAutoSyncOnStartup"), JsonValue::Bool(true));
    assert_eq!(
        get_control(&s, "channels"),
        JsonValue::Array(vec![object(vec![("id", text("1")), ("name", text("n"))])])
    );
    assert_eq!(get_control(&s, "missing"), JsonValue::Null);
}

#[test]
fn snapshots_carry_the_sync_settings() {
    let mut s = DiscordPluginSettings::default();
    s.bot_token = "t".into();
    let snap = snapshot(s, "Asia/Tokyo".into());
    assert_eq!(snap.bot_token, "t");
    assert_eq!(snap.time_zone, "Asia/Tokyo");
    assert_eq!(snap.clipping_directory_name, "DiscordClippings");
    assert!(snap.send_sync_notifications);
}
