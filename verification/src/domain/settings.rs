//! Defaults, migration of older settings, normalization of input values, sync snapshots.
use vstd::prelude::*;
use crate::domain::json::{
    as_flag, as_text, as_unsigned, get_member, has_key, is_object, lemma_array_view, lemma_lookup_absent,
    lemma_lookup_first, lemma_object_view,
    lemma_view_kind, member, member_flag, member_text, JsonNumber, JsonValue, JsonView,
};
use crate::domain::models::{
    copy_opt_string, ChannelView, DiscordChannelSettings, DiscordPluginSettings, MessageSyncSettingsSnapshot,
    NotificationTemplates, SettingsMigrationResult,
};
use crate::domain::{trim, trim_spec};
use crate::text::same_text;

verus! {

/// The version of the stored settings format.
pub const SCHEMA_VERSION: u32 = 3;

/// The default completion message.
pub open spec fn default_saved() -> Seq<char> {
    "✅ {count} messages saved."@
}

/// The default message for a sync without new messages.
pub open spec fn default_no_new() -> Seq<char> {
    "⚠️ No new messages."@
}

/// The default clipping folder.
pub open spec fn default_directory() -> Seq<char> {
    "DiscordClippings"@
}

/// What notification templates hold, as character sequences.
pub ghost struct TemplatesView {
    pub saved: Seq<char>,
    pub no_new: Seq<char>,
}

impl View for NotificationTemplates {
    type V = TemplatesView;

    open spec fn view(&self) -> TemplatesView {
        TemplatesView { saved: self.saved@, no_new: self.no_new@ }
    }
}

/// What the settings hold, as plain values.
pub ghost struct SettingsView {
    pub settings_version: u32,
    pub clipping_directory_name: Seq<char>,
    pub bot_token: Seq<char>,
    pub channels: Seq<ChannelView>,
    pub enable_auto_sync_on_startup: bool,
    pub send_sync_notifications: bool,
    pub notification_templates: TemplatesView,
}

impl View for DiscordPluginSettings {
    type V = SettingsView;

    open spec fn view(&self) -> SettingsView {
        SettingsView {
            settings_version: self.settings_version,
            clipping_directory_name: self.clipping_directory_name@,
            bot_token: self.bot_token@,
            channels: self.channels.deep_view(),
            enable_auto_sync_on_startup: self.enable_auto_sync_on_startup,
            send_sync_notifications: self.send_sync_notifications,
            notification_templates: self.notification_templates@,
        }
    }
}

/// The default settings.
pub open spec fn default_settings() -> SettingsView {
    SettingsView {
        settings_version: SCHEMA_VERSION,
        clipping_directory_name: default_directory(),
        bot_token: Seq::empty(),
        channels: Seq::empty(),
        enable_auto_sync_on_startup: true,
        send_sync_notifications: true,
        notification_templates: TemplatesView { saved: default_saved(), no_new: default_no_new() },
    }
}

impl Default for NotificationTemplates {
    fn default() -> (res: Self)
        ensures
            res@ == (TemplatesView { saved: default_saved(), no_new: default_no_new() }),
    {
        NotificationTemplates { saved: String::from_str("✅ {count} messages saved."), no_new: String::from_str("⚠️ No new messages.") }
    }
}

impl Default for DiscordPluginSettings {
    fn default() -> (res: Self)
        ensures
            res@ == default_settings(),
    {
        let res = DiscordPluginSettings {
            settings_version: SCHEMA_VERSION,
            clipping_directory_name: String::from_str("DiscordClippings"),
            bot_token: String::new(),
            channels: Vec::new(),
            enable_auto_sync_on_startup: true,
            send_sync_notifications: true,
            notification_templates: NotificationTemplates::default(),
        };
        assert(res.channels.deep_view() =~= Seq::<ChannelView>::empty());
        res
    }
}

/// The trimmed text of the member `key` of `v`; empty unless that member is a string.
pub open spec fn read_text(v: JsonView, key: Seq<char>) -> Seq<char> {
    trim_spec(match as_text(member(v, key)) {
        Some(t) => t,
        None => Seq::empty(),
    })
}

/// `read_text`, or `fallback` where that is empty.
pub open spec fn text_or(v: JsonView, key: Seq<char>, fallback: Seq<char>) -> Seq<char> {
    if read_text(v, key).len() == 0 { fallback } else { read_text(v, key) }
}

/// A non-empty text, or nothing.
pub open spec fn non_empty(s: Seq<char>) -> Option<Seq<char>> {
    if s.len() == 0 { None } else { Some(s) }
}

fn read_string(value: &JsonValue, key: &str) -> (res: String)
    ensures
        res@ == read_text(value@, key@),
{
    match member_text(value, key) {
        Some(t) => String::from_str(trim(t)),
        None => {
            let empty = "";
            proof { reveal_strlit(""); }
            String::from_str(trim(empty))
        },
    }
}

fn string_or(value: &JsonValue, key: &str, fallback: &str) -> (res: String)
    ensures
        res@ == text_or(value@, key@, fallback@),
{
    let text = read_string(value, key);
    if text.as_str().is_empty() {
        String::from_str(fallback)
    } else {
        text
    }
}

fn non_empty_string(s: String) -> (res: Option<String>)
    ensures
        res.deep_view() == non_empty(s@),
{
    if s.as_str().is_empty() { None } else { Some(s) }
}

/// The channel that a stored channel object describes.
pub open spec fn channel_from(c: JsonView) -> ChannelView {
    ChannelView {
        id: read_text(c, "id"@),
        name: read_text(c, "name"@),
        last_processed_message_id: non_empty(read_text(c, "lastProcessedMessageId"@)),
    }
}

/// The single channel of the settings format that predates channel lists.
pub open spec fn legacy_channel(raw: JsonView) -> ChannelView {
    ChannelView {
        id: read_text(raw, "channelId"@),
        name: Seq::empty(),
        last_processed_message_id: non_empty(read_text(raw, "lastProcessedMessageId"@)),
    }
}

/// The channels described by the objects among `items`, in order.
pub open spec fn object_channels(items: Seq<JsonView>) -> Seq<ChannelView>
    decreases items.len(),
{
    if items.len() == 0 {
        Seq::empty()
    } else if is_object(items.last()) {
        object_channels(items.drop_last()).push(channel_from(items.last()))
    } else {
        object_channels(items.drop_last())
    }
}

/// The channels that raw settings describe, before duplicates are dropped.
pub open spec fn candidate_channels(raw: JsonView) -> Seq<ChannelView> {
    match member(raw, "channels"@) {
        JsonView::Array(items) => object_channels(items),
        _ => seq![legacy_channel(raw)],
    }
}

/// Whether some channel among the first `end` has the id `id`.
pub open spec fn id_before(cs: Seq<ChannelView>, end: int, id: Seq<char>) -> bool {
    exists|k: int| 0 <= k < end && (#[trigger] cs[k]).id == id
}

/// Whether channel `i` is the first with its id, and the id is not empty.
pub open spec fn first_with_id(cs: Seq<ChannelView>, i: int) -> bool {
    cs[i].id.len() > 0 && !id_before(cs, i, cs[i].id)
}

/// The channels with a non-empty id that no earlier channel has, in order.
pub open spec fn keep_first(cs: Seq<ChannelView>) -> Seq<ChannelView>
    decreases cs.len(),
{
    if cs.len() == 0 {
        Seq::empty()
    } else if first_with_id(cs, cs.len() - 1) {
        keep_first(cs.drop_last()).push(cs.last())
    } else {
        keep_first(cs.drop_last())
    }
}

/// The settings that raw stored data normalizes to.
pub open spec fn normalize_spec(raw: JsonView) -> SettingsView {
    SettingsView {
        channels: keep_first(candidate_channels(raw)),
        clipping_directory_name: text_or(raw, "clippingDirectoryName"@, default_directory()),
        bot_token: read_text(raw, "botToken"@),
        enable_auto_sync_on_startup: match as_flag(member(raw, "enableAutoSyncOnStartup"@)) {
            Some(b) => b,
            None => true,
        },
        send_sync_notifications: match as_flag(member(raw, "sendSyncNotifications"@)) {
            Some(b) => b,
            None => true,
        },
        notification_templates: TemplatesView {
            saved: text_or(member(raw, "notificationTemplates"@), "saved"@, default_saved()),
            no_new: text_or(member(raw, "notificationTemplates"@), "noNew"@, default_no_new()),
        },
        ..default_settings()
    }
}

fn channel_from_json(c: &JsonValue) -> (res: DiscordChannelSettings)
    ensures
        res@ == channel_from(c@),
{
    let cursor = read_string(c, "lastProcessedMessageId");
    DiscordChannelSettings {
        id: read_string(c, "id"),
        name: read_string(c, "name"),
        last_processed_message_id: non_empty_string(cursor),
    }
}

fn candidates(raw: &JsonValue) -> (res: Vec<DiscordChannelSettings>)
    ensures
        res.deep_view() == candidate_channels(raw@),
{
    let m = get_member(raw, "channels");
    if let Some(JsonValue::Array(items)) = m {
        let ghost whole = m->0;
        proof { lemma_array_view(*whole); }
        let ghost views = whole@->Array_0;
        let mut res: Vec<DiscordChannelSettings> = Vec::new();
        let mut i: usize = 0;
        while i < items.len()
            invariant
                views.len() == items@.len(),
                forall|k: int| 0 <= k < items@.len() ==> #[trigger] views[k] == items@[k]@,
                i <= items@.len(),
                res.deep_view() == object_channels(views.take(i as int)),
            decreases items@.len() - i,
        {
            assert(views.take(i + 1).drop_last() =~= views.take(i as int));
            assert(views.take(i + 1).last() == items@[i as int]@);
            proof { lemma_view_kind(items@[i as int]); }
            let ghost prev = res.deep_view();
            if let JsonValue::Object(_) = &items[i] {
                res.push(channel_from_json(&items[i]));
                assert(res.deep_view() =~= prev.push(channel_from(views[i as int])));
            }
            i = i + 1;
        }
        assert(views.take(views.len() as int) =~= views);
        res
    } else {
        proof {
            if m is Some {
                lemma_view_kind(*m->0);
            }
        }
        let cursor = read_string(raw, "lastProcessedMessageId");
        let legacy = DiscordChannelSettings {
            id: read_string(raw, "channelId"),
            name: String::new(),
            last_processed_message_id: non_empty_string(cursor),
        };
        let mut res = Vec::new();
        res.push(legacy);
        assert(res.deep_view() =~= seq![legacy_channel(raw@)]);
        res
    }
}

fn contains_id(ids: &Vec<String>, id: &String) -> (res: bool)
    ensures
        res == ids.deep_view().contains(id@),
{
    let mut k: usize = 0;
    while k < ids.len()
        invariant
            k <= ids@.len(),
            forall|q: int| 0 <= q < k ==> (#[trigger] ids.deep_view()[q]) != id@,
        decreases ids@.len() - k,
    {
        if ids[k] == *id {
            assert(ids.deep_view()[k as int] == id@);
            return true;
        }
        k = k + 1;
    }
    false
}

proof fn lemma_keep_first_step(cs: Seq<ChannelView>, i: int)
    requires
        0 <= i < cs.len(),
    ensures
        keep_first(cs.take(i + 1)) == if first_with_id(cs, i) {
            keep_first(cs.take(i)).push(cs[i])
        } else {
            keep_first(cs.take(i))
        },
{
    let t = cs.take(i + 1);
    assert(t.drop_last() =~= cs.take(i));
    assert(t.last() == cs[i]);
    assert(id_before(t, i, cs[i].id) == id_before(cs, i, cs[i].id)) by {
        if id_before(t, i, cs[i].id) {
            let k = choose|k: int| 0 <= k < i && (#[trigger] t[k]).id == cs[i].id;
            assert(t[k] == cs[k]);
        }
        if id_before(cs, i, cs[i].id) {
            let k = choose|k: int| 0 <= k < i && (#[trigger] cs[k]).id == cs[i].id;
            assert(t[k] == cs[k]);
        }
    }
}

fn keep_first_channels(cs: Vec<DiscordChannelSettings>) -> (res: Vec<DiscordChannelSettings>)
    ensures
        res.deep_view() == keep_first(cs.deep_view()),
{
    let ghost all = cs.deep_view();
    let mut ids: Vec<String> = Vec::new();
    let mut res: Vec<DiscordChannelSettings> = Vec::new();
    let mut i: usize = 0;
    assert(all.take(0) =~= Seq::<ChannelView>::empty());
    assert(res.deep_view() =~= Seq::<ChannelView>::empty());
    while i < cs.len()
        invariant
            all == cs.deep_view(),
            i <= all.len(),
            forall|s: Seq<char>| #[trigger] ids.deep_view().contains(s) <==> (s.len() > 0 && id_before(all, i as int, s)),
            res.deep_view() == keep_first(all.take(i as int)),
        decreases all.len() - i,
    {
        let c = &cs[i];
        assert(all[i as int] == c@);
        let seen = contains_id(&ids, &c.id);
        proof { lemma_keep_first_step(all, i as int); }
        let ghost old_ids = ids.deep_view();
        let empty = c.id.as_str().is_empty();
        if !empty && !seen {
            let ghost prev = res.deep_view();
            res.push(crate::domain::models::copy_channel(c));
            assert(res.deep_view() =~= prev.push(all[i as int]));
            ids.push(c.id.clone());
            assert(ids.deep_view() =~= old_ids.push(c.id@));
        }
        proof {
            assert forall|s: Seq<char>| #[trigger] ids.deep_view().contains(s) <==> (s.len() > 0 && id_before(all, i + 1, s)) by {
                assert(old_ids.contains(s) <==> (s.len() > 0 && id_before(all, i as int, s)));
                if id_before(all, i + 1, s) {
                    let q = choose|q: int| 0 <= q < i + 1 && (#[trigger] all[q]).id == s;
                    if q < i {
                        assert(id_before(all, i as int, s));
                    }
                }
                if id_before(all, i as int, s) {
                    let q = choose|q: int| 0 <= q < i && (#[trigger] all[q]).id == s;
                    assert(id_before(all, i + 1, s));
                }
                if s == all[i as int].id {
                    assert(id_before(all, i + 1, s));
                    if !empty && !seen {
                        assert(ids.deep_view()[old_ids.len() as int] == s);
                    }
                }
                if ids.deep_view().contains(s) && s != all[i as int].id {
                    let q = choose|q: int| 0 <= q < ids.deep_view().len() && ids.deep_view()[q] == s;
                    assert(q < old_ids.len());
                    assert(old_ids[q] == s);
                }
                if old_ids.contains(s) {
                    let q = choose|q: int| 0 <= q < old_ids.len() && old_ids[q] == s;
                    assert(ids.deep_view()[q] == s);
                }
                if seen {
                    assert(old_ids.contains(all[i as int].id));
                }
            }
            if seen {
                assert(id_before(all, i as int, all[i as int].id));
            }
            if !seen && !empty {
                assert(!id_before(all, i as int, all[i as int].id));
            }
        }
        i = i + 1;
    }
    assert(all.take(all.len() as int) =~= all);
    res
}

/// Normalizes stored settings of any age or shape into the current settings.
pub fn normalize(raw: &JsonValue) -> (res: DiscordPluginSettings)
    ensures
        res@ == normalize_spec(raw@),
{
    let channels = keep_first_channels(candidates(raw));
    let defaults = DiscordPluginSettings::default();
    let templates = get_member(raw, "notificationTemplates");
    let (saved, no_new) = match templates {
        Some(t) => (
            string_or(t, "saved", defaults.notification_templates.saved.as_str()),
            string_or(t, "noNew", defaults.notification_templates.no_new.as_str()),
        ),
        None => {
            let null = JsonValue::Null;
            assert(null@ == JsonView::Null) by { lemma_view_kind(null); }
            (
                string_or(&null, "saved", defaults.notification_templates.saved.as_str()),
                string_or(&null, "noNew", defaults.notification_templates.no_new.as_str()),
            )
        },
    };
    DiscordPluginSettings {
        settings_version: defaults.settings_version,
        channels,
        clipping_directory_name: string_or(raw, "clippingDirectoryName", defaults.clipping_directory_name.as_str()),
        bot_token: read_string(raw, "botToken"),
        enable_auto_sync_on_startup: match member_flag(raw, "enableAutoSyncOnStartup") {
            Some(b) => b,
            None => true,
        },
        send_sync_notifications: match member_flag(raw, "sendSyncNotifications") {
            Some(b) => b,
            None => true,
        },
        notification_templates: NotificationTemplates { saved, no_new },
    }
}

/// Whether raw stored data is in an older shape than the current format.
pub open spec fn did_migrate_spec(raw: JsonView) -> bool {
    is_object(raw) && (as_unsigned(member(raw, "settingsVersion"@)) != Some(SCHEMA_VERSION as u64)
        || has_key(raw, "channelId"@) || has_key(raw, "lastProcessedMessageId"@))
}

/// Normalizes stored settings and reports whether they were in an older shape.
pub fn migrate(raw: &JsonValue) -> (res: SettingsMigrationResult)
    ensures
        res.settings@ == normalize_spec(raw@),
        res.did_migrate == did_migrate_spec(raw@),
{
    proof { lemma_view_kind(*raw); }
    let did_migrate = match raw {
        JsonValue::Object(_) => {
            let current = match get_member(raw, "settingsVersion") {
                Some(v) => {
                    proof { lemma_view_kind(*v); }
                    match v {
                        JsonValue::Number(JsonNumber::PosInt(n)) => *n == SCHEMA_VERSION as u64,
                        _ => false,
                    }
                },
                None => false,
            };
            !current || get_member(raw, "channelId").is_some()
                || get_member(raw, "lastProcessedMessageId").is_some()
        },
        _ => false,
    };
    SettingsMigrationResult { settings: normalize(raw), did_migrate }
}

/// The settings a sync run reads, with the time zone it runs in.
pub fn snapshot(s: DiscordPluginSettings, time_zone: String) -> (res: MessageSyncSettingsSnapshot)
    ensures
        res.bot_token@ == s.bot_token@,
        res.clipping_directory_name@ == s.clipping_directory_name@,
        res.send_sync_notifications == s.send_sync_notifications,
        res.notification_templates@ == s.notification_templates@,
        res.time_zone@ == time_zone@,
{
    MessageSyncSettingsSnapshot {
        bot_token: s.bot_token,
        clipping_directory_name: s.clipping_directory_name,
        send_sync_notifications: s.send_sync_notifications,
        notification_templates: s.notification_templates,
        time_zone,
    }
}

/// The positions of the channels that a sync covers: those with a non-empty id
/// that no earlier channel has, in order.
pub open spec fn configured_spec(cs: Seq<ChannelView>) -> Seq<u32>
    decreases cs.len(),
{
    if cs.len() == 0 {
        Seq::empty()
    } else if first_with_id(cs, cs.len() - 1) {
        configured_spec(cs.drop_last()).push((cs.len() - 1) as u32)
    } else {
        configured_spec(cs.drop_last())
    }
}

proof fn lemma_configured_step(cs: Seq<ChannelView>, i: int)
    requires
        0 <= i < cs.len(),
    ensures
        configured_spec(cs.take(i + 1)) == if first_with_id(cs, i) {
            configured_spec(cs.take(i)).push(i as u32)
        } else {
            configured_spec(cs.take(i))
        },
{
    let t = cs.take(i + 1);
    assert(t.drop_last() =~= cs.take(i));
    assert(t.last() == cs[i]);
    assert(id_before(t, i, cs[i].id) == id_before(cs, i, cs[i].id)) by {
        if id_before(t, i, cs[i].id) {
            let k = choose|k: int| 0 <= k < i && (#[trigger] t[k]).id == cs[i].id;
            assert(t[k] == cs[k]);
        }
        if id_before(cs, i, cs[i].id) {
            let k = choose|k: int| 0 <= k < i && (#[trigger] cs[k]).id == cs[i].id;
            assert(t[k] == cs[k]);
        }
    }
}

/// The positions of the channels that a sync covers.
pub fn configured_indices(channels: &[DiscordChannelSettings]) -> (res: Vec<u32>)
    ensures
        res@ == configured_spec(channels.deep_view()),
{
    let ghost all = channels.deep_view();
    let mut ids: Vec<String> = Vec::new();
    let mut res: Vec<u32> = Vec::new();
    let mut i: usize = 0;
    assert(all.take(0) =~= Seq::<ChannelView>::empty());
    while i < channels.len()
        invariant
            all == channels.deep_view(),
            i <= all.len(),
            forall|s: Seq<char>| #[trigger] ids.deep_view().contains(s) <==> (s.len() > 0 && id_before(all, i as int, s)),
            res@ == configured_spec(all.take(i as int)),
        decreases all.len() - i,
    {
        let c = &channels[i];
        assert(all[i as int] == c@);
        let seen = contains_id(&ids, &c.id);
        proof { lemma_configured_step(all, i as int); }
        let ghost old_ids = ids.deep_view();
        let empty = c.id.as_str().is_empty();
        if !empty && !seen {
            res.push(i as u32);
            ids.push(c.id.clone());
            assert(ids.deep_view() =~= old_ids.push(c.id@));
        }
        proof {
            assert forall|s: Seq<char>| #[trigger] ids.deep_view().contains(s) <==> (s.len() > 0 && id_before(all, i + 1, s)) by {
                assert(old_ids.contains(s) <==> (s.len() > 0 && id_before(all, i as int, s)));
                if id_before(all, i + 1, s) {
                    let q = choose|q: int| 0 <= q < i + 1 && (#[trigger] all[q]).id == s;
                    if q < i {
                        assert(id_before(all, i as int, s));
                    }
                }
                if id_before(all, i as int, s) {
                    let q = choose|q: int| 0 <= q < i && (#[trigger] all[q]).id == s;
                    assert(id_before(all, i + 1, s));
                }
                if s == all[i as int].id {
                    assert(id_before(all, i + 1, s));
                    if !empty && !seen {
                        assert(ids.deep_view()[old_ids.len() as int] == s);
                    }
                }
                if ids.deep_view().contains(s) && s != all[i as int].id {
                    let q = choose|q: int| 0 <= q < ids.deep_view().len() && ids.deep_view()[q] == s;
                    assert(q < old_ids.len());
                    assert(old_ids[q] == s);
                }
                if old_ids.contains(s) {
                    let q = choose|q: int| 0 <= q < old_ids.len() && old_ids[q] == s;
                    assert(ids.deep_view()[q] == s);
                }
                if seen {
                    assert(old_ids.contains(all[i as int].id));
                }
            }
            if seen {
                assert(id_before(all, i as int, all[i as int].id));
            }
        }
        i = i + 1;
    }
    assert(all.take(all.len() as int) =~= all);
    res
}

/// The channel with a new id. A changed id starts the channel's sync from scratch.
pub open spec fn change_channel_id_spec(c: ChannelView, id: Seq<char>) -> ChannelView {
    if c.id == id {
        c
    } else {
        ChannelView { id: id, last_processed_message_id: None, ..c }
    }
}

/// Gives a channel a new id; the sync cursor survives only when the id is unchanged.
pub fn change_channel_id(channel: DiscordChannelSettings, id: String) -> (res: DiscordChannelSettings)
    ensures
        res@ == change_channel_id_spec(channel@, id@),
{
    let mut channel = channel;
    if channel.id != id {
        channel.id = id;
        channel.last_processed_message_id = None;
    }
    channel
}

/// A stored channel object: `id`, `name`, and `lastProcessedMessageId` when there is one.
pub open spec fn channel_json(c: ChannelView) -> JsonView {
    JsonView::Object(seq![("id"@, JsonView::Str(c.id)), ("name"@, JsonView::Str(c.name))] + match c.last_processed_message_id {
        Some(cursor) => seq![("lastProcessedMessageId"@, JsonView::Str(cursor))],
        None => Seq::empty(),
    })
}

/// The stored form of the settings, with camelCase keys.
pub open spec fn settings_json(s: SettingsView) -> JsonView {
    JsonView::Object(seq![
        ("settingsVersion"@, JsonView::Number(JsonNumber::PosInt(s.settings_version as u64))),
        ("clippingDirectoryName"@, JsonView::Str(s.clipping_directory_name)),
        ("botToken"@, JsonView::Str(s.bot_token)),
        ("channels"@, JsonView::Array(s.channels.map_values(|c: ChannelView| channel_json(c)))),
        ("enableAutoSyncOnStartup"@, JsonView::Bool(s.enable_auto_sync_on_startup)),
        ("sendSyncNotifications"@, JsonView::Bool(s.send_sync_notifications)),
        ("notificationTemplates"@, JsonView::Object(seq![
            ("saved"@, JsonView::Str(s.notification_templates.saved)),
            ("noNew"@, JsonView::Str(s.notification_templates.no_new)),
        ])),
    ])
}

fn text_value(s: String) -> (res: JsonValue)
    ensures
        res@ == JsonView::Str(s@),
{
    let res = JsonValue::String(s);
    proof { lemma_view_kind(res); }
    res
}

fn flag_value(b: bool) -> (res: JsonValue)
    ensures
        res@ == JsonView::Bool(b),
{
    let res = JsonValue::Bool(b);
    proof { lemma_view_kind(res); }
    res
}

fn object_value(entries: Vec<(String, JsonValue)>) -> (res: JsonValue)
    ensures
        res@ == JsonView::Object(Seq::new(entries@.len(), |k: int| (entries@[k].0@, entries@[k].1@))),
{
    let ghost es = entries@;
    let res = JsonValue::Object(entries);
    proof {
        lemma_object_view(res);
        assert(res@->Object_0 =~= Seq::new(es.len(), |k: int| (es[k].0@, es[k].1@)));
    }
    res
}

fn channel_to_json(c: &DiscordChannelSettings) -> (res: JsonValue)
    ensures
        res@ == channel_json(c@),
{
    let mut entries: Vec<(String, JsonValue)> = Vec::new();
    entries.push((String::from_str("id"), text_value(c.id.clone())));
    entries.push((String::from_str("name"), text_value(c.name.clone())));
    match &c.last_processed_message_id {
        Some(cursor) => {
            entries.push((String::from_str("lastProcessedMessageId"), text_value(cursor.clone())));
        },
        None => {},
    }
    let res = object_value(entries);
    assert(res@->Object_0 =~= channel_json(c@)->Object_0);
    res
}

/// The stored form of the settings.
pub fn settings_to_json(s: &DiscordPluginSettings) -> (res: JsonValue)
    ensures
        res@ == settings_json(s@),
{
    let mut channels: Vec<JsonValue> = Vec::new();
    let mut i: usize = 0;
    while i < s.channels.len()
        invariant
            i <= s.channels@.len(),
            channels@.len() == i,
            forall|k: int| 0 <= k < i ==> (#[trigger] channels@[k])@ == channel_json(s.channels@[k]@),
        decreases s.channels@.len() - i,
    {
        channels.push(channel_to_json(&s.channels[i]));
        i = i + 1;
    }
    let ghost cs = channels@;
    let array = JsonValue::Array(channels);
    proof {
        lemma_array_view(array);
        assert(array@->Array_0 =~= s@.channels.map_values(|c: ChannelView| channel_json(c)));
    }
    let mut templates: Vec<(String, JsonValue)> = Vec::new();
    templates.push((String::from_str("saved"), text_value(s.notification_templates.saved.clone())));
    templates.push((String::from_str("noNew"), text_value(s.notification_templates.no_new.clone())));
    let templates = object_value(templates);
    let version = JsonValue::Number(JsonNumber::PosInt(s.settings_version as u64));
    proof { lemma_view_kind(version); }
    let mut entries: Vec<(String, JsonValue)> = Vec::new();
    entries.push((String::from_str("settingsVersion"), version));
    entries.push((String::from_str("clippingDirectoryName"), text_value(s.clipping_directory_name.clone())));
    entries.push((String::from_str("botToken"), text_value(s.bot_token.clone())));
    entries.push((String::from_str("channels"), array));
    entries.push((String::from_str("enableAutoSyncOnStartup"), flag_value(s.enable_auto_sync_on_startup)));
    entries.push((String::from_str("sendSyncNotifications"), flag_value(s.send_sync_notifications)));
    entries.push((String::from_str("notificationTemplates"), templates));
    let res = object_value(entries);
    assert(templates@->Object_0 =~= settings_json(s@)->Object_0[6].1->Object_0);
    assert(res@->Object_0 =~= settings_json(s@)->Object_0);
    res
}

/// What the settings screen shows for control `key`.
pub open spec fn get_control_spec(s: SettingsView, key: Seq<char>) -> JsonView {
    if key == "savedNotificationTemplate"@ {
        JsonView::Str(s.notification_templates.saved)
    } else if key == "noNewNotificationTemplate"@ {
        JsonView::Str(s.notification_templates.no_new)
    } else {
        member(settings_json(s), key)
    }
}

/// The value of settings control `key`.
pub fn get_control(settings: &DiscordPluginSettings, key: &str) -> (res: JsonValue)
    ensures
        res@ == get_control_spec(settings@, key@),
{
    if same_text(key, "savedNotificationTemplate") {
        text_value(settings.notification_templates.saved.clone())
    } else if same_text(key, "noNewNotificationTemplate") {
        text_value(settings.notification_templates.no_new.clone())
    } else {
        crate::domain::json::take_member(settings_to_json(settings), key)
    }
}

/// The value that an empty text control falls back to, for the text controls.
pub open spec fn control_fallback(key: Seq<char>) -> Option<Seq<char>> {
    if key == "clippingDirectoryName"@ {
        Some(default_directory())
    } else if key == "savedNotificationTemplate"@ {
        Some(default_saved())
    } else if key == "noNewNotificationTemplate"@ {
        Some(default_no_new())
    } else if key == "botToken"@ {
        Some(Seq::empty())
    } else {
        None
    }
}

/// The checked value of control `key` set to `value`, or why it is refused.
pub open spec fn control_patch_spec(key: Seq<char>, value: JsonView) -> Result<JsonView, Seq<char>> {
    match control_fallback(key) {
        Some(fallback) => {
            let text = trim_spec(match as_text(value) { Some(t) => t, None => Seq::empty() });
            Ok(JsonView::Str(if text.len() == 0 { fallback } else { text }))
        },
        None => if key == "enableAutoSyncOnStartup"@ || key == "sendSyncNotifications"@ {
            if value is Bool {
                Ok(value)
            } else {
                Err("Setting \""@ + key + "\" requires a boolean value."@)
            }
        } else {
            Err("Unknown setting key \""@ + key + "\"."@)
        },
    }
}

fn quoted_message(before: &str, key: &str, after: &str) -> (res: String)
    ensures
        res@ == before@ + key@ + after@,
{
    let mut res = String::from_str(before);
    res.append(key);
    res.append(after);
    res
}

/// Returns only the changed field, so the host can preserve channel object identity.
pub fn control_patch(key: &str, value: &JsonValue) -> (res: Result<JsonValue, String>)
    ensures
        match res {
            Ok(v) => control_patch_spec(key@, value@) == Ok::<JsonView, Seq<char>>(v@),
            Err(e) => control_patch_spec(key@, value@) == Err::<JsonView, Seq<char>>(e@),
        },
{
    let defaults = DiscordPluginSettings::default();
    let fallback: Option<String> = if same_text(key, "clippingDirectoryName") {
        Some(defaults.clipping_directory_name)
    } else if same_text(key, "savedNotificationTemplate") {
        Some(defaults.notification_templates.saved)
    } else if same_text(key, "noNewNotificationTemplate") {
        Some(defaults.notification_templates.no_new)
    } else if same_text(key, "botToken") {
        Some(String::new())
    } else {
        None
    };
    proof { lemma_view_kind(*value); }
    if let Some(fallback) = fallback {
        let text: &str = match value {
            JsonValue::String(t) => trim(t.as_str()),
            _ => {
                let empty = "";
                proof { reveal_strlit(""); }
                trim(empty)
            },
        };
        return Ok(text_value(if text.is_empty() { fallback } else { String::from_str(text) }));
    }
    if same_text(key, "enableAutoSyncOnStartup") || same_text(key, "sendSyncNotifications") {
        match value {
            JsonValue::Bool(b) => Ok(flag_value(*b)),
            _ => Err(quoted_message("Setting \"", key, "\" requires a boolean value.")),
        }
    } else {
        Err(quoted_message("Unknown setting key \"", key, "\"."))
    }
}

/// Whether every channel has a non-empty id that no other channel has.
pub open spec fn unique_ids(cs: Seq<ChannelView>) -> bool {
    &&& forall|i: int| 0 <= i < cs.len() ==> (#[trigger] cs[i]).id.len() > 0
    &&& forall|i: int, j: int| 0 <= i < j < cs.len() ==> (#[trigger] cs[i]).id != (#[trigger] cs[j]).id
}

proof fn lemma_keep_first_from(cs: Seq<ChannelView>)
    ensures
        forall|i: int| 0 <= i < keep_first(cs).len() ==> exists|k: int| 0 <= k < cs.len()
            && #[trigger] keep_first(cs)[i] == cs[k] && first_with_id(cs, k),
    decreases cs.len(),
{
    if cs.len() > 0 {
        let p = cs.drop_last();
        lemma_keep_first_from(p);
        let kp = keep_first(p);
        assert forall|i: int| 0 <= i < keep_first(cs).len() implies exists|k: int| 0 <= k < cs.len()
            && #[trigger] keep_first(cs)[i] == cs[k] && first_with_id(cs, k) by {
            if i < kp.len() {
                let k = choose|k: int| 0 <= k < p.len() && #[trigger] kp[i] == p[k] && first_with_id(p, k);
                assert(p[k] == cs[k]);
                assert(keep_first(cs)[i] == kp[i]);
                assert(first_with_id(cs, k)) by {
                    if id_before(cs, k, cs[k].id) {
                        let q = choose|q: int| 0 <= q < k && (#[trigger] cs[q]).id == cs[k].id;
                        assert(p[q] == cs[q]);
                        assert(id_before(p, k, p[k].id));
                    }
                }
            } else {
                assert(keep_first(cs)[i] == cs[cs.len() - 1]);
            }
        }
    }
}

/// Law: the channels kept by normalization have non-empty ids and no id twice.
pub proof fn law_kept_channels_have_unique_ids(cs: Seq<ChannelView>)
    ensures
        unique_ids(keep_first(cs)),
    decreases cs.len(),
{
    lemma_keep_first_from(cs);
    let kf = keep_first(cs);
    assert forall|i: int| 0 <= i < kf.len() implies (#[trigger] kf[i]).id.len() > 0 by {
        let k = choose|k: int| 0 <= k < cs.len() && #[trigger] kf[i] == cs[k] && first_with_id(cs, k);
    }
    if cs.len() > 0 {
        let p = cs.drop_last();
        law_kept_channels_have_unique_ids(p);
        lemma_keep_first_from(p);
        let kp = keep_first(p);
        assert forall|i: int, j: int| 0 <= i < j < kf.len() implies (#[trigger] kf[i]).id != (#[trigger] kf[j]).id by {
            if j < kp.len() {
                assert(kf[i] == kp[i] && kf[j] == kp[j]);
            } else {
                assert(kf[j] == cs.last());
                assert(kf[i] == kp[i]);
                let k = choose|k: int| 0 <= k < p.len() && #[trigger] kp[i] == p[k] && first_with_id(p, k);
                assert(p[k] == cs[k]);
                if kf[i].id == kf[j].id {
                    assert(id_before(cs, cs.len() - 1, cs.last().id));
                }
            }
        }
    }
}

/// Channels with unique non-empty ids are all kept, in order.
pub proof fn lemma_keep_first_unique(cs: Seq<ChannelView>)
    requires
        unique_ids(cs),
    ensures
        keep_first(cs) == cs,
        forall|i: int| 0 <= i < cs.len() ==> first_with_id(cs, i),
    decreases cs.len(),
{
    assert forall|i: int| 0 <= i < cs.len() implies first_with_id(cs, i) by {
        if id_before(cs, i, cs[i].id) {
            let q = choose|q: int| 0 <= q < i && (#[trigger] cs[q]).id == cs[i].id;
        }
    }
    if cs.len() > 0 {
        let p = cs.drop_last();
        assert forall|i: int, j: int| 0 <= i < j < p.len() implies (#[trigger] p[i]).id != (#[trigger] p[j]).id by {
            assert(p[i] == cs[i] && p[j] == cs[j]);
        }
        assert forall|i: int| 0 <= i < p.len() implies (#[trigger] p[i]).id.len() > 0 by {
            assert(p[i] == cs[i]);
        }
        lemma_keep_first_unique(p);
        assert(keep_first(cs) =~= cs);
    }
}

/// Law: for channels with unique non-empty ids, a sync covers every channel, in order.
pub proof fn law_configured_indices_cover_unique_channels(cs: Seq<ChannelView>)
    requires
        unique_ids(cs),
    ensures
        configured_spec(cs) == Seq::new(cs.len(), |i: int| i as u32),
    decreases cs.len(),
{
    lemma_keep_first_unique(cs);
    if cs.len() > 0 {
        let p = cs.drop_last();
        assert forall|i: int, j: int| 0 <= i < j < p.len() implies (#[trigger] p[i]).id != (#[trigger] p[j]).id by {
            assert(p[i] == cs[i] && p[j] == cs[j]);
        }
        assert forall|i: int| 0 <= i < p.len() implies (#[trigger] p[i]).id.len() > 0 by {
            assert(p[i] == cs[i]);
        }
        law_configured_indices_cover_unique_channels(p);
        assert(configured_spec(cs) =~= Seq::new(cs.len(), |i: int| i as u32));
    }
}

/// Law: every channel of normalized settings is covered by a sync, in order.
pub proof fn law_normalized_channels_are_all_synced(raw: JsonView)
    ensures
        unique_ids(normalize_spec(raw).channels),
        configured_spec(normalize_spec(raw).channels)
            == Seq::new(normalize_spec(raw).channels.len(), |i: int| i as u32),
{
    law_kept_channels_have_unique_ids(candidate_channels(raw));
    law_configured_indices_cover_unique_channels(normalize_spec(raw).channels);
}

/// Whether `s` has no JS whitespace at either end.
pub open spec fn is_trimmed(s: Seq<char>) -> bool {
    trim_spec(s) == s
}

/// Whether a channel is in the shape that normalization gives: trimmed id and name, and a
/// cursor that is absent or a non-empty trimmed text.
pub open spec fn channel_normalized(c: ChannelView) -> bool {
    &&& is_trimmed(c.id)
    &&& is_trimmed(c.name)
    &&& match c.last_processed_message_id {
        Some(x) => x.len() > 0 && is_trimmed(x),
        None => true,
    }
}

/// Whether settings are in the shape that normalization gives.
pub open spec fn is_normalized(s: SettingsView) -> bool {
    &&& s.settings_version == SCHEMA_VERSION
    &&& s.clipping_directory_name.len() > 0 && is_trimmed(s.clipping_directory_name)
    &&& is_trimmed(s.bot_token)
    &&& s.notification_templates.saved.len() > 0 && is_trimmed(s.notification_templates.saved)
    &&& s.notification_templates.no_new.len() > 0 && is_trimmed(s.notification_templates.no_new)
    &&& unique_ids(s.channels)
    &&& forall|i: int| 0 <= i < s.channels.len() ==> channel_normalized(#[trigger] s.channels[i])
}

proof fn lemma_defaults_trimmed()
    ensures
        is_trimmed(default_directory()) && default_directory().len() > 0,
        is_trimmed(default_saved()) && default_saved().len() > 0,
        is_trimmed(default_no_new()) && default_no_new().len() > 0,
        is_trimmed(Seq::<char>::empty()),
{
    reveal_strlit("DiscordClippings");
    reveal_strlit("✅ {count} messages saved.");
    reveal_strlit("⚠️ No new messages.");
    let d = default_directory();
    assert(!crate::domain::is_js_whitespace(d[0]));
    assert(!crate::domain::is_js_whitespace(d.last()));
    let a = default_saved();
    assert(!crate::domain::is_js_whitespace(a[0]));
    assert(!crate::domain::is_js_whitespace(a.last()));
    let b = default_no_new();
    assert(!crate::domain::is_js_whitespace(b[0]));
    assert(!crate::domain::is_js_whitespace(b.last()));
}

proof fn lemma_read_text_trimmed(v: JsonView, key: Seq<char>)
    ensures
        is_trimmed(read_text(v, key)),
{
    crate::domain::law_trim_idempotent(match as_text(member(v, key)) { Some(t) => t, None => Seq::empty() });
}

proof fn lemma_candidates_normalized(raw: JsonView)
    ensures
        forall|i: int| 0 <= i < candidate_channels(raw).len() ==> channel_normalized(#[trigger] candidate_channels(raw)[i]),
{
    lemma_read_text_trimmed(raw, "channelId"@);
    lemma_read_text_trimmed(raw, "lastProcessedMessageId"@);
    lemma_defaults_trimmed();
    match member(raw, "channels"@) {
        JsonView::Array(items) => lemma_object_channels_normalized(items),
        _ => {},
    }
}

proof fn lemma_object_channels_normalized(items: Seq<JsonView>)
    ensures
        forall|i: int| 0 <= i < object_channels(items).len() ==> channel_normalized(#[trigger] object_channels(items)[i]),
    decreases items.len(),
{
    if items.len() > 0 {
        lemma_object_channels_normalized(items.drop_last());
        let c = items.last();
        lemma_read_text_trimmed(c, "id"@);
        lemma_read_text_trimmed(c, "name"@);
        lemma_read_text_trimmed(c, "lastProcessedMessageId"@);
        let prev = object_channels(items.drop_last());
        assert forall|i: int| 0 <= i < object_channels(items).len() implies channel_normalized(#[trigger] object_channels(items)[i]) by {
            if i < prev.len() {
                assert(object_channels(items)[i] == prev[i]);
            }
        }
    }
}

/// Law: normalization always gives settings in normalized shape.
pub proof fn law_normalize_gives_normalized_settings(raw: JsonView)
    ensures
        is_normalized(normalize_spec(raw)),
{
    let s = normalize_spec(raw);
    lemma_defaults_trimmed();
    lemma_read_text_trimmed(raw, "clippingDirectoryName"@);
    lemma_read_text_trimmed(raw, "botToken"@);
    lemma_read_text_trimmed(member(raw, "notificationTemplates"@), "saved"@);
    lemma_read_text_trimmed(member(raw, "notificationTemplates"@), "noNew"@);
    law_kept_channels_have_unique_ids(candidate_channels(raw));
    lemma_candidates_normalized(raw);
    lemma_keep_first_from(candidate_channels(raw));
    assert forall|i: int| 0 <= i < s.channels.len() implies channel_normalized(#[trigger] s.channels[i]) by {
        let cs = candidate_channels(raw);
        let k = choose|k: int| 0 <= k < cs.len() && #[trigger] keep_first(cs)[i] == cs[k] && first_with_id(cs, k);
        assert(channel_normalized(cs[k]));
    }
}

proof fn lemma_settings_json_members(s: SettingsView)
    ensures
        member(settings_json(s), "settingsVersion"@) == JsonView::Number(JsonNumber::PosInt(s.settings_version as u64)),
        member(settings_json(s), "clippingDirectoryName"@) == JsonView::Str(s.clipping_directory_name),
        member(settings_json(s), "botToken"@) == JsonView::Str(s.bot_token),
        member(settings_json(s), "channels"@) == JsonView::Array(s.channels.map_values(|c: ChannelView| channel_json(c))),
        member(settings_json(s), "enableAutoSyncOnStartup"@) == JsonView::Bool(s.enable_auto_sync_on_startup),
        member(settings_json(s), "sendSyncNotifications"@) == JsonView::Bool(s.send_sync_notifications),
        member(member(settings_json(s), "notificationTemplates"@), "saved"@) == JsonView::Str(s.notification_templates.saved),
        member(member(settings_json(s), "notificationTemplates"@), "noNew"@) == JsonView::Str(s.notification_templates.no_new),
        is_object(settings_json(s)),
        !has_key(settings_json(s), "channelId"@),
        !has_key(settings_json(s), "lastProcessedMessageId"@),
{
    reveal_strlit("settingsVersion");
    reveal_strlit("clippingDirectoryName");
    reveal_strlit("botToken");
    reveal_strlit("channels");
    reveal_strlit("enableAutoSyncOnStartup");
    reveal_strlit("sendSyncNotifications");
    reveal_strlit("notificationTemplates");
    reveal_strlit("saved");
    reveal_strlit("noNew");
    reveal_strlit("channelId");
    reveal_strlit("lastProcessedMessageId");
    let es = settings_json(s)->Object_0;
    assert(es[0].0 == "settingsVersion"@ && es[1].0 == "clippingDirectoryName"@ && es[2].0 == "botToken"@
        && es[3].0 == "channels"@ && es[4].0 == "enableAutoSyncOnStartup"@ && es[5].0 == "sendSyncNotifications"@
        && es[6].0 == "notificationTemplates"@);
    assert("settingsVersion"@.len() == 15 && "clippingDirectoryName"@.len() == 21 && "botToken"@.len() == 8
        && "channels"@.len() == 8 && "enableAutoSyncOnStartup"@.len() == 23 && "sendSyncNotifications"@.len() == 21
        && "notificationTemplates"@.len() == 21 && "channelId"@.len() == 9 && "lastProcessedMessageId"@.len() == 22);
    assert("botToken"@[0] != "channels"@[0]);
    assert("clippingDirectoryName"@[0] != "sendSyncNotifications"@[0]);
    assert("clippingDirectoryName"@[0] != "notificationTemplates"@[0]);
    assert("sendSyncNotifications"@[0] != "notificationTemplates"@[0]);
    assert(es[0].0 != es[1].0 && es[0].0 != es[2].0 && es[0].0 != es[3].0 && es[0].0 != es[4].0
        && es[0].0 != es[5].0 && es[0].0 != es[6].0);
    assert(es[1].0 != es[2].0 && es[1].0 != es[3].0 && es[1].0 != es[4].0 && es[1].0 != es[5].0
        && es[1].0 != es[6].0);
    assert(es[2].0 != es[3].0 && es[2].0 != es[4].0 && es[2].0 != es[5].0 && es[2].0 != es[6].0);
    assert(es[3].0 != es[4].0 && es[3].0 != es[5].0 && es[3].0 != es[6].0);
    assert(es[4].0 != es[5].0 && es[4].0 != es[6].0);
    assert(es[5].0 != es[6].0);
    lemma_lookup_first(es, "settingsVersion"@, 0);
    lemma_lookup_first(es, "clippingDirectoryName"@, 1);
    lemma_lookup_first(es, "botToken"@, 2);
    lemma_lookup_first(es, "channels"@, 3);
    lemma_lookup_first(es, "enableAutoSyncOnStartup"@, 4);
    lemma_lookup_first(es, "sendSyncNotifications"@, 5);
    lemma_lookup_first(es, "notificationTemplates"@, 6);
    assert forall|k: int| 0 <= k < es.len() implies (#[trigger] es[k]).0 != "channelId"@ && es[k].0 != "lastProcessedMessageId"@ by {}
    lemma_lookup_absent(es, "channelId"@);
    lemma_lookup_absent(es, "lastProcessedMessageId"@);
    let ts = member(settings_json(s), "notificationTemplates"@)->Object_0;
    assert(ts[0].0 == "saved"@ && ts[1].0 == "noNew"@);
    assert("saved"@[0] != "noNew"@[0]);
    assert(ts[0].0 != ts[1].0);
    lemma_lookup_first(ts, "saved"@, 0);
    lemma_lookup_first(ts, "noNew"@, 1);
}

proof fn lemma_channel_json_members(c: ChannelView)
    ensures
        member(channel_json(c), "id"@) == JsonView::Str(c.id),
        member(channel_json(c), "name"@) == JsonView::Str(c.name),
        member(channel_json(c), "lastProcessedMessageId"@) == match c.last_processed_message_id {
            Some(x) => JsonView::Str(x),
            None => JsonView::Null,
        },
        is_object(channel_json(c)),
{
    reveal_strlit("id");
    reveal_strlit("name");
    reveal_strlit("lastProcessedMessageId");
    let es = channel_json(c)->Object_0;
    assert(es[0].0 == "id"@ && es[1].0 == "name"@);
    assert("id"@.len() == 2 && "name"@.len() == 4 && "lastProcessedMessageId"@.len() == 22);
    assert(es[0].0 != es[1].0);
    lemma_lookup_first(es, "id"@, 0);
    lemma_lookup_first(es, "name"@, 1);
    match c.last_processed_message_id {
        Some(x) => {
            assert(es[2].0 == "lastProcessedMessageId"@);
            assert(es[0].0 != es[2].0 && es[1].0 != es[2].0);
            lemma_lookup_first(es, "lastProcessedMessageId"@, 2);
        },
        None => {
            assert(es.len() == 2);
            assert forall|k: int| 0 <= k < es.len() implies (#[trigger] es[k]).0 != "lastProcessedMessageId"@ by {}
            lemma_lookup_absent(es, "lastProcessedMessageId"@);
        },
    }
}

proof fn lemma_channel_round_trip(c: ChannelView)
    requires
        channel_normalized(c),
    ensures
        channel_from(channel_json(c)) == c,
{
    lemma_channel_json_members(c);
    crate::domain::lemma_trim_ends(Seq::<char>::empty());
    assert(trim_spec(Seq::<char>::empty()) == Seq::<char>::empty());
}

proof fn lemma_object_channels_of_json(cs: Seq<ChannelView>)
    requires
        forall|i: int| 0 <= i < cs.len() ==> channel_normalized(#[trigger] cs[i]),
    ensures
        object_channels(cs.map_values(|c: ChannelView| channel_json(c))) == cs,
    decreases cs.len(),
{
    if cs.len() > 0 {
        let p = cs.drop_last();
        assert forall|i: int| 0 <= i < p.len() implies channel_normalized(#[trigger] p[i]) by {
            assert(p[i] == cs[i]);
        }
        lemma_object_channels_of_json(p);
        let items = cs.map_values(|c: ChannelView| channel_json(c));
        assert(items.drop_last() =~= p.map_values(|c: ChannelView| channel_json(c)));
        lemma_channel_json_members(cs.last());
        lemma_channel_round_trip(cs.last());
        assert(object_channels(items) =~= cs);
    }
}

/// Normalizing the stored form of normalized settings gives them back.
pub proof fn lemma_normalize_stored(s: SettingsView)
    requires
        is_normalized(s),
    ensures
        normalize_spec(settings_json(s)) == s,
{
    lemma_settings_json_members(s);
    lemma_object_channels_of_json(s.channels);
    lemma_keep_first_unique(s.channels);
    let n = normalize_spec(settings_json(s));
    assert(n.channels == s.channels);
    assert(n.notification_templates == s.notification_templates);
}

/// Law: normalizing is idempotent across storage: the stored form of normalized settings
/// normalizes to the same settings.
pub proof fn law_normalize_is_idempotent(raw: JsonView)
    ensures
        normalize_spec(settings_json(normalize_spec(raw))) == normalize_spec(raw),
{
    law_normalize_gives_normalized_settings(raw);
    lemma_normalize_stored(normalize_spec(raw));
}

/// Law: settings stored after normalization are not migrated again.
pub proof fn law_stored_settings_are_current(raw: JsonView)
    ensures
        !did_migrate_spec(settings_json(normalize_spec(raw))),
{
    lemma_settings_json_members(normalize_spec(raw));
}

/// Law: the defaults are normalized settings, and their stored form reads back as the defaults.
pub proof fn law_defaults_round_trip()
    ensures
        is_normalized(default_settings()),
        normalize_spec(settings_json(default_settings())) == default_settings(),
{
    lemma_defaults_trimmed();
    lemma_normalize_stored(default_settings());
}

} // verus!
