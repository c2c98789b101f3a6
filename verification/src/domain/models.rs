//! Settings, Discord messages and processing results.
use vstd::prelude::*;

verus! {

/// One synced Discord channel and its sync cursor.
#[derive(Debug, Clone, PartialEq)]
pub struct DiscordChannelSettings {
    pub id: String,
    pub name: String,
    pub last_processed_message_id: Option<String>,
}

/// What a channel holds, as plain sequences of characters.
pub ghost struct ChannelView {
    pub id: Seq<char>,
    pub name: Seq<char>,
    pub last_processed_message_id: Option<Seq<char>>,
}

impl View for DiscordChannelSettings {
    type V = ChannelView;

    open spec fn view(&self) -> ChannelView {
        ChannelView {
            id: self.id@,
            name: self.name@,
            last_processed_message_id: self.last_processed_message_id.deep_view(),
        }
    }
}

impl DeepView for DiscordChannelSettings {
    type V = ChannelView;

    open spec fn deep_view(&self) -> ChannelView {
        self@
    }
}

/// Discord messages sent after a sync; `{count}`, `{channelName}`, `{channelId}` are variables.
#[derive(Debug, Clone, PartialEq)]
pub struct NotificationTemplates {
    pub saved: String,
    pub no_new: String,
}

/// The plugin's stored settings.
#[derive(Debug, Clone, PartialEq)]
pub struct DiscordPluginSettings {
    pub settings_version: u32,
    pub clipping_directory_name: String,
    pub bot_token: String,
    pub channels: Vec<DiscordChannelSettings>,
    pub enable_auto_sync_on_startup: bool,
    pub send_sync_notifications: bool,
    pub notification_templates: NotificationTemplates,
}

/// Normalized settings and whether the stored data was in an older shape.
#[derive(Debug, Clone)]
pub struct SettingsMigrationResult {
    pub settings: DiscordPluginSettings,
    pub did_migrate: bool,
}

/// The settings a sync run reads, taken once when it starts.
#[derive(Debug, Clone)]
pub struct MessageSyncSettingsSnapshot {
    pub bot_token: String,
    pub clipping_directory_name: String,
    pub send_sync_notifications: bool,
    pub notification_templates: NotificationTemplates,
    pub time_zone: String,
}

/// The author of a Discord message, as the API reports it.
#[derive(Debug, Clone)]
pub struct DiscordAuthor {
    pub id: Option<String>,
    pub username: Option<String>,
    pub global_name: Option<String>,
    pub bot: Option<bool>,
}

/// The guild member that posted a message.
#[derive(Debug, Clone)]
pub struct DiscordMember {
    pub nick: Option<String>,
}

/// A Discord message.
#[derive(Debug, Clone)]
pub struct DiscordMessage {
    pub id: String,
    pub content: String,
    pub timestamp: String,
    pub author: Option<DiscordAuthor>,
    pub member: Option<DiscordMember>,
}

/// A message turned into a clipping that is ready to be saved.
#[derive(Debug, Clone)]
pub struct ProcessedMessage {
    pub message_id: String,
    pub timestamp: String,
    pub author_id: String,
    pub author_name: String,
    pub markdown: String,
    pub file_name: String,
}

/// A moment in a time zone, in the notations that file and folder names use.
#[derive(Debug, Clone, PartialEq)]
pub struct LocalDateTime {
    pub date: String,
    pub month: String,
    pub week: String,
    pub time: String,
    pub file_timestamp: String,
}

/// A list of channels.
#[derive(Debug, Clone)]
pub struct ChannelList(pub Vec<DiscordChannelSettings>);

/// A list of messages.
#[derive(Debug, Clone)]
pub struct MessageList(pub Vec<DiscordMessage>);

/// A list of processed messages.
#[derive(Debug, Clone)]
pub struct ProcessedMessageList(pub Vec<ProcessedMessage>);

/// A list of local date-times.
#[derive(Debug, Clone)]
pub struct LocalDateTimeList(pub Vec<LocalDateTime>);

/// A copy of `s` with the same characters.
pub fn copy_string(s: &String) -> (res: String)
    ensures
        res@ == s@,
{
    s.clone()
}

/// A copy of an optional string.
pub fn copy_opt_string(s: &Option<String>) -> (res: Option<String>)
    ensures
        res == *s,
{
    match s {
        Some(v) => Some(v.clone()),
        None => None,
    }
}

/// A copy of a channel.
pub fn copy_channel(c: &DiscordChannelSettings) -> (res: DiscordChannelSettings)
    ensures
        res == *c,
{
    DiscordChannelSettings {
        id: c.id.clone(),
        name: c.name.clone(),
        last_processed_message_id: copy_opt_string(&c.last_processed_message_id),
    }
}

/// A copy of a list of channels.
pub fn copy_channels(cs: &[DiscordChannelSettings]) -> (res: Vec<DiscordChannelSettings>)
    ensures
        res@ == cs@,
        res.deep_view() == cs.deep_view(),
{
    let mut res: Vec<DiscordChannelSettings> = Vec::new();
    let mut i: usize = 0;
    while i < cs.len()
        invariant
            i <= cs@.len(),
            res@ == cs@.take(i as int),
        decreases cs@.len() - i,
    {
        res.push(copy_channel(&cs[i]));
        i = i + 1;
        assert(res@ =~= cs@.take(i as int));
    }
    assert(cs@.take(cs@.len() as int) =~= cs@);
    assert(res.deep_view() =~= cs.deep_view());
    res
}

} // verus!
