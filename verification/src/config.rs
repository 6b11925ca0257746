//! The configuration model (what `config.yml` holds).

use vstd::prelude::*;

verus! {

/// The whole configuration file.
#[derive(Debug, Clone)]
pub struct Config {
    pub ai_assistant: AiAssistant,
    pub notifications: Notifications,
    /// The `notifications(Discord BOT)` section, when present.
    pub notifications_discord_bot: Option<DiscordBotNotifications>,
    pub system_metrics: SystemMetrics,
    pub standard_logs: Vec<String>,
    /// The `application_logs` map, as (name, entry) pairs in its iteration order.
    pub application_logs: Vec<(String, ApplicationLog)>,
    pub auto_fix: AutoFix,
}

/// The `ai_assistant` section.
#[derive(Debug, Clone)]
pub struct AiAssistant {
    pub active_provider: String,
    pub providers: AiProviders,
    pub schedule: Schedule,
    pub language: String,
}

/// The language used when the configuration names none.
pub open spec fn default_language_spec() -> Seq<char> {
    "japanese"@
}

/// The language used when the configuration names none: `"japanese"`.
pub fn default_language() -> (r: String)
    ensures
        r@ == default_language_spec(),
{
    String::from_str("japanese")
}

/// The per-provider credentials.
#[derive(Debug, Clone)]
pub struct AiProviders {
    pub openrouter: Option<AiProviderConfig>,
    pub openai: Option<AiProviderConfig>,
    pub anthropic: Option<AiProviderConfig>,
}

/// Credentials and model of one AI provider.
#[derive(Debug, Clone)]
pub struct AiProviderConfig {
    pub api_key: String,
    pub model: String,
}

/// When scheduled reports run.
#[derive(Debug, Clone)]
pub struct Schedule {
    pub enabled: bool,
    /// Times of day written `HH:MM`.
    pub times: Vec<String>,
    pub timezone: String,
}

/// The `notifications` section.
#[derive(Debug, Clone)]
pub struct Notifications {
    pub provider: String,
    pub webhook_url: String,
    pub embed: EmbedConfig,
}

/// How report embeds look.
#[derive(Debug, Clone)]
pub struct EmbedConfig {
    pub title: String,
    pub color: u32,
    pub show_metrics: bool,
    pub show_errors: bool,
}

impl Default for EmbedConfig {
    /// The look used when the configuration has no `embed` section: the
    /// title "System Health Report" in blue (`0x3498DB`), metrics and
    /// errors shown.
    fn default() -> (e: Self)
        ensures
            e.title@ == "System Health Report"@,
            e.color == 0x3498DBu32,
            e.show_metrics,
            e.show_errors,
    {
        EmbedConfig { title: String::from_str("System Health Report"), color: 0x3498DB, show_metrics: true, show_errors: true }
    }
}

/// Credentials of the Discord bot.
#[derive(Debug, Clone)]
pub struct DiscordBotNotifications {
    pub discord_bot_token: String,
    pub channel_id: String,
    /// The server to register the slash command in (registered at once);
    /// unset or empty, the command is registered globally.
    pub guild_id: Option<String>,
}

/// Which system metrics are collected.
#[derive(Debug, Clone)]
pub struct SystemMetrics {
    pub cpu: CpuConfig,
    pub memory: MemoryConfig,
    pub load_average: LoadAverageConfig,
    pub disk_status: DiskConfig,
}

/// CPU sampling settings.
#[derive(Debug, Clone)]
pub struct CpuConfig {
    pub enabled: bool,
    pub collection_mode: String,
    pub interval_seconds: u64,
}

/// Memory collection switch.
#[derive(Debug, Clone)]
pub struct MemoryConfig {
    pub enabled: bool,
}

/// Load-average collection switch.
#[derive(Debug, Clone)]
pub struct LoadAverageConfig {
    pub enabled: bool,
}

/// Disk collection settings.
#[derive(Debug, Clone)]
pub struct DiskConfig {
    pub enabled: bool,
    pub mount_points: Vec<String>,
}

/// One application log file.
#[derive(Debug, Clone)]
pub struct ApplicationLog {
    pub enabled: bool,
    pub path: String,
}

/// The `auto_fix` section.
#[derive(Debug, Clone)]
pub struct AutoFix {
    pub enabled: bool,
    pub workspace: String,
    pub allow_execution: bool,
    pub backup_before_fix: bool,
}

} // verus!
