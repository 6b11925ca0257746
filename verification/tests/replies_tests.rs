use system_health_report::ai::{answer_of_reply, ProviderKind};
use system_health_report::bot::{
    autofix_hint, cancel_fix, fix_request_buttons, is_fix_command, register_fix_request, report_buttons, ButtonKind, PendingFixes,
};
use system_health_report::config::{
    AiAssistant, AiProviders, ApplicationLog, AutoFix, Config, CpuConfig, DiskConfig, EmbedConfig,
    LoadAverageConfig, MemoryConfig, Notifications, Schedule, SystemMetrics,
};
use system_health_report::dispatch::{command_scope, http_reply_result, CommandScope};
use system_health_report::logs::{log_sources, LogCollection, LogReadError};

#[test]
fn anthropic_reply_is_read_from_status_and_body() {
    let ok = r#"{"content":[{"type":"text","text":"all fine"}]}"#;
    assert_eq!(answer_of_reply(ProviderKind::Anthropic, 200, "200 OK", ok), Ok("all fine".to_string()));
    assert_eq!(
        answer_of_reply(ProviderKind::Anthropic, 401, "401 Unauthorized", "bad key"),
        Err("Anthropic API error 401 Unauthorized: bad key".to_string())
    );
    assert_eq!(
        answer_of_reply(ProviderKind::Anthropic, 200, "200 OK", "not json"),
        Err("Failed to parse Anthropic response".to_string())
    );
    assert_eq!(
        answer_of_reply(ProviderKind::Anthropic, 200, "200 OK", r#"{"content":[]}"#),
        Err("Could not extract text from Anthropic response".to_string())
    );
}

#[test]
fn chat_completion_replies_are_read_from_status_and_body() {
    let ok = r#"{"id":"x","choices":[{"index":0,"message":{"role":"assistant","content":"hello"}}]}"#;
    assert_eq!(answer_of_reply(ProviderKind::OpenAi, 200, "200 OK", ok), Ok("hello".to_string()));
    assert_eq!(answer_of_reply(ProviderKind::OpenRouter, 201, "201 Created", ok), Ok("hello".to_string()));
    assert_eq!(
        answer_of_reply(ProviderKind::OpenRouter, 500, "500 Internal Server Error", "oops"),
        Err("OpenRouter API error 500 Internal Server Error: oops".to_string())
    );
    assert_eq!(
        answer_of_reply(ProviderKind::OpenAi, 300, "300 Multiple Choices", ""),
        Err("OpenAI API error 300 Multiple Choices: ".to_string())
    );
    assert_eq!(
        answer_of_reply(ProviderKind::OpenAi, 200, "200 OK", r#"{"choices":[{"message":{"content":7}}]}"#),
        Err("Could not extract content from API response".to_string())
    );
    assert_eq!(
        answer_of_reply(ProviderKind::OpenAi, 200, "200 OK", "{"),
        Err("Failed to parse OpenAI response".to_string())
    );
}

#[test]
fn http_replies_succeed_on_2xx_only() {
    assert_eq!(http_reply_result("Discord webhook returned", 204, "204 No Content", ""), Ok(()));
    assert_eq!(
        http_reply_result("Discord webhook returned", 404, "404 Not Found", "Unknown Webhook"),
        Err("Discord webhook returned 404 Not Found: Unknown Webhook".to_string())
    );
    assert!(http_reply_result("x", 199, "199", "").is_err());
    assert!(http_reply_result("x", 299, "299", "").is_ok());
}

#[test]
fn cancel_and_autofix_replies() {
    let mut p = PendingFixes::new();
    let a = register_fix_request(&mut p, "a");
    let b = register_fix_request(&mut p, "b");
    let reply = cancel_fix(&mut p, &a.id);
    assert_eq!(reply.content, "Fix cancelled.");
    assert!(reply.clear_components);
    assert!(!reply.ephemeral);
    assert_eq!(p.len(), 1);
    assert!(p.take(&a.id).is_none());
    assert!(p.take(&b.id).is_some());
    let again = cancel_fix(&mut p, "gone");
    assert_eq!(again.content, "Fix cancelled.");
    let hint = autofix_hint();
    assert_eq!(hint.content, "Use `/health-fix` with a specific instruction.");
    assert!(hint.ephemeral);
    assert!(!hint.clear_components);
}

#[test]
fn fix_ids_have_the_v4_layout() {
    let mut p = PendingFixes::new();
    let id = register_fix_request(&mut p, "x").id;
    let c: Vec<char> = id.chars().collect();
    assert_eq!(c.len(), 36);
    for i in [8, 13, 18, 23] {
        assert_eq!(c[i], '-');
    }
    assert_eq!(c[14], '4');
    assert!(matches!(c[19], '8' | '9' | 'a' | 'b'));
}

#[test]
fn report_message_has_one_auto_fix_button() {
    let b = report_buttons();
    assert_eq!(b.len(), 1);
    assert_eq!(b[0].custom_id, "autofix_button");
    assert_eq!(b[0].label, "Auto Fix");
    assert_eq!(b[0].kind, ButtonKind::Primary);
    let f = fix_request_buttons("abc");
    assert_eq!(f.len(), 2);
    assert_eq!((f[0].custom_id.as_str(), f[0].label.as_str(), f[0].kind), ("fix_confirm_abc", "Confirm Fix", ButtonKind::Danger));
    assert_eq!((f[1].custom_id.as_str(), f[1].label.as_str(), f[1].kind), ("fix_cancel_abc", "Cancel", ButtonKind::Secondary));
    assert!(is_fix_command("health-fix"));
    assert!(!is_fix_command("health"));
}

#[test]
fn slash_command_scope_follows_guild_id() {
    assert_eq!(command_scope(&None), CommandScope::Global);
    assert_eq!(command_scope(&Some(String::new())), CommandScope::Global);
    assert_eq!(command_scope(&Some("123456789".to_string())), CommandScope::Guild(123456789));
    assert_eq!(command_scope(&Some("0".to_string())), CommandScope::InvalidGuild);
    assert_eq!(command_scope(&Some("abc".to_string())), CommandScope::InvalidGuild);
}

#[test]
fn embed_section_has_a_default() {
    let e = EmbedConfig::default();
    assert_eq!(e.title, "System Health Report");
    assert_eq!(e.color, 0x3498DB);
    assert!(e.show_metrics && e.show_errors);
}

fn config(apps: Vec<(String, ApplicationLog)>) -> Config {
    Config {
        ai_assistant: AiAssistant {
            active_provider: "openai".to_string(),
            providers: AiProviders { openrouter: None, openai: None, anthropic: None },
            schedule: Schedule { enabled: false, times: vec![], timezone: "UTC".to_string() },
            language: "english".to_string(),
        },
        notifications: Notifications {
            provider: "discord".to_string(),
            webhook_url: String::new(),
            embed: EmbedConfig::default(),
        },
        notifications_discord_bot: None,
        system_metrics: SystemMetrics {
            cpu: CpuConfig { enabled: false, collection_mode: "average".to_string(), interval_seconds: 1 },
            memory: MemoryConfig { enabled: false },
            load_average: LoadAverageConfig { enabled: false },
            disk_status: DiskConfig { enabled: false, mount_points: vec![] },
        },
        standard_logs: vec!["/var/log/syslog".to_string(), "/var/log/auth.log".to_string()],
        application_logs: apps,
        auto_fix: AutoFix {
            enabled: false,
            workspace: "./fixes/".to_string(),
            allow_execution: false,
            backup_before_fix: false,
        },
    }
}

#[test]
fn logs_to_read_are_standard_then_enabled_applications() {
    let apps = vec![
        ("nginx".to_string(), ApplicationLog { enabled: false, path: "/var/log/nginx/error.log".to_string() }),
        ("mysql".to_string(), ApplicationLog { enabled: true, path: "/var/log/mysql/error.log".to_string() }),
    ];
    let sources = log_sources(&config(apps));
    let got: Vec<(String, Option<String>)> = sources.iter().map(|s| (s.path.clone(), s.application.clone())).collect();
    assert_eq!(
        got,
        vec![
            ("/var/log/syslog".to_string(), None),
            ("/var/log/auth.log".to_string(), None),
            ("/var/log/mysql/error.log".to_string(), Some("mysql".to_string())),
        ]
    );
    let mut c = LogCollection::new();
    c.record_log(&sources[0], Ok("boot".to_string()));
    c.record_log(&sources[2], Err(LogReadError::Missing));
    assert_eq!(c.logs[0], ("/var/log/syslog".to_string(), "boot".to_string()));
    assert_eq!(
        c.logs[1],
        (
            "/var/log/mysql/error.log".to_string(),
            "[Error reading mysql log: File does not exist: /var/log/mysql/error.log]".to_string()
        )
    );
}
