use system_health_report::config::default_language;
use system_health_report::dispatch::{
    auto_execute, config_source, notify_route, parse_channel_id, render_fix_report, run_mode, should_start_bot,
    webhook_url_problem, ConfigSource, NotifyRoute, RunMode,
};
use system_health_report::fix::{FixReport, FixResult};
use system_health_report::metrics::{cpu_sample_count, match_disks, memory_amounts, DiskSpace};
use system_health_report::watch::{command_message, history_commands, history_path, missing_history_message, HistoryCursor};

#[test]
fn channel_ids_parse_like_u64() {
    assert_eq!(parse_channel_id("123456789"), Some(123456789));
    assert_eq!(parse_channel_id("+7"), Some(7));
    assert_eq!(parse_channel_id("18446744073709551615"), Some(u64::MAX));
    assert_eq!(parse_channel_id("18446744073709551616"), None);
    assert_eq!(parse_channel_id(""), None);
    assert_eq!(parse_channel_id("+"), None);
    assert_eq!(parse_channel_id(" 1"), None);
    assert_eq!(parse_channel_id("12a"), None);
    for s in ["0", "42", "+00", "-1", "99999999999999999999"] {
        assert_eq!(parse_channel_id(s), s.parse::<u64>().ok());
    }
}

#[test]
fn routes_and_modes() {
    assert_eq!(notify_route("discord", false), NotifyRoute::Webhook);
    assert_eq!(notify_route("webhook", true), NotifyRoute::Webhook);
    assert_eq!(notify_route("bot", true), NotifyRoute::Bot);
    assert_eq!(notify_route("discord_bot", false), NotifyRoute::WebhookNoBotConfig);
    assert_eq!(notify_route("slack", true), NotifyRoute::WebhookUnknownProvider);
    assert!(should_start_bot("bot", true));
    assert!(!should_start_bot("bot", false));
    assert!(!should_start_bot("discord", true));
    assert_eq!(run_mode(true, true, true), RunMode::Watch);
    assert_eq!(run_mode(false, true, true), RunMode::Fix);
    assert_eq!(run_mode(false, false, true), RunMode::RunNow);
    assert_eq!(run_mode(false, false, false), RunMode::Daemon);
    assert!(auto_execute(&Some("auto".to_string())));
    assert!(!auto_execute(&Some("manual".to_string())));
    assert!(!auto_execute(&None));
    assert_eq!(config_source(true, true), ConfigSource::Given);
    assert_eq!(config_source(false, true), ConfigSource::LocalFallback);
    assert_eq!(config_source(false, false), ConfigSource::Given);
    assert_eq!(webhook_url_problem("").unwrap(), "Discord webhook URL is not configured");
    assert!(webhook_url_problem("https://x").is_none());
    assert_eq!(default_language(), "japanese");
}

#[test]
fn fix_report_printing() {
    let mut r = FixReport::new("note".to_string(), "ls".to_string(), vec!["ls".to_string()], true);
    r.record(FixResult::from_output("ls", b"a\n", b"", Some(0)));
    assert_eq!(
        render_fix_report(&r),
        "\n=== FIX REPORT ===\nFix Note:\nnote\n\nAI Response:\nls\n\nSuggested Commands:\n  $ ls\n\nExecution Results:\n\n$ ls\nExit code: 0\nSTDOUT:\na\n\n"
    );
    let off = FixReport::new("n".to_string(), "x".to_string(), vec![], false);
    assert_eq!(
        render_fix_report(&off),
        "\n=== FIX REPORT ===\nFix Note:\nn\n\nAI Response:\nx\n\nSuggested Commands:\n\n[Execution disabled - set allow_execution: true in config to run automatically]\n"
    );
}

#[test]
fn metrics_arithmetic() {
    assert_eq!(cpu_sample_count(0), 1);
    assert_eq!(cpu_sample_count(60), 60);
    let m = memory_amounts(8 * 1048576 + 5, 1048575, 2 * 1048576, 0, 3 * 1048576);
    assert_eq!((m.total_mb, m.used_mb, m.available_mb, m.swap_total_mb, m.swap_used_mb), (8, 0, 2, 0, 3));
    let disks = vec![
        DiskSpace { mount_point: "/".to_string(), total: 100, available: 40 },
        DiskSpace { mount_point: "/var".to_string(), total: 10, available: 20 },
        DiskSpace { mount_point: "/".to_string(), total: 1, available: 1 },
    ];
    let (found, missing) = match_disks(&vec!["/var".to_string(), "/home".to_string(), "/".to_string()], &disks);
    assert_eq!(found.len(), 2);
    assert_eq!((found[0].mount_point.as_str(), found[0].total, found[0].used, found[0].available), ("/var", 10, 0, 20));
    assert_eq!((found[1].mount_point.as_str(), found[1].total, found[1].used, found[1].available), ("/", 100, 60, 40));
    assert_eq!(missing, vec!["/home".to_string()]);
}

#[test]
fn watch_helpers() {
    assert_eq!(history_path(Some("/h".to_string()), Some("/home/u".to_string())), "/h");
    assert_eq!(history_path(None, Some("/home/u".to_string())), "/home/u/.bash_history");
    assert_eq!(history_path(None, None), "/root/.bash_history");
    let mut c = HistoryCursor::at(10);
    assert_eq!(c.read_from(10), None);
    assert_eq!(c.read_from(5), None);
    assert_eq!(c.read_from(15), Some(10));
    c.advance(15);
    assert_eq!(c.position, 15);
    let lines = vec!["ls".to_string(), "   ".to_string(), "".to_string(), " cd / ".to_string()];
    assert_eq!(history_commands(&lines), vec!["ls".to_string(), " cd / ".to_string()]);
    assert_eq!(command_message("ls -la"), "```bash\nls -la\n```");
    assert_eq!(
        missing_history_message("/x"),
        "History file not found: /x. Set HISTFILE env var or create ~/.bash_history"
    );
}
