use system_health_report::bot::{
    build_discord_log_preview, command_list_text, followup_url, interaction_callback_url, original_message_url,
    parse_component, proposal_messages, register_fix_request, request_reply, slash_instruction, truncate_utf8,
    unsent_log_message, ComponentAction, FixProgress, PendingFix, PendingFixes,
};
use system_health_report::fix::FixResult;

#[test]
fn truncate_utf8_counts_characters() {
    assert_eq!(truncate_utf8("hello", 10), "hello");
    assert_eq!(truncate_utf8("hello", 5), "hello");
    assert_eq!(truncate_utf8("hello world", 5), "hello...");
    assert_eq!(truncate_utf8("日本語テキスト", 3), "日本語...");
    assert_eq!(truncate_utf8("", 0), "");
}

#[test]
fn preview_keeps_latest_lines_within_limit() {
    let lines = vec!["$ ls".to_string(), "a".to_string(), String::new()];
    assert_eq!(build_discord_log_preview(&lines, 1, 2, false), "```\n▶️  [1/2] 実行中...\n\n$ ls\na\n\n\n```");
    assert_eq!(build_discord_log_preview(&lines, 2, 2, true), "```\n✅ [2/2] 完了\n\n$ ls\na\n\n\n```");
    let big = vec!["old".to_string(), "z".repeat(1695), "new".to_string()];
    let p = build_discord_log_preview(&big, 3, 3, true);
    assert!(!p.contains("old"));
    assert!(p.ends_with("new\n\n```"));
    let huge = vec!["q".repeat(2000)];
    assert_eq!(build_discord_log_preview(&huge, 1, 1, false), "```\n▶️  [1/1] 実行中...\n\n\n```");
}

#[test]
fn component_ids_round_trip() {
    let reply = request_reply("abc-123", "restart nginx");
    assert_eq!(reply.confirm_button, "fix_confirm_abc-123");
    assert_eq!(reply.cancel_button, "fix_cancel_abc-123");
    assert_eq!(reply.content, "Fix request received: **restart nginx**\n\nReview and confirm execution?");
    assert_eq!(reply.fallback, "Fix request: **restart nginx** — use buttons above or retry `/health-fix`");
    match parse_component(&reply.confirm_button) {
        ComponentAction::Confirm(id) => assert_eq!(id, "abc-123"),
        other => panic!("unexpected {:?}", other),
    }
    match parse_component(&reply.cancel_button) {
        ComponentAction::Cancel(id) => assert_eq!(id, "abc-123"),
        other => panic!("unexpected {:?}", other),
    }
    assert!(matches!(parse_component("autofix_button"), ComponentAction::AutofixHint));
    assert!(matches!(parse_component("something"), ComponentAction::Ignore));
    // trim_start_matches removes repeated prefixes.
    match parse_component("fix_confirm_fix_confirm_x") {
        ComponentAction::Confirm(id) => assert_eq!(id, "x"),
        other => panic!("unexpected {:?}", other),
    }
}

#[test]
fn pending_fix_is_taken_once() {
    let mut p = PendingFixes::new();
    let reply = register_fix_request(&mut p, "clean /tmp");
    assert_eq!(reply.id.len(), 36);
    assert!(reply.id.chars().all(|c| c.is_ascii_hexdigit() && !c.is_ascii_uppercase() || c == '-'));
    let other = register_fix_request(&mut p, "other");
    assert_ne!(reply.id, other.id);
    assert_eq!(p.len(), 2);
    let taken = p.take(&reply.id).expect("registered fix");
    assert_eq!(taken.instruction, "clean /tmp");
    assert_eq!(taken.report_summary, "Manual fix request via slash command");
    assert!(p.take(&reply.id).is_none());
    assert_eq!(p.len(), 1);
    match parse_component(&reply.confirm_button) {
        ComponentAction::Confirm(id) => assert_eq!(id, reply.id),
        other => panic!("unexpected {:?}", other),
    }
}

#[test]
fn pending_insert_replaces_same_id() {
    let mut p = PendingFixes::new();
    p.insert(PendingFix { id: "x".to_string(), instruction: "a".to_string(), report_summary: "s".to_string() });
    p.insert(PendingFix { id: "x".to_string(), instruction: "b".to_string(), report_summary: "s".to_string() });
    assert_eq!(p.len(), 1);
    assert_eq!(p.take("x").unwrap().instruction, "b");
}

#[test]
fn slash_instruction_default() {
    assert_eq!(slash_instruction(None), "No instruction provided");
    assert_eq!(slash_instruction(Some("x".to_string())), "x");
}

#[test]
fn progress_records_commands() {
    let mut pr = FixProgress::new("fix it");
    assert_eq!(pr.file_log, "# Fix実行ログ\n## 指示\nfix it\n\n## 実行結果\n\n");
    pr.begin_command("ls");
    let r = FixResult::from_output("ls", b"  a\nb\nc\nd\ne\nf\ng \n", b"", Some(0));
    pr.finish_command("ls", &r);
    assert_eq!(pr.discord_lines, vec!["$ ls".to_string(), "c\nd\ne\nf\ng".to_string(), String::new()]);
    let e = FixResult::from_output("bad", b"", b" oops \n", Some(1));
    pr.begin_command("bad");
    pr.finish_command("bad", &e);
    assert_eq!(pr.discord_lines[4], "(stderr) oops");
    let q = FixResult::from_output("q", b"", b"", Some(3));
    pr.begin_command("q");
    pr.finish_command("q", &q);
    assert_eq!(pr.discord_lines[7], "(exit: 3)");
    assert!(pr.file_log.ends_with("$ bad\n(stderr)\n oops \n(exit: 1)\n\n$ q\n(exit: 3)\n\n"));
    pr.add_summary("done");
    assert!(pr.file_log.ends_with("\n## AIまとめ\ndone\n"));
    assert!(pr.preview(3, 3, true).starts_with("```\n✅ [3/3] 完了\n\n$ ls\n"));
}

#[test]
fn command_list_and_proposal() {
    let cmds = vec!["ls".to_string(), "pwd".to_string()];
    assert_eq!(command_list_text(&cmds), "```\n✅ コマンド生成完了 (2 件)\n  1. ls\n  2. pwd\n\n▶️  実行開始...\n```");
    let p = proposal_messages("x", &cmds);
    assert_eq!(p.summary, "**Fix提案: x**\n\n実行するには `allow_execution: true` に設定してください。");
    assert_eq!(p.file_content, "# Fix提案\n## 指示\nx\n\n## 生成されたコマンド\n```sh\nls\npwd\n```\n");
    assert_eq!(unsent_log_message("ok"), "✅ Fix完了\n\nok");
}

#[test]
fn interaction_urls() {
    assert_eq!(interaction_callback_url(42, "tok"), "https://discord.com/api/v10/interactions/42/tok/callback");
    assert_eq!(original_message_url(7, "t"), "https://discord.com/api/v10/webhooks/7/t/messages/@original");
    assert_eq!(followup_url(7, "t"), "https://discord.com/api/v10/webhooks/7/t");
}
