use system_health_report::bot::PendingFix;
use system_health_report::confirm::{ConfirmEvent, ConfirmFlow, ConfirmStage, ConfirmStep, ConfirmWork};
use system_health_report::fix::FixResult;

fn fix(instruction: &str) -> PendingFix {
    PendingFix {
        id: "abc".to_string(),
        instruction: instruction.to_string(),
        report_summary: "Manual fix request via slash command".to_string(),
    }
}

fn result(stdout: &str, stderr: &str, code: i32) -> FixResult {
    FixResult {
        command: "ignored".to_string(),
        stdout: stdout.to_string(),
        stderr: stderr.to_string(),
        exit_code: code,
        success: code == 0,
    }
}

fn until_generation(allow: bool) -> ConfirmFlow {
    let (flow, step) = ConfirmFlow::start("abc".to_string(), allow, "English".to_string());
    assert!(step.show.is_empty());
    assert!(matches!(step.next, ConfirmWork::Defer));
    let (flow, step) = flow.advance(ConfirmEvent::Deferred { ok: true });
    assert!(step.show.is_empty());
    assert!(matches!(step.next, ConfirmWork::TakeFix(ref id) if id == "abc"));
    let (flow, step) = flow.advance(ConfirmEvent::FixTaken(Some(fix("restart nginx"))));
    assert!(matches!(step.next, ConfirmWork::MakeProvider));
    let (flow, step) = flow.advance(ConfirmEvent::ProviderMade(Ok(())));
    assert_eq!(step.show, vec!["```\n🔄 AIがコマンドを分析中...\n```".to_string()]);
    assert!(matches!(step.next, ConfirmWork::GenerateCommands(ref i) if i == "restart nginx"));
    flow
}

fn is_stop(step: &ConfirmStep) -> bool {
    matches!(step.next, ConfirmWork::Stop)
}

#[test]
fn confirm_runs_commands_in_order_and_sends_the_log() {
    let flow = until_generation(true);
    let cmds = vec!["systemctl restart nginx".to_string(), "systemctl status nginx".to_string()];
    let (flow, step) = flow.advance(ConfirmEvent::CommandsGenerated(Ok(cmds)));
    assert_eq!(
        step.show,
        vec![
            "```\n✅ コマンド生成完了 (2 件)\n  1. systemctl restart nginx\n  2. systemctl status nginx\n\n▶️  実行開始...\n```"
                .to_string(),
            "```\n▶️  [1/2] 実行中...\n\n$ systemctl restart nginx\n\n```".to_string(),
        ]
    );
    assert!(matches!(step.next, ConfirmWork::RunCommand(ref c) if c == "systemctl restart nginx"));

    let (flow, step) = flow.advance(ConfirmEvent::CommandFinished(result("", "", 0)));
    assert_eq!(
        step.show,
        vec![
            "```\n▶️  [1/2] 実行中...\n\n$ systemctl restart nginx\n(exit: 0)\n\n\n```".to_string(),
            "```\n▶️  [2/2] 実行中...\n\n$ systemctl restart nginx\n(exit: 0)\n\n$ systemctl status nginx\n\n```".to_string(),
        ]
    );
    assert!(matches!(step.next, ConfirmWork::RunCommand(ref c) if c == "systemctl status nginx"));

    let (flow, step) = flow.advance(ConfirmEvent::CommandFinished(result("active\n", "", 0)));
    assert_eq!(step.show.len(), 2);
    assert!(step.show[0].starts_with("```\n✅ [2/2] 完了\n\n"));
    assert!(step.show[0].ends_with("$ systemctl status nginx\nactive\n\n\n```"));
    assert_eq!(step.show[1], "```\n✅ 全コマンド完了\n🔄 AIがまとめを生成中...\n```");
    match &step.next {
        ConfirmWork::Summarize(prompt) => {
            assert!(prompt.starts_with("You are a Linux system administration AI."));
            assert!(prompt.contains("Original instruction: restart nginx\n\n"));
            assert!(prompt.contains("$ systemctl restart nginx\nexit code: 0\n\n"));
            assert!(prompt.contains("$ systemctl status nginx\nexit code: 0\noutput:\nactive\n\n\n"));
        }
        other => panic!("unexpected step {:?}", other),
    }

    let (flow, step) = flow.advance(ConfirmEvent::Summarized(Ok("all good".to_string())));
    assert!(step.show.is_empty());
    match &step.next {
        ConfirmWork::SendFile { message, file_name, content } => {
            assert_eq!(message, "✅ Fix完了 — 詳細は添付ファイルを参照");
            assert_eq!(file_name, "fix_log.md");
            assert_eq!(
                content,
                "# Fix実行ログ\n## 指示\nrestart nginx\n\n## 実行結果\n\n$ systemctl restart nginx\n(exit: 0)\n\n$ systemctl status nginx\nactive\n(exit: 0)\n\n\n## AIまとめ\nall good\n"
            );
        }
        other => panic!("unexpected step {:?}", other),
    }

    let (flow, step) = flow.advance(ConfirmEvent::FileSent { ok: true });
    assert_eq!(step.show, vec!["```\n✅ 全コマンド完了\n```".to_string()]);
    assert!(is_stop(&step));
    assert!(matches!(flow.stage, ConfirmStage::Done));
}

#[test]
fn confirm_unknown_request_is_reported() {
    let (flow, _) = ConfirmFlow::start("gone".to_string(), true, "en".to_string());
    let (flow, _) = flow.advance(ConfirmEvent::Deferred { ok: true });
    let (flow, step) = flow.advance(ConfirmEvent::FixTaken(None));
    assert_eq!(step.show, vec!["Fix request not found or already processed.".to_string()]);
    assert!(is_stop(&step));
    assert!(matches!(flow.stage, ConfirmStage::Done));
}

#[test]
fn confirm_stops_when_defer_fails() {
    let (flow, _) = ConfirmFlow::start("abc".to_string(), true, "en".to_string());
    let (flow, step) = flow.advance(ConfirmEvent::Deferred { ok: false });
    assert!(step.show.is_empty());
    assert!(is_stop(&step));
    let (_, step) = flow.advance(ConfirmEvent::FileSent { ok: true });
    assert!(step.show.is_empty());
    assert!(is_stop(&step));
}

#[test]
fn confirm_reports_provider_and_generation_errors() {
    let (flow, _) = ConfirmFlow::start("abc".to_string(), true, "en".to_string());
    let (flow, _) = flow.advance(ConfirmEvent::Deferred { ok: true });
    let (flow, _) = flow.advance(ConfirmEvent::FixTaken(Some(fix("x"))));
    let (_, step) = flow.advance(ConfirmEvent::ProviderMade(Err("no key".to_string())));
    assert_eq!(step.show, vec!["❌ AI provider error: no key".to_string()]);
    assert!(is_stop(&step));

    let flow = until_generation(true);
    let (_, step) = flow.advance(ConfirmEvent::CommandsGenerated(Err("timeout".to_string())));
    assert_eq!(step.show, vec!["❌ AI分析失敗: timeout".to_string()]);
    assert!(is_stop(&step));

    let flow = until_generation(true);
    let (_, step) = flow.advance(ConfirmEvent::CommandsGenerated(Ok(vec![])));
    assert_eq!(step.show, vec!["⚠️ AIはコマンドを生成しませんでした。".to_string()]);
    assert!(is_stop(&step));
}

#[test]
fn confirm_proposes_when_execution_is_off() {
    let flow = until_generation(false);
    let (flow, step) = flow.advance(ConfirmEvent::CommandsGenerated(Ok(vec!["apt-get update".to_string()])));
    assert_eq!(
        step.show,
        vec!["```\n✅ コマンド生成完了 (1 件)\n  1. apt-get update\n\n▶️  実行開始...\n```".to_string()]
    );
    match &step.next {
        ConfirmWork::SendFile { message, file_name, content } => {
            assert_eq!(message, "**Fix提案: restart nginx**\n\n実行するには `allow_execution: true` に設定してください。");
            assert_eq!(file_name, "fix_proposal.md");
            assert_eq!(content, "# Fix提案\n## 指示\nrestart nginx\n\n## 生成されたコマンド\n```sh\napt-get update\n```\n");
        }
        other => panic!("unexpected step {:?}", other),
    }
    let (_, step) = flow.advance(ConfirmEvent::FileSent { ok: false });
    assert_eq!(step.show, vec!["**Fix提案: restart nginx**\n\n実行するには `allow_execution: true` に設定してください。".to_string()]);
    assert!(is_stop(&step));
}

#[test]
fn confirm_falls_back_when_log_cannot_be_sent() {
    let flow = until_generation(true);
    let (flow, _) = flow.advance(ConfirmEvent::CommandsGenerated(Ok(vec!["true".to_string()])));
    let (flow, step) = flow.advance(ConfirmEvent::CommandFinished(result("", "boom\n", 1)));
    assert!(step.show[0].contains("(stderr) boom"));
    let (flow, step) = flow.advance(ConfirmEvent::Summarized(Err("rate limited".to_string())));
    match &step.next {
        ConfirmWork::SendFile { content, .. } => {
            assert!(content.contains("$ true\n(stderr)\nboom\n(exit: 1)\n\n"));
            assert!(content.ends_with("\n## AIまとめ\nSummary failed: rate limited\n"));
        }
        other => panic!("unexpected step {:?}", other),
    }
    let (_, step) = flow.advance(ConfirmEvent::FileSent { ok: false });
    assert_eq!(step.show, vec!["✅ Fix完了\n\nSummary failed: rate limited".to_string()]);
    assert!(is_stop(&step));
}
