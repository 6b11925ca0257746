use system_health_report::config::AutoFix;
use system_health_report::fix::{
    backup_script_name, execution_plan, fix_note_prompt, parse_commands, quick_fix_prompt, summary_prompt,
    FixReport, FixResult,
};
use system_health_report::logs::LogCollection;
use system_health_report::metrics::{CpuFigures, DiskFigures, LoadFigures, MemoryFigures, MetricsFigures};
use system_health_report::report::{build_prompt, language_instruction, language_note_for};

fn figures() -> MetricsFigures {
    MetricsFigures {
        cpu: Some(CpuFigures { average_usage: "12.5".to_string(), interval_seconds: 60 }),
        memory: Some(MemoryFigures {
            total_mb: 8000,
            used_mb: 2000,
            available_mb: 6000,
            usage_percent: "25.0".to_string(),
            swap_total_mb: 1024,
            swap_used_mb: 0,
        }),
        load_average: Some(LoadFigures { one: "0.50".to_string(), five: "0.40".to_string(), fifteen: "0.30".to_string() }),
        disks: vec![DiskFigures {
            mount_point: "/".to_string(),
            total_gb: "100.0".to_string(),
            used_gb: "40.0".to_string(),
            available_gb: "60.0".to_string(),
            usage_percent: "40.0".to_string(),
        }],
        collected_at: "2024-01-01T00:00:00+00:00".to_string(),
    }
}

#[test]
fn language_instruction_cases() {
    assert_eq!(language_instruction("English"), "");
    assert_eq!(language_instruction("EN"), "");
    assert_eq!(language_instruction("Japanese"), " Respond entirely in japanese.");
    assert_eq!(language_note_for("deutsch"), " Respond entirely in deutsch.");
}

#[test]
fn prompt_lists_metrics_and_sorted_logs() {
    let mut logs = LogCollection::new();
    logs.insert("/var/log/z.log".to_string(), "zeta".to_string());
    logs.insert("/var/log/a.log".to_string(), "alpha".to_string());
    let p = build_prompt(&figures(), &logs, "english");
    let expected = "You are a Linux server monitoring AI. Analyze the following metrics and logs.\n\n\
Report the following:\n\
1. Overall system health status (OK / Warning / Critical)\n\
2. Any anomalies or issues detected\n\
3. Recommended actions if needed\n\n\
=== SYSTEM METRICS ===\n\
Collected at: 2024-01-01T00:00:00+00:00\n\n\
CPU Usage (avg over 60s): 12.5%\n\
Memory: 2000/8000 MB (25.0%)\n\
Memory Available: 6000 MB\n\
Swap: 0/1024 MB\n\
Load Average: 0.50 (1min), 0.40 (5min), 0.30 (15min)\n\
\nDisk Usage:\n  /: 40.0/100.0 GB used (40.0%), 60.0 GB available\n\
\n=== LOGS ===\n\
\n[/var/log/a.log] (last 100 lines):\n---\nalpha\n---\n\
\n[/var/log/z.log] (last 100 lines):\n---\nzeta\n---\n";
    assert_eq!(p, expected);
}

#[test]
fn long_logs_are_cut_at_a_line_start() {
    let mut logs = LogCollection::new();
    let content = format!("{}\nkept tail", "x".repeat(6000));
    logs.insert("/l".to_string(), content);
    let empty = MetricsFigures { cpu: None, memory: None, load_average: None, disks: vec![], collected_at: "t".to_string() };
    let p = build_prompt(&empty, &logs, "en");
    assert!(p.ends_with("\n[/l] (last 100 lines):\n---\nkept tail\n[... truncated ...]\n\n---\n"));
    let mut logs2 = LogCollection::new();
    logs2.insert("/m".to_string(), "y".repeat(5001));
    let p2 = build_prompt(&empty, &logs2, "en");
    assert!(p2.ends_with(&format!("---\n{}\n---\n", "y".repeat(5000))));
}

#[test]
fn commands_are_parsed_from_answer() {
    let answer = "```bash\nsudo systemctl restart nginx\n  # comment\n\n~~~\n  apt-get install -y foo  \r\n```";
    assert_eq!(
        parse_commands(answer),
        vec!["sudo systemctl restart nginx".to_string(), "apt-get install -y foo".to_string()]
    );
    assert_eq!(parse_commands(""), Vec::<String>::new());
}

#[test]
fn parsing_is_idempotent() {
    let answer = "  ls -la \n# x\nwhoami\n";
    let once = parse_commands(answer);
    let twice = parse_commands(&once.join("\n"));
    assert_eq!(once, twice);
}

#[test]
fn quick_prompt_takes_error_lines_of_two_logs() {
    let mut logs = LogCollection::new();
    logs.insert("/a".to_string(), "ok\nERROR one\nFailed two\nfine".to_string());
    logs.insert("/b".to_string(), "nothing".to_string());
    logs.insert("/c".to_string(), "error never shown".to_string());
    let p = quick_fix_prompt("fix nginx", &logs);
    assert!(p.contains("=== FIX REQUEST ===\nfix nginx\n\n=== RECENT LOGS ===\n\n[/a] errors:\nERROR one\nFailed two\n\nProvide the minimal set of shell commands needed:"));
    assert!(!p.contains("never shown"));
}

#[test]
fn fix_note_prompt_has_state_and_errors() {
    let mut logs = LogCollection::new();
    let many: Vec<String> = (0..12).map(|i| format!("critical {}", i)).collect();
    logs.insert("/a".to_string(), many.join("\n"));
    let p = fix_note_prompt("disk full", &figures(), &logs);
    assert!(p.contains("disk full\n\n=== CURRENT SYSTEM STATE ===\nCPU: 12.5%\nMemory: 2000/8000 MB (25.0%)\n\n[/a] errors:\ncritical 0\n"));
    assert!(p.contains("critical 9\n\nProvide the minimal set of shell commands needed to fix the issue:"));
    assert!(!p.contains("critical 10"));
}

#[test]
fn execution_plan_needs_both_switches() {
    let af = |allow: bool, backup: bool| AutoFix { enabled: true, workspace: "./fixes/".to_string(), allow_execution: allow, backup_before_fix: backup };
    let p = execution_plan(true, &af(true, true));
    assert!(p.execute && p.backup && !p.disabled_by_config);
    let p = execution_plan(false, &af(true, true));
    assert!(!p.execute && !p.backup && !p.disabled_by_config);
    let p = execution_plan(true, &af(false, true));
    assert!(!p.execute && !p.backup && p.disabled_by_config);
    assert_eq!(backup_script_name("20240101_120000"), "backup_20240101_120000.sh");
}

#[test]
fn fix_report_records_results_in_order() {
    let mut r = FixReport::new("note".to_string(), "ls".to_string(), vec!["ls".to_string(), "pwd".to_string()], true);
    assert_eq!(r.next_command().map(|s| s.as_str()), Some("ls"));
    r.record(FixResult::from_output("ls", b"a\n", b"", Some(0)));
    assert_eq!(r.next_command().map(|s| s.as_str()), Some("pwd"));
    r.record(FixResult::launch_failure("pwd", "no shell"));
    assert!(r.next_command().is_none());
    assert_eq!(r.results[1].stderr, "Failed to execute: no shell");
    assert_eq!(r.results[1].exit_code, -1);
    let not_run = FixReport::new("n".to_string(), "x".to_string(), vec!["x".to_string()], false);
    assert!(not_run.next_command().is_none());
    let killed = FixResult::from_output("k", b"", b"", None);
    assert_eq!(killed.exit_code, -1);
    assert!(!killed.success);
    assert!(FixResult::from_output("ok", b"", b"", Some(0)).success);
    assert!(!FixResult::from_output("no", b"", b"", Some(2)).success);
}

#[test]
fn summary_prompt_shows_results() {
    let mut r = FixReport::new("n".to_string(), String::new(), vec!["echo hi".to_string()], true);
    r.record(FixResult::from_output("echo hi", "x".repeat(600).as_bytes(), b"warn", Some(2)));
    let p = summary_prompt("do it", &r, "english");
    let expected = format!(
        "You are a Linux system administration AI. Analyze the following command execution results and provide a concise summary.\n\n\
Original instruction: do it\n\n=== Execution Results ===\n$ echo hi\nexit code: 2\noutput:\n{}\nstderr:\nwarn\n\n\
Summarize: 1. What was done  2. Success/failure  3. Current system state  4. Further actions needed (if any)",
        "x".repeat(500)
    );
    assert_eq!(p, expected);
}

#[test]
fn prompt_does_not_depend_on_collection_order() {
    let mut first = LogCollection::new();
    first.insert("/var/log/syslog".to_string(), "boot ok".to_string());
    first.insert("/var/log/auth.log".to_string(), "login".to_string());
    first.insert("/var/log/kern.log".to_string(), "error: disk".to_string());
    let mut second = LogCollection::new();
    second.insert("/var/log/kern.log".to_string(), "error: disk".to_string());
    second.insert("/var/log/syslog".to_string(), "boot ok".to_string());
    second.insert("/var/log/auth.log".to_string(), "login".to_string());
    let a = build_prompt(&figures(), &first, "English");
    let b = build_prompt(&figures(), &second, "English");
    assert_eq!(a, b);
    let auth = a.find("[/var/log/auth.log]").unwrap();
    let kern = a.find("[/var/log/kern.log]").unwrap();
    let sys = a.find("[/var/log/syslog]").unwrap();
    assert!(auth < kern && kern < sys);
}
