//! Fix requests: the prompts that ask the AI for shell commands, the parsing
//! of its answer into commands, and the record of what was executed.

use vstd::prelude::*;

use crate::config::AutoFix;
use crate::logs::{decode_lossy, lossy_text, LogCollection};
use crate::metrics::MetricsFigures;
use crate::report::{language_instruction, language_note};
use crate::text::{
    at_most, char_views, chars_of, has_prefix, join, join_strings, keyword_lines, lines, lines_of,
    lowered_text, push_decimal, push_signed_decimal, select_keyword_lines, signed_decimal,
    starts_with_chars, trim, trim_chars, views, decimal, slice_chars, string_of,
};

verus! {

/// The outcome of one executed command.
#[derive(Debug, Clone)]
pub struct FixResult {
    pub command: String,
    pub stdout: String,
    pub stderr: String,
    pub exit_code: i32,
    pub success: bool,
}

impl FixResult {
    /// The result of a command that ran: its output decoded lossily, its exit
    /// code (`-1` when it has none, as when killed by a signal), and success
    /// exactly when it exited with code 0.
    pub fn from_output(command: &str, stdout: &[u8], stderr: &[u8], code: Option<i32>) -> (r: FixResult)
        ensures
            r.command@ == command@,
            r.stdout@ == lossy_text(stdout@),
            r.stderr@ == lossy_text(stderr@),
            vstd::utf8::valid_utf8(stdout@) ==> r.stdout@ == vstd::utf8::decode_utf8(stdout@),
            vstd::utf8::valid_utf8(stderr@) ==> r.stderr@ == vstd::utf8::decode_utf8(stderr@),
            r.exit_code == match code { Some(c) => c, None => -1i32 },
            r.success == (code == Some(0i32)),
    {
        FixResult {
            command: String::from_str(command),
            stdout: decode_lossy(stdout),
            stderr: decode_lossy(stderr),
            exit_code: match code {
                Some(c) => c,
                None => -1,
            },
            success: match code {
                Some(c) => c == 0,
                None => false,
            },
        }
    }

    /// The result of a command that could not be started.
    pub fn launch_failure(command: &str, error: &str) -> (r: FixResult)
        ensures
            r.command@ == command@,
            r.stdout@.len() == 0,
            r.stderr@ == "Failed to execute: "@ + error@,
            r.exit_code == -1,
            !r.success,
    {
        let mut stderr = String::from_str("Failed to execute: ");
        stderr.append(error);
        FixResult { command: String::from_str(command), stdout: String::new(), stderr, exit_code: -1, success: false }
    }
}

/// A trimmed answer line that is a command: not empty, not a `#` comment and
/// not a markdown fence.
pub open spec fn is_command_line(l: Seq<char>) -> bool {
    &&& l.len() > 0
    &&& !has_prefix(l, "#"@)
    &&& !has_prefix(l, "```"@)
    &&& !has_prefix(l, "~~~"@)
}

/// The commands in answer lines `ls`: each line trimmed, non-commands dropped.
pub open spec fn commands_in(ls: Seq<Seq<char>>) -> Seq<Seq<char>>
    decreases ls.len(),
{
    if ls.len() == 0 {
        Seq::empty()
    } else {
        let rest = commands_in(ls.drop_last());
        if is_command_line(trim(ls.last())) {
            rest.push(trim(ls.last()))
        } else {
            rest
        }
    }
}

/// The commands in an AI answer.
pub open spec fn commands_of(answer: Seq<char>) -> Seq<Seq<char>> {
    commands_in(lines_of(answer))
}

/// Whether a trimmed line is a command.
fn is_command_line_exec(l: &Vec<char>) -> (b: bool)
    ensures
        b == is_command_line(l@),
{
    let hash = chars_of("#");
    let fence = chars_of("```");
    let tilde = chars_of("~~~");
    l.len() > 0 && !starts_with_chars(l, &hash) && !starts_with_chars(l, &fence)
        && !starts_with_chars(l, &tilde)
}

/// The shell commands in an AI answer: its lines, trimmed, without empty
/// lines, `#` comments and markdown fences (```` ``` ```` or `~~~`).
pub fn parse_commands(answer: &str) -> (cmds: Vec<String>)
    ensures
        views(cmds@) == commands_of(answer@),
{
    let ls = lines(answer);
    let ghost all = views(ls@);
    let mut cmds: Vec<String> = Vec::new();
    let mut i: usize = 0;
    assert(all.take(0) =~= Seq::<Seq<char>>::empty());
    while i < ls.len()
        invariant
            i <= ls.len(),
            all == views(ls@),
            all == lines_of(answer@),
            views(cmds@) == commands_in(all.take(i as int)),
        decreases ls.len() - i,
    {
        let t = trim_chars(&chars_of(ls[i].as_str()));
        proof {
            assert(all.take(i + 1).drop_last() == all.take(i as int));
            assert(all.take(i + 1).last() == ls@[i as int]@);
        }
        if is_command_line_exec(&t) {
            let ghost before = views(cmds@);
            cmds.push(string_of(&t));
            assert(views(cmds@) =~= before.push(t@));
        }
        i = i + 1;
    }
    assert(all.take(all.len() as int) == all);
    cmds
}

/// The instructions that open every fix prompt.
pub open spec fn fix_preamble() -> Seq<char> {
    "You are a Linux system administrator. Based on the following fix request and system context, provide shell commands to resolve the issue.\n\n"@
        + "IMPORTANT: Respond ONLY with shell commands, one per line. Do not include explanations or markdown. Each line should be a valid shell command.\n"@
        + "IMPORTANT: All commands must be fully non-interactive (no user prompts).\n"@
        + "- Use `apt-get install -y` or `DEBIAN_FRONTEND=noninteractive apt-get install -y` (never bare `apt install`)\n"@
        + "- Add `-y` / `--yes` / `--force` wherever confirmation is required\n\n"@
        + "=== FIX REQUEST ===\n"@
}

fn push_fix_preamble(p: &mut String)
    ensures
        final(p)@ == old(p)@ + fix_preamble(),
{
    let ghost start = p@;
    p.append("You are a Linux system administrator. Based on the following fix request and system context, provide shell commands to resolve the issue.\n\n");
    p.append("IMPORTANT: Respond ONLY with shell commands, one per line. Do not include explanations or markdown. Each line should be a valid shell command.\n");
    p.append("IMPORTANT: All commands must be fully non-interactive (no user prompts).\n");
    p.append("- Use `apt-get install -y` or `DEBIAN_FRONTEND=noninteractive apt-get install -y` (never bare `apt install`)\n");
    p.append("- Add `-y` / `--yes` / `--force` wherever confirmation is required\n\n");
    p.append("=== FIX REQUEST ===\n");
    assert(p@ =~= start + fix_preamble());
}

/// The keywords that mark a log line relevant to a quick fix request.
pub open spec fn quick_fix_keywords() -> Seq<Seq<char>> {
    seq!["error"@, "fail"@]
}

/// The keywords that mark a log line relevant to a fix note.
pub open spec fn fix_note_keywords() -> Seq<Seq<char>> {
    seq!["error"@, "fail"@, "critical"@]
}

/// A lowercase log line is relevant to a quick fix request exactly when it
/// contains `error` or `fail`, and to a fix note exactly when it contains
/// `error`, `fail` or `critical`.
pub proof fn lemma_fix_keywords(lowered: Seq<char>)
    ensures
        crate::text::mentions_any(lowered, quick_fix_keywords()) <==> (
            crate::text::contains_text(lowered, "error"@) || crate::text::contains_text(lowered, "fail"@)),
        crate::text::mentions_any(lowered, fix_note_keywords()) <==> (
            crate::text::contains_text(lowered, "error"@) || crate::text::contains_text(lowered, "fail"@)
            || crate::text::contains_text(lowered, "critical"@)),
{
    let q = quick_fix_keywords();
    let n = fix_note_keywords();
    assert(q.len() == 2 && q[0] == "error"@ && q[1] == "fail"@);
    assert(n.len() == 3 && n[0] == "error"@ && n[1] == "fail"@ && n[2] == "critical"@);
    if crate::text::contains_text(lowered, "error"@) {
        assert(crate::text::contains_text(lowered, q[0]));
        assert(crate::text::contains_text(lowered, n[0]));
    }
    if crate::text::contains_text(lowered, "fail"@) {
        assert(crate::text::contains_text(lowered, q[1]));
        assert(crate::text::contains_text(lowered, n[1]));
    }
    if crate::text::contains_text(lowered, "critical"@) {
        assert(crate::text::contains_text(lowered, n[2]));
    }
}

/// The error excerpt of one log in a quick fix prompt.
pub open spec fn quick_log_section(path: Seq<char>, content: Seq<char>) -> Seq<char> {
    let rel = at_most(keyword_lines(lines_of(content), quick_fix_keywords()), 5);
    if rel.len() == 0 {
        Seq::empty()
    } else {
        "\n["@ + path + "] errors:\n"@ + join(rel, "\n"@) + "\n"@
    }
}

/// The error excerpts of the given logs, in order.
pub open spec fn quick_log_sections(es: Seq<(Seq<char>, Seq<char>)>) -> Seq<char>
    decreases es.len(),
{
    if es.len() == 0 {
        Seq::empty()
    } else {
        quick_log_sections(es.drop_last()) + quick_log_section(es.last().0, es.last().1)
    }
}

/// The prompt asking for commands for a fix request, with error lines of the
/// first two logs.
pub open spec fn quick_fix_prompt_text(instruction: Seq<char>, es: Seq<(Seq<char>, Seq<char>)>) -> Seq<char> {
    fix_preamble() + instruction + "\n\n=== RECENT LOGS ===\n"@ + quick_log_sections(at_most(es, 2))
        + "\nProvide the minimal set of shell commands needed:"@
}

fn keywords_exec(words: &[&str]) -> (r: Vec<Vec<char>>)
    ensures
        r.len() == words.len(),
        forall|i: int| 0 <= i < words.len() ==> #[trigger] r@[i]@ == words@[i]@,
{
    let mut r: Vec<Vec<char>> = Vec::new();
    let mut i: usize = 0;
    while i < words.len()
        invariant
            i <= words.len(),
            r.len() == i,
            forall|k: int| 0 <= k < i ==> #[trigger] r@[k]@ == words@[k]@,
        decreases words.len() - i,
    {
        r.push(chars_of(words[i]));
        i = i + 1;
    }
    r
}

fn quick_keywords() -> (r: Vec<Vec<char>>)
    ensures
        char_views(r@) == quick_fix_keywords(),
{
    let r = keywords_exec(&["error", "fail"]);
    assert(char_views(r@) =~= quick_fix_keywords());
    r
}

fn note_keywords() -> (r: Vec<Vec<char>>)
    ensures
        char_views(r@) == fix_note_keywords(),
{
    let r = keywords_exec(&["error", "fail", "critical"]);
    assert(char_views(r@) =~= fix_note_keywords());
    r
}

/// Builds the prompt for a fix request from Discord: the instructions, the
/// request, and for each of the first two logs its first five lines that
/// mention an error or a failure.
pub fn quick_fix_prompt(instruction: &str, logs: &LogCollection) -> (p: String)
    ensures
        p@ == quick_fix_prompt_text(instruction@, logs.entries()),
{
    let mut p = String::new();
    push_fix_preamble(&mut p);
    p.append(instruction);
    p.append("\n\n=== RECENT LOGS ===\n");
    let kws = quick_keywords();
    let n: usize = if logs.logs.len() <= 2 { logs.logs.len() } else { 2 };
    let ghost es = logs.entries();
    let ghost start = p@;
    let mut i: usize = 0;
    while i < n
        invariant
            n <= logs.logs.len(),
            n == if es.len() <= 2 { es.len() } else { 2 },
            es == logs.entries(),
            char_views(kws@) == quick_fix_keywords(),
            i <= n,
            p@ == start + quick_log_sections(es.take(i as int)),
        decreases n - i,
    {
        let ghost before = p@;
        let rel = select_keyword_lines(logs.logs[i].1.as_str(), &kws, 5);
        if rel.len() > 0 {
            p.append("\n[");
            p.append(logs.logs[i].0.as_str());
            p.append("] errors:\n");
            let joined = join_strings(&rel, "\n");
            p.append(joined.as_str());
            p.append("\n");
        }
        proof {
            assert(es.take(i + 1).drop_last() == es.take(i as int));
            assert(es.take(i + 1).last() == es[i as int]);
            assert(p@ =~= before + quick_log_section(es[i as int].0, es[i as int].1));
        }
        i = i + 1;
    }
    assert(es.take(n as int) == at_most(es, 2));
    p.append("\nProvide the minimal set of shell commands needed:");
    p
}

/// The error excerpt of one log in a fix-note prompt.
pub open spec fn note_log_section(path: Seq<char>, content: Seq<char>) -> Seq<char> {
    let rel = at_most(keyword_lines(lines_of(content), fix_note_keywords()), 10);
    if rel.len() == 0 {
        Seq::empty()
    } else {
        "\n["@ + path + "] errors:\n"@ + line_list(rel)
    }
}

/// Each line followed by a newline.
pub open spec fn line_list(ls: Seq<Seq<char>>) -> Seq<char>
    decreases ls.len(),
{
    if ls.len() == 0 {
        Seq::empty()
    } else {
        line_list(ls.drop_last()) + ls.last() + "\n"@
    }
}

/// The error excerpts of the given logs in a fix-note prompt, in order.
pub open spec fn note_log_sections(es: Seq<(Seq<char>, Seq<char>)>) -> Seq<char>
    decreases es.len(),
{
    if es.len() == 0 {
        Seq::empty()
    } else {
        note_log_sections(es.drop_last()) + note_log_section(es.last().0, es.last().1)
    }
}

/// The system-state lines of a fix-note prompt.
pub open spec fn system_state_text(m: MetricsFigures) -> Seq<char> {
    (match m.cpu {
        Some(c) => "CPU: "@ + c.average_usage@ + "%\n"@,
        None => Seq::empty(),
    }) + (match m.memory {
        Some(mem) => "Memory: "@ + decimal(mem.used_mb as nat) + "/"@ + decimal(mem.total_mb as nat)
            + " MB ("@ + mem.usage_percent@ + "%)\n"@,
        None => Seq::empty(),
    })
}

/// The prompt asking for commands for a fix note.
pub open spec fn fix_note_prompt_text(note: Seq<char>, m: MetricsFigures, es: Seq<(Seq<char>, Seq<char>)>) -> Seq<char> {
    fix_preamble() + note + "\n\n=== CURRENT SYSTEM STATE ===\n"@ + system_state_text(m)
        + note_log_sections(at_most(es, 3))
        + "\nProvide the minimal set of shell commands needed to fix the issue:"@
}

fn push_line_list(p: &mut String, ls: &Vec<String>)
    ensures
        final(p)@ == old(p)@ + line_list(views(ls@)),
{
    let ghost start = p@;
    let mut i: usize = 0;
    while i < ls.len()
        invariant
            i <= ls.len(),
            p@ == start + line_list(views(ls@).take(i as int)),
        decreases ls.len() - i,
    {
        p.append(ls[i].as_str());
        p.append("\n");
        proof {
            assert(views(ls@).take(i + 1).drop_last() == views(ls@).take(i as int));
            assert(p@ =~= start + line_list(views(ls@).take(i + 1)));
        }
        i = i + 1;
    }
    assert(views(ls@).take(ls.len() as int) == views(ls@));
}

fn push_system_state(p: &mut String, m: &MetricsFigures)
    ensures
        final(p)@ == old(p)@ + system_state_text(*m),
{
    let ghost start = p@;
    match &m.cpu {
        Some(c) => {
            p.append("CPU: ");
            p.append(c.average_usage.as_str());
            p.append("%\n");
        },
        None => {},
    }
    match &m.memory {
        Some(mem) => {
            p.append("Memory: ");
            push_decimal(p, mem.used_mb);
            p.append("/");
            push_decimal(p, mem.total_mb);
            p.append(" MB (");
            p.append(mem.usage_percent.as_str());
            p.append("%)\n");
        },
        None => {},
    }
    assert(p@ =~= start + system_state_text(*m));
}

/// Builds the prompt for a fix note: the instructions, the note, CPU and
/// memory figures, and for each of the first three logs its first ten lines
/// that mention an error, a failure or something critical.
pub fn fix_note_prompt(note: &str, metrics: &MetricsFigures, logs: &LogCollection) -> (p: String)
    ensures
        p@ == fix_note_prompt_text(note@, *metrics, logs.entries()),
{
    let mut p = String::new();
    push_fix_preamble(&mut p);
    p.append(note);
    p.append("\n\n=== CURRENT SYSTEM STATE ===\n");
    push_system_state(&mut p, metrics);
    let kws = note_keywords();
    let n: usize = if logs.logs.len() <= 3 { logs.logs.len() } else { 3 };
    let ghost es = logs.entries();
    let ghost start = p@;
    let mut i: usize = 0;
    while i < n
        invariant
            n <= logs.logs.len(),
            n == if es.len() <= 3 { es.len() } else { 3 },
            es == logs.entries(),
            char_views(kws@) == fix_note_keywords(),
            i <= n,
            p@ == start + note_log_sections(es.take(i as int)),
        decreases n - i,
    {
        let ghost before = p@;
        let rel = select_keyword_lines(logs.logs[i].1.as_str(), &kws, 10);
        if rel.len() > 0 {
            p.append("\n[");
            p.append(logs.logs[i].0.as_str());
            p.append("] errors:\n");
            push_line_list(&mut p, &rel);
        }
        proof {
            assert(es.take(i + 1).drop_last() == es.take(i as int));
            assert(es.take(i + 1).last() == es[i as int]);
            assert(p@ =~= before + note_log_section(es[i as int].0, es[i as int].1));
        }
        i = i + 1;
    }
    assert(es.take(n as int) == at_most(es, 3));
    p.append("\nProvide the minimal set of shell commands needed to fix the issue:");
    p
}

/// What happens to the suggested commands.
#[derive(Debug, Clone, Copy)]
pub struct ExecutionPlan {
    /// The commands are executed.
    pub execute: bool,
    /// A backup script is written first.
    pub backup: bool,
    /// Execution is switched off in the configuration (worth a warning).
    pub disabled_by_config: bool,
}

/// Commands run only when asked for and allowed by the configuration; a
/// backup is written first when they run and the configuration asks for it.
pub fn execution_plan(auto_execute: bool, auto_fix: &AutoFix) -> (plan: ExecutionPlan)
    ensures
        plan.execute == (auto_execute && auto_fix.allow_execution),
        plan.backup == (plan.execute && auto_fix.backup_before_fix),
        plan.disabled_by_config == (!plan.execute && !auto_fix.allow_execution),
{
    let execute = auto_execute && auto_fix.allow_execution;
    ExecutionPlan {
        execute,
        backup: execute && auto_fix.backup_before_fix,
        disabled_by_config: !execute && !auto_fix.allow_execution,
    }
}

/// The file name of the backup script for a `%Y%m%d_%H%M%S` timestamp.
pub fn backup_script_name(stamp: &str) -> (name: String)
    ensures
        name@ == "backup_"@ + stamp@ + ".sh"@,
{
    let mut s = String::from_str("backup_");
    s.append(stamp);
    s.append(".sh");
    s
}

/// The text of the backup script.
pub fn backup_script_text() -> (t: String)
    ensures
        t@ == "#!/bin/bash\n# Backup created before auto-fix\n"@,
{
    String::from_str("#!/bin/bash\n# Backup created before auto-fix\n")
}

/// The record of a fix: the note, the AI's answer, the commands parsed from
/// it and, when they were executed, their results in order.
#[derive(Debug, Clone)]
pub struct FixReport {
    pub fix_note: String,
    pub ai_response: String,
    pub commands: Vec<String>,
    pub results: Vec<FixResult>,
    pub executed: bool,
}

impl FixReport {
    /// The report's invariant: results exist only for executed fixes, and the
    /// i-th result belongs to the i-th command.
    pub open spec fn wf(&self) -> bool {
        &&& self.results.len() <= self.commands.len()
        &&& !self.executed ==> self.results.len() == 0
        &&& forall|i: int| 0 <= i < self.results.len() ==> #[trigger] self.results@[i].command@ == self.commands@[i]@
    }

    /// A fix whose commands have been chosen and none run yet.
    pub fn new(fix_note: String, ai_response: String, commands: Vec<String>, executed: bool) -> (r: FixReport)
        ensures
            r.wf(),
            r.fix_note == fix_note,
            r.ai_response == ai_response,
            r.commands@ == commands@,
            r.results.len() == 0,
            r.executed == executed,
    {
        FixReport { fix_note, ai_response, commands, results: Vec::new(), executed }
    }

    /// The next command to execute, if any remains.
    pub fn next_command(&self) -> (c: Option<&String>)
        requires
            self.wf(),
        ensures
            c is Some <==> self.executed && self.results.len() < self.commands.len(),
            c matches Some(s) ==> s@ == self.commands@[self.results.len() as int]@,
    {
        if self.executed && self.results.len() < self.commands.len() {
            Some(&self.commands[self.results.len()])
        } else {
            None
        }
    }

    /// Records the result of the next command.
    pub fn record(&mut self, result: FixResult)
        requires
            old(self).wf(),
            old(self).executed,
            old(self).results.len() < old(self).commands.len(),
            result.command@ == old(self).commands@[old(self).results.len() as int]@,
        ensures
            final(self).wf(),
            final(self).results@ == old(self).results@.push(result),
            final(self).commands@ == old(self).commands@,
            final(self).fix_note == old(self).fix_note,
            final(self).ai_response == old(self).ai_response,
            final(self).executed,
    {
        self.results.push(result);
    }
}

/// The first `n` characters of `s` (all of it when shorter).
pub open spec fn first_chars(s: Seq<char>, n: nat) -> Seq<char> {
    at_most(s, n)
}

/// One result's block in the summary prompt.
pub open spec fn result_block(r: FixResult) -> Seq<char> {
    "$ "@ + r.command@ + "\nexit code: "@ + signed_decimal(r.exit_code as int) + "\n"@
        + (if r.stdout@.len() > 0 { "output:\n"@ + first_chars(r.stdout@, 500) + "\n"@ } else { Seq::empty() })
        + (if r.stderr@.len() > 0 { "stderr:\n"@ + first_chars(r.stderr@, 200) + "\n"@ } else { Seq::empty() })
        + "\n"@
}

/// The blocks of all results, in order.
pub open spec fn result_blocks(rs: Seq<FixResult>) -> Seq<char>
    decreases rs.len(),
{
    if rs.len() == 0 {
        Seq::empty()
    } else {
        result_blocks(rs.drop_last()) + result_block(rs.last())
    }
}

/// The prompt asking the AI to summarize executed commands.
pub open spec fn summary_prompt_text(instruction: Seq<char>, rs: Seq<FixResult>, note: Seq<char>) -> Seq<char> {
    "You are a Linux system administration AI. Analyze the following command execution results and provide a concise summary."@
        + note + "\n\n"@ + "Original instruction: "@ + instruction + "\n\n"@
        + "=== Execution Results ===\n"@ + result_blocks(rs)
        + "Summarize: 1. What was done  2. Success/failure  3. Current system state  4. Further actions needed (if any)"@
}

fn push_first_chars(p: &mut String, s: &str, n: usize)
    ensures
        final(p)@ == old(p)@ + first_chars(s@, n as nat),
{
    let c = chars_of(s);
    let k = if c.len() <= n { c.len() } else { n };
    let part = slice_chars(&c, 0, k);
    crate::text::push_chars(p, &part);
    assert(part@ =~= first_chars(s@, n as nat));
}

fn push_result_block(p: &mut String, r: &FixResult)
    ensures
        final(p)@ == old(p)@ + result_block(*r),
{
    let ghost start = p@;
    p.append("$ ");
    p.append(r.command.as_str());
    p.append("\nexit code: ");
    push_signed_decimal(p, r.exit_code as i64);
    p.append("\n");
    let ghost mid = p@;
    if !r.stdout.as_str().is_empty() {
        p.append("output:\n");
        push_first_chars(p, r.stdout.as_str(), 500);
        p.append("\n");
    }
    let ghost mid2 = p@;
    assert(mid2 =~= mid + (if r.stdout@.len() > 0 { "output:\n"@ + first_chars(r.stdout@, 500) + "\n"@ } else { Seq::empty() }));
    if !r.stderr.as_str().is_empty() {
        p.append("stderr:\n");
        push_first_chars(p, r.stderr.as_str(), 200);
        p.append("\n");
    }
    let ghost mid3 = p@;
    assert(mid3 =~= mid2 + (if r.stderr@.len() > 0 { "stderr:\n"@ + first_chars(r.stderr@, 200) + "\n"@ } else { Seq::empty() }));
    p.append("\n");
    assert(p@ =~= start + result_block(*r));
}

/// Builds the prompt asking the AI to summarize the executed commands of a
/// fix, answering in the configured language.
pub fn summary_prompt(instruction: &str, report: &FixReport, language: &str) -> (p: String)
    ensures
        p@ == summary_prompt_text(instruction@, report.results@, language_note(lowered_text(language@))),
{
    let note = language_instruction(language);
    let mut p = String::from_str("You are a Linux system administration AI. Analyze the following command execution results and provide a concise summary.");
    p.append(note.as_str());
    p.append("\n\n");
    p.append("Original instruction: ");
    p.append(instruction);
    p.append("\n\n");
    p.append("=== Execution Results ===\n");
    let ghost start = p@;
    let mut i: usize = 0;
    while i < report.results.len()
        invariant
            i <= report.results.len(),
            p@ == start + result_blocks(report.results@.take(i as int)),
        decreases report.results.len() - i,
    {
        push_result_block(&mut p, &report.results[i]);
        proof {
            assert(report.results@.take(i + 1).drop_last() == report.results@.take(i as int));
            assert(p@ =~= start + result_blocks(report.results@.take(i + 1)));
        }
        i = i + 1;
    }
    assert(report.results@.take(report.results.len() as int) == report.results@);
    p.append("Summarize: 1. What was done  2. Success/failure  3. Current system state  4. Further actions needed (if any)");
    p
}

/// No command result exists for a fix that was not executed, and every
/// result belongs to the command at its position.
pub proof fn lemma_results_only_when_executed(r: FixReport)
    requires
        r.wf(),
    ensures
        !r.executed ==> r.results@.len() == 0,
        forall|i: int| 0 <= i < r.results@.len() ==> #[trigger] r.results@[i].command@ == r.commands@[i]@,
{
}

/// Every parsed command is a trimmed, non-empty line that is neither a
/// comment nor a markdown fence.
pub proof fn lemma_commands_are_clean(ls: Seq<Seq<char>>)
    ensures
        forall|i: int| 0 <= i < commands_in(ls).len() ==> {
            &&& is_command_line(#[trigger] commands_in(ls)[i])
            &&& trim(commands_in(ls)[i]) == commands_in(ls)[i]
        },
    decreases ls.len(),
{
    if ls.len() > 0 {
        lemma_commands_are_clean(ls.drop_last());
        crate::text::lemma_trim_idempotent(ls.last());
        let rest = commands_in(ls.drop_last());
        assert forall|i: int| 0 <= i < commands_in(ls).len() implies {
            &&& is_command_line(#[trigger] commands_in(ls)[i])
            &&& trim(commands_in(ls)[i]) == commands_in(ls)[i]
        } by {
            if i < rest.len() {
                assert(commands_in(ls)[i] == rest[i]);
            }
        }
    }
}

proof fn lemma_clean_commands_fixed(cs: Seq<Seq<char>>)
    requires
        forall|i: int| 0 <= i < cs.len() ==> is_command_line(#[trigger] cs[i]) && trim(cs[i]) == cs[i],
    ensures
        commands_in(cs) == cs,
    decreases cs.len(),
{
    if cs.len() > 0 {
        let init = cs.drop_last();
        assert forall|i: int| 0 <= i < init.len() implies is_command_line(#[trigger] init[i]) && trim(init[i]) == init[i] by {
            assert(init[i] == cs[i]);
        }
        lemma_clean_commands_fixed(init);
        assert(is_command_line(cs[cs.len() - 1]));
        assert(cs =~= init.push(cs.last()));
    }
}

/// Parsing is idempotent: the commands, written one per line, parse back to
/// the same commands.
pub proof fn lemma_parse_commands_idempotent(answer: Seq<char>)
    ensures
        commands_of(join(commands_of(answer), "\n"@)) == commands_of(answer),
{
    let ls = lines_of(answer);
    let cs = commands_of(answer);
    lemma_commands_are_clean(ls);
    crate::text::lemma_lines_have_no_newline(answer);
    lemma_commands_subset(ls);
    assert forall|i: int| 0 <= i < cs.len() implies crate::text::no_newline(#[trigger] cs[i]) && crate::text::strip_cr(cs[i]) == cs[i] by {
        let j = choose|j: int| 0 <= j < ls.len() && cs[i] == trim(ls[j]);
        assert(crate::text::no_newline(ls[j]));
        crate::text::lemma_trim_slice(ls[j]);
        let (a, b) = choose|a: int, b: int| 0 <= a <= b <= ls[j].len() && trim(ls[j]) == ls[j].subrange(a, b);
        assert forall|k: int| 0 <= k < cs[i].len() implies cs[i][k] != '\n' by {
            assert(cs[i][k] == ls[j][a + k]);
        }
        crate::text::lemma_trim_idempotent(ls[j]);
        assert(cs[i].len() > 0);
        assert(!crate::text::is_space(cs[i].last()));
    }
    crate::text::lemma_lines_of_joined(cs);
    lemma_clean_commands_fixed(cs);
}

/// Every command is the trimmed form of some answer line.
proof fn lemma_commands_subset(ls: Seq<Seq<char>>)
    ensures
        forall|i: int| 0 <= i < commands_in(ls).len() ==> exists|j: int| 0 <= j < ls.len() && #[trigger] commands_in(ls)[i] == trim(ls[j]),
    decreases ls.len(),
{
    if ls.len() > 0 {
        lemma_commands_subset(ls.drop_last());
        let rest = commands_in(ls.drop_last());
        assert forall|i: int| 0 <= i < commands_in(ls).len() implies exists|j: int| 0 <= j < ls.len() && #[trigger] commands_in(ls)[i] == trim(ls[j]) by {
            if i < rest.len() {
                assert(commands_in(ls)[i] == rest[i]);
                let j = choose|j: int| 0 <= j < ls.drop_last().len() && rest[i] == trim(ls.drop_last()[j]);
                assert(ls.drop_last()[j] == ls[j]);
            } else {
                assert(commands_in(ls)[i] == trim(ls[ls.len() - 1]));
            }
        }
    }
}


/// A trimmed answer line is a command exactly when it is not empty and does
/// not begin with `#`, with three backticks or with three tildes; a `#`
/// further on (a trailing comment) does not matter.
pub proof fn lemma_command_line_by_first_chars(l: Seq<char>)
    ensures
        is_command_line(l) <==> {
            &&& l.len() > 0
            &&& l[0] != '#'
            &&& !(l.len() >= 3 && l[0] == '`' && l[1] == '`' && l[2] == '`')
            &&& !(l.len() >= 3 && l[0] == '~' && l[1] == '~' && l[2] == '~')
        },
{
    reveal_strlit("#");
    reveal_strlit("```");
    reveal_strlit("~~~");
    if l.len() > 0 {
        assert(has_prefix(l, "#"@) <==> l[0] == '#') by {
            if l[0] == '#' {
                assert(l.subrange(0, 1) =~= "#"@);
            }
            if has_prefix(l, "#"@) {
                assert(l.subrange(0, 1)[0] == l[0]);
            }
        }
        if l.len() >= 3 {
            assert(has_prefix(l, "```"@) <==> (l[0] == '`' && l[1] == '`' && l[2] == '`')) by {
                if l[0] == '`' && l[1] == '`' && l[2] == '`' {
                    assert(l.subrange(0, 3) =~= "```"@);
                }
                if has_prefix(l, "```"@) {
                    assert(l.subrange(0, 3)[0] == l[0] && l.subrange(0, 3)[1] == l[1] && l.subrange(0, 3)[2] == l[2]);
                }
            }
            assert(has_prefix(l, "~~~"@) <==> (l[0] == '~' && l[1] == '~' && l[2] == '~')) by {
                if l[0] == '~' && l[1] == '~' && l[2] == '~' {
                    assert(l.subrange(0, 3) =~= "~~~"@);
                }
                if has_prefix(l, "~~~"@) {
                    assert(l.subrange(0, 3)[0] == l[0] && l.subrange(0, 3)[1] == l[1] && l.subrange(0, 3)[2] == l[2]);
                }
            }
        }
    }
}

/// The commands of answer lines are those lines, trimmed, that are not empty
/// and do not begin with `#`, three backticks or three tildes, in their
/// order: every other line is kept.
pub proof fn lemma_commands_are_kept_lines(ls: Seq<Seq<char>>)
    ensures
        commands_in(ls) == ls.map_values(|l: Seq<char>| trim(l)).filter(
            |t: Seq<char>|
                t.len() > 0 && t[0] != '#' && !(t.len() >= 3 && t[0] == '`' && t[1] == '`' && t[2] == '`')
                    && !(t.len() >= 3 && t[0] == '~' && t[1] == '~' && t[2] == '~'),
        ),
    decreases ls.len(),
{
    let keep = |t: Seq<char>|
        t.len() > 0 && t[0] != '#' && !(t.len() >= 3 && t[0] == '`' && t[1] == '`' && t[2] == '`')
            && !(t.len() >= 3 && t[0] == '~' && t[1] == '~' && t[2] == '~');
    let m = ls.map_values(|l: Seq<char>| trim(l));
    reveal(Seq::filter);
    if ls.len() == 0 {
        assert(m =~= Seq::<Seq<char>>::empty());
    } else {
        lemma_commands_are_kept_lines(ls.drop_last());
        assert(m.drop_last() =~= ls.drop_last().map_values(|l: Seq<char>| trim(l)));
        assert(m.last() == trim(ls.last()));
        lemma_command_line_by_first_chars(trim(ls.last()));
        assert(keep(m.last()) == is_command_line(trim(ls.last())));
    }
}

/// Parsing keeps every answer line that, trimmed, is not empty and does not
/// begin with `#`, three backticks or three tildes; a line with a `#` later
/// in it is such a line.
pub proof fn lemma_parse_keeps_commented_commands(answer: Seq<char>)
    ensures
        commands_of(answer) == lines_of(answer).map_values(|l: Seq<char>| trim(l)).filter(
            |t: Seq<char>|
                t.len() > 0 && t[0] != '#' && !(t.len() >= 3 && t[0] == '`' && t[1] == '`' && t[2] == '`')
                    && !(t.len() >= 3 && t[0] == '~' && t[1] == '~' && t[2] == '~'),
        ),
{
    lemma_commands_are_kept_lines(lines_of(answer));
}

} // verus!
