//! The "Confirm Fix" button: the steps from the button press to the fix log,
//! as a state machine. The caller does the outside work each step names
//! (answering Discord, asking the AI, running a command) and reports back
//! what came of it; every decision and message is made here.

use vstd::prelude::*;

use crate::bot::{
    command_list_message, command_list_text, file_log_entry, log_preview, output_summary, proposal_messages,
    truncate_utf8, truncated, unsent_log_message, FixProgress, PendingFix,
};
use crate::fix::{summary_prompt, summary_prompt_text, FixReport, FixResult};
use crate::report::language_note;
use crate::text::{join, lowered_text, views};

verus! {

/// What came of the work a step asked for.
#[derive(Debug)]
pub enum ConfirmEvent {
    /// The button press was acknowledged (or not).
    Deferred { ok: bool },
    /// The pending request taken out under the button's id, if any.
    FixTaken(Option<PendingFix>),
    /// The AI provider was set up, or the error that stopped it.
    ProviderMade(Result<(), String>),
    /// The commands the AI suggested, or the error that stopped it.
    CommandsGenerated(Result<Vec<String>, String>),
    /// The result of the command that was run.
    CommandFinished(FixResult),
    /// The AI's summary of the results, or the error that stopped it.
    Summarized(Result<String, String>),
    /// Whether the file was delivered.
    FileSent { ok: bool },
}

/// The outside work a step asks for next.
#[derive(Debug)]
pub enum ConfirmWork {
    /// Acknowledge the button press (a deferred update).
    Defer,
    /// Take the pending request with this id out of the pending requests.
    TakeFix(String),
    /// Set up the configured AI provider.
    MakeProvider,
    /// Ask the AI for commands for this instruction.
    GenerateCommands(String),
    /// Run this shell command.
    RunCommand(String),
    /// Ask the AI to answer this prompt.
    Summarize(String),
    /// Send a follow-up message with an attached file.
    SendFile { message: String, file_name: String, content: String },
    /// Nothing more: the interaction is over.
    Stop,
}

/// One step: the progress messages to show, in order, and the work to do
/// after them.
#[derive(Debug)]
pub struct ConfirmStep {
    pub show: Vec<String>,
    pub next: ConfirmWork,
}

/// Where the flow stands.
#[derive(Debug)]
pub enum ConfirmStage {
    /// Waiting for the button press to be acknowledged.
    Deferring,
    /// Waiting for the pending request.
    Taking,
    /// Waiting for the AI provider.
    MakingProvider(PendingFix),
    /// Waiting for the suggested commands.
    Generating(PendingFix),
    /// Running the commands: `report` holds those run so far.
    Running { progress: FixProgress, report: FixReport },
    /// Waiting for the AI's summary.
    Summarizing { progress: FixProgress },
    /// Waiting for the proposal file to be sent (execution is off).
    Proposing { summary: String },
    /// Waiting for the fix log file to be sent.
    Finishing { summary: String },
    /// Over.
    Done,
}

/// A press of a "Confirm Fix" button being handled.
#[derive(Debug)]
pub struct ConfirmFlow {
    /// The id of the request the button confirms.
    pub fix_id: String,
    /// Whether the configuration lets commands run.
    pub allow_execution: bool,
    /// The language of the AI's summary.
    pub language: String,
    pub stage: ConfirmStage,
}

/// Shown when no request waits under the button's id.
pub open spec fn not_found_message() -> Seq<char> {
    "Fix request not found or already processed."@
}

/// Shown while the AI works out the commands.
pub open spec fn analyzing_message() -> Seq<char> {
    "```\n🔄 AIがコマンドを分析中...\n```"@
}

/// Shown when the AI suggests no command.
pub open spec fn no_commands_message() -> Seq<char> {
    "⚠️ AIはコマンドを生成しませんでした。"@
}

/// Shown when every command has run and the summary is being written.
pub open spec fn summarizing_message() -> Seq<char> {
    "```\n✅ 全コマンド完了\n🔄 AIがまとめを生成中...\n```"@
}

/// Shown when the fix log was delivered.
pub open spec fn finished_message() -> Seq<char> {
    "```\n✅ 全コマンド完了\n```"@
}

/// The message that comes with the fix log file.
pub open spec fn fix_log_file_message() -> Seq<char> {
    "✅ Fix完了 — 詳細は添付ファイルを参照"@
}

/// The opening of the fix log file.
pub open spec fn fix_log_header(instruction: Seq<char>) -> Seq<char> {
    "# Fix実行ログ\n## 指示\n"@ + instruction + "\n\n## 実行結果\n\n"@
}

/// The proposal summary when execution is off.
pub open spec fn proposal_summary(instruction: Seq<char>) -> Seq<char> {
    "**Fix提案: "@ + instruction + "**\n\n実行するには `allow_execution: true` に設定してください。"@
}

/// The proposal file when execution is off.
pub open spec fn proposal_file(instruction: Seq<char>, cmds: Seq<Seq<char>>) -> Seq<char> {
    "# Fix提案\n## 指示\n"@ + instruction + "\n\n## 生成されたコマンド\n```sh\n"@ + join(cmds, "\n"@) + "\n```\n"@
}

/// `r` with its command replaced by `cmd`.
pub open spec fn result_for(r: FixResult, cmd: String) -> FixResult {
    FixResult { command: cmd, stdout: r.stdout, stderr: r.stderr, exit_code: r.exit_code, success: r.success }
}

/// The text of the AI's summary, or of its failure.
pub open spec fn summary_text(res: Result<String, String>) -> Seq<char> {
    match res {
        Ok(s) => s@,
        Err(e) => "Summary failed: "@ + e@,
    }
}

/// The step shows `msgs` and ends the interaction.
pub open spec fn ends_with(g: ConfirmFlow, step: ConfirmStep, msgs: Seq<Seq<char>>) -> bool {
    &&& g.stage is Done
    &&& step.next is Stop
    &&& views(step.show@) == msgs
}

/// The flow keeps running commands, with these progress lines, file log,
/// commands and results, and runs next the command after those with results.
pub open spec fn runs_next(g: ConfirmFlow, step: ConfirmStep, lines: Seq<Seq<char>>, file_log: Seq<char>, commands: Seq<String>, results: Seq<FixResult>, instruction: Seq<char>) -> bool {
    &&& g.stage matches ConfirmStage::Running { progress, report } && {
        &&& views(progress.discord_lines@) == lines
        &&& progress.file_log@ == file_log
        &&& report.commands@ == commands
        &&& report.results@ == results
        &&& report.fix_note@ == instruction
        &&& report.executed
    }
    &&& step.next matches ConfirmWork::RunCommand(c) && c@ == commands[results.len() as int]@
}

/// After the last command: the summary is asked for with the usual prompt.
pub open spec fn asks_summary(f: ConfirmFlow, g: ConfirmFlow, step: ConfirmStep, lines: Seq<Seq<char>>, file_log: Seq<char>, results: Seq<FixResult>, instruction: Seq<char>) -> bool {
    &&& g.stage matches ConfirmStage::Summarizing { progress } && {
        &&& views(progress.discord_lines@) == lines
        &&& progress.file_log@ == file_log
    }
    &&& step.next matches ConfirmWork::Summarize(p)
        && p@ == summary_prompt_text(instruction, results, language_note(lowered_text(f.language@)))
}

/// What a step does with the event `ev` in the stage `f` stands in: `g` is
/// the next state and `step` the messages and work that follow. An event that
/// does not answer the stage's work ends the interaction quietly.
pub open spec fn confirm_transition(f: ConfirmFlow, ev: ConfirmEvent, g: ConfirmFlow, step: ConfirmStep) -> bool {
    &&& g.fix_id == f.fix_id
    &&& g.allow_execution == f.allow_execution
    &&& g.language == f.language
    &&& match (f.stage, ev) {
        (ConfirmStage::Deferring, ConfirmEvent::Deferred { ok }) => if ok {
            &&& g.stage is Taking
            &&& step.show@.len() == 0
            &&& step.next matches ConfirmWork::TakeFix(id) && id@ == f.fix_id@
        } else {
            ends_with(g, step, Seq::empty())
        },
        (ConfirmStage::Taking, ConfirmEvent::FixTaken(found)) => match found {
            Some(fix) => {
                &&& g.stage == ConfirmStage::MakingProvider(fix)
                &&& step.show@.len() == 0
                &&& step.next is MakeProvider
            },
            None => ends_with(g, step, seq![not_found_message()]),
        },
        (ConfirmStage::MakingProvider(fix), ConfirmEvent::ProviderMade(made)) => match made {
            Ok(_) => {
                &&& g.stage == ConfirmStage::Generating(fix)
                &&& views(step.show@) == seq![analyzing_message()]
                &&& step.next matches ConfirmWork::GenerateCommands(i) && i@ == fix.instruction@
            },
            Err(e) => ends_with(g, step, seq!["❌ AI provider error: "@ + e@]),
        },
        (ConfirmStage::Generating(fix), ConfirmEvent::CommandsGenerated(generated)) => match generated {
            Err(e) => ends_with(g, step, seq!["❌ AI分析失敗: "@ + e@]),
            Ok(cmds) => if cmds.len() == 0 {
                ends_with(g, step, seq![no_commands_message()])
            } else if !f.allow_execution {
                &&& g.stage matches ConfirmStage::Proposing { summary } && summary@ == proposal_summary(fix.instruction@)
                &&& views(step.show@) == seq![command_list_message(views(cmds@))]
                &&& step.next matches ConfirmWork::SendFile { message, file_name, content } && {
                    &&& message@ == proposal_summary(fix.instruction@)
                    &&& file_name@ == "fix_proposal.md"@
                    &&& content@ == proposal_file(fix.instruction@, views(cmds@))
                }
            } else {
                let first_line = seq!["$ "@ + cmds@[0]@];
                &&& runs_next(g, step, first_line, fix_log_header(fix.instruction@), cmds@, Seq::empty(), fix.instruction@)
                &&& views(step.show@) == seq![
                    command_list_message(views(cmds@)),
                    log_preview(first_line, 1, cmds.len() as nat, false),
                ]
            },
        },
        (ConfirmStage::Running { progress, report }, ConfirmEvent::CommandFinished(r)) => {
            let i = report.results.len() as int;
            let n = report.commands.len() as nat;
            let cmd = report.commands@[i];
            let done = result_for(r, cmd);
            let results = report.results@.push(done);
            let lines = views(progress.discord_lines@).push(output_summary(done)).push(Seq::empty());
            let file_log = progress.file_log@ + file_log_entry(cmd@, done);
            let after = log_preview(lines, (i + 1) as nat, n, i + 1 == n);
            if i + 1 < n {
                let next_lines = lines.push("$ "@ + report.commands@[i + 1]@);
                &&& runs_next(g, step, next_lines, file_log, report.commands@, results, report.fix_note@)
                &&& views(step.show@) == seq![after, log_preview(next_lines, (i + 2) as nat, n, false)]
            } else {
                &&& asks_summary(f, g, step, lines, file_log, results, report.fix_note@)
                &&& views(step.show@) == seq![after, summarizing_message()]
            }
        },
        (ConfirmStage::Summarizing { progress }, ConfirmEvent::Summarized(res)) => {
            &&& g.stage matches ConfirmStage::Finishing { summary } && summary@ == summary_text(res)
            &&& step.show@.len() == 0
            &&& step.next matches ConfirmWork::SendFile { message, file_name, content } && {
                &&& message@ == fix_log_file_message()
                &&& file_name@ == "fix_log.md"@
                &&& content@ == progress.file_log@ + "\n## AIまとめ\n"@ + summary_text(res) + "\n"@
            }
        },
        (ConfirmStage::Proposing { summary }, ConfirmEvent::FileSent { .. }) => ends_with(
            g,
            step,
            seq![truncated(summary@, 500)],
        ),
        (ConfirmStage::Finishing { summary }, ConfirmEvent::FileSent { ok }) => if ok {
            ends_with(g, step, seq![finished_message()])
        } else {
            ends_with(g, step, seq![truncated("✅ Fix完了\n\n"@ + summary@, 1900)])
        },
        _ => ends_with(g, step, Seq::empty()),
    }
}

impl ConfirmFlow {
    /// The flow's invariant: while commands run, execution is allowed, the
    /// record is consistent and a command is still to run.
    pub open spec fn wf(&self) -> bool {
        match self.stage {
            ConfirmStage::Running { progress, report } => {
                &&& self.allow_execution
                &&& report.wf()
                &&& report.executed
                &&& report.results.len() < report.commands.len()
            },
            _ => true,
        }
    }

    /// The flow for a press of the confirm button of request `fix_id`; its
    /// first step acknowledges the press.
    pub fn start(fix_id: String, allow_execution: bool, language: String) -> (r: (ConfirmFlow, ConfirmStep))
        ensures
            r.0.wf(),
            r.0.fix_id == fix_id,
            r.0.allow_execution == allow_execution,
            r.0.language == language,
            r.0.stage is Deferring,
            r.1.show@.len() == 0,
            r.1.next is Defer,
    {
        (ConfirmFlow { fix_id, allow_execution, language, stage: ConfirmStage::Deferring }, ConfirmStep {
            show: Vec::new(),
            next: ConfirmWork::Defer,
        })
    }

    /// The next state and step after `event`.
    pub fn advance(self, event: ConfirmEvent) -> (r: (ConfirmFlow, ConfirmStep))
        requires
            self.wf(),
        ensures
            r.0.wf(),
            confirm_transition(self, event, r.0, r.1),
    {
        let ghost f = self;
        let ghost ev = event;
        let ConfirmFlow { fix_id, allow_execution, language, stage } = self;
        match stage {
            ConfirmStage::Deferring => match event {
                ConfirmEvent::Deferred { ok } => {
                    if ok {
                        let id = fix_id.clone();
                        (ConfirmFlow { fix_id, allow_execution, language, stage: ConfirmStage::Taking }, ConfirmStep {
                            show: Vec::new(),
                            next: ConfirmWork::TakeFix(id),
                        })
                    } else {
                        ended(fix_id, allow_execution, language, no_messages())
                    }
                },
                _ => ended(fix_id, allow_execution, language, no_messages()),
            },
            ConfirmStage::Taking => match event {
                ConfirmEvent::FixTaken(found) => match found {
                    Some(fix) => (
                        ConfirmFlow { fix_id, allow_execution, language, stage: ConfirmStage::MakingProvider(fix) },
                        ConfirmStep { show: Vec::new(), next: ConfirmWork::MakeProvider },
                    ),
                    None => ended(fix_id, allow_execution, language, one_message("Fix request not found or already processed.")),
                },
                _ => ended(fix_id, allow_execution, language, no_messages()),
            },
            ConfirmStage::MakingProvider(fix) => match event {
                ConfirmEvent::ProviderMade(made) => match made {
                    Ok(_) => {
                        let instruction = fix.instruction.clone();
                        (
                            ConfirmFlow { fix_id, allow_execution, language, stage: ConfirmStage::Generating(fix) },
                            ConfirmStep {
                                show: one_message("```\n🔄 AIがコマンドを分析中...\n```"),
                                next: ConfirmWork::GenerateCommands(instruction),
                            },
                        )
                    },
                    Err(e) => {
                        let mut m = String::from_str("❌ AI provider error: ");
                        m.append(e.as_str());
                        ended(fix_id, allow_execution, language, one_string(m))
                    },
                },
                _ => ended(fix_id, allow_execution, language, no_messages()),
            },
            ConfirmStage::Generating(fix) => match event {
                ConfirmEvent::CommandsGenerated(generated) => match generated {
                    Err(e) => {
                        let mut m = String::from_str("❌ AI分析失敗: ");
                        m.append(e.as_str());
                        ended(fix_id, allow_execution, language, one_string(m))
                    },
                    Ok(cmds) => {
                        if cmds.len() == 0 {
                            ended(fix_id, allow_execution, language, one_message("⚠️ AIはコマンドを生成しませんでした。"))
                        } else if !allow_execution {
                            let listing = command_list_text(&cmds);
                            let proposal = proposal_messages(fix.instruction.as_str(), &cmds);
                            let summary = proposal.summary.clone();
                            (
                                ConfirmFlow { fix_id, allow_execution, language, stage: ConfirmStage::Proposing { summary } },
                                ConfirmStep {
                                    show: one_string(listing),
                                    next: ConfirmWork::SendFile {
                                        message: proposal.summary,
                                        file_name: String::from_str("fix_proposal.md"),
                                        content: proposal.file_content,
                                    },
                                },
                            )
                        } else {
                            let listing = command_list_text(&cmds);
                            let total = cmds.len();
                            let first = cmds[0].clone();
                            let mut progress = FixProgress::new(fix.instruction.as_str());
                            assert(views(progress.discord_lines@) =~= Seq::<Seq<char>>::empty());
                            progress.begin_command(first.as_str());
                            let preview = progress.preview(1, total, false);
                            let no_answer = String::new();
                            assert(no_answer@.len() == 0);
                            let report = FixReport::new(fix.instruction, no_answer, cmds, true);
                            assert(report.results@ =~= Seq::<FixResult>::empty());
                            assert(views(progress.discord_lines@) =~= seq!["$ "@ + report.commands@[0]@]);
                            let show = two_strings(listing, preview);
                            (
                                ConfirmFlow { fix_id, allow_execution, language, stage: ConfirmStage::Running { progress, report } },
                                ConfirmStep { show, next: ConfirmWork::RunCommand(first) },
                            )
                        }
                    },
                },
                _ => ended(fix_id, allow_execution, language, no_messages()),
            },
            ConfirmStage::Running { progress, report } => match event {
                ConfirmEvent::CommandFinished(r) => {
                    let mut progress = progress;
                    let mut report = report;
                    let i = report.results.len();
                    let total = report.commands.len();
                    let cmd = report.commands[i].clone();
                    let done = FixResult {
                        command: cmd.clone(),
                        stdout: r.stdout,
                        stderr: r.stderr,
                        exit_code: r.exit_code,
                        success: r.success,
                    };
                    let ghost lines0 = views(progress.discord_lines@);
                    let ghost done_v = done;
                    progress.finish_command(cmd.as_str(), &done);
                    let ghost lines1 = views(progress.discord_lines@);
                    assert(lines1 == lines0.push(output_summary(done_v)).push(Seq::empty()));
                    let after = progress.preview(i + 1, total, i + 1 == total);
                    report.record(done);
                    if i + 1 < total {
                        let next = report.commands[i + 1].clone();
                        progress.begin_command(next.as_str());
                        assert(views(progress.discord_lines@) == lines1.push("$ "@ + report.commands@[i + 1]@));
                        let preview = progress.preview(i + 2, total, false);
                        let show = two_strings(after, preview);
                        (
                            ConfirmFlow { fix_id, allow_execution, language, stage: ConfirmStage::Running { progress, report } },
                            ConfirmStep { show, next: ConfirmWork::RunCommand(next) },
                        )
                    } else {
                        let prompt = summary_prompt(report.fix_note.as_str(), &report, language.as_str());
                        let show = two_strings(after, String::from_str("```\n✅ 全コマンド完了\n🔄 AIがまとめを生成中...\n```"));
                        (
                            ConfirmFlow { fix_id, allow_execution, language, stage: ConfirmStage::Summarizing { progress } },
                            ConfirmStep { show, next: ConfirmWork::Summarize(prompt) },
                        )
                    }
                },
                _ => ended(fix_id, allow_execution, language, no_messages()),
            },
            ConfirmStage::Summarizing { progress } => match event {
                ConfirmEvent::Summarized(res) => {
                    let summary = match res {
                        Ok(s) => s,
                        Err(e) => {
                            let mut m = String::from_str("Summary failed: ");
                            m.append(e.as_str());
                            m
                        },
                    };
                    let mut progress = progress;
                    progress.add_summary(summary.as_str());
                    (
                        ConfirmFlow { fix_id, allow_execution, language, stage: ConfirmStage::Finishing { summary } },
                        ConfirmStep {
                            show: Vec::new(),
                            next: ConfirmWork::SendFile {
                                message: String::from_str("✅ Fix完了 — 詳細は添付ファイルを参照"),
                                file_name: String::from_str("fix_log.md"),
                                content: progress.file_log,
                            },
                        },
                    )
                },
                _ => ended(fix_id, allow_execution, language, no_messages()),
            },
            ConfirmStage::Proposing { summary } => match event {
                ConfirmEvent::FileSent { .. } => ended(fix_id, allow_execution, language, one_string(truncate_utf8(summary.as_str(), 500))),
                _ => ended(fix_id, allow_execution, language, no_messages()),
            },
            ConfirmStage::Finishing { summary } => match event {
                ConfirmEvent::FileSent { ok } => {
                    if ok {
                        ended(fix_id, allow_execution, language, one_message("```\n✅ 全コマンド完了\n```"))
                    } else {
                        ended(fix_id, allow_execution, language, one_string(unsent_log_message(summary.as_str())))
                    }
                },
                _ => ended(fix_id, allow_execution, language, no_messages()),
            },
            ConfirmStage::Done => ended(fix_id, allow_execution, language, no_messages()),
        }
    }
}

/// Commands run only where the configuration allows it: no step of a flow
/// asks for a command to be run when execution is switched off.
pub proof fn lemma_runs_only_when_allowed(f: ConfirmFlow, ev: ConfirmEvent, g: ConfirmFlow, step: ConfirmStep)
    requires
        f.wf(),
        confirm_transition(f, ev, g, step),
    ensures
        step.next is RunCommand ==> f.allow_execution && g.allow_execution,
{
}

/// A finished flow stays finished: whatever comes in, it shows nothing and
/// asks for nothing more.
pub proof fn lemma_done_is_final(f: ConfirmFlow, ev: ConfirmEvent, g: ConfirmFlow, step: ConfirmStep)
    requires
        f.stage is Done,
        confirm_transition(f, ev, g, step),
    ensures
        g.stage is Done,
        step.next is Stop,
        step.show@.len() == 0,
{
    assert(views(step.show@).len() == step.show@.len());
}

/// The commands run are exactly the suggested ones, in order: each step that
/// runs a command asks for the one after those already recorded, and the
/// record then grows by that command's result.
pub proof fn lemma_commands_in_order(f: ConfirmFlow, r: FixResult, g: ConfirmFlow, step: ConfirmStep)
    requires
        f.wf(),
        f.stage is Running,
        confirm_transition(f, ConfirmEvent::CommandFinished(r), g, step),
    ensures
        ({
            let report = f.stage->report;
            let i = report.results.len() as int;
            &&& step.next matches ConfirmWork::RunCommand(c) ==> {
                &&& g.stage matches ConfirmStage::Running { report: next, .. }
                    && next.commands@ == report.commands@
                    && next.results@.len() == i + 1
                    && next.results@[i].command == report.commands@[i]
                &&& c@ == report.commands@[i + 1]@
            }
            &&& step.next is RunCommand || step.next is Summarize
            &&& step.next is Summarize <==> i + 1 == report.commands.len()
        }),
{
}

/// No messages.
fn no_messages() -> (v: Vec<String>)
    ensures
        views(v@) == Seq::<Seq<char>>::empty(),
{
    let v = Vec::new();
    assert(views(v@) =~= Seq::<Seq<char>>::empty());
    v
}

/// A vector holding two owned messages.
fn two_strings(a: String, b: String) -> (v: Vec<String>)
    ensures
        views(v@) == seq![a@, b@],
{
    let ghost av = a@;
    let ghost bv = b@;
    let mut v = Vec::new();
    v.push(a);
    v.push(b);
    assert(views(v@) =~= seq![av, bv]);
    v
}

/// A vector holding one owned message.
fn one_string(m: String) -> (v: Vec<String>)
    ensures
        views(v@) == seq![m@],
{
    let ghost mv = m@;
    let mut v = Vec::new();
    v.push(m);
    assert(views(v@) =~= seq![mv]);
    v
}

/// A vector holding one message.
fn one_message(m: &str) -> (v: Vec<String>)
    ensures
        views(v@) == seq![m@],
{
    let mut v = Vec::new();
    v.push(String::from_str(m));
    assert(views(v@) =~= seq![m@]);
    v
}

/// The flow ended after showing `show`.
fn ended(fix_id: String, allow_execution: bool, language: String, show: Vec<String>) -> (r: (ConfirmFlow, ConfirmStep))
    ensures
        r.0.fix_id == fix_id,
        r.0.allow_execution == allow_execution,
        r.0.language == language,
        r.0.stage is Done,
        r.1.next is Stop,
        r.1.show@ == show@,
{
    (ConfirmFlow { fix_id, allow_execution, language, stage: ConfirmStage::Done }, ConfirmStep {
        show,
        next: ConfirmWork::Stop,
    })
}

} // verus!
