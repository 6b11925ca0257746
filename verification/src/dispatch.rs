//! Top-level decisions of the program: which mode runs, where reports are
//! sent, and how a fix report is printed.

use vstd::prelude::*;

use crate::fix::{FixReport, FixResult};
use crate::text::{push_signed_decimal, same_text, signed_decimal, views, chars_of};

verus! {

/// What the program does for its command-line flags.
#[derive(Debug, Clone, Copy, PartialEq, Eq, Structural)]
pub enum RunMode {
    /// Stream shell history to Discord.
    Watch,
    /// Process a fix note (`--fix-note`).
    Fix,
    /// Send one report now (`--run-now`).
    RunNow,
    /// Run the scheduler (and the bot when configured).
    Daemon,
}

/// The mode for the flags: watch first, then a fix note, then an immediate
/// report, else the scheduler daemon.
pub fn run_mode(watch: bool, has_fix_note: bool, run_now: bool) -> (m: RunMode)
    ensures
        m == if watch {
            RunMode::Watch
        } else if has_fix_note {
            RunMode::Fix
        } else if run_now {
            RunMode::RunNow
        } else {
            RunMode::Daemon
        },
{
    if watch {
        RunMode::Watch
    } else if has_fix_note {
        RunMode::Fix
    } else if run_now {
        RunMode::RunNow
    } else {
        RunMode::Daemon
    }
}

/// Fix commands run automatically only with `--mode auto`.
pub fn auto_execute(mode: &Option<String>) -> (b: bool)
    ensures
        b == (mode matches Some(m) && m@ == "auto"@),
{
    match mode {
        Some(m) => same_text(m.as_str(), "auto"),
        None => false,
    }
}

/// Which configuration file is loaded.
#[derive(Debug, Clone, Copy, PartialEq, Eq, Structural)]
pub enum ConfigSource {
    /// The path given by `--config` (or its default).
    Given,
    /// `./config.yml`, used when the given path does not exist but it does.
    LocalFallback,
}

/// The given path when it exists, else `./config.yml` when that exists, else
/// the given path (whose loading then reports the error).
pub fn config_source(given_exists: bool, fallback_exists: bool) -> (s: ConfigSource)
    ensures
        s == if !given_exists && fallback_exists { ConfigSource::LocalFallback } else { ConfigSource::Given },
{
    if !given_exists && fallback_exists {
        ConfigSource::LocalFallback
    } else {
        ConfigSource::Given
    }
}

/// How a report is delivered.
#[derive(Debug, Clone, Copy, PartialEq, Eq, Structural)]
pub enum NotifyRoute {
    /// Through the webhook (`discord` or `webhook`).
    Webhook,
    /// Through the bot (`bot` or `discord_bot` with the bot section present).
    Bot,
    /// Through the webhook because the bot section is missing.
    WebhookNoBotConfig,
    /// Through the webhook because the provider name is unknown.
    WebhookUnknownProvider,
}

/// The route named by `provider`.
pub open spec fn notify_route_spec(provider: Seq<char>, has_bot_config: bool) -> NotifyRoute {
    if provider == "discord"@ || provider == "webhook"@ {
        NotifyRoute::Webhook
    } else if provider == "bot"@ || provider == "discord_bot"@ {
        if has_bot_config {
            NotifyRoute::Bot
        } else {
            NotifyRoute::WebhookNoBotConfig
        }
    } else {
        NotifyRoute::WebhookUnknownProvider
    }
}

/// Chooses how a report is delivered for the configured provider name.
pub fn notify_route(provider: &str, has_bot_config: bool) -> (r: NotifyRoute)
    ensures
        r == notify_route_spec(provider@, has_bot_config),
{
    if same_text(provider, "discord") || same_text(provider, "webhook") {
        NotifyRoute::Webhook
    } else if same_text(provider, "bot") || same_text(provider, "discord_bot") {
        if has_bot_config {
            NotifyRoute::Bot
        } else {
            NotifyRoute::WebhookNoBotConfig
        }
    } else {
        NotifyRoute::WebhookUnknownProvider
    }
}

/// The daemon starts the bot when its section is present and the provider
/// is `bot` or `discord_bot`.
pub fn should_start_bot(provider: &str, has_bot_config: bool) -> (b: bool)
    ensures
        b == (has_bot_config && (provider@ == "bot"@ || provider@ == "discord_bot"@)),
{
    has_bot_config && (same_text(provider, "bot") || same_text(provider, "discord_bot"))
}

/// The bot is started exactly when reports are routed to it.
pub proof fn lemma_bot_started_iff_routed(provider: Seq<char>, has_bot_config: bool)
    ensures
        (has_bot_config && (provider == "bot"@ || provider == "discord_bot"@)) <==> notify_route_spec(provider, has_bot_config)
            == NotifyRoute::Bot,
{
    reveal_strlit("bot");
    reveal_strlit("discord_bot");
    reveal_strlit("discord");
    reveal_strlit("webhook");
    if provider == "bot"@ {
        assert(provider != "discord"@) by {
            assert(provider.len() != "discord"@.len());
        }
        assert(provider != "webhook"@) by {
            assert(provider.len() != "webhook"@.len());
        }
    }
    if provider == "discord_bot"@ {
        assert(provider != "discord"@) by {
            assert(provider.len() != "discord"@.len());
        }
        assert(provider != "webhook"@) by {
            assert(provider.len() != "webhook"@.len());
        }
    }
}

/// The value of a string of decimal digits.
pub open spec fn digits_value(s: Seq<char>) -> nat
    decreases s.len(),
{
    if s.len() == 0 {
        0
    } else {
        digits_value(s.drop_last()) * 10 + ((s.last() as u32) - ('0' as u32)) as nat
    }
}

/// Every character is an ASCII digit.
pub open spec fn all_digits(s: Seq<char>) -> bool {
    forall|i: int| 0 <= i < s.len() ==> '0' <= #[trigger] s[i] && s[i] <= '9'
}

/// What `str::parse::<u64>` accepts: an optional `+`, then at least one digit,
/// of a value that fits in 64 bits.
pub open spec fn parsed_u64(s: Seq<char>) -> Option<u64> {
    let digits = if s.len() > 0 && s[0] == '+' { s.drop_first() } else { s };
    if digits.len() > 0 && all_digits(digits) && digits_value(digits) <= u64::MAX {
        Some(digits_value(digits) as u64)
    } else {
        None
    }
}

/// Parses a channel id as `str::parse::<u64>` does.
pub fn parse_channel_id(s: &str) -> (r: Option<u64>)
    ensures
        r == parsed_u64(s@),
{
    let v = chars_of(s);
    let start: usize = if v.len() > 0 && v[0] == '+' { 1 } else { 0 };
    let ghost digits = if v@.len() > 0 && v@[0] == '+' { v@.drop_first() } else { v@ };
    assert(digits == v@.subrange(start as int, v.len() as int));
    if start == v.len() {
        return None;
    }
    let mut value: u64 = 0;
    let mut i: usize = start;
    while i < v.len()
        invariant
            start <= i <= v.len(),
            v@ == s@,
            digits == (if v@.len() > 0 && v@[0] == '+' { v@.drop_first() } else { v@ }),
            digits == v@.subrange(start as int, v.len() as int),
            all_digits(v@.subrange(start as int, i as int)),
            value == digits_value(v@.subrange(start as int, i as int)),
        decreases v.len() - i,
    {
        let c = v[i];
        let ghost pre = v@.subrange(start as int, i as int);
        let ghost next = v@.subrange(start as int, i + 1);
        assert(next.drop_last() == pre);
        assert(next.last() == c);
        if !('0' <= c && c <= '9') {
            proof {
                assert(digits[i - start] == c);
                assert(!all_digits(digits));
            }
            return None;
        }
        let d = (c as u32 - '0' as u32) as u64;
        assert(digits_value(next) == value * 10 + d);
        match value.checked_mul(10) {
            Some(m) => match m.checked_add(d) {
                Some(n) => {
                    value = n;
                },
                None => {
                    proof {
                        if all_digits(digits) {
                            lemma_digits_value_prefix_bound(digits, i + 1 - start);
                            assert(digits.subrange(0, i + 1 - start) == next);
                        }
                    }
                    return None;
                },
            },
            None => {
                proof {
                    if all_digits(digits) {
                        lemma_digits_value_prefix_bound(digits, i + 1 - start);
                        assert(digits.subrange(0, i + 1 - start) == next);
                    }
                }
                return None;
            },
        }
        i = i + 1;
        assert(all_digits(v@.subrange(start as int, i as int))) by {
            assert forall|k: int| 0 <= k < next.len() implies '0' <= #[trigger] next[k] && next[k] <= '9' by {
                if k < pre.len() {
                    assert(next[k] == pre[k]);
                }
            }
        }
    }
    Some(value)
}

/// A prefix of a digit string is worth no more than the whole.
proof fn lemma_digits_value_prefix_bound(s: Seq<char>, n: int)
    requires
        0 <= n <= s.len(),
        all_digits(s),
    ensures
        digits_value(s.subrange(0, n)) <= digits_value(s),
    decreases s.len() - n,
{
    if n < s.len() {
        lemma_digits_value_prefix_bound(s.drop_last(), n);
        assert(s.drop_last().subrange(0, n) == s.subrange(0, n));
        assert(all_digits(s.drop_last())) by {
            assert forall|k: int| 0 <= k < s.drop_last().len() implies '0' <= #[trigger] s.drop_last()[k] && s.drop_last()[k] <= '9' by {
                assert(s.drop_last()[k] == s[k]);
            }
        }
        assert(digits_value(s.drop_last()) <= digits_value(s)) by {
            assert('0' <= s[s.len() - 1]);
        }
    } else {
        assert(s.subrange(0, n) == s);
    }
}

/// One executed command as the fix report prints it.
pub open spec fn printed_result(r: FixResult) -> Seq<char> {
    "\n$ "@ + r.command@ + "\n"@ + "Exit code: "@ + signed_decimal(r.exit_code as int) + "\n"@
        + (if r.stdout@.len() > 0 { "STDOUT:\n"@ + r.stdout@ + "\n"@ } else { Seq::empty() })
        + (if r.stderr@.len() > 0 { "STDERR:\n"@ + r.stderr@ + "\n"@ } else { Seq::empty() })
}

/// The printed result of a command shows everything it printed: after the
/// command and exit-code lines comes `STDOUT:` with the whole standard output
/// when there is one, then `STDERR:` with the whole error output when there
/// is one, whether or not there was standard output.
pub proof fn lemma_printed_result_shows_outputs(r: FixResult)
    ensures
        ({
            let head = "\n$ "@ + r.command@ + "\n"@ + "Exit code: "@ + signed_decimal(r.exit_code as int) + "\n"@;
            let out = "STDOUT:\n"@ + r.stdout@ + "\n"@;
            let err = "STDERR:\n"@ + r.stderr@ + "\n"@;
            &&& crate::text::has_prefix(printed_result(r), head)
            &&& r.stdout@.len() > 0 ==> crate::text::occurs_at(printed_result(r), out, head.len() as int)
            &&& r.stderr@.len() > 0 && r.stdout@.len() > 0 ==> crate::text::occurs_at(printed_result(r), err, (head.len() + out.len()) as int)
            &&& r.stderr@.len() > 0 && r.stdout@.len() == 0 ==> crate::text::occurs_at(printed_result(r), err, head.len() as int)
            &&& printed_result(r).len() == head.len() + (if r.stdout@.len() > 0 { out.len() as int } else { 0int })
                + (if r.stderr@.len() > 0 { err.len() as int } else { 0int })
        }),
{
    let head = "\n$ "@ + r.command@ + "\n"@ + "Exit code: "@ + signed_decimal(r.exit_code as int) + "\n"@;
    let out = "STDOUT:\n"@ + r.stdout@ + "\n"@;
    let err = "STDERR:\n"@ + r.stderr@ + "\n"@;
    let o = if r.stdout@.len() > 0 { out } else { Seq::empty() };
    let e = if r.stderr@.len() > 0 { err } else { Seq::empty() };
    let p = printed_result(r);
    assert(p =~= head + o + e);
    assert(p.subrange(0, head.len() as int) =~= head);
    assert(p.subrange(head.len() as int, (head.len() + o.len()) as int) =~= o);
    assert(p.subrange((head.len() + o.len()) as int, (head.len() + o.len() + e.len()) as int) =~= e);
}

/// All executed commands as printed.
pub open spec fn printed_results(rs: Seq<FixResult>) -> Seq<char>
    decreases rs.len(),
{
    if rs.len() == 0 {
        Seq::empty()
    } else {
        printed_results(rs.drop_last()) + printed_result(rs.last())
    }
}

/// The suggested commands as printed.
pub open spec fn printed_commands(cs: Seq<Seq<char>>) -> Seq<char>
    decreases cs.len(),
{
    if cs.len() == 0 {
        Seq::empty()
    } else {
        printed_commands(cs.drop_last()) + "  $ "@ + cs.last() + "\n"@
    }
}

/// The fix report printed by `--fix-note`.
pub open spec fn printed_fix_report(r: FixReport) -> Seq<char> {
    "\n=== FIX REPORT ===\n"@ + "Fix Note:\n"@ + r.fix_note@ + "\n"@ + "\nAI Response:\n"@
        + r.ai_response@ + "\n"@ + "\nSuggested Commands:\n"@ + printed_commands(views(r.commands@))
        + if r.executed {
            "\nExecution Results:\n"@ + printed_results(r.results@)
        } else {
            "\n[Execution disabled - set allow_execution: true in config to run automatically]\n"@
        }
}

fn push_printed_result(p: &mut String, r: &FixResult)
    ensures
        final(p)@ == old(p)@ + printed_result(*r),
{
    let ghost start = p@;
    p.append("\n$ ");
    p.append(r.command.as_str());
    p.append("\n");
    p.append("Exit code: ");
    push_signed_decimal(p, r.exit_code as i64);
    p.append("\n");
    let ghost mid = p@;
    if !r.stdout.as_str().is_empty() {
        p.append("STDOUT:\n");
        p.append(r.stdout.as_str());
        p.append("\n");
    }
    let ghost mid2 = p@;
    assert(mid2 =~= mid + (if r.stdout@.len() > 0 { "STDOUT:\n"@ + r.stdout@ + "\n"@ } else { Seq::empty() }));
    if !r.stderr.as_str().is_empty() {
        p.append("STDERR:\n");
        p.append(r.stderr.as_str());
        p.append("\n");
    }
    assert(p@ =~= start + printed_result(*r));
}

/// The text printed for a fix report: the note, the AI's answer, the
/// suggested commands, then the results or a note that execution is off.
pub fn render_fix_report(r: &FixReport) -> (t: String)
    ensures
        t@ == printed_fix_report(*r),
{
    let mut t = String::from_str("\n=== FIX REPORT ===\n");
    t.append("Fix Note:\n");
    t.append(r.fix_note.as_str());
    t.append("\n");
    t.append("\nAI Response:\n");
    t.append(r.ai_response.as_str());
    t.append("\n");
    t.append("\nSuggested Commands:\n");
    let ghost start = t@;
    let ghost cs = views(r.commands@);
    let mut i: usize = 0;
    while i < r.commands.len()
        invariant
            i <= r.commands.len(),
            cs == views(r.commands@),
            t@ == start + printed_commands(cs.take(i as int)),
        decreases r.commands.len() - i,
    {
        t.append("  $ ");
        t.append(r.commands[i].as_str());
        t.append("\n");
        proof {
            assert(cs.take(i + 1).drop_last() == cs.take(i as int));
            assert(cs.take(i + 1).last() == r.commands@[i as int]@);
            assert(t@ =~= start + printed_commands(cs.take(i + 1)));
        }
        i = i + 1;
    }
    assert(cs.take(r.commands.len() as int) == cs);
    let ghost mid = t@;
    if r.executed {
        t.append("\nExecution Results:\n");
        let ghost rs_start = t@;
        let mut k: usize = 0;
        while k < r.results.len()
            invariant
                k <= r.results.len(),
                t@ == rs_start + printed_results(r.results@.take(k as int)),
            decreases r.results.len() - k,
        {
            push_printed_result(&mut t, &r.results[k]);
            proof {
                assert(r.results@.take(k + 1).drop_last() == r.results@.take(k as int));
                assert(t@ =~= rs_start + printed_results(r.results@.take(k + 1)));
            }
            k = k + 1;
        }
        assert(r.results@.take(r.results.len() as int) == r.results@);
    } else {
        t.append("\n[Execution disabled - set allow_execution: true in config to run automatically]\n");
    }
    assert(t@ =~= printed_fix_report(*r));
    t
}

/// The outcome of an HTTP reply with status `status` (written
/// `status_text`): success for a 2xx status, else an error naming `label`,
/// the status and the reply's body.
pub fn http_reply_result(label: &str, status: u16, status_text: &str, body: &str) -> (r: Result<(), String>)
    ensures
        (200 <= status && status < 300) <==> r is Ok,
        r matches Err(e) ==> e@ == label@ + " "@ + status_text@ + ": "@ + body@,
{
    if 200 <= status && status < 300 {
        Ok(())
    } else {
        let mut e = String::from_str(label);
        e.append(" ");
        e.append(status_text);
        e.append(": ");
        e.append(body);
        Err(e)
    }
}

/// Where the slash command is registered.
#[derive(Debug, Clone, PartialEq, Eq, Structural)]
pub enum CommandScope {
    /// For every server (takes effect within about an hour).
    Global,
    /// In this server only (takes effect at once).
    Guild(u64),
    /// The configured server id is not a non-zero number.
    InvalidGuild,
}

/// The registration scope for a configured `guild_id`: global when it is
/// unset or empty, that server when it is a non-zero number, and invalid
/// otherwise.
pub fn command_scope(guild_id: &Option<String>) -> (r: CommandScope)
    ensures
        match guild_id {
            None => r == CommandScope::Global,
            Some(g) => if g@.len() == 0 {
                r == CommandScope::Global
            } else {
                match parsed_u64(g@) {
                    Some(n) => if n != 0 { r == CommandScope::Guild(n) } else { r == CommandScope::InvalidGuild },
                    None => r == CommandScope::InvalidGuild,
                }
            },
        },
{
    match guild_id {
        None => CommandScope::Global,
        Some(g) => {
            if g.as_str().is_empty() {
                CommandScope::Global
            } else {
                match parse_channel_id(g.as_str()) {
                    Some(n) => if n != 0 { CommandScope::Guild(n) } else { CommandScope::InvalidGuild },
                    None => CommandScope::InvalidGuild,
                }
            }
        },
    }
}

/// The error sent when no webhook URL is configured, if none is.
pub fn webhook_url_problem(url: &str) -> (r: Option<String>)
    ensures
        r is Some <==> url@.len() == 0,
        r matches Some(m) ==> m@ == "Discord webhook URL is not configured"@,
{
    if url.is_empty() {
        Some(String::from_str("Discord webhook URL is not configured"))
    } else {
        None
    }
}

} // verus!
