//! Report embeds: the title, description, metric fields and footer that the
//! webhook and the bot post for a health report.

use vstd::prelude::*;

use crate::bot::{truncate_utf8, truncated};
use crate::config::EmbedConfig;
use crate::metrics::MetricsFigures;
use crate::report::Report;
use crate::text::{
    at_most, boundary_chars, byte_len, byte_len_upto, bytes_prefix, char_views, chars_of, decimal,
    is_boundary, join, join_strings, keyword_lines, lines_of, push_chars, push_decimal, select_keyword_lines,
    slice_chars, string_of, views,
};

verus! {

/// One field of an embed.
#[derive(Debug, Clone)]
pub struct EmbedField {
    pub name: String,
    pub value: String,
    pub inline: bool,
}

/// A message embed.
#[derive(Debug, Clone)]
pub struct Embed {
    pub title: String,
    pub description: String,
    pub color: u32,
    pub fields: Vec<EmbedField>,
    pub footer: String,
}

/// A field as plain values.
pub open spec fn field_view(f: EmbedField) -> (Seq<char>, Seq<char>, bool) {
    (f.name@, f.value@, f.inline)
}

/// Fields as plain values.
pub open spec fn fields_view(fs: Seq<EmbedField>) -> Seq<(Seq<char>, Seq<char>, bool)> {
    fs.map_values(|f: EmbedField| field_view(f))
}

/// One disk's field.
pub open spec fn disk_field(d: crate::metrics::DiskFigures) -> (Seq<char>, Seq<char>, bool) {
    ("Disk "@ + d.mount_point@, d.used_gb@ + "/"@ + d.total_gb@ + " GB ("@ + d.usage_percent@ + "%)"@, true)
}

/// The fields showing metrics: CPU, memory and load when present, then one
/// per disk.
pub open spec fn metric_fields(m: MetricsFigures) -> Seq<(Seq<char>, Seq<char>, bool)> {
    (match m.cpu {
        Some(c) => seq![("CPU Usage"@, c.average_usage@ + "% (avg over "@ + decimal(c.interval_seconds as nat) + "s)"@, true)],
        None => Seq::empty(),
    }) + (match m.memory {
        Some(mem) => seq![(
            "Memory"@,
            decimal(mem.used_mb as nat) + "/"@ + decimal(mem.total_mb as nat) + " MB ("@ + mem.usage_percent@
                + "%)\nSwap: "@ + decimal(mem.swap_used_mb as nat) + "/"@ + decimal(mem.swap_total_mb as nat)
                + " MB"@,
            true,
        )],
        None => Seq::empty(),
    }) + (match m.load_average {
        Some(l) => seq![("Load Average"@, l.one@ + " / "@ + l.five@ + " / "@ + l.fifteen@, true)],
        None => Seq::empty(),
    }) + m.disks@.map_values(|d: crate::metrics::DiskFigures| disk_field(d))
}

fn field(name: String, value: String, inline: bool) -> (f: EmbedField)
    ensures
        field_view(f) == (name@, value@, inline),
{
    EmbedField { name, value, inline }
}

/// The fields showing metrics.
pub fn metric_field_list(m: &MetricsFigures) -> (fs: Vec<EmbedField>)
    ensures
        fields_view(fs@) == metric_fields(*m),
{
    let mut fs: Vec<EmbedField> = Vec::new();
    match &m.cpu {
        Some(c) => {
            let mut v = String::from_str(c.average_usage.as_str());
            v.append("% (avg over ");
            push_decimal(&mut v, c.interval_seconds);
            v.append("s)");
            fs.push(field(String::from_str("CPU Usage"), v, true));
        },
        None => {},
    }
    let ghost a = fields_view(fs@);
    match &m.memory {
        Some(mem) => {
            let mut v = String::new();
            push_decimal(&mut v, mem.used_mb);
            v.append("/");
            push_decimal(&mut v, mem.total_mb);
            v.append(" MB (");
            v.append(mem.usage_percent.as_str());
            v.append("%)\nSwap: ");
            push_decimal(&mut v, mem.swap_used_mb);
            v.append("/");
            push_decimal(&mut v, mem.swap_total_mb);
            v.append(" MB");
            fs.push(field(String::from_str("Memory"), v, true));
        },
        None => {},
    }
    let ghost b = fields_view(fs@);
    match &m.load_average {
        Some(l) => {
            let mut v = String::from_str(l.one.as_str());
            v.append(" / ");
            v.append(l.five.as_str());
            v.append(" / ");
            v.append(l.fifteen.as_str());
            fs.push(field(String::from_str("Load Average"), v, true));
        },
        None => {},
    }
    let ghost c = fields_view(fs@);
    let mut i: usize = 0;
    while i < m.disks.len()
        invariant
            i <= m.disks.len(),
            fields_view(fs@) == c + m.disks@.take(i as int).map_values(|d: crate::metrics::DiskFigures| disk_field(d)),
        decreases m.disks.len() - i,
    {
        let d = &m.disks[i];
        let mut name = String::from_str("Disk ");
        name.append(d.mount_point.as_str());
        let mut v = String::from_str(d.used_gb.as_str());
        v.append("/");
        v.append(d.total_gb.as_str());
        v.append(" GB (");
        v.append(d.usage_percent.as_str());
        v.append("%)");
        let ghost before = fields_view(fs@);
        fs.push(field(name, v, true));
        proof {
            assert(fields_view(fs@) =~= before.push(disk_field(*d)));
            assert(m.disks@.take(i + 1).map_values(|d: crate::metrics::DiskFigures| disk_field(d)) =~= m.disks@.take(
                i as int,
            ).map_values(|d: crate::metrics::DiskFigures| disk_field(d)).push(disk_field(*d)));
        }
        i = i + 1;
    }
    proof {
        assert(m.disks@.take(m.disks.len() as int) == m.disks@);
        assert(fields_view(fs@) =~= metric_fields(*m));
    }
    fs
}

/// An embed as plain values.
pub open spec fn embed_view(e: Embed) -> (Seq<char>, Seq<char>, u32, Seq<(Seq<char>, Seq<char>, bool)>, Seq<char>) {
    (e.title@, e.description@, e.color, fields_view(e.fields@), e.footer@)
}

/// The embed the bot posts: the analysis cut to 2000 characters, the metric
/// fields and the generation time.
pub open spec fn bot_embed(r: Report, cfg: EmbedConfig) -> (Seq<char>, Seq<char>, u32, Seq<(Seq<char>, Seq<char>, bool)>, Seq<char>) {
    (cfg.title@, truncated(r.ai_analysis@, 2000), cfg.color, metric_fields(r.metrics), "Generated at "@ + r.generated_at@)
}

/// Builds the embed the bot posts for a report.
pub fn build_report_embed(report: &Report, cfg: &EmbedConfig) -> (e: Embed)
    ensures
        embed_view(e) == bot_embed(*report, *cfg),
{
    let mut footer = String::from_str("Generated at ");
    footer.append(report.generated_at.as_str());
    Embed {
        title: String::from_str(cfg.title.as_str()),
        description: truncate_utf8(report.ai_analysis.as_str(), 2000),
        color: cfg.color,
        fields: metric_field_list(&report.metrics),
        footer,
    }
}

/// The keywords that mark a log line worth showing in the webhook embed.
pub open spec fn embed_keywords() -> Seq<Seq<char>> {
    seq!["error"@, "critical"@, "fatal"@, "warn"@]
}

/// A log line as the embed shows it: its first 100 bytes.
pub open spec fn cut_line(l: Seq<char>) -> Seq<char> {
    if byte_len(l) > 100 {
        bytes_prefix(l, 100)
    } else {
        l
    }
}

/// The lines of a log shown in the embed (at most five).
pub open spec fn shown_lines(content: Seq<char>) -> Seq<Seq<char>> {
    at_most(keyword_lines(lines_of(content), embed_keywords()), 5)
}

/// The embed lines for one log: its path in bold, then each shown line as
/// code; nothing when no line is shown.
pub open spec fn log_error_lines(path: Seq<char>, content: Seq<char>) -> Seq<Seq<char>> {
    let rel = shown_lines(content);
    if rel.len() == 0 {
        Seq::empty()
    } else {
        seq!["**"@ + path + "**:"@] + rel.map_values(|l: Seq<char>| "`"@ + cut_line(l) + "`"@)
    }
}

/// The embed lines for all logs, in order.
pub open spec fn all_error_lines(es: Seq<(Seq<char>, Seq<char>)>) -> Seq<Seq<char>>
    decreases es.len(),
{
    if es.len() == 0 {
        Seq::empty()
    } else {
        all_error_lines(es.drop_last()) + log_error_lines(es.last().0, es.last().1)
    }
}

/// Every shown line longer than 100 bytes has a character boundary there.
pub open spec fn lines_cuttable(es: Seq<(Seq<char>, Seq<char>)>) -> bool {
    forall|i: int, j: int|
        0 <= i < es.len() && 0 <= j < shown_lines(es[i].1).len() && byte_len(#[trigger] shown_lines(es[i].1)[j]) > 100
            ==> is_boundary(shown_lines(es[i].1)[j], 100)
}

/// Text cut to `keep` bytes plus `...` when longer than `limit` bytes.
pub open spec fn capped(t: Seq<char>, limit: nat, keep: nat) -> Seq<char> {
    if byte_len(t) > limit {
        bytes_prefix(t, keep) + "..."@
    } else {
        t
    }
}

/// `t` can be capped without splitting a character.
pub open spec fn cappable(t: Seq<char>, limit: nat, keep: nat) -> bool {
    byte_len(t) > limit ==> is_boundary(t, keep)
}

/// Whether the errors field is shown at all.
pub open spec fn errors_considered(r: Report, cfg: EmbedConfig) -> bool {
    cfg.show_errors && r.logs.entries().len() > 0
}

/// The inputs on which the webhook embed is defined: every cut it makes
/// falls between characters (elsewhere the byte slicing would panic).
pub open spec fn webhook_embed_defined(r: Report, cfg: EmbedConfig) -> bool {
    &&& errors_considered(r, cfg) ==> lines_cuttable(r.logs.entries())
    &&& errors_considered(r, cfg) ==> cappable(join(all_error_lines(r.logs.entries()), "\n"@), 1024, 1021)
    &&& cappable(r.ai_analysis@, 2048, 2045)
}

/// The embed the webhook posts: the analysis cut to 2048 bytes, the metric
/// fields, and (when enabled) the recent error and warning lines of the logs
/// cut to 1024 bytes.
pub open spec fn webhook_embed(r: Report, cfg: EmbedConfig) -> (Seq<char>, Seq<char>, u32, Seq<(Seq<char>, Seq<char>, bool)>, Seq<char>) {
    let errs = all_error_lines(r.logs.entries());
    let extra = if errors_considered(r, cfg) && errs.len() > 0 {
        seq![("Recent Errors/Warnings"@, capped(join(errs, "\n"@), 1024, 1021), false)]
    } else {
        Seq::empty()
    };
    (cfg.title@, capped(r.ai_analysis@, 2048, 2045), cfg.color, metric_fields(r.metrics) + extra,
        "Generated at "@ + r.generated_at@)
}

/// A lowercase line mentions an embed keyword exactly when it contains
/// `error`, `critical`, `fatal` or `warn`.
pub proof fn lemma_embed_keywords_are_the_four(lowered: Seq<char>)
    ensures
        crate::text::mentions_any(lowered, embed_keywords()) <==> (
            crate::text::contains_text(lowered, "error"@)
            || crate::text::contains_text(lowered, "critical"@)
            || crate::text::contains_text(lowered, "fatal"@)
            || crate::text::contains_text(lowered, "warn"@)),
{
    let kws = embed_keywords();
    assert(kws.len() == 4);
    assert(kws[0] == "error"@ && kws[1] == "critical"@ && kws[2] == "fatal"@ && kws[3] == "warn"@);
    if crate::text::contains_text(lowered, "error"@) {
        assert(crate::text::contains_text(lowered, kws[0]));
    }
    if crate::text::contains_text(lowered, "critical"@) {
        assert(crate::text::contains_text(lowered, kws[1]));
    }
    if crate::text::contains_text(lowered, "fatal"@) {
        assert(crate::text::contains_text(lowered, kws[2]));
    }
    if crate::text::contains_text(lowered, "warn"@) {
        assert(crate::text::contains_text(lowered, kws[3]));
    }
}

/// The log lines the embed shows are the first five lines whose lowercase
/// form contains `error`, `critical`, `fatal` or `warn`, in their order.
pub proof fn lemma_shown_lines_are_warnings(content: Seq<char>)
    ensures
        shown_lines(content) == at_most(
            lines_of(content).filter(
                |l: Seq<char>|
                    crate::text::contains_text(crate::text::lowered_text(l), "error"@)
                        || crate::text::contains_text(crate::text::lowered_text(l), "critical"@)
                        || crate::text::contains_text(crate::text::lowered_text(l), "fatal"@)
                        || crate::text::contains_text(crate::text::lowered_text(l), "warn"@),
            ),
            5,
        ),
{
    lemma_warning_lines(lines_of(content));
}

proof fn lemma_warning_lines(ls: Seq<Seq<char>>)
    ensures
        keyword_lines(ls, embed_keywords()) == ls.filter(
            |l: Seq<char>|
                crate::text::contains_text(crate::text::lowered_text(l), "error"@)
                    || crate::text::contains_text(crate::text::lowered_text(l), "critical"@)
                    || crate::text::contains_text(crate::text::lowered_text(l), "fatal"@)
                    || crate::text::contains_text(crate::text::lowered_text(l), "warn"@),
        ),
    decreases ls.len(),
{
    reveal(Seq::filter);
    if ls.len() > 0 {
        lemma_warning_lines(ls.drop_last());
        lemma_embed_keywords_are_the_four(crate::text::lowered_text(ls.last()));
    }
}

fn embed_keywords_exec() -> (r: Vec<Vec<char>>)
    ensures
        char_views(r@) == embed_keywords(),
{
    let mut r: Vec<Vec<char>> = Vec::new();
    r.push(chars_of("error"));
    r.push(chars_of("critical"));
    r.push(chars_of("fatal"));
    r.push(chars_of("warn"));
    assert(char_views(r@) =~= embed_keywords());
    r
}

/// `t` cut to `keep` bytes plus `...` when longer than `limit` bytes; `None`
/// when the cut would split a character.
fn cap_text(t: &str, limit: usize, keep: usize) -> (r: Option<String>)
    requires
        limit < usize::MAX - 4,
    ensures
        r is Some <==> cappable(t@, limit as nat, keep as nat),
        r matches Some(s) ==> s@ == capped(t@, limit as nat, keep as nat),
{
    let v = chars_of(t);
    if byte_len_upto(&v, limit) > limit {
        match boundary_chars(&v, keep) {
            Some(k) => {
                let mut s = string_of(&slice_chars(&v, 0, k));
                assert(v@.subrange(0, k as int) == v@.take(k as int));
                s.append("...");
                Some(s)
            },
            None => None,
        }
    } else {
        Some(String::from_str(t))
    }
}

/// The embed lines for one log; `None` when a line would be cut inside a
/// character.
fn log_error_lines_exec(path: &str, content: &str, kws: &Vec<Vec<char>>) -> (r: Option<Vec<String>>)
    requires
        char_views(kws@) == embed_keywords(),
    ensures
        r is Some <==> forall|j: int| 0 <= j < shown_lines(content@).len() && byte_len(#[trigger] shown_lines(content@)[j]) > 100
            ==> is_boundary(shown_lines(content@)[j], 100),
        r matches Some(v) ==> views(v@) == log_error_lines(path@, content@),
{
    let rel = select_keyword_lines(content, kws, 5);
    let ghost sl = shown_lines(content@);
    assert(views(rel@) == sl);
    let mut out: Vec<String> = Vec::new();
    if rel.len() == 0 {
        assert(views(out@) =~= log_error_lines(path@, content@));
        return Some(out);
    }
    let mut head = String::from_str("**");
    head.append(path);
    head.append("**:");
    out.push(head);
    let mut j: usize = 0;
    while j < rel.len()
        invariant
            j <= rel.len(),
            views(rel@) == sl,
            sl == shown_lines(content@),
            forall|m: int| 0 <= m < j && byte_len(#[trigger] sl[m]) > 100 ==> is_boundary(sl[m], 100),
            views(out@) == seq!["**"@ + path@ + "**:"@] + sl.take(j as int).map_values(|l: Seq<char>| "`"@ + cut_line(l) + "`"@),
        decreases rel.len() - j,
    {
        let lv = chars_of(rel[j].as_str());
        assert(lv@ == sl[j as int]);
        let mut item = String::from_str("`");
        if byte_len_upto(&lv, 100) > 100 {
            match boundary_chars(&lv, 100) {
                Some(k) => {
                    push_chars(&mut item, &slice_chars(&lv, 0, k));
                    assert(lv@.subrange(0, k as int) == lv@.take(k as int));
                },
                None => {
                    return None;
                },
            }
        } else {
            push_chars(&mut item, &lv);
        }
        item.append("`");
        let ghost before = views(out@);
        out.push(item);
        proof {
            assert(views(out@) =~= before.push("`"@ + cut_line(sl[j as int]) + "`"@));
            assert(sl.take(j + 1).map_values(|l: Seq<char>| "`"@ + cut_line(l) + "`"@) =~= sl.take(
                j as int,
            ).map_values(|l: Seq<char>| "`"@ + cut_line(l) + "`"@).push("`"@ + cut_line(sl[j as int]) + "`"@));
        }
        j = j + 1;
    }
    assert(sl.take(rel.len() as int) == sl);
    Some(out)
}

/// The embed lines of all logs; `None` when a line would be cut inside a
/// character.
fn all_error_lines_exec(logs: &crate::logs::LogCollection) -> (r: Option<Vec<String>>)
    ensures
        r is Some <==> lines_cuttable(logs.entries()),
        r matches Some(v) ==> views(v@) == all_error_lines(logs.entries()),
{
    let kws = embed_keywords_exec();
    let ghost es = logs.entries();
    let mut out: Vec<String> = Vec::new();
    let mut i: usize = 0;
    while i < logs.logs.len()
        invariant
            i <= logs.logs.len(),
            es == logs.entries(),
            char_views(kws@) == embed_keywords(),
            lines_cuttable(es.take(i as int)),
            views(out@) == all_error_lines(es.take(i as int)),
        decreases logs.logs.len() - i,
    {
        proof {
            assert(es.take(i + 1).drop_last() == es.take(i as int));
            assert(es.take(i + 1).last() == es[i as int]);
        }
        match log_error_lines_exec(logs.logs[i].0.as_str(), logs.logs[i].1.as_str(), &kws) {
            Some(part) => {
                let ghost before = views(out@);
                let mut k: usize = 0;
                while k < part.len()
                    invariant
                        k <= part.len(),
                        views(out@) == before + views(part@).take(k as int),
                    decreases part.len() - k,
                {
                    let ghost ov = views(out@);
                    out.push(part[k].clone());
                    assert(views(out@) =~= ov.push(part@[k as int]@));
                    assert(views(part@).take(k + 1) =~= views(part@).take(k as int).push(part@[k as int]@));
                    assert(views(out@) =~= before + views(part@).take(k + 1));
                    k = k + 1;
                }
                proof {
                    assert(views(part@).take(part.len() as int) == views(part@));
                    let t = es.take(i + 1);
                    assert forall|a: int, b: int|
                        0 <= a < t.len() && 0 <= b < shown_lines(t[a].1).len() && byte_len(#[trigger] shown_lines(t[a].1)[b]) > 100
                        implies is_boundary(shown_lines(t[a].1)[b], 100) by {
                        if a < i {
                            assert(t[a] == es.take(i as int)[a]);
                        }
                    }
                }
            },
            None => {
                proof {
                    assert(!lines_cuttable(es)) by {
                        let sl = shown_lines(es[i as int].1);
                        let j = choose|j: int| 0 <= j < sl.len() && byte_len(#[trigger] sl[j]) > 100 && !is_boundary(sl[j], 100);
                        assert(byte_len(shown_lines(es[i as int].1)[j]) > 100);
                    }
                }
                return None;
            },
        }
        i = i + 1;
    }
    assert(es.take(logs.logs.len() as int) == es);
    Some(out)
}

/// Builds the embed the webhook posts; `None` exactly where a byte cut would
/// fall inside a character (where the byte slicing would panic).
pub fn try_webhook_embed(report: &Report, cfg: &EmbedConfig) -> (r: Option<Embed>)
    requires
        report.logs.wf(),
    ensures
        r is Some <==> webhook_embed_defined(*report, *cfg),
        r matches Some(e) ==> embed_view(e) == webhook_embed(*report, *cfg),
{
    let mut fields = metric_field_list(&report.metrics);
    let ghost base = fields_view(fields@);
    if cfg.show_errors && report.logs.logs.len() > 0 {
        match all_error_lines_exec(&report.logs) {
            Some(lines) => {
                if lines.len() > 0 {
                    let text = join_strings(&lines, "\n");
                    match cap_text(text.as_str(), 1024, 1021) {
                        Some(value) => {
                            let ghost before = fields_view(fields@);
                            fields.push(field(String::from_str("Recent Errors/Warnings"), value, false));
                            assert(fields_view(fields@) =~= before.push(
                                ("Recent Errors/Warnings"@, capped(join(all_error_lines(report.logs.entries()), "\n"@), 1024, 1021), false),
                            ));
                        },
                        None => {
                            return None;
                        },
                    }
                } else {
                    assert(cappable(join(all_error_lines(report.logs.entries()), "\n"@), 1024, 1021)) by {
                        assert(all_error_lines(report.logs.entries()).len() == 0);
                        assert(join(all_error_lines(report.logs.entries()), "\n"@) == Seq::<char>::empty());
                    }
                }
            },
            None => {
                return None;
            },
        }
    }
    let description = match cap_text(report.ai_analysis.as_str(), 2048, 2045) {
        Some(d) => d,
        None => {
            return None;
        },
    };
    let mut footer = String::from_str("Generated at ");
    footer.append(report.generated_at.as_str());
    let e = Embed { title: String::from_str(cfg.title.as_str()), description, color: cfg.color, fields, footer };
    assert(fields_view(e.fields@) =~= webhook_embed(*report, *cfg).3);
    Some(e)
}

/// Builds the embed the webhook posts, on inputs where every byte cut falls
/// between characters.
pub fn build_embed(report: &Report, cfg: &EmbedConfig) -> (e: Embed)
    requires
        report.logs.wf(),
        webhook_embed_defined(*report, *cfg),
    ensures
        embed_view(e) == webhook_embed(*report, *cfg),
{
    match try_webhook_embed(report, cfg) {
        Some(e) => e,
        None => {
            assert(false);
            Embed {
                title: String::new(),
                description: String::new(),
                color: 0,
                fields: Vec::new(),
                footer: String::new(),
            }
        },
    }
}

/// A capped text fits its limit: the cut keeps `keep` bytes and the marker
/// adds three, so with `keep + 3 <= limit` nothing longer than `limit` bytes
/// is ever sent (2048 for descriptions, 1024 for the errors field).
pub proof fn lemma_capped_fits(t: Seq<char>, limit: nat, keep: nat)
    requires
        keep + 3 <= limit,
        cappable(t, limit, keep),
    ensures
        byte_len(capped(t, limit, keep)) <= limit,
{
    if byte_len(t) > limit {
        let k = choose|k: int| 0 <= k <= t.len() && byte_len(t.take(k)) == keep;
        crate::text::lemma_byte_len_concat(bytes_prefix(t, keep), "..."@);
        reveal_strlit("...");
        let dots = "..."@;
        assert(dots.len() == 3);
        assert(byte_len(dots) == 3) by {
            reveal_with_fuel(byte_len, 4);
            assert(dots[0] == '.' && dots[1] == '.' && dots[2] == '.');
            assert(dots.drop_last().drop_last().drop_last() =~= Seq::<char>::empty());
            assert(dots.drop_last().last() == '.');
            assert(dots.drop_last().drop_last().last() == '.');
            assert(('.' as u32) == 46);
        }
    }
}

} // verus!
