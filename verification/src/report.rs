//! The health report: the analysis prompt built from metrics and logs.

use vstd::prelude::*;
use vstd::relations::{sorted_by, total_ordering};

use crate::logs::{entry_views, LogCollection};
use crate::metrics::{CpuFigures, DiskFigures, LoadFigures, MemoryFigures, MetricsFigures};
use crate::text::{
    chars_of, decimal, find_char, first_index_of, lemma_text_less_order, lowered_text, push_chars,
    push_decimal, same_text, slice_chars, text_less, to_lowercase, chars_less,
};

verus! {

/// A finished health report.
#[derive(Debug, Clone)]
pub struct Report {
    pub ai_analysis: String,
    pub metrics: MetricsFigures,
    pub logs: LogCollection,
    /// RFC 3339 time the report was generated.
    pub generated_at: String,
}

/// The language clause added to prompts, given the lowercased language
/// name: nothing for English, otherwise an instruction to answer in it.
pub open spec fn language_note(lowered: Seq<char>) -> Seq<char> {
    if lowered == "english"@ || lowered == "en"@ {
        Seq::empty()
    } else {
        " Respond entirely in "@ + lowered + "."@
    }
}

/// The language clause for an already lowercased language name.
pub fn language_note_for(lowered: &str) -> (r: String)
    ensures
        r@ == language_note(lowered@),
{
    if same_text(lowered, "english") || same_text(lowered, "en") {
        String::new()
    } else {
        let mut s = String::from_str(" Respond entirely in ");
        s.append(lowered);
        s.append(".");
        s
    }
}

/// The language clause for a configured language (lowercased first).
pub fn language_instruction(language: &str) -> (r: String)
    ensures
        r@ == language_note(lowered_text(language@)),
{
    let lowered = to_lowercase(language);
    language_note_for(lowered.as_str())
}

/// How many characters of a log are shown before it is cut.
pub const LOG_EXCERPT_CHARS: usize = 5000;

/// The part of a log shown in the prompt: all of it when it has at most
/// 5000 characters; otherwise its last 5000 characters, from just after their
/// first newline (followed by a truncation note) when they hold one.
pub open spec fn log_excerpt(c: Seq<char>) -> Seq<char> {
    if c.len() > 5000 {
        let tail = c.subrange(c.len() - 5000, c.len() as int);
        if tail.contains('\n') {
            tail.subrange(first_index_of(tail, '\n') + 1, tail.len() as int) + "\n[... truncated ...]\n"@
        } else {
            tail
        }
    } else {
        c
    }
}

/// Appends the shown part of a log to `s`.
#[verifier::spinoff_prover]
fn push_log_excerpt(s: &mut String, content: &str)
    ensures
        final(s)@ == old(s)@ + log_excerpt(content@),
{
    let ghost start = s@;
    let c = chars_of(content);
    if c.len() > LOG_EXCERPT_CHARS {
        let tail = slice_chars(&c, c.len() - LOG_EXCERPT_CHARS, c.len());
        let ghost t = content@.subrange(content@.len() - 5000, content@.len() as int);
        assert(tail@ == t);
        match find_char(&tail, '\n') {
            Some(p) => {
                let after = slice_chars(&tail, p + 1, tail.len());
                push_chars(s, &after);
                s.append("\n[... truncated ...]\n");
                proof {
                    assert(t.contains('\n'));
                    assert(log_excerpt(content@) == t.subrange(first_index_of(t, '\n') + 1, t.len() as int) + "\n[... truncated ...]\n"@);
                }
            },
            None => {
                push_chars(s, &tail);
                assert(log_excerpt(content@) == t);
            },
        }
    } else {
        s.append(content);
    }
}

/// The prompt's opening and the collection time.
pub open spec fn prompt_header(note: Seq<char>, collected_at: Seq<char>) -> Seq<char> {
    "You are a Linux server monitoring AI. Analyze the following metrics and logs."@ + note
        + "\n\n"@ + "Report the following:\n"@
        + "1. Overall system health status (OK / Warning / Critical)\n"@
        + "2. Any anomalies or issues detected\n"@ + "3. Recommended actions if needed\n\n"@
        + "=== SYSTEM METRICS ===\n"@ + "Collected at: "@ + collected_at + "\n\n"@
}

/// The CPU line, if CPU figures are present.
pub open spec fn cpu_section(cpu: Option<CpuFigures>) -> Seq<char> {
    match cpu {
        Some(c) => "CPU Usage (avg over "@ + decimal(c.interval_seconds as nat) + "s): "@
            + c.average_usage@ + "%\n"@,
        None => Seq::empty(),
    }
}

/// The memory lines, if memory figures are present.
pub open spec fn memory_section(mem: Option<MemoryFigures>) -> Seq<char> {
    match mem {
        Some(m) => "Memory: "@ + decimal(m.used_mb as nat) + "/"@ + decimal(m.total_mb as nat)
            + " MB ("@ + m.usage_percent@ + "%)\n"@ + "Memory Available: "@
            + decimal(m.available_mb as nat) + " MB\n"@ + "Swap: "@ + decimal(m.swap_used_mb as nat)
            + "/"@ + decimal(m.swap_total_mb as nat) + " MB\n"@,
        None => Seq::empty(),
    }
}

/// The load-average line, if load figures are present.
pub open spec fn load_section(load: Option<LoadFigures>) -> Seq<char> {
    match load {
        Some(l) => "Load Average: "@ + l.one@ + " (1min), "@ + l.five@ + " (5min), "@ + l.fifteen@
            + " (15min)\n"@,
        None => Seq::empty(),
    }
}

/// One disk's line.
pub open spec fn disk_line(d: DiskFigures) -> Seq<char> {
    "  "@ + d.mount_point@ + ": "@ + d.used_gb@ + "/"@ + d.total_gb@ + " GB used ("@
        + d.usage_percent@ + "%), "@ + d.available_gb@ + " GB available\n"@
}

/// The lines of `disks`, in order.
pub open spec fn disk_lines(disks: Seq<DiskFigures>) -> Seq<char>
    decreases disks.len(),
{
    if disks.len() == 0 {
        Seq::empty()
    } else {
        disk_lines(disks.drop_last()) + disk_line(disks.last())
    }
}

/// The disk section: nothing without disks.
pub open spec fn disk_section(disks: Seq<DiskFigures>) -> Seq<char> {
    if disks.len() == 0 {
        Seq::empty()
    } else {
        "\nDisk Usage:\n"@ + disk_lines(disks)
    }
}

/// One log's block in the prompt.
pub open spec fn log_block(path: Seq<char>, content: Seq<char>) -> Seq<char> {
    "\n["@ + path + "] (last 100 lines):\n"@ + "---\n"@ + log_excerpt(content) + "\n---\n"@
}

/// The blocks of `es`, in order.
pub open spec fn log_blocks(es: Seq<(Seq<char>, Seq<char>)>) -> Seq<char>
    decreases es.len(),
{
    if es.len() == 0 {
        Seq::empty()
    } else {
        log_blocks(es.drop_last()) + log_block(es.last().0, es.last().1)
    }
}

/// The entries are in strictly ascending path order.
pub open spec fn sorted_by_path(es: Seq<(Seq<char>, Seq<char>)>) -> bool {
    forall|i: int, j: int| 0 <= i < j < es.len() ==> text_less(es[i].0, es[j].0)
}

/// The analysis prompt for metrics `m`, logs listed in `sorted` order and
/// language clause `note`.
pub open spec fn prompt_text(m: MetricsFigures, sorted: Seq<(Seq<char>, Seq<char>)>, note: Seq<char>) -> Seq<char> {
    prompt_header(note, m.collected_at@) + cpu_section(m.cpu) + memory_section(m.memory)
        + load_section(m.load_average) + disk_section(m.disks@) + "\n=== LOGS ===\n"@
        + log_blocks(sorted)
}

/// The log entries sorted by path.
pub fn sorted_log_entries(logs: &LogCollection) -> (r: Vec<(String, String)>)
    requires
        logs.wf(),
    ensures
        sorted_by_path(entry_views(r@)),
        entry_views(r@).to_multiset() == logs.entries().to_multiset(),
{
    let mut out: Vec<(String, String)> = Vec::new();
    let mut i: usize = 0;
    assert(entry_views(out@) =~= logs.entries().take(0));
    while i < logs.logs.len()
        invariant
            i <= logs.logs.len(),
            logs.wf(),
            sorted_by_path(entry_views(out@)),
            entry_views(out@).to_multiset() == logs.entries().take(i as int).to_multiset(),
        decreases logs.logs.len() - i,
    {
        let ghost es = logs.entries();
        let ghost x = es[i as int];
        let key = chars_of(logs.logs[i].0.as_str());
        proof {
            assert(es.take(i + 1) == es.take(i as int).push(x));
            assert(x.0 == key@);
        }
        // Find the first entry whose path sorts after the new one.
        let mut k: usize = 0;
        while k < out.len() && !chars_less(&key, &chars_of(out[k].0.as_str()))
            invariant
                k <= out.len(),
                forall|m: int| 0 <= m < k ==> !text_less(key@, entry_views(out@)[m].0),
            decreases out.len() - k,
        {
            k = k + 1;
        }
        let ghost before = entry_views(out@);
        // Every path already placed differs from the new one.
        proof {
            broadcast use vstd::seq_lib::group_to_multiset_ensures;
            assert forall|m: int| 0 <= m < before.len() implies before[m].0 != x.0 by {
                assert(before.to_multiset().count(before[m]) > 0);
                assert(es.take(i as int).to_multiset().count(before[m]) > 0);
                assert(es.take(i as int).contains(before[m]));
                let q = choose|q: int| 0 <= q < i && es.take(i as int)[q] == before[m];
                assert(es[q] == before[m]);
                assert(es[q].0 != es[i as int].0);
            }
        }
        out.insert(k, (logs.logs[i].0.clone(), logs.logs[i].1.clone()));
        proof {
            broadcast use vstd::seq_lib::group_to_multiset_ensures;
            let after = entry_views(out@);
            assert(after =~= before.insert(k as int, x));
            before.insert_ensures(k as int, x);
            assert(after.remove(k as int) =~= before);
            vstd::seq_lib::to_multiset_remove(after, k as int);
            assert(after.contains(x)) by {
                assert(after[k as int] == x);
            }
            broadcast use vstd::multiset::group_multiset_axioms;
            assert(after.to_multiset() =~= before.to_multiset().insert(x));
            assert forall|a: int, b: int| 0 <= a < b < after.len() implies text_less(after[a].0, after[b].0) by {
                if a < k && b == k {
                    lemma_text_less_order(before[a].0, x.0, x.0);
                } else if a == k && b > k {
                    lemma_text_less_order(x.0, before[b - 1].0, x.0);
                    if k < b - 1 {
                        lemma_text_less_order(x.0, before[k as int].0, before[b - 1].0);
                        lemma_text_less_order(before[k as int].0, x.0, x.0);
                    }
                } else if a < k && b > k {
                    assert(text_less(before[a].0, before[b - 1].0));
                }
            }
        }
        i = i + 1;
    }
    proof {
        assert(logs.entries().take(logs.logs.len() as int) == logs.entries());
    }
    out
}

fn push_header(p: &mut String, note: &str, collected_at: &str)
    ensures
        final(p)@ == old(p)@ + prompt_header(note@, collected_at@),
{
    let ghost start = p@;
    p.append("You are a Linux server monitoring AI. Analyze the following metrics and logs.");
    p.append(note);
    p.append("\n\n");
    p.append("Report the following:\n");
    p.append("1. Overall system health status (OK / Warning / Critical)\n");
    p.append("2. Any anomalies or issues detected\n");
    p.append("3. Recommended actions if needed\n\n");
    p.append("=== SYSTEM METRICS ===\n");
    p.append("Collected at: ");
    p.append(collected_at);
    p.append("\n\n");
    assert(p@ =~= start + prompt_header(note@, collected_at@));
}

fn push_cpu(p: &mut String, cpu: &Option<CpuFigures>)
    ensures
        final(p)@ == old(p)@ + cpu_section(*cpu),
{
    let ghost start = p@;
    match cpu {
        Some(c) => {
            p.append("CPU Usage (avg over ");
            push_decimal(p, c.interval_seconds);
            p.append("s): ");
            p.append(c.average_usage.as_str());
            p.append("%\n");
        },
        None => {},
    }
    assert(p@ =~= start + cpu_section(*cpu));
}

fn push_memory(p: &mut String, mem: &Option<MemoryFigures>)
    ensures
        final(p)@ == old(p)@ + memory_section(*mem),
{
    let ghost start = p@;
    match mem {
        Some(m) => {
            p.append("Memory: ");
            push_decimal(p, m.used_mb);
            p.append("/");
            push_decimal(p, m.total_mb);
            p.append(" MB (");
            p.append(m.usage_percent.as_str());
            p.append("%)\n");
            p.append("Memory Available: ");
            push_decimal(p, m.available_mb);
            p.append(" MB\n");
            p.append("Swap: ");
            push_decimal(p, m.swap_used_mb);
            p.append("/");
            push_decimal(p, m.swap_total_mb);
            p.append(" MB\n");
        },
        None => {},
    }
    assert(p@ =~= start + memory_section(*mem));
}

fn push_load(p: &mut String, load: &Option<LoadFigures>)
    ensures
        final(p)@ == old(p)@ + load_section(*load),
{
    let ghost start = p@;
    match load {
        Some(l) => {
            p.append("Load Average: ");
            p.append(l.one.as_str());
            p.append(" (1min), ");
            p.append(l.five.as_str());
            p.append(" (5min), ");
            p.append(l.fifteen.as_str());
            p.append(" (15min)\n");
        },
        None => {},
    }
    assert(p@ =~= start + load_section(*load));
}

fn push_disk_line(p: &mut String, d: &DiskFigures)
    ensures
        final(p)@ == old(p)@ + disk_line(*d),
{
    let ghost start = p@;
    p.append("  ");
    p.append(d.mount_point.as_str());
    p.append(": ");
    p.append(d.used_gb.as_str());
    p.append("/");
    p.append(d.total_gb.as_str());
    p.append(" GB used (");
    p.append(d.usage_percent.as_str());
    p.append("%), ");
    p.append(d.available_gb.as_str());
    p.append(" GB available\n");
    assert(p@ =~= start + disk_line(*d));
}

fn push_disks(p: &mut String, disks: &Vec<DiskFigures>)
    ensures
        final(p)@ == old(p)@ + disk_section(disks@),
{
    if disks.len() == 0 {
        assert(p@ =~= p@ + disk_section(disks@));
        return;
    }
    let ghost start = p@;
    p.append("\nDisk Usage:\n");
    let ghost lines_start = p@;
    let mut i: usize = 0;
    while i < disks.len()
        invariant
            i <= disks.len(),
            p@ == lines_start + disk_lines(disks@.take(i as int)),
        decreases disks.len() - i,
    {
        let ghost before = p@;
        push_disk_line(p, &disks[i]);
        proof {
            assert(disks@.take(i + 1).drop_last() == disks@.take(i as int));
            assert(p@ =~= lines_start + disk_lines(disks@.take(i + 1)));
        }
        i = i + 1;
    }
    assert(disks@.take(disks.len() as int) == disks@);
    assert(p@ =~= start + disk_section(disks@));
}

fn push_log_block(p: &mut String, path: &str, content: &str)
    ensures
        final(p)@ == old(p)@ + log_block(path@, content@),
{
    let ghost start = p@;
    p.append("\n[");
    p.append(path);
    p.append("] (last 100 lines):\n");
    p.append("---\n");
    push_log_excerpt(p, content);
    p.append("\n---\n");
    assert(p@ =~= start + log_block(path@, content@));
}

fn push_log_blocks(p: &mut String, sorted: &Vec<(String, String)>)
    ensures
        final(p)@ == old(p)@ + log_blocks(entry_views(sorted@)),
{
    let ghost start = p@;
    let ghost es = entry_views(sorted@);
    let mut i: usize = 0;
    while i < sorted.len()
        invariant
            i <= sorted.len(),
            es == entry_views(sorted@),
            p@ == start + log_blocks(es.take(i as int)),
        decreases sorted.len() - i,
    {
        push_log_block(p, sorted[i].0.as_str(), sorted[i].1.as_str());
        proof {
            assert(es.take(i + 1).drop_last() == es.take(i as int));
            assert(es.take(i + 1).last() == es[i as int]);
            assert(p@ =~= start + log_blocks(es.take(i + 1)));
        }
        i = i + 1;
    }
    assert(es.take(sorted.len() as int) == es);
}

/// Builds the analysis prompt: the role and task, the metrics present, and
/// every log (ascending by path, long ones cut to their last 5000
/// characters), with the language clause for `language`.
pub fn build_prompt(metrics: &MetricsFigures, logs: &LogCollection, language: &str) -> (prompt: String)
    requires
        logs.wf(),
    ensures
        exists|sorted: Seq<(Seq<char>, Seq<char>)>|
            #![trigger sorted_by_path(sorted)]
            sorted_by_path(sorted) && sorted.to_multiset() == logs.entries().to_multiset()
                && prompt@ == prompt_text(*metrics, sorted, language_note(lowered_text(language@))),
{
    let note = language_instruction(language);
    let mut p = String::new();
    push_header(&mut p, note.as_str(), metrics.collected_at.as_str());
    push_cpu(&mut p, &metrics.cpu);
    push_memory(&mut p, &metrics.memory);
    push_load(&mut p, &metrics.load_average);
    push_disks(&mut p, &metrics.disks);
    p.append("\n=== LOGS ===\n");
    let sorted = sorted_log_entries(logs);
    push_log_blocks(&mut p, &sorted);
    proof {
        let es = entry_views(sorted@);
        assert(p@ =~= prompt_text(*metrics, es, note@));
        assert(sorted_by_path(es));
    }
    p
}

/// Entries ordered by path, then by content: a total order.
pub open spec fn entry_leq(a: (Seq<char>, Seq<char>), b: (Seq<char>, Seq<char>)) -> bool {
    text_less(a.0, b.0) || (a.0 == b.0 && (text_less(a.1, b.1) || a.1 == b.1))
}

proof fn lemma_entry_leq_total()
    ensures
        total_ordering(|a: (Seq<char>, Seq<char>), b: (Seq<char>, Seq<char>)| entry_leq(a, b)),
{
    let leq = |a: (Seq<char>, Seq<char>), b: (Seq<char>, Seq<char>)| entry_leq(a, b);
    assert forall|x: (Seq<char>, Seq<char>)| #[trigger] leq(x, x) by {
    }
    assert forall|x: (Seq<char>, Seq<char>), y: (Seq<char>, Seq<char>)| #[trigger] leq(x, y) && #[trigger] leq(y, x) implies x == y by {
        lemma_text_less_order(x.0, y.0, y.0);
        lemma_text_less_order(x.1, y.1, y.1);
    }
    assert forall|x: (Seq<char>, Seq<char>), y: (Seq<char>, Seq<char>), z: (Seq<char>, Seq<char>)|
        #[trigger] leq(x, y) && #[trigger] leq(y, z) implies leq(x, z) by {
        lemma_text_less_order(x.0, y.0, z.0);
        lemma_text_less_order(x.1, y.1, z.1);
    }
    assert forall|x: (Seq<char>, Seq<char>), y: (Seq<char>, Seq<char>)| #[trigger] leq(x, y) || #[trigger] leq(y, x) by {
        lemma_text_less_order(x.0, y.0, y.0);
        lemma_text_less_order(x.1, y.1, y.1);
    }
}

/// Two listings in ascending path order with the same entries are the same
/// listing, so they give the same prompt: the prompt does not depend on the
/// order in which the logs were collected.
pub proof fn lemma_prompt_independent_of_order(
    m: MetricsFigures,
    note: Seq<char>,
    a: Seq<(Seq<char>, Seq<char>)>,
    b: Seq<(Seq<char>, Seq<char>)>,
)
    requires
        sorted_by_path(a),
        sorted_by_path(b),
        a.to_multiset() == b.to_multiset(),
    ensures
        a == b,
        prompt_text(m, a, note) == prompt_text(m, b, note),
{
    let leq = |x: (Seq<char>, Seq<char>), y: (Seq<char>, Seq<char>)| entry_leq(x, y);
    lemma_entry_leq_total();
    assert(sorted_by(a, leq)) by {
        assert forall|i: int, j: int| 0 <= i < j < a.len() implies #[trigger] leq(a[i], a[j]) by {
            assert(text_less(a[i].0, a[j].0));
        }
    }
    assert(sorted_by(b, leq)) by {
        assert forall|i: int, j: int| 0 <= i < j < b.len() implies #[trigger] leq(b[i], b[j]) by {
            assert(text_less(b[i].0, b[j].0));
        }
    }
    vstd::seq_lib::lemma_sorted_unique(a, b, leq);
}

/// Collections holding the same logs, in whatever order they were gathered,
/// give the same prompt.
pub proof fn lemma_same_logs_same_prompt(
    m: MetricsFigures,
    note: Seq<char>,
    x: LogCollection,
    y: LogCollection,
    px: Seq<char>,
    py: Seq<char>,
)
    requires
        x.entries().to_multiset() == y.entries().to_multiset(),
        exists|s: Seq<(Seq<char>, Seq<char>)>|
            #![trigger sorted_by_path(s)]
            sorted_by_path(s) && s.to_multiset() == x.entries().to_multiset() && px == prompt_text(m, s, note),
        exists|s: Seq<(Seq<char>, Seq<char>)>|
            #![trigger sorted_by_path(s)]
            sorted_by_path(s) && s.to_multiset() == y.entries().to_multiset() && py == prompt_text(m, s, note),
    ensures
        px == py,
{
    let sx = choose|s: Seq<(Seq<char>, Seq<char>)>|
        #![trigger sorted_by_path(s)]
        sorted_by_path(s) && s.to_multiset() == x.entries().to_multiset() && px == prompt_text(m, s, note);
    let sy = choose|s: Seq<(Seq<char>, Seq<char>)>|
        #![trigger sorted_by_path(s)]
        sorted_by_path(s) && s.to_multiset() == y.entries().to_multiset() && py == prompt_text(m, s, note);
    lemma_prompt_independent_of_order(m, note, sx, sy);
}

/// A log never takes more than 5020 characters of the prompt: at most its
/// last 5000 characters (less the part before their first newline when it
/// is cut there) and the 21-character truncation note.
pub proof fn lemma_log_excerpt_bounded(c: Seq<char>)
    ensures
        log_excerpt(c).len() <= 5020,
        c.len() <= 5000 ==> log_excerpt(c) == c,
{
    reveal_strlit("\n[... truncated ...]\n");
    if c.len() > 5000 {
        let tail = c.subrange(c.len() - 5000, c.len() as int);
        if tail.contains('\n') {
            let i = choose|i: int| 0 <= i < tail.len() && tail[i] == '\n';
            assert(exists|p: int| 0 <= p < tail.len() && tail[p] == '\n' && forall|q: int| 0 <= q < p ==> tail[q] != '\n') by {
                lemma_first_occurrence(tail, '\n', i);
            }
        }
    }
}

/// Where `c` occurs, it has a first occurrence.
proof fn lemma_first_occurrence(s: Seq<char>, c: char, i: int)
    requires
        0 <= i < s.len(),
        s[i] == c,
    ensures
        exists|p: int| 0 <= p < s.len() && s[p] == c && forall|q: int| 0 <= q < p ==> s[q] != c,
    decreases i,
{
    if exists|q: int| 0 <= q < i && s[q] == c {
        let q = choose|q: int| 0 <= q < i && s[q] == c;
        lemma_first_occurrence(s, c, q);
    } else {
        assert(0 <= i < s.len() && s[i] == c && forall|q: int| 0 <= q < i ==> s[q] != c);
    }
}

} // verus!
