//! Collected log excerpts: a map from log path to its last lines (or to an
//! error note when the file could not be read).

use vstd::prelude::*;

use crate::config::{ApplicationLog, Config};
use crate::text::{join, join_strings, lines, lines_of, views};

verus! {

/// How many trailing lines of each log file are kept.
pub const LOG_TAIL_LINES: usize = 100;

/// The (path, content) pairs of a collection, as texts.
pub open spec fn entry_views(v: Seq<(String, String)>) -> Seq<(Seq<char>, Seq<char>)> {
    v.map_values(|e: (String, String)| (e.0@, e.1@))
}

/// No path occurs twice.
pub open spec fn paths_distinct(es: Seq<(Seq<char>, Seq<char>)>) -> bool {
    forall|i: int, j: int| 0 <= i < j < es.len() ==> es[i].0 != es[j].0
}

/// Some entry has path `k`.
pub open spec fn has_path(es: Seq<(Seq<char>, Seq<char>)>, k: Seq<char>) -> bool {
    exists|i: int| 0 <= i < es.len() && es[i].0 == k
}

/// The index of the entry with path `k` (meaningful when `has_path`).
pub open spec fn path_index(es: Seq<(Seq<char>, Seq<char>)>, k: Seq<char>) -> int {
    choose|i: int| 0 <= i < es.len() && es[i].0 == k
}

/// The content stored for path `k`, if any.
pub open spec fn lookup(es: Seq<(Seq<char>, Seq<char>)>, k: Seq<char>) -> Option<Seq<char>> {
    if has_path(es, k) {
        Some(es[path_index(es, k)].1)
    } else {
        None
    }
}

/// The entries after storing `v` under `k`: an existing entry for `k` keeps its
/// place and takes the new content; otherwise the pair is added at the end.
pub open spec fn stored(es: Seq<(Seq<char>, Seq<char>)>, k: Seq<char>, v: Seq<char>) -> Seq<(Seq<char>, Seq<char>)> {
    if has_path(es, k) {
        es.update(path_index(es, k), (k, v))
    } else {
        es.push((k, v))
    }
}

/// Log contents keyed by file path.
#[derive(Debug, Clone)]
pub struct LogCollection {
    /// (path, content) pairs; no path occurs twice.
    pub logs: Vec<(String, String)>,
}

impl LogCollection {
    /// The entries as texts.
    pub open spec fn entries(&self) -> Seq<(Seq<char>, Seq<char>)> {
        entry_views(self.logs@)
    }

    /// The collection's invariant: no path occurs twice.
    pub open spec fn wf(&self) -> bool {
        paths_distinct(self.entries())
    }

    /// An empty collection.
    pub fn new() -> (c: Self)
        ensures
            c.wf(),
            c.entries().len() == 0,
    {
        LogCollection { logs: Vec::new() }
    }

    /// Stores `content` under `path`, replacing what was stored there.
    pub fn insert(&mut self, path: String, content: String)
        requires
            old(self).wf(),
        ensures
            final(self).wf(),
            final(self).entries() == stored(old(self).entries(), path@, content@),
    {
        let ghost es = self.entries();
        let mut i: usize = 0;
        while i < self.logs.len()
            invariant
                i <= self.logs.len(),
                es == self.entries(),
                es == old(self).entries(),
                paths_distinct(es),
                forall|m: int| 0 <= m < i ==> es[m].0 != path@,
            decreases self.logs.len() - i,
        {
            assert(es[i as int].0 == self.logs@[i as int].0@);
            if self.logs[i].0 == path {
                let ghost k = path@;
                assert(has_path(es, k));
                let ghost j = path_index(es, k);
                assert(j == i as int) by {
                    if j < i {
                    } else if j > i {
                        assert(es[i as int].0 != es[j].0);
                    }
                }
                self.logs.set(i, (path, content));
                proof {
                    assert(self.entries() =~= stored(es, k, content@));
                    assert forall|a: int, b: int| 0 <= a < b < self.entries().len() implies
                        self.entries()[a].0 != self.entries()[b].0 by {
                        assert(self.entries()[a].0 == es[a].0);
                        assert(self.entries()[b].0 == es[b].0);
                    }
                }
                return;
            }
            i = i + 1;
        }
        let ghost k = path@;
        let ghost v = content@;
        assert(!has_path(es, k));
        self.logs.push((path, content));
        assert(self.entries() =~= es.push((k, v)));
    }

    /// How many logs are held.
    pub fn len(&self) -> (n: usize)
        ensures
            n == self.entries().len(),
    {
        self.logs.len()
    }

    /// Stores what reading the standard log `path` gave: its text, or an
    /// error note `[Error reading log: <error>]`.
    pub fn record_standard_log(&mut self, path: &String, outcome: Result<String, LogReadError>)
        requires
            old(self).wf(),
        ensures
            final(self).wf(),
            final(self).entries() == stored(old(self).entries(), path@, standard_log_content(path@, outcome)),
    {
        let content = match outcome {
            Ok(c) => c,
            Err(e) => {
                let mut s = String::from_str("[Error reading log: ");
                s.append(e.message(path.as_str()).as_str());
                s.append("]");
                s
            },
        };
        self.insert(path.clone(), content);
    }

    /// Stores what reading the application log `name` at `path` gave: its
    /// text, or an error note `[Error reading <name> log: <error>]`.
    pub fn record_application_log(&mut self, name: &String, path: &String, outcome: Result<String, LogReadError>)
        requires
            old(self).wf(),
        ensures
            final(self).wf(),
            final(self).entries() == stored(old(self).entries(), path@, application_log_content(name@, path@, outcome)),
    {
        let content = match outcome {
            Ok(c) => c,
            Err(e) => {
                let mut s = String::from_str("[Error reading ");
                s.append(name.as_str());
                s.append(" log: ");
                s.append(e.message(path.as_str()).as_str());
                s.append("]");
                s
            },
        };
        self.insert(path.clone(), content);
    }
}

impl Default for LogCollection {
    fn default() -> (c: Self)
        ensures
            c.wf(),
            c.entries().len() == 0,
    {
        Self::new()
    }
}

/// Storing under a path and reading it back gives the stored content, and
/// every other path keeps what it had.
pub proof fn lemma_stored_then_lookup(es: Seq<(Seq<char>, Seq<char>)>, k: Seq<char>, v: Seq<char>, other: Seq<char>)
    requires
        paths_distinct(es),
    ensures
        paths_distinct(stored(es, k, v)),
        lookup(stored(es, k, v), k) == Some(v),
        other != k ==> lookup(stored(es, k, v), other) == lookup(es, other),
{
    let s = stored(es, k, v);
    if has_path(es, k) {
        let i = path_index(es, k);
        assert forall|a: int, b: int| 0 <= a < b < s.len() implies s[a].0 != s[b].0 by {
            assert(s[a].0 == es[a].0);
            assert(s[b].0 == es[b].0);
        }
    } else {
        assert forall|a: int, b: int| 0 <= a < b < s.len() implies s[a].0 != s[b].0 by {
            if b < es.len() {
                assert(s[a] == es[a] && s[b] == es[b]);
            } else {
                assert(s[a] == es[a]);
            }
        }
        assert(s[es.len() as int].0 == k);
    }
    assert(has_path(s, k)) by {
        if has_path(es, k) {
            assert(s[path_index(es, k)].0 == k);
        } else {
            assert(s[es.len() as int].0 == k);
        }
    }
    let j = path_index(s, k);
    assert(s[j].1 == v) by {
        if has_path(es, k) {
            let i = path_index(es, k);
            if j != i {
                assert(s[j].0 == es[j].0);
                assert(s[i].0 == k);
            }
        } else {
            if j < es.len() {
                assert(s[j] == es[j]);
            }
        }
    }
    if other != k {
        if has_path(es, other) {
            let i = path_index(es, other);
            assert(s[i].0 == other) by {
                if has_path(es, k) {
                    assert(i != path_index(es, k));
                }
            }
            assert(has_path(s, other));
            let j2 = path_index(s, other);
            assert(j2 == i) by {
                if j2 != i {
                    if j2 < es.len() {
                        if has_path(es, k) && j2 == path_index(es, k) {
                        } else {
                            assert(s[j2].0 == es[j2].0);
                        }
                    }
                }
            }
        } else {
            if has_path(s, other) {
                let j2 = path_index(s, other);
                if j2 < es.len() {
                    if has_path(es, k) && j2 == path_index(es, k) {
                    } else {
                        assert(s[j2].0 == es[j2].0);
                    }
                }
            }
        }
    }
}

/// A log file to read: its path and, for an application log, the
/// application's name.
#[derive(Debug, Clone)]
pub struct LogSource {
    pub path: String,
    pub application: Option<String>,
}

/// A source as plain values.
pub open spec fn source_view(s: LogSource) -> (Seq<char>, Option<Seq<char>>) {
    (s.path@, match s.application {
        Some(n) => Some(n@),
        None => None,
    })
}

/// The enabled application logs of `apps`, in order, as sources.
pub open spec fn enabled_app_sources(apps: Seq<(String, ApplicationLog)>) -> Seq<(Seq<char>, Option<Seq<char>>)>
    decreases apps.len(),
{
    if apps.len() == 0 {
        Seq::empty()
    } else {
        let rest = enabled_app_sources(apps.drop_last());
        if apps.last().1.enabled {
            rest.push((apps.last().1.path@, Some(apps.last().0@)))
        } else {
            rest
        }
    }
}

/// The logs to read: every standard log, then every enabled application log,
/// in the configured order.
pub open spec fn sources_of(config: Config) -> Seq<(Seq<char>, Option<Seq<char>>)> {
    config.standard_logs@.map_values(|p: String| (p@, None::<Seq<char>>)) + enabled_app_sources(config.application_logs@)
}

/// The log files to read for `config`.
pub fn log_sources(config: &Config) -> (r: Vec<LogSource>)
    ensures
        r@.map_values(|s: LogSource| source_view(s)) == sources_of(*config),
{
    let mut r: Vec<LogSource> = Vec::new();
    let mut i: usize = 0;
    while i < config.standard_logs.len()
        invariant
            i <= config.standard_logs.len(),
            r@.map_values(|s: LogSource| source_view(s)) == config.standard_logs@.take(i as int).map_values(
                |p: String| (p@, None::<Seq<char>>),
            ),
        decreases config.standard_logs.len() - i,
    {
        let ghost before = r@.map_values(|s: LogSource| source_view(s));
        r.push(LogSource { path: config.standard_logs[i].clone(), application: None });
        proof {
            assert(r@.map_values(|s: LogSource| source_view(s)) =~= before.push((config.standard_logs@[i as int]@, None::<Seq<char>>)));
            assert(config.standard_logs@.take(i + 1).map_values(|p: String| (p@, None::<Seq<char>>)) =~= config.standard_logs@.take(
                i as int,
            ).map_values(|p: String| (p@, None::<Seq<char>>)).push((config.standard_logs@[i as int]@, None::<Seq<char>>)));
        }
        i = i + 1;
    }
    assert(config.standard_logs@.take(i as int) == config.standard_logs@);
    let ghost base = r@.map_values(|s: LogSource| source_view(s));
    let apps = &config.application_logs;
    let mut k: usize = 0;
    assert(apps@.take(0) =~= Seq::<(String, ApplicationLog)>::empty());
    assert(base + enabled_app_sources(apps@.take(0)) =~= base);
    while k < apps.len()
        invariant
            k <= apps.len(),
            apps == &config.application_logs,
            r@.map_values(|s: LogSource| source_view(s)) == base + enabled_app_sources(apps@.take(k as int)),
        decreases apps.len() - k,
    {
        proof {
            assert(apps@.take(k + 1).drop_last() == apps@.take(k as int));
            assert(apps@.take(k + 1).last() == apps@[k as int]);
        }
        if apps[k].1.enabled {
            let ghost before = r@.map_values(|s: LogSource| source_view(s));
            r.push(LogSource { path: apps[k].1.path.clone(), application: Some(apps[k].0.clone()) });
            assert(r@.map_values(|s: LogSource| source_view(s)) =~= before.push((apps@[k as int].1.path@, Some(apps@[k as int].0@))));
        }
        k = k + 1;
    }
    assert(apps@.take(k as int) == apps@);
    r
}

impl LogCollection {
    /// Stores what reading `source` gave, as a standard or an application log.
    pub fn record_log(&mut self, source: &LogSource, outcome: Result<String, LogReadError>)
        requires
            old(self).wf(),
        ensures
            final(self).wf(),
            final(self).entries() == stored(old(self).entries(), source.path@, match source.application {
                None => standard_log_content(source.path@, outcome),
                Some(n) => application_log_content(n@, source.path@, outcome),
            }),
    {
        match &source.application {
            None => self.record_standard_log(&source.path, outcome),
            Some(name) => self.record_application_log(name, &source.path, outcome),
        }
    }
}

/// Why reading a log file failed.
#[derive(Debug, Clone)]
pub enum LogReadError {
    /// The file does not exist.
    Missing,
    /// The file holds a zero byte.
    Binary,
    /// The read itself failed, with the system's error text.
    Io(String),
}

/// The message of a read error for the file at `path`.
pub open spec fn read_error_text(e: LogReadError, path: Seq<char>) -> Seq<char> {
    match e {
        LogReadError::Missing => "File does not exist: "@ + path,
        LogReadError::Binary => "File appears to be binary: "@ + path,
        LogReadError::Io(t) => t@,
    }
}

/// What is stored for a standard log given the read's outcome.
pub open spec fn standard_log_content(path: Seq<char>, outcome: Result<String, LogReadError>) -> Seq<char> {
    match outcome {
        Ok(c) => c@,
        Err(e) => "[Error reading log: "@ + read_error_text(e, path) + "]"@,
    }
}

/// What is stored for an application log given the read's outcome.
pub open spec fn application_log_content(name: Seq<char>, path: Seq<char>, outcome: Result<String, LogReadError>) -> Seq<char> {
    match outcome {
        Ok(c) => c@,
        Err(e) => "[Error reading "@ + name + " log: "@ + read_error_text(e, path) + "]"@,
    }
}

impl LogReadError {
    /// The error message for the file at `path`.
    pub fn message(&self, path: &str) -> (m: String)
        ensures
            m@ == read_error_text(*self, path@),
    {
        match self {
            LogReadError::Missing => {
                let mut s = String::from_str("File does not exist: ");
                s.append(path);
                s
            },
            LogReadError::Binary => {
                let mut s = String::from_str("File appears to be binary: ");
                s.append(path);
                s
            },
            LogReadError::Io(t) => t.clone(),
        }
    }
}

/// What `String::from_utf8_lossy` makes of `bytes`.
pub uninterp spec fn lossy_text(bytes: Seq<u8>) -> Seq<char>;

/// Calls `String::from_utf8_lossy`: the result is named `lossy_text`; on
/// valid UTF-8 it is the decoded text (invalid sequences become U+FFFD, which
/// is not stated).
#[verifier::external_body]
pub(crate) fn decode_lossy(bytes: &[u8]) -> (s: String)
    ensures
        s@ == lossy_text(bytes@),
        vstd::utf8::valid_utf8(bytes@) ==> s@ == vstd::utf8::decode_utf8(bytes@),
{
    String::from_utf8_lossy(bytes).to_string()
}

/// The last `n` lines of `content`, joined with `'\n'`.
pub open spec fn last_lines(content: Seq<char>, n: nat) -> Seq<char> {
    let ls = lines_of(content);
    let start: int = if ls.len() > n { ls.len() - n } else { 0 };
    join(ls.subrange(start, ls.len() as int), "\n"@)
}

/// Copies of `v[from..to]`.
fn slice_strings(v: &Vec<String>, from: usize, to: usize) -> (r: Vec<String>)
    requires
        from <= to <= v.len(),
    ensures
        views(r@) == views(v@).subrange(from as int, to as int),
{
    let mut r: Vec<String> = Vec::new();
    let mut i = from;
    while i < to
        invariant
            from <= i <= to <= v.len(),
            views(r@) == views(v@).subrange(from as int, i as int),
        decreases to - i,
    {
        let ghost before = views(r@);
        r.push(v[i].clone());
        assert(views(r@) =~= before.push(v@[i as int]@));
        assert(views(v@).subrange(from as int, i + 1) =~= views(v@).subrange(from as int, i as int).push(v@[i as int]@));
        i = i + 1;
    }
    r
}

/// The last `n` lines of `content`, joined with `'\n'`.
pub fn last_lines_text(content: &str, n: usize) -> (r: String)
    ensures
        r@ == last_lines(content@, n as nat),
{
    let ls = lines(content);
    let start: usize = if ls.len() > n { ls.len() - n } else { 0 };
    let tail = slice_strings(&ls, start, ls.len());
    assert(views(ls@).len() == ls.len());
    join_strings(&tail, "\n")
}

/// Some byte of `bytes` is zero.
pub open spec fn has_zero(bytes: Seq<u8>) -> bool {
    exists|i: int| 0 <= i < bytes.len() && bytes[i] == 0
}

/// Whether some byte of `bytes` is zero (the file looks binary).
pub fn contains_zero_byte(bytes: &[u8]) -> (b: bool)
    ensures
        b == has_zero(bytes@),
{
    let mut i: usize = 0;
    while i < bytes.len()
        invariant
            i <= bytes.len(),
            forall|m: int| 0 <= m < i ==> bytes@[m] != 0,
        decreases bytes.len() - i,
    {
        if bytes[i] == 0 {
            return true;
        }
        i = i + 1;
    }
    false
}

/// The text kept of a log file's bytes: refused as binary when a byte is
/// zero, otherwise the last `n` lines of its (lossily decoded) text.
pub fn tail_of_log_bytes(bytes: &[u8], n: usize) -> (r: Result<String, LogReadError>)
    ensures
        has_zero(bytes@) <==> r is Err,
        r matches Err(e) ==> e is Binary,
        r matches Ok(t) ==> t@ == last_lines(lossy_text(bytes@), n as nat),
        vstd::utf8::valid_utf8(bytes@) ==> (r matches Ok(t) ==> t@ == last_lines(vstd::utf8::decode_utf8(bytes@), n as nat)),
{
    if contains_zero_byte(bytes) {
        return Err(LogReadError::Binary);
    }
    let text = decode_lossy(bytes);
    Ok(last_lines_text(text.as_str(), n))
}

} // verus!
