//! Watch mode: which history file is followed, how far it has been read,
//! and what is posted for each new command.

use vstd::prelude::*;

use crate::text::{chars_of, trim, trim_chars, views};

verus! {

/// The history file followed: `$HISTFILE`, else `$HOME/.bash_history`
/// (`/root` when `HOME` is unset).
pub open spec fn history_path_spec(histfile: Option<Seq<char>>, home: Option<Seq<char>>) -> Seq<char> {
    match histfile {
        Some(h) => h,
        None => match home {
            Some(d) => d + "/.bash_history"@,
            None => "/root"@ + "/.bash_history"@,
        },
    }
}

/// The history file to follow, given `HISTFILE` and `HOME`.
pub fn history_path(histfile: Option<String>, home: Option<String>) -> (p: String)
    ensures
        p@ == history_path_spec(
            match histfile { Some(h) => Some(h@), None => None },
            match home { Some(d) => Some(d@), None => None },
        ),
{
    match histfile {
        Some(h) => h,
        None => {
            let mut p = match home {
                Some(d) => d,
                None => String::from_str("/root"),
            };
            p.append("/.bash_history");
            p
        },
    }
}

/// How far the history file has been read.
#[derive(Debug, Clone, Copy)]
pub struct HistoryCursor {
    /// Byte offset up to which lines have been taken.
    pub position: u64,
}

impl HistoryCursor {
    /// A cursor at the file's current end, so only later commands are sent.
    pub fn at(size: u64) -> (c: Self)
        ensures
            c.position == size,
    {
        HistoryCursor { position: size }
    }

    /// Where to start reading when the file has `current_size` bytes:
    /// nothing to read unless it grew past the cursor.
    pub fn read_from(&self, current_size: u64) -> (r: Option<u64>)
        ensures
            r == if current_size <= self.position { None } else { Some(self.position) },
    {
        if current_size <= self.position {
            None
        } else {
            Some(self.position)
        }
    }

    /// Moves the cursor to the end of what was read.
    pub fn advance(&mut self, current_size: u64)
        ensures
            final(self).position == current_size,
    {
        self.position = current_size;
    }
}

/// The lines worth sending: those that are not blank, unchanged.
pub open spec fn non_blank(ls: Seq<Seq<char>>) -> Seq<Seq<char>>
    decreases ls.len(),
{
    if ls.len() == 0 {
        Seq::empty()
    } else {
        let rest = non_blank(ls.drop_last());
        if trim(ls.last()).len() > 0 {
            rest.push(ls.last())
        } else {
            rest
        }
    }
}

/// Keeps the history lines that are not blank.
pub fn history_commands(lines: &Vec<String>) -> (r: Vec<String>)
    ensures
        views(r@) == non_blank(views(lines@)),
{
    let ghost all = views(lines@);
    let mut r: Vec<String> = Vec::new();
    let mut i: usize = 0;
    assert(all.take(0) =~= Seq::<Seq<char>>::empty());
    while i < lines.len()
        invariant
            i <= lines.len(),
            all == views(lines@),
            views(r@) == non_blank(all.take(i as int)),
        decreases lines.len() - i,
    {
        proof {
            assert(all.take(i + 1).drop_last() == all.take(i as int));
            assert(all.take(i + 1).last() == lines@[i as int]@);
        }
        let t = trim_chars(&chars_of(lines[i].as_str()));
        if t.len() > 0 {
            let ghost before = views(r@);
            r.push(lines[i].clone());
            assert(views(r@) =~= before.push(lines@[i as int]@));
        }
        i = i + 1;
    }
    assert(all.take(lines.len() as int) == all);
    r
}

/// The message posted for a command: a bash code block.
pub fn command_message(command: &str) -> (m: String)
    ensures
        m@ == "```bash\n"@ + command@ + "\n```"@,
{
    let mut m = String::from_str("```bash\n");
    m.append(command);
    m.append("\n```");
    m
}

/// The error when the history file is missing.
pub fn missing_history_message(path: &str) -> (m: String)
    ensures
        m@ == "History file not found: "@ + path@ + ". Set HISTFILE env var or create ~/.bash_history"@,
{
    let mut m = String::from_str("History file not found: ");
    m.append(path);
    m.append(". Set HISTFILE env var or create ~/.bash_history");
    m
}

} // verus!
