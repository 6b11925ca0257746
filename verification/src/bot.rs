//! The Discord bot's decisions: pending fix requests, button identifiers,
//! and the text of progress messages and fix logs.

use vstd::prelude::*;

use crate::fix::FixResult;
use crate::logs::{last_lines, last_lines_text};
use crate::text::{
    utf8_width, byte_len, byte_len_upto, chars_of, decimal, has_prefix, join, join_strings, push_decimal,
    push_signed_decimal, signed_decimal, slice_chars, starts_with_chars, string_of, trim, trim_chars,
    trim_start, trim_start_chars, views,
};

verus! {

/// A fix request waiting for confirmation.
#[derive(Debug, Clone)]
pub struct PendingFix {
    pub id: String,
    pub instruction: String,
    pub report_summary: String,
}

/// Index of the request with id `k` among `fs` (meaningful when present).
pub open spec fn fix_index(fs: Seq<PendingFix>, k: Seq<char>) -> int {
    choose|i: int| 0 <= i < fs.len() && fs[i].id@ == k
}

/// Some request among `fs` has id `k`.
pub open spec fn has_fix(fs: Seq<PendingFix>, k: Seq<char>) -> bool {
    exists|i: int| 0 <= i < fs.len() && fs[i].id@ == k
}

/// The request with id `k`, if any.
pub open spec fn find_fix(fs: Seq<PendingFix>, k: Seq<char>) -> Option<PendingFix> {
    if has_fix(fs, k) {
        Some(fs[fix_index(fs, k)])
    } else {
        None
    }
}

/// No id occurs twice.
pub open spec fn ids_distinct(fs: Seq<PendingFix>) -> bool {
    forall|i: int, j: int| 0 <= i < j < fs.len() ==> fs[i].id@ != fs[j].id@
}

/// The requests waiting for confirmation, keyed by id.
#[derive(Debug)]
pub struct PendingFixes {
    fixes: Vec<PendingFix>,
}

proof fn lemma_find_at(fs: Seq<PendingFix>, i: int)
    requires
        ids_distinct(fs),
        0 <= i < fs.len(),
    ensures
        find_fix(fs, fs[i].id@) == Some(fs[i]),
{
    let k = fs[i].id@;
    assert(has_fix(fs, k));
    let j = fix_index(fs, k);
    if j < i {
        assert(fs[j].id@ != fs[i].id@);
    } else if j > i {
        assert(fs[i].id@ != fs[j].id@);
    }
}

impl PendingFixes {
    /// The requests held.
    pub closed spec fn view(&self) -> Seq<PendingFix> {
        self.fixes@
    }

    /// The invariant: no id occurs twice.
    pub closed spec fn wf(&self) -> bool {
        ids_distinct(self.fixes@)
    }

    /// No pending requests.
    pub fn new() -> (p: Self)
        ensures
            p.wf(),
            forall|k: Seq<char>| find_fix(p.view(), k) is None,
    {
        PendingFixes { fixes: Vec::new() }
    }

    /// How many requests are waiting.
    pub fn len(&self) -> (n: usize)
        ensures
            n == self.view().len(),
    {
        self.fixes.len()
    }

    /// Stores `fix` under its id, replacing a request with the same id.
    pub fn insert(&mut self, fix: PendingFix)
        requires
            old(self).wf(),
        ensures
            final(self).wf(),
            forall|k: Seq<char>| #[trigger] find_fix(final(self).view(), k) == if k == fix.id@ {
                Some(fix)
            } else {
                find_fix(old(self).view(), k)
            },
    {
        let ghost fs = self.fixes@;
        let ghost key = fix.id@;
        let mut i: usize = 0;
        while i < self.fixes.len()
            invariant
                i <= self.fixes.len(),
                fs == self.fixes@,
                fs == old(self).fixes@,
                ids_distinct(fs),
                key == fix.id@,
                forall|m: int| 0 <= m < i ==> fs[m].id@ != key,
            decreases self.fixes.len() - i,
        {
            if self.fixes[i].id == fix.id {
                let ghost f = fix;
                self.fixes.set(i, fix);
                proof {
                    let ns = self.fixes@;
                    assert(ns == fs.update(i as int, f));
                    assert forall|a: int, b: int| 0 <= a < b < ns.len() implies ns[a].id@ != ns[b].id@ by {
                        assert(ns[a].id@ == fs[a].id@);
                        assert(ns[b].id@ == fs[b].id@);
                    }
                    assert forall|k: Seq<char>| #[trigger] find_fix(ns, k) == if k == key {
                        Some(f)
                    } else {
                        find_fix(fs, k)
                    } by {
                        if k == key {
                            lemma_find_at(ns, i as int);
                        } else {
                            if has_fix(fs, k) {
                                let j = fix_index(fs, k);
                                assert(j != i);
                                assert(ns[j] == fs[j]);
                                lemma_find_at(ns, j);
                                lemma_find_at(fs, j);
                            } else {
                                if has_fix(ns, k) {
                                    let j = fix_index(ns, k);
                                    assert(j != i);
                                    assert(ns[j] == fs[j]);
                                }
                            }
                        }
                    }
                }
                return;
            }
            i = i + 1;
        }
        let ghost f = fix;
        self.fixes.push(fix);
        proof {
            let ns = self.fixes@;
            assert(ns == fs.push(f));
            assert forall|a: int, b: int| 0 <= a < b < ns.len() implies ns[a].id@ != ns[b].id@ by {
                if b < fs.len() {
                    assert(ns[a] == fs[a] && ns[b] == fs[b]);
                } else {
                    assert(ns[a] == fs[a]);
                }
            }
            assert forall|k: Seq<char>| #[trigger] find_fix(ns, k) == if k == key {
                Some(f)
            } else {
                find_fix(fs, k)
            } by {
                if k == key {
                    lemma_find_at(ns, fs.len() as int);
                } else {
                    if has_fix(fs, k) {
                        let j = fix_index(fs, k);
                        assert(ns[j] == fs[j]);
                        lemma_find_at(ns, j);
                        lemma_find_at(fs, j);
                    } else {
                        if has_fix(ns, k) {
                            let j = fix_index(ns, k);
                            if j < fs.len() {
                                assert(ns[j] == fs[j]);
                            }
                        }
                    }
                }
            }
        }
    }

    /// Removes and returns the request with id `id`, if there is one.
    pub fn take(&mut self, id: &str) -> (r: Option<PendingFix>)
        requires
            old(self).wf(),
        ensures
            final(self).wf(),
            r == find_fix(old(self).view(), id@),
            forall|k: Seq<char>| #[trigger] find_fix(final(self).view(), k) == if k == id@ {
                None
            } else {
                find_fix(old(self).view(), k)
            },
    {
        let ghost fs = self.fixes@;
        let ghost key = id@;
        let mut i: usize = 0;
        while i < self.fixes.len()
            invariant
                i <= self.fixes.len(),
                fs == self.fixes@,
                fs == old(self).fixes@,
                ids_distinct(fs),
                key == id@,
                forall|m: int| 0 <= m < i ==> fs[m].id@ != key,
            decreases self.fixes.len() - i,
        {
            if crate::text::same_text(self.fixes[i].id.as_str(), id) {
                let removed = self.fixes.remove(i);
                proof {
                    let ns = self.fixes@;
                    assert(ns == fs.remove(i as int));
                    lemma_find_at(fs, i as int);
                    assert forall|a: int, b: int| 0 <= a < b < ns.len() implies ns[a].id@ != ns[b].id@ by {
                        let a2 = if a < i { a } else { a + 1 };
                        let b2 = if b < i { b } else { b + 1 };
                        assert(ns[a] == fs[a2]);
                        assert(ns[b] == fs[b2]);
                    }
                    assert forall|k: Seq<char>| #[trigger] find_fix(ns, k) == if k == key {
                        None
                    } else {
                        find_fix(fs, k)
                    } by {
                        if has_fix(ns, k) {
                            let j = fix_index(ns, k);
                            let j2 = if j < i { j } else { j + 1 };
                            assert(ns[j] == fs[j2]);
                            assert(k != key);
                            lemma_find_at(fs, j2);
                            lemma_find_at(ns, j);
                        } else {
                            if k != key && has_fix(fs, k) {
                                let j = fix_index(fs, k);
                                assert(j != i);
                                let j2 = if j < i { j } else { j - 1 };
                                assert(ns[j2] == fs[j]);
                            }
                        }
                    }
                }
                return Some(removed);
            }
            i = i + 1;
        }
        assert(!has_fix(fs, key));
        None
    }
}

/// A request stored under an id is handed back by taking that id, and a
/// second take finds nothing: a fix is confirmed or cancelled at most once.
pub proof fn lemma_insert_then_take(fs: Seq<PendingFix>, fix: PendingFix, after_insert: Seq<PendingFix>, after_take: Seq<PendingFix>)
    requires
        forall|k: Seq<char>| #[trigger] find_fix(after_insert, k) == if k == fix.id@ {
            Some(fix)
        } else {
            find_fix(fs, k)
        },
        forall|k: Seq<char>| #[trigger] find_fix(after_take, k) == if k == fix.id@ {
            None
        } else {
            find_fix(after_insert, k)
        },
    ensures
        find_fix(after_insert, fix.id@) == Some(fix),
        find_fix(after_take, fix.id@) is None,
        forall|k: Seq<char>| k != fix.id@ ==> #[trigger] find_fix(after_take, k) == find_fix(fs, k),
{
    assert forall|k: Seq<char>| k != fix.id@ implies #[trigger] find_fix(after_take, k) == find_fix(fs, k) by {
        assert(find_fix(after_take, k) == find_fix(after_insert, k));
    }
}

/// A character of a hyphenated lowercase UUID.
pub open spec fn is_uuid_char(c: char) -> bool {
    ('0' <= c && c <= '9') || ('a' <= c && c <= 'f') || c == '-'
}

/// A lowercase hexadecimal digit.
pub open spec fn is_hex_lower(c: char) -> bool {
    ('0' <= c && c <= '9') || ('a' <= c && c <= 'f')
}

/// Where the hyphens of a hyphenated UUID stand.
pub open spec fn is_uuid_hyphen_position(i: int) -> bool {
    i == 8 || i == 13 || i == 18 || i == 23
}

/// `id` is a version 4 UUID written hyphenated in lowercase: 36 characters,
/// hyphens at 8, 13, 18 and 23, hex digits elsewhere, the version digit `4`
/// at 14 and the variant digit (`8`, `9`, `a` or `b`) at 19.
pub open spec fn is_v4_uuid_text(id: Seq<char>) -> bool {
    &&& id.len() == 36
    &&& forall|i: int| 0 <= i < 36 ==> if is_uuid_hyphen_position(i) {
        #[trigger] id[i] == '-'
    } else {
        is_hex_lower(id[i])
    }
    &&& id[14] == '4'
    &&& (id[19] == '8' || id[19] == '9' || id[19] == 'a' || id[19] == 'b')
}

/// Calls `uuid::Uuid::new_v4` and renders it with `to_string`. `new_v4` masks
/// random bits with the version 4 and RFC 4122 variant bits, and `Display`
/// writes the hyphenated lowercase form. Which id comes out is not stated.
#[verifier::external_body]
fn new_fix_id() -> (id: String)
    ensures
        is_v4_uuid_text(id@),
{
    uuid::Uuid::new_v4().to_string()
}

/// The instruction of a slash command: its first option's text, or a note
/// that none was given.
pub fn slash_instruction(first_option: Option<String>) -> (r: String)
    ensures
        r@ == match first_option {
            Some(s) => s@,
            None => "No instruction provided"@,
        },
{
    match first_option {
        Some(s) => s,
        None => String::from_str("No instruction provided"),
    }
}

/// The prefix of confirm-button ids.
pub open spec fn confirm_prefix() -> Seq<char> {
    "fix_confirm_"@
}

/// The prefix of cancel-button ids.
pub open spec fn cancel_prefix() -> Seq<char> {
    "fix_cancel_"@
}

/// The reply to a registered fix request.
#[derive(Debug)]
pub struct FixRequestReply {
    /// The new request's id.
    pub id: String,
    /// The message asking for confirmation.
    pub content: String,
    /// The id of the "Confirm Fix" button.
    pub confirm_button: String,
    /// The id of the "Cancel" button.
    pub cancel_button: String,
    /// The message sent to the channel when the reply cannot be delivered.
    pub fallback: String,
}

/// What the reply to a fix request with id `id` and `instruction` says.
pub open spec fn request_reply_matches(r: FixRequestReply, id: Seq<char>, instruction: Seq<char>) -> bool {
    &&& r.id@ == id
    &&& r.content@ == "Fix request received: **"@ + instruction + "**\n\nReview and confirm execution?"@
    &&& r.confirm_button@ == confirm_prefix() + id
    &&& r.cancel_button@ == cancel_prefix() + id
    &&& r.fallback@ == "Fix request: **"@ + instruction + "** — use buttons above or retry `/health-fix`"@
}

/// The reply for a request registered under `id`.
pub fn request_reply(id: &str, instruction: &str) -> (r: FixRequestReply)
    ensures
        request_reply_matches(r, id@, instruction@),
{
    let mut content = String::from_str("Fix request received: **");
    content.append(instruction);
    content.append("**\n\nReview and confirm execution?");
    let mut confirm_button = String::from_str("fix_confirm_");
    confirm_button.append(id);
    let mut cancel_button = String::from_str("fix_cancel_");
    cancel_button.append(id);
    let mut fallback = String::from_str("Fix request: **");
    fallback.append(instruction);
    fallback.append("** — use buttons above or retry `/health-fix`");
    FixRequestReply { id: String::from_str(id), content, confirm_button, cancel_button, fallback }
}

/// Registers a fix request from the slash command under a fresh id and
/// builds the reply with its confirm and cancel buttons.
pub fn register_fix_request(pending: &mut PendingFixes, instruction: &str) -> (r: FixRequestReply)
    requires
        old(pending).wf(),
    ensures
        final(pending).wf(),
        request_reply_matches(r, r.id@, instruction@),
        is_v4_uuid_text(r.id@),
        r.id@.len() == 36,
        forall|i: int| 0 <= i < r.id@.len() ==> is_uuid_char(#[trigger] r.id@[i]),
        forall|k: Seq<char>| k != r.id@ ==> #[trigger] find_fix(final(pending).view(), k) == find_fix(old(pending).view(), k),
        find_fix(final(pending).view(), r.id@) matches Some(f) && f.id@ == r.id@
            && f.instruction@ == instruction@ && f.report_summary@ == "Manual fix request via slash command"@,
{
    let id = new_fix_id();
    assert forall|i: int| 0 <= i < id@.len() implies is_uuid_char(#[trigger] id@[i]) by {
        if is_uuid_hyphen_position(i) {
            assert(id@[i] == '-');
        } else {
            assert(is_hex_lower(id@[i]));
        }
    }
    let fix = PendingFix {
        id: id.clone(),
        instruction: String::from_str(instruction),
        report_summary: String::from_str("Manual fix request via slash command"),
    };
    pending.insert(fix);
    request_reply(id.as_str(), instruction)
}

/// Whether a slash command is the fix command, `/health-fix`.
pub fn is_fix_command(name: &str) -> (b: bool)
    ensures
        b == (name@ == "health-fix"@),
{
    crate::text::same_text(name, "health-fix")
}

/// A direct answer to an interaction: its text, whether the message's
/// buttons are removed, and whether only the presser sees it.
#[derive(Debug, Clone)]
pub struct InteractionReply {
    pub content: String,
    pub clear_components: bool,
    pub ephemeral: bool,
}

/// Cancels the pending fix `id` (if it still waits) and answers that the
/// fix was cancelled, removing the buttons.
pub fn cancel_fix(pending: &mut PendingFixes, id: &str) -> (r: InteractionReply)
    requires
        old(pending).wf(),
    ensures
        final(pending).wf(),
        forall|k: Seq<char>| #[trigger] find_fix(final(pending).view(), k) == if k == id@ {
            None
        } else {
            find_fix(old(pending).view(), k)
        },
        r.content@ == "Fix cancelled."@,
        r.clear_components,
        !r.ephemeral,
{
    pending.take(id);
    InteractionReply { content: String::from_str("Fix cancelled."), clear_components: true, ephemeral: false }
}

/// The answer to the report's "Auto Fix" button: a hint, seen only by the
/// presser, to use the slash command.
pub fn autofix_hint() -> (r: InteractionReply)
    ensures
        r.content@ == "Use `/health-fix` with a specific instruction."@,
        !r.clear_components,
        r.ephemeral,
{
    InteractionReply {
        content: String::from_str("Use `/health-fix` with a specific instruction."),
        clear_components: false,
        ephemeral: true,
    }
}

/// The look of a message button.
#[derive(Debug, Clone, Copy, PartialEq, Eq, Structural)]
pub enum ButtonKind {
    Primary,
    Secondary,
    Danger,
}

/// A message button: its id, label and look.
#[derive(Debug, Clone)]
pub struct ButtonSpec {
    pub custom_id: String,
    pub label: String,
    pub kind: ButtonKind,
}

/// The buttons under a posted health report: one primary "Auto Fix" button
/// with id `autofix_button`.
pub fn report_buttons() -> (r: Vec<ButtonSpec>)
    ensures
        r@.len() == 1,
        r@[0].custom_id@ == "autofix_button"@,
        r@[0].label@ == "Auto Fix"@,
        r@[0].kind == ButtonKind::Primary,
{
    let mut r = Vec::new();
    r.push(ButtonSpec {
        custom_id: String::from_str("autofix_button"),
        label: String::from_str("Auto Fix"),
        kind: ButtonKind::Primary,
    });
    r
}

/// The buttons under a fix request with id `id`: a danger "Confirm Fix"
/// button, then a secondary "Cancel" button.
pub fn fix_request_buttons(id: &str) -> (r: Vec<ButtonSpec>)
    ensures
        r@.len() == 2,
        r@[0].custom_id@ == confirm_prefix() + id@,
        r@[0].label@ == "Confirm Fix"@,
        r@[0].kind == ButtonKind::Danger,
        r@[1].custom_id@ == cancel_prefix() + id@,
        r@[1].label@ == "Cancel"@,
        r@[1].kind == ButtonKind::Secondary,
{
    let mut confirm = String::from_str("fix_confirm_");
    confirm.append(id);
    let mut cancel = String::from_str("fix_cancel_");
    cancel.append(id);
    let mut r = Vec::new();
    r.push(ButtonSpec { custom_id: confirm, label: String::from_str("Confirm Fix"), kind: ButtonKind::Danger });
    r.push(ButtonSpec { custom_id: cancel, label: String::from_str("Cancel"), kind: ButtonKind::Secondary });
    r
}

/// `s` with every leading repetition of `p` removed (`trim_start_matches`).
pub open spec fn strip_repeated(s: Seq<char>, p: Seq<char>) -> Seq<char>
    decreases s.len(),
{
    if p.len() > 0 && has_prefix(s, p) {
        strip_repeated(s.subrange(p.len() as int, s.len() as int), p)
    } else {
        s
    }
}

fn strip_repeated_exec(v: &Vec<char>, p: &Vec<char>) -> (r: Vec<char>)
    requires
        p.len() > 0,
    ensures
        r@ == strip_repeated(v@, p@),
{
    let mut cur = slice_chars(v, 0, v.len());
    assert(cur@ =~= v@);
    while starts_with_chars(&cur, p)
        invariant
            p.len() > 0,
            strip_repeated(cur@, p@) == strip_repeated(v@, p@),
        decreases cur.len(),
    {
        cur = slice_chars(&cur, p.len(), cur.len());
    }
    cur
}

/// What a pressed button asks for.
#[derive(Debug, Clone)]
pub enum ComponentAction {
    /// Run the pending fix with this id.
    Confirm(String),
    /// Drop the pending fix with this id.
    Cancel(String),
    /// The report's "Auto Fix" button.
    AutofixHint,
    /// Any other component.
    Ignore,
}

/// The action of a component with id `custom`.
pub open spec fn component_action(custom: Seq<char>) -> (Seq<char>, int) {
    if has_prefix(custom, confirm_prefix()) {
        (strip_repeated(custom, confirm_prefix()), 0)
    } else if has_prefix(custom, cancel_prefix()) {
        (strip_repeated(custom, cancel_prefix()), 1)
    } else if custom == "autofix_button"@ {
        (Seq::empty(), 2)
    } else {
        (Seq::empty(), 3)
    }
}

/// Reads the action of a pressed button from its id: `fix_confirm_<id>`,
/// `fix_cancel_<id>` (with every leading repetition of the prefix removed,
/// as `trim_start_matches` does) or `autofix_button`.
pub fn parse_component(custom_id: &str) -> (a: ComponentAction)
    ensures
        match a {
            ComponentAction::Confirm(id) => component_action(custom_id@).1 == 0 && id@ == component_action(custom_id@).0,
            ComponentAction::Cancel(id) => component_action(custom_id@).1 == 1 && id@ == component_action(custom_id@).0,
            ComponentAction::AutofixHint => component_action(custom_id@).1 == 2,
            ComponentAction::Ignore => component_action(custom_id@).1 == 3,
        },
{
    let v = chars_of(custom_id);
    let confirm = chars_of("fix_confirm_");
    let cancel = chars_of("fix_cancel_");
    proof {
        reveal_strlit("fix_confirm_");
        reveal_strlit("fix_cancel_");
    }
    if starts_with_chars(&v, &confirm) {
        ComponentAction::Confirm(string_of(&strip_repeated_exec(&v, &confirm)))
    } else if starts_with_chars(&v, &cancel) {
        ComponentAction::Cancel(string_of(&strip_repeated_exec(&v, &cancel)))
    } else if crate::text::same_text(custom_id, "autofix_button") {
        ComponentAction::AutofixHint
    } else {
        ComponentAction::Ignore
    }
}

/// A button made for a request id leads back to that id, provided the id
/// does not itself begin with the button's prefix.
pub proof fn lemma_button_round_trip(id: Seq<char>)
    ensures
        !has_prefix(id, confirm_prefix()) ==> component_action(confirm_prefix() + id) == (id, 0int),
        !has_prefix(id, cancel_prefix()) ==> component_action(cancel_prefix() + id) == (id, 1int),
{
    reveal_strlit("fix_confirm_");
    reveal_strlit("fix_cancel_");
    let p = confirm_prefix();
    let q = cancel_prefix();
    assert(p.len() == 12);
    assert(q.len() == 11);
    let c = p + id;
    assert(c.subrange(0, 12) =~= p);
    assert(c.subrange(12, c.len() as int) =~= id);
    assert(has_prefix(c, p));
    if !has_prefix(id, p) {
        assert(strip_repeated(c, p) == strip_repeated(id, p));
        assert(strip_repeated(id, p) == id);
    }
    let d = q + id;
    assert(d.subrange(0, 11) =~= q);
    assert(d.subrange(11, d.len() as int) =~= id);
    assert(has_prefix(d, q));
    assert(!has_prefix(d, p)) by {
        assert(d[5] == q[5]);
        assert(q[5] == 'a');
        assert(p[5] == 'o');
        if has_prefix(d, p) {
            assert(d.subrange(0, 12)[5] == p[5]);
        }
    }
    if !has_prefix(id, q) {
        assert(strip_repeated(d, q) == strip_repeated(id, q));
        assert(strip_repeated(id, q) == id);
    }
}

/// Ids made by the bot never begin with a button prefix, so their buttons
/// always lead back to them.
pub proof fn lemma_fresh_id_round_trip(id: Seq<char>)
    requires
        id.len() == 36,
        forall|i: int| 0 <= i < id.len() ==> is_uuid_char(#[trigger] id[i]),
    ensures
        component_action(confirm_prefix() + id) == (id, 0int),
        component_action(cancel_prefix() + id) == (id, 1int),
{
    reveal_strlit("fix_confirm_");
    reveal_strlit("fix_cancel_");
    if has_prefix(id, confirm_prefix()) {
        assert(id.subrange(0, 12)[1] == confirm_prefix()[1]);
        assert(is_uuid_char(id[1]));
    }
    if has_prefix(id, cancel_prefix()) {
        assert(id.subrange(0, 11)[2] == cancel_prefix()[2]);
        assert(is_uuid_char(id[2]));
    }
    lemma_button_round_trip(id);
}

/// `s` shortened to `n` characters, with `...` added when it was longer.
pub open spec fn truncated(s: Seq<char>, n: nat) -> Seq<char> {
    if s.len() > n {
        s.take(n as int) + "..."@
    } else {
        s
    }
}

/// Shortens `s` to `max_chars` characters, adding `...` when it was longer.
pub fn truncate_utf8(s: &str, max_chars: usize) -> (r: String)
    ensures
        r@ == truncated(s@, max_chars as nat),
{
    let v = chars_of(s);
    if v.len() > max_chars {
        let head = slice_chars(&v, 0, max_chars);
        let mut r = string_of(&head);
        r.append("...");
        r
    } else {
        String::from_str(s)
    }
}

/// The longest run of trailing lines, each followed by a newline, that fits
/// in 1700 bytes, collected from the last line backwards onto `block`.
pub open spec fn gathered_block(ls: Seq<Seq<char>>, block: Seq<char>) -> Seq<char>
    decreases ls.len(),
{
    if ls.len() == 0 {
        block
    } else {
        let cand = ls.last() + "\n"@ + block;
        if byte_len(cand) > 1700 {
            block
        } else {
            gathered_block(ls.drop_last(), cand)
        }
    }
}

/// The progress header.
pub open spec fn progress_status(current: nat, total: nat, done: bool) -> Seq<char> {
    if done {
        "✅ ["@ + decimal(current) + "/"@ + decimal(total) + "] 完了"@
    } else {
        "▶️  ["@ + decimal(current) + "/"@ + decimal(total) + "] 実行中..."@
    }
}

/// The progress message: a code block with the status and the latest lines.
pub open spec fn log_preview(ls: Seq<Seq<char>>, current: nat, total: nat, done: bool) -> Seq<char> {
    "```\n"@ + progress_status(current, total, done) + "\n\n"@
        + trim_start(gathered_block(ls, Seq::empty())) + "\n```"@
}

/// Builds the progress message shown while fix commands run: the step
/// counter and as many of the latest output lines as fit in 1700 bytes.
pub fn build_discord_log_preview(lines: &Vec<String>, current: usize, total: usize, done: bool) -> (r: String)
    ensures
        r@ == log_preview(views(lines@), current as nat, total as nat, done),
{
    let ghost ls = views(lines@);
    let mut block: Vec<char> = Vec::new();
    let mut blen: usize = 0;
    let mut i: usize = lines.len();
    proof {
        assert(ls.take(i as int) == ls);
    }
    loop
        invariant_except_break
            i <= lines.len(),
            ls == views(lines@),
            blen == byte_len(block@),
            blen <= 1700,
            gathered_block(ls, Seq::empty()) == gathered_block(ls.take(i as int), block@),
        ensures
            gathered_block(ls, Seq::empty()) == block@,
        decreases i,
    {
        if i == 0 {
            break;
        }
        let line = chars_of(lines[i - 1].as_str());
        let llen = byte_len_upto(&line, 1700);
        let ghost cand = line@ + "\n"@ + block@;
        proof {
            reveal_strlit("\n");
            crate::text::lemma_byte_len_concat(line@ + "\n"@, block@);
            crate::text::lemma_byte_len_concat(line@, "\n"@);
            assert("\n"@ == seq!['\n']);
            assert(byte_len(seq!['\n']) == 1) by {
                let one = seq!['\n'];
                assert(one.len() == 1);
                assert(one.last() == '\n');
                assert(one.drop_last() =~= Seq::<char>::empty());
                assert(byte_len(one.drop_last()) == 0);
                assert(('\n' as u32) == 10);
                assert(utf8_width('\n') == 1);
            }
            let t = ls.take(i as int);
            assert(t.drop_last() == ls.take(i - 1));
            assert(t.last() == line@);
        }
        if llen + 1 + blen > 1700 {
            break;
        }
        let mut nb = line;
        nb.push('\n');
        let mut k: usize = 0;
        let ghost nb0 = nb@;
        while k < block.len()
            invariant
                k <= block.len(),
                nb@ == nb0 + block@.take(k as int),
            decreases block.len() - k,
        {
            nb.push(block[k]);
            k = k + 1;
            assert(nb@ =~= nb0 + block@.take(k as int));
        }
        assert(block@.take(block.len() as int) == block@);
        assert(nb@ =~= cand);
        block = nb;
        blen = llen + 1 + blen;
        i = i - 1;
    }
    let status = {
        let mut st = if done {
            String::from_str("✅ [")
        } else {
            String::from_str("▶️  [")
        };
        push_decimal(&mut st, current as u64);
        st.append("/");
        push_decimal(&mut st, total as u64);
        if done {
            st.append("] 完了");
        } else {
            st.append("] 実行中...");
        }
        st
    };
    assert(status@ == progress_status(current as nat, total as nat, done));
    let mut r = String::from_str("```\n");
    r.append(status.as_str());
    r.append("\n\n");
    let trimmed = trim_start_chars(&block);
    crate::text::push_chars(&mut r, &trimmed);
    r.append("\n```");
    r
}

/// What the Discord log shows for a finished command: the trimmed standard
/// output, else the trimmed error output marked `(stderr)`, else the exit
/// code; of that, the last five lines.
pub open spec fn output_summary(r: FixResult) -> Seq<char> {
    let output = if r.stdout@.len() > 0 {
        trim(r.stdout@)
    } else if r.stderr@.len() > 0 {
        "(stderr) "@ + trim(r.stderr@)
    } else {
        "(exit: "@ + signed_decimal(r.exit_code as int) + ")"@
    };
    last_lines(output, 5)
}

/// The entry of one command in the fix log file.
pub open spec fn file_log_entry(cmd: Seq<char>, r: FixResult) -> Seq<char> {
    "$ "@ + cmd + "\n"@ + (if r.stdout@.len() > 0 { r.stdout@ } else { Seq::empty() })
        + (if r.stderr@.len() > 0 { "(stderr)\n"@ + r.stderr@ } else { Seq::empty() })
        + "(exit: "@ + signed_decimal(r.exit_code as int) + ")\n\n"@
}

/// The fix log keeps everything a command printed: its entry starts with the
/// command line and the whole standard output, and when the command wrote to
/// standard error, the whole error output follows right after a `(stderr)`
/// line, whether or not there was standard output; the entry ends with the
/// exit code.
pub proof fn lemma_file_log_keeps_outputs(cmd: Seq<char>, r: FixResult)
    ensures
        has_prefix(file_log_entry(cmd, r), "$ "@ + cmd + "\n"@ + r.stdout@),
        r.stderr@.len() > 0 ==> crate::text::occurs_at(
            file_log_entry(cmd, r),
            "(stderr)\n"@ + r.stderr@,
            (cmd.len() + 3 + r.stdout@.len()) as int,
        ),
        r.stderr@.len() == 0 ==> crate::text::occurs_at(
            file_log_entry(cmd, r),
            "(exit: "@ + signed_decimal(r.exit_code as int) + ")\n\n"@,
            (cmd.len() + 3 + r.stdout@.len()) as int,
        ),
        file_log_entry(cmd, r).len() == cmd.len() + 3 + r.stdout@.len() + (if r.stderr@.len() > 0 { 9 + r.stderr@.len() as int } else { 0int })
            + ("(exit: "@ + signed_decimal(r.exit_code as int) + ")\n\n"@).len(),
{
    reveal_strlit("$ ");
    reveal_strlit("\n");
    reveal_strlit("(stderr)\n");
    let head = "$ "@ + cmd + "\n"@;
    let out = if r.stdout@.len() > 0 { r.stdout@ } else { Seq::empty() };
    let err = if r.stderr@.len() > 0 { "(stderr)\n"@ + r.stderr@ } else { Seq::empty() };
    let tail = "(exit: "@ + signed_decimal(r.exit_code as int) + ")\n\n"@;
    let e = file_log_entry(cmd, r);
    assert(out =~= r.stdout@);
    assert(e =~= head + out + err + tail);
    let p = head + r.stdout@;
    assert(p.len() == cmd.len() + 3 + r.stdout@.len());
    assert(e.subrange(0, p.len() as int) =~= p);
    if r.stderr@.len() > 0 {
        assert(e.subrange(p.len() as int, (p.len() + err.len()) as int) =~= err);
    } else {
        assert(e.subrange(p.len() as int, (p.len() + tail.len()) as int) =~= tail);
    }
}

/// The running record of a fix being executed: the lines shown in Discord
/// and the full log written to the attached file.
#[derive(Debug)]
pub struct FixProgress {
    pub discord_lines: Vec<String>,
    pub file_log: String,
}

impl FixProgress {
    /// The record before any command runs.
    pub fn new(instruction: &str) -> (p: Self)
        ensures
            p.discord_lines.len() == 0,
            p.file_log@ == "# Fix実行ログ\n## 指示\n"@ + instruction@ + "\n\n## 実行結果\n\n"@,
    {
        let mut log = String::from_str("# Fix実行ログ\n## 指示\n");
        log.append(instruction);
        log.append("\n\n## 実行結果\n\n");
        FixProgress { discord_lines: Vec::new(), file_log: log }
    }

    /// Shows the command about to run.
    pub fn begin_command(&mut self, cmd: &str)
        ensures
            views(final(self).discord_lines@) == views(old(self).discord_lines@).push("$ "@ + cmd@),
            final(self).file_log == old(self).file_log,
    {
        let mut line = String::from_str("$ ");
        line.append(cmd);
        let ghost before = views(self.discord_lines@);
        self.discord_lines.push(line);
        assert(views(self.discord_lines@) =~= before.push("$ "@ + cmd@));
    }

    /// Records a finished command: its output summary and a blank line in
    /// Discord, its full output in the file log.
    pub fn finish_command(&mut self, cmd: &str, result: &FixResult)
        ensures
            views(final(self).discord_lines@) == views(old(self).discord_lines@).push(output_summary(*result)).push(Seq::empty()),
            final(self).file_log@ == old(self).file_log@ + file_log_entry(cmd@, *result),
    {
        let output = if !result.stdout.as_str().is_empty() {
            string_of(&trim_chars(&chars_of(result.stdout.as_str())))
        } else if !result.stderr.as_str().is_empty() {
            let mut o = String::from_str("(stderr) ");
            crate::text::push_chars(&mut o, &trim_chars(&chars_of(result.stderr.as_str())));
            o
        } else {
            let mut o = String::from_str("(exit: ");
            push_signed_decimal(&mut o, result.exit_code as i64);
            o.append(")");
            o
        };
        let short = last_lines_text(output.as_str(), 5);
        let ghost before = views(self.discord_lines@);
        self.discord_lines.push(short);
        self.discord_lines.push(String::new());
        assert(views(self.discord_lines@) =~= before.push(output_summary(*result)).push(Seq::empty()));
        let ghost log0 = self.file_log@;
        self.file_log.append("$ ");
        self.file_log.append(cmd);
        self.file_log.append("\n");
        if !result.stdout.as_str().is_empty() {
            self.file_log.append(result.stdout.as_str());
        }
        if !result.stderr.as_str().is_empty() {
            self.file_log.append("(stderr)\n");
            self.file_log.append(result.stderr.as_str());
        }
        self.file_log.append("(exit: ");
        push_signed_decimal(&mut self.file_log, result.exit_code as i64);
        self.file_log.append(")\n\n");
        assert(self.file_log@ =~= log0 + file_log_entry(cmd@, *result));
    }

    /// The progress message after `current` of `total` commands.
    pub fn preview(&self, current: usize, total: usize, done: bool) -> (r: String)
        ensures
            r@ == log_preview(views(self.discord_lines@), current as nat, total as nat, done),
    {
        build_discord_log_preview(&self.discord_lines, current, total, done)
    }

    /// Adds the AI's summary to the file log.
    pub fn add_summary(&mut self, summary: &str)
        ensures
            final(self).file_log@ == old(self).file_log@ + "\n## AIまとめ\n"@ + summary@ + "\n"@,
            final(self).discord_lines@ == old(self).discord_lines@,
    {
        self.file_log.append("\n## AIまとめ\n");
        self.file_log.append(summary);
        self.file_log.append("\n");
    }
}

/// The numbered command list: `  <i>. <command>` per line.
pub open spec fn numbered_lines(cmds: Seq<Seq<char>>) -> Seq<Seq<char>> {
    Seq::new(cmds.len(), |i: int| "  "@ + decimal((i + 1) as nat) + ". "@ + cmds[i])
}

/// The message listing the generated commands before they run.
pub open spec fn command_list_message(cmds: Seq<Seq<char>>) -> Seq<char> {
    "```\n✅ コマンド生成完了 ("@ + decimal(cmds.len()) + " 件)\n"@ + join(numbered_lines(cmds), "\n"@)
        + "\n\n▶️  実行開始...\n```"@
}

/// Builds the message listing the generated commands before they run.
pub fn command_list_text(cmds: &Vec<String>) -> (r: String)
    ensures
        r@ == command_list_message(views(cmds@)),
{
    let mut numbered: Vec<String> = Vec::new();
    let mut i: usize = 0;
    while i < cmds.len()
        invariant
            i <= cmds.len(),
            views(numbered@) == numbered_lines(views(cmds@)).take(i as int),
        decreases cmds.len() - i,
    {
        let mut line = String::from_str("  ");
        push_decimal(&mut line, (i + 1) as u64);
        line.append(". ");
        line.append(cmds[i].as_str());
        let ghost before = views(numbered@);
        numbered.push(line);
        proof {
            let nl = numbered_lines(views(cmds@));
            assert(line@ == nl[i as int]);
            assert(views(numbered@) =~= before.push(line@));
            assert(nl.take(i + 1) =~= nl.take(i as int).push(nl[i as int]));
        }
        i = i + 1;
    }
    assert(numbered_lines(views(cmds@)).take(cmds.len() as int) =~= numbered_lines(views(cmds@)));
    let mut r = String::from_str("```\n✅ コマンド生成完了 (");
    push_decimal(&mut r, cmds.len() as u64);
    r.append(" 件)\n");
    r.append(join_strings(&numbered, "\n").as_str());
    r.append("\n\n▶️  実行開始...\n```");
    r
}

/// The messages sent instead of running commands when execution is off.
#[derive(Debug)]
pub struct ProposalMessages {
    /// The short summary (sent with the file, and shown cut to 500 characters).
    pub summary: String,
    /// The attached proposal file.
    pub file_content: String,
}

/// Builds the proposal sent when execution is switched off.
pub fn proposal_messages(instruction: &str, cmds: &Vec<String>) -> (r: ProposalMessages)
    ensures
        r.summary@ == "**Fix提案: "@ + instruction@ + "**\n\n実行するには `allow_execution: true` に設定してください。"@,
        r.file_content@ == "# Fix提案\n## 指示\n"@ + instruction@ + "\n\n## 生成されたコマンド\n```sh\n"@
            + join(views(cmds@), "\n"@) + "\n```\n"@,
{
    let mut summary = String::from_str("**Fix提案: ");
    summary.append(instruction);
    summary.append("**\n\n実行するには `allow_execution: true` に設定してください。");
    let mut file_content = String::from_str("# Fix提案\n## 指示\n");
    file_content.append(instruction);
    file_content.append("\n\n## 生成されたコマンド\n```sh\n");
    file_content.append(join_strings(cmds, "\n").as_str());
    file_content.append("\n```\n");
    ProposalMessages { summary, file_content }
}

/// The message shown when the fix log file could not be sent: the summary,
/// cut to 1900 characters.
pub fn unsent_log_message(summary: &str) -> (r: String)
    ensures
        r@ == truncated("✅ Fix完了\n\n"@ + summary@, 1900),
{
    let mut m = String::from_str("✅ Fix完了\n\n");
    m.append(summary);
    truncate_utf8(m.as_str(), 1900)
}

/// The URL answering an interaction.
pub fn interaction_callback_url(interaction_id: u64, token: &str) -> (u: String)
    ensures
        u@ == "https://discord.com/api/v10/interactions/"@ + decimal(interaction_id as nat) + "/"@ + token@
            + "/callback"@,
{
    let mut u = String::from_str("https://discord.com/api/v10/interactions/");
    push_decimal(&mut u, interaction_id);
    u.append("/");
    u.append(token);
    u.append("/callback");
    u
}

/// The URL of an interaction's original (deferred) message.
pub fn original_message_url(application_id: u64, token: &str) -> (u: String)
    ensures
        u@ == "https://discord.com/api/v10/webhooks/"@ + decimal(application_id as nat) + "/"@ + token@
            + "/messages/@original"@,
{
    let mut u = String::from_str("https://discord.com/api/v10/webhooks/");
    push_decimal(&mut u, application_id);
    u.append("/");
    u.append(token);
    u.append("/messages/@original");
    u
}

/// The URL for follow-up messages of an interaction.
pub fn followup_url(application_id: u64, token: &str) -> (u: String)
    ensures
        u@ == "https://discord.com/api/v10/webhooks/"@ + decimal(application_id as nat) + "/"@ + token@,
{
    let mut u = String::from_str("https://discord.com/api/v10/webhooks/");
    push_decimal(&mut u, application_id);
    u.append("/");
    u.append(token);
    u
}

/// A shortened text has at most `n` characters plus the three-dot marker.
pub proof fn lemma_truncated_length(s: Seq<char>, n: nat)
    ensures
        truncated(s, n).len() <= n + 3,
        s.len() <= n ==> truncated(s, n) == s,
{
    reveal_strlit("...");
}

/// The lines shown in a progress message never take more than 1700 bytes,
/// whatever the command output.
pub proof fn lemma_preview_block_fits(ls: Seq<Seq<char>>, block: Seq<char>)
    requires
        byte_len(block) <= 1700,
    ensures
        byte_len(gathered_block(ls, block)) <= 1700,
    decreases ls.len(),
{
    if ls.len() > 0 {
        let cand = ls.last() + "\n"@ + block;
        if byte_len(cand) <= 1700 {
            lemma_preview_block_fits(ls.drop_last(), cand);
        }
    }
}

} // verus!
