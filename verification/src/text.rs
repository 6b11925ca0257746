//! Character-level text helpers with exact specifications: line splitting,
//! whitespace trimming, substring search, decimal rendering and UTF-8 widths.

use vstd::prelude::*;

verus! {

/// `String::push` appends one character.
pub assume_specification[ String::push ](s: &mut String, ch: char)
    ensures
        final(s)@ == old(s)@.push(ch),
;

/// What `str::to_lowercase` gives for a text (Unicode lowercase mapping).
pub uninterp spec fn lowercase_of(s: Seq<char>) -> Seq<char>;

/// A character of the ASCII range.
pub open spec fn is_ascii_char(c: char) -> bool {
    (c as u32) < 128
}

/// The ASCII lowercase of `c`: `A`-`Z` become `a`-`z`, the rest stay.
pub open spec fn ascii_lower(c: char) -> char {
    if 'A' <= c && c <= 'Z' {
        ((c as u32) + 32) as char
    } else {
        c
    }
}

/// Every character of `s` is ASCII.
pub open spec fn is_ascii_text(s: Seq<char>) -> bool {
    forall|i: int| 0 <= i < s.len() ==> is_ascii_char(#[trigger] s[i])
}

/// `s` with its ASCII capital letters lowered.
pub open spec fn ascii_lowered(s: Seq<char>) -> Seq<char> {
    s.map_values(|c: char| ascii_lower(c))
}

/// The lowercase form of `s` as far as it is known: the ASCII lowering for
/// an ASCII text, otherwise what `str::to_lowercase` gives.
pub open spec fn lowered_text(s: Seq<char>) -> Seq<char> {
    if is_ascii_text(s) {
        ascii_lowered(s)
    } else {
        lowercase_of(s)
    }
}

/// Calls `str::to_lowercase`; the result is named `lowercase_of` of the
/// argument's characters. Of the Unicode mapping only its ASCII part is
/// stated: an ASCII text has its capital letters lowered and nothing else
/// changed.
#[verifier::external_body]
pub(crate) fn to_lowercase(s: &str) -> (r: String)
    ensures
        r@ == lowercase_of(s@),
        is_ascii_text(s@) ==> r@ == ascii_lowered(s@),
        r@ == lowered_text(s@),
{
    s.to_lowercase()
}

/// The characters of `s`, in order.
pub fn chars_of(s: &str) -> (v: Vec<char>)
    ensures
        v@ == s@,
{
    let mut v: Vec<char> = Vec::new();
    broadcast use vstd::string::group_string_axioms;
    for c in it: s.chars()
        invariant
            it.seq() == s@,
            v@ == it.seq().take(it.index() as int),
    {
        v.push(c);
    }
    assert(s@.take(s@.len() as int) == s@);
    v
}

/// A `String` holding exactly the characters of `v`.
pub fn string_of(v: &Vec<char>) -> (s: String)
    ensures
        s@ == v@,
{
    let mut s = String::new();
    let mut i: usize = 0;
    while i < v.len()
        invariant
            i <= v.len(),
            s@ == v@.take(i as int),
        decreases v.len() - i,
    {
        s.push(v[i]);
        i = i + 1;
        assert(s@ == v@.take(i as int));
    }
    assert(v@.take(v.len() as int) == v@);
    s
}

/// Appends the characters of `v` to `s`.
pub fn push_chars(s: &mut String, v: &Vec<char>)
    ensures
        final(s)@ == old(s)@ + v@,
{
    let mut i: usize = 0;
    while i < v.len()
        invariant
            i <= v.len(),
            s@ == old(s)@ + v@.take(i as int),
        decreases v.len() - i,
    {
        s.push(v[i]);
        i = i + 1;
        assert(s@ == old(s)@ + v@.take(i as int));
    }
    assert(v@.take(v.len() as int) == v@);
}

/// The characters of `v` in the index range `[from, to)`.
pub fn slice_chars(v: &Vec<char>, from: usize, to: usize) -> (r: Vec<char>)
    requires
        from <= to <= v.len(),
    ensures
        r@ == v@.subrange(from as int, to as int),
{
    let mut r: Vec<char> = Vec::new();
    let mut i: usize = from;
    while i < to
        invariant
            from <= i <= to <= v.len(),
            r@ == v@.subrange(from as int, i as int),
        decreases to - i,
    {
        r.push(v[i]);
        i = i + 1;
        assert(r@ == v@.subrange(from as int, i as int));
    }
    r
}

// ---------------------------------------------------------------------
// Whitespace and trimming
// ---------------------------------------------------------------------

/// The Unicode `White_Space` property, which `char::is_whitespace` tests.
pub open spec fn is_space(c: char) -> bool {
    let u = c as u32;
    (0x09 <= u <= 0x0d) || u == 0x20 || u == 0x85 || u == 0xa0 || u == 0x1680
        || (0x2000 <= u <= 0x200a) || u == 0x2028 || u == 0x2029 || u == 0x202f
        || u == 0x205f || u == 0x3000
}

/// Whether `c` is Unicode white space.
pub fn char_is_space(c: char) -> (b: bool)
    ensures
        b == is_space(c),
{
    let u = c as u32;
    (0x09 <= u && u <= 0x0d) || u == 0x20 || u == 0x85 || u == 0xa0 || u == 0x1680
        || (0x2000 <= u && u <= 0x200a) || u == 0x2028 || u == 0x2029 || u == 0x202f
        || u == 0x205f || u == 0x3000
}

/// `s` without its leading white space (`str::trim_start`).
pub open spec fn trim_start(s: Seq<char>) -> Seq<char>
    decreases s.len(),
{
    if s.len() > 0 && is_space(s[0]) {
        trim_start(s.drop_first())
    } else {
        s
    }
}

/// `s` without its trailing white space (`str::trim_end`).
pub open spec fn trim_end(s: Seq<char>) -> Seq<char>
    decreases s.len(),
{
    if s.len() > 0 && is_space(s.last()) {
        trim_end(s.drop_last())
    } else {
        s
    }
}

/// `s` without leading and trailing white space (`str::trim`).
pub open spec fn trim(s: Seq<char>) -> Seq<char> {
    trim_end(trim_start(s))
}

proof fn lemma_trim_start_skip(s: Seq<char>, i: int)
    requires
        0 <= i <= s.len(),
        forall|k: int| 0 <= k < i ==> is_space(#[trigger] s[k]),
    ensures
        trim_start(s) == trim_start(s.subrange(i, s.len() as int)),
    decreases i,
{
    if i > 0 {
        assert(is_space(s[0]));
        assert(s.drop_first() == s.subrange(1, s.len() as int));
        let t = s.drop_first();
        assert forall|k: int| 0 <= k < i - 1 implies is_space(#[trigger] t[k]) by {
            assert(t[k] == s[k + 1]);
        }
        lemma_trim_start_skip(t, i - 1);
        assert(t.subrange(i - 1, t.len() as int) == s.subrange(i, s.len() as int));
    } else {
        assert(s.subrange(0, s.len() as int) == s);
    }
}

proof fn lemma_trim_end_cut(s: Seq<char>, j: int)
    requires
        0 <= j <= s.len(),
        forall|k: int| j <= k < s.len() ==> is_space(#[trigger] s[k]),
    ensures
        trim_end(s) == trim_end(s.subrange(0, j)),
    decreases s.len() - j,
{
    if j < s.len() {
        assert(is_space(s[s.len() - 1]));
        let t = s.drop_last();
        assert forall|k: int| j <= k < t.len() implies is_space(#[trigger] t[k]) by {
            assert(t[k] == s[k]);
        }
        lemma_trim_end_cut(t, j);
        assert(t.subrange(0, j) == s.subrange(0, j));
    } else {
        assert(s.subrange(0, j) == s);
    }
}

/// `v` without leading and trailing white space.
pub fn trim_chars(v: &Vec<char>) -> (r: Vec<char>)
    ensures
        r@ == trim(v@),
{
    let n = v.len();
    let mut i: usize = 0;
    while i < n && char_is_space(v[i])
        invariant
            i <= n == v.len(),
            forall|k: int| 0 <= k < i ==> is_space(#[trigger] v@[k]),
        decreases n - i,
    {
        i = i + 1;
    }
    proof {
        lemma_trim_start_skip(v@, i as int);
    }
    let ghost rest = v@.subrange(i as int, n as int);
    assert(trim_start(v@) == rest) by {
        if rest.len() > 0 {
            assert(rest[0] == v@[i as int]);
        }
    }
    let mut j: usize = n;
    while j > i && char_is_space(v[j - 1])
        invariant
            i <= j <= n == v.len(),
            forall|k: int| j <= k < n ==> is_space(#[trigger] v@[k]),
        decreases j,
    {
        j = j - 1;
    }
    proof {
        lemma_trim_end_cut(rest, j - i);
        let cut = rest.subrange(0, j - i);
        assert(cut == v@.subrange(i as int, j as int));
        if cut.len() > 0 {
            assert(cut.last() == v@[j - 1]);
        }
    }
    slice_chars(v, i, j)
}

/// `v` without leading white space.
pub fn trim_start_chars(v: &Vec<char>) -> (r: Vec<char>)
    ensures
        r@ == trim_start(v@),
{
    let n = v.len();
    let mut i: usize = 0;
    while i < n && char_is_space(v[i])
        invariant
            i <= n == v.len(),
            forall|k: int| 0 <= k < i ==> is_space(#[trigger] v@[k]),
        decreases n - i,
    {
        i = i + 1;
    }
    proof {
        lemma_trim_start_skip(v@, i as int);
        let rest = v@.subrange(i as int, n as int);
        if rest.len() > 0 {
            assert(rest[0] == v@[i as int]);
        }
    }
    slice_chars(v, i, n)
}

// ---------------------------------------------------------------------
// Prefixes and substrings
// ---------------------------------------------------------------------

/// `s` begins with `p`.
pub open spec fn has_prefix(s: Seq<char>, p: Seq<char>) -> bool {
    p.len() <= s.len() && s.subrange(0, p.len() as int) == p
}

/// `n` occurs in `h` at index `i`.
pub open spec fn occurs_at(h: Seq<char>, n: Seq<char>, i: int) -> bool {
    0 <= i && i + n.len() <= h.len() && h.subrange(i, i + n.len()) == n
}

/// `n` occurs somewhere in `h` (`str::contains`).
pub open spec fn contains_text(h: Seq<char>, n: Seq<char>) -> bool {
    exists|i: int| occurs_at(h, n, i)
}

/// Whether `v` begins with `p`.
pub fn starts_with_chars(v: &Vec<char>, p: &Vec<char>) -> (b: bool)
    ensures
        b == has_prefix(v@, p@),
{
    if p.len() > v.len() {
        return false;
    }
    let mut k: usize = 0;
    while k < p.len()
        invariant
            p.len() <= v.len(),
            k <= p.len(),
            forall|m: int| 0 <= m < k ==> v@[m] == p@[m],
        decreases p.len() - k,
    {
        if v[k] != p[k] {
            assert(v@.subrange(0, p.len() as int)[k as int] != p@[k as int]);
            return false;
        }
        k = k + 1;
    }
    assert(v@.subrange(0, p.len() as int) =~= p@);
    true
}

/// Whether `n` occurs in `h` at index `i`.
fn occurs_at_exec(h: &Vec<char>, n: &Vec<char>, i: usize) -> (b: bool)
    requires
        i + n.len() <= h.len(),
    ensures
        b == occurs_at(h@, n@, i as int),
{
    let mut k: usize = 0;
    while k < n.len()
        invariant
            i + n.len() <= h.len(),
            k <= n.len(),
            forall|m: int| 0 <= m < k ==> h@[i + m] == n@[m],
        decreases n.len() - k,
    {
        if h[i + k] != n[k] {
            assert(h@.subrange(i as int, i + n.len())[k as int] != n@[k as int]);
            return false;
        }
        k = k + 1;
    }
    assert(h@.subrange(i as int, i + n.len()) =~= n@);
    true
}

/// Whether `n` occurs in `h`.
pub fn contains_chars(h: &Vec<char>, n: &Vec<char>) -> (b: bool)
    ensures
        b == contains_text(h@, n@),
{
    if n.len() > h.len() {
        assert forall|i: int| !occurs_at(h@, n@, i) by {}
        return false;
    }
    let last = h.len() - n.len();
    let mut i: usize = 0;
    while i <= last
        invariant
            last + n.len() == h.len(),
            forall|m: int| 0 <= m < i ==> !occurs_at(h@, n@, m),
        decreases last + 1 - i,
    {
        if occurs_at_exec(h, n, i) {
            return true;
        }
        if i == last {
            assert forall|m: int| !occurs_at(h@, n@, m) by {
                if 0 <= m && m + n.len() <= h.len() {
                    assert(m <= i);
                }
            }
            return false;
        }
        i = i + 1;
    }
    false
}

// ---------------------------------------------------------------------
// Lines
// ---------------------------------------------------------------------

/// The pieces of `s` between `'\n'` characters (`str::split('\n')`).
pub open spec fn split_pieces(s: Seq<char>) -> Seq<Seq<char>>
    decreases s.len(),
{
    if s.len() == 0 {
        seq![Seq::<char>::empty()]
    } else {
        let p = split_pieces(s.drop_last());
        if s.last() == '\n' {
            p.push(Seq::<char>::empty())
        } else {
            p.update(p.len() - 1, p.last().push(s.last()))
        }
    }
}

/// `l` without one trailing carriage return.
pub open spec fn strip_cr(l: Seq<char>) -> Seq<char> {
    if l.len() > 0 && l.last() == '\r' {
        l.drop_last()
    } else {
        l
    }
}

/// The lines of `s` as `str::lines` yields them: split at `'\n'`, a `'\r'`
/// before a `'\n'` dropped, and no empty line after a final `'\n'`.
pub open spec fn lines_of(s: Seq<char>) -> Seq<Seq<char>> {
    let p = split_pieces(s);
    let done = p.drop_last().map_values(|l: Seq<char>| strip_cr(l));
    if p.last().len() == 0 {
        done
    } else {
        done.push(p.last())
    }
}

/// The character views of a sequence of strings.
pub open spec fn views(v: Seq<String>) -> Seq<Seq<char>> {
    v.map_values(|x: String| x@)
}

proof fn lemma_split_pieces_nonempty(s: Seq<char>)
    ensures
        split_pieces(s).len() >= 1,
    decreases s.len(),
{
    if s.len() > 0 {
        lemma_split_pieces_nonempty(s.drop_last());
    }
}

/// `v` without one trailing carriage return.
fn strip_cr_chars(v: Vec<char>) -> (r: Vec<char>)
    ensures
        r@ == strip_cr(v@),
{
    let mut v = v;
    if v.len() > 0 && v[v.len() - 1] == '\r' {
        v.pop();
    }
    v
}

/// The lines of a text, as `str::lines` yields them.
pub fn lines(s: &str) -> (r: Vec<String>)
    ensures
        views(r@) == lines_of(s@),
{
    let v = chars_of(s);
    let mut done: Vec<String> = Vec::new();
    let mut cur: Vec<char> = Vec::new();
    let mut i: usize = 0;
    proof {
        assert(v@.take(0) == Seq::<char>::empty());
    }
    while i < v.len()
        invariant
            i <= v.len(),
            v@ == s@,
            ({
                let p = split_pieces(v@.take(i as int));
                &&& views(done@) == p.drop_last().map_values(|l: Seq<char>| strip_cr(l))
                &&& cur@ == p.last()
            }),
        decreases v.len() - i,
    {
        let c = v[i];
        let ghost pre = v@.take(i as int);
        let ghost p = split_pieces(pre);
        proof {
            lemma_split_pieces_nonempty(pre);
            assert(v@.take(i + 1).drop_last() == pre);
            assert(v@.take(i + 1).last() == c);
        }
        if c == '\n' {
            let ghost old_views = views(done@);
            let piece = strip_cr_chars(cur);
            done.push(string_of(&piece));
            cur = Vec::new();
            proof {
                let q = split_pieces(v@.take(i + 1));
                assert(q == p.push(Seq::<char>::empty()));
                assert(q.drop_last() == p);
                assert(views(done@) =~= old_views.push(strip_cr(p.last())));
                assert(p.map_values(|l: Seq<char>| strip_cr(l)) =~= p.drop_last().map_values(
                    |l: Seq<char>| strip_cr(l),
                ).push(strip_cr(p.last())));
            }
        } else {
            cur.push(c);
            proof {
                let q = split_pieces(v@.take(i + 1));
                assert(q == p.update(p.len() - 1, p.last().push(c)));
                assert(q.drop_last() =~= p.drop_last());
            }
        }
        i = i + 1;
    }
    proof {
        assert(v@.take(v.len() as int) == v@);
        lemma_split_pieces_nonempty(v@);
    }
    if cur.len() > 0 {
        done.push(string_of(&cur));
        proof {
            let p = split_pieces(v@);
            assert(views(done@) =~= p.drop_last().map_values(|l: Seq<char>| strip_cr(l)).push(p.last()));
        }
    }
    done
}

/// The concatenation of `parts` with `sep` between neighbours (`join`).
pub open spec fn join(parts: Seq<Seq<char>>, sep: Seq<char>) -> Seq<char>
    decreases parts.len(),
{
    if parts.len() == 0 {
        Seq::<char>::empty()
    } else if parts.len() == 1 {
        parts[0]
    } else {
        join(parts.drop_last(), sep) + sep + parts.last()
    }
}

/// Joins `parts` with `sep` between neighbours.
pub fn join_strings(parts: &Vec<String>, sep: &str) -> (r: String)
    ensures
        r@ == join(views(parts@), sep@),
{
    let mut r = String::new();
    let mut i: usize = 0;
    while i < parts.len()
        invariant
            i <= parts.len(),
            r@ == join(views(parts@).take(i as int), sep@),
        decreases parts.len() - i,
    {
        let ghost before = views(parts@).take(i as int);
        if i > 0 {
            r.append(sep);
        }
        r.append(parts[i].as_str());
        proof {
            let after = views(parts@).take(i + 1);
            assert(after.drop_last() == before);
            assert(after.last() == parts@[i as int]@);
            if i == 0 {
                assert(after.len() == 1);
            }
        }
        i = i + 1;
    }
    assert(views(parts@).take(parts.len() as int) == views(parts@));
    r
}

// ---------------------------------------------------------------------
// Decimal rendering
// ---------------------------------------------------------------------

/// The decimal digit character for `d` (`0 <= d < 10`).
pub open spec fn digit_char(d: nat) -> char {
    if d == 0 { '0' } else if d == 1 { '1' } else if d == 2 { '2' } else if d == 3 { '3' }
    else if d == 4 { '4' } else if d == 5 { '5' } else if d == 6 { '6' } else if d == 7 { '7' }
    else if d == 8 { '8' } else { '9' }
}

/// The decimal rendering of `n`, as `{}` formats an unsigned integer.
pub open spec fn decimal(n: nat) -> Seq<char>
    decreases n,
{
    if n < 10 {
        seq![digit_char(n)]
    } else {
        decimal(n / 10).push(digit_char(n % 10))
    }
}

/// The decimal rendering of a signed integer, as `{}` formats it.
pub open spec fn signed_decimal(n: int) -> Seq<char> {
    if n < 0 {
        seq!['-'] + decimal((-n) as nat)
    } else {
        decimal(n as nat)
    }
}

fn digit(d: u64) -> (c: char)
    requires
        d < 10,
    ensures
        c == digit_char(d as nat),
{
    if d == 0 { '0' } else if d == 1 { '1' } else if d == 2 { '2' } else if d == 3 { '3' }
    else if d == 4 { '4' } else if d == 5 { '5' } else if d == 6 { '6' } else if d == 7 { '7' }
    else if d == 8 { '8' } else { '9' }
}

/// Appends the decimal rendering of `n` to `s`.
pub fn push_decimal(s: &mut String, n: u64)
    ensures
        final(s)@ == old(s)@ + decimal(n as nat),
    decreases n,
{
    if n >= 10 {
        push_decimal(s, n / 10);
    }
    s.push(digit(n % 10));
    proof {
        if n < 10 {
            assert(n % 10 == n);
        }
    }
}

/// Appends the decimal rendering of a signed `n` to `s`.
pub fn push_signed_decimal(s: &mut String, n: i64)
    ensures
        final(s)@ == old(s)@ + signed_decimal(n as int),
{
    if n < 0 {
        s.push('-');
        let m: u64 = if n == i64::MIN {
            9223372036854775808u64
        } else {
            (-n) as u64
        };
        push_decimal(s, m);
    } else {
        push_decimal(s, n as u64);
    }
}

// ---------------------------------------------------------------------
// UTF-8 widths
// ---------------------------------------------------------------------

/// How many bytes UTF-8 spends on `c`.
pub open spec fn utf8_width(c: char) -> nat {
    let u = c as u32;
    if u < 0x80 { 1 } else if u < 0x800 { 2 } else if u < 0x10000 { 3 } else { 4 }
}

/// The UTF-8 byte length of `s` (what `str::len` returns).
pub open spec fn byte_len(s: Seq<char>) -> nat
    decreases s.len(),
{
    if s.len() == 0 {
        0
    } else {
        byte_len(s.drop_last()) + utf8_width(s.last())
    }
}

/// How many bytes UTF-8 spends on `c`.
pub fn char_width(c: char) -> (w: usize)
    ensures
        w == utf8_width(c),
{
    let u = c as u32;
    if u < 0x80 { 1 } else if u < 0x800 { 2 } else if u < 0x10000 { 3 } else { 4 }
}

// ---------------------------------------------------------------------
// Ordering of texts
// ---------------------------------------------------------------------

/// `a` sorts strictly before `b` as `str` values do: lexicographically by
/// character (UTF-8 byte order agrees with code-point order).
pub open spec fn text_less(a: Seq<char>, b: Seq<char>) -> bool
    decreases a.len(),
{
    if b.len() == 0 {
        false
    } else if a.len() == 0 {
        true
    } else if (a[0] as u32) < (b[0] as u32) {
        true
    } else if (a[0] as u32) > (b[0] as u32) {
        false
    } else {
        text_less(a.drop_first(), b.drop_first())
    }
}

/// `text_less` is a strict total order.
pub proof fn lemma_text_less_order(a: Seq<char>, b: Seq<char>, c: Seq<char>)
    ensures
        !text_less(a, a),
        text_less(a, b) ==> !text_less(b, a),
        a != b ==> text_less(a, b) || text_less(b, a),
        text_less(a, b) && text_less(b, c) ==> text_less(a, c),
    decreases a.len(),
{
    if a.len() > 0 {
        lemma_text_less_order(a.drop_first(), a.drop_first(), a.drop_first());
        if b.len() > 0 {
            lemma_text_less_order(a.drop_first(), b.drop_first(), b.drop_first());
            if c.len() > 0 {
                lemma_text_less_order(a.drop_first(), b.drop_first(), c.drop_first());
            }
            if a != b && (a[0] as u32) == (b[0] as u32) {
                vstd::utf8::char_u32_cast(a[0], a[0] as u32);
                vstd::utf8::char_u32_cast(b[0], b[0] as u32);
                assert(a[0] == b[0]);
                if a.drop_first() == b.drop_first() {
                    assert(a.len() == b.len());
                    assert forall|k: int| 0 <= k < a.len() implies a[k] == b[k] by {
                        if k > 0 {
                            assert(a[k] == a.drop_first()[k - 1]);
                            assert(b[k] == b.drop_first()[k - 1]);
                        }
                    }
                    assert(a =~= b);
                }
            }
        }
    } else if b.len() == 0 {
        assert(a =~= b);
    }
}

/// Whether `a` sorts strictly before `b`.
pub fn chars_less(a: &Vec<char>, b: &Vec<char>) -> (r: bool)
    ensures
        r == text_less(a@, b@),
{
    let mut i: usize = 0;
    assert(a@.subrange(0, a.len() as int) == a@);
    assert(b@.subrange(0, b.len() as int) == b@);
    while i < a.len() && i < b.len() && (a[i] as u32) == (b[i] as u32)
        invariant
            i <= a.len(),
            i <= b.len(),
            text_less(a@, b@) == text_less(a@.subrange(i as int, a.len() as int), b@.subrange(i as int, b.len() as int)),
        decreases a.len() - i,
    {
        proof {
            let sa = a@.subrange(i as int, a.len() as int);
            let sb = b@.subrange(i as int, b.len() as int);
            assert(sa[0] == a@[i as int]);
            assert(sb[0] == b@[i as int]);
            assert(sa.drop_first() =~= a@.subrange(i + 1, a.len() as int));
            assert(sb.drop_first() =~= b@.subrange(i + 1, b.len() as int));
        }
        i = i + 1;
    }
    proof {
        let sa = a@.subrange(i as int, a.len() as int);
        let sb = b@.subrange(i as int, b.len() as int);
        if i < a.len() {
            assert(sa[0] == a@[i as int]);
        }
        if i < b.len() {
            assert(sb[0] == b@[i as int]);
        }
    }
    if i == b.len() {
        false
    } else if i == a.len() {
        true
    } else {
        (a[i] as u32) < (b[i] as u32)
    }
}

/// Whether `a` and `b` hold the same characters.
pub fn same_text(a: &str, b: &str) -> (r: bool)
    ensures
        r == (a@ == b@),
{
    let x = chars_of(a);
    let y = chars_of(b);
    if x.len() != y.len() {
        return false;
    }
    let mut i: usize = 0;
    while i < x.len()
        invariant
            x@ == a@,
            y@ == b@,
            x.len() == y.len(),
            i <= x.len(),
            forall|k: int| 0 <= k < i ==> x@[k] == y@[k],
        decreases x.len() - i,
    {
        if x[i] != y[i] {
            return false;
        }
        i = i + 1;
    }
    assert(x@ =~= y@);
    true
}

/// The index of the first `c` in `s` (meaningful when `s` holds a `c`).
pub open spec fn first_index_of(s: Seq<char>, c: char) -> int {
    choose|p: int| 0 <= p < s.len() && s[p] == c && forall|q: int| 0 <= q < p ==> s[q] != c
}

/// The index of the first `c` in `v`, if any.
pub fn find_char(v: &Vec<char>, c: char) -> (r: Option<usize>)
    ensures
        r is None <==> !v@.contains(c),
        r matches Some(p) ==> p == first_index_of(v@, c) && p < v.len() && v@[p as int] == c,
{
    let mut i: usize = 0;
    while i < v.len()
        invariant
            i <= v.len(),
            forall|q: int| 0 <= q < i ==> v@[q] != c,
        decreases v.len() - i,
    {
        if v[i] == c {
            proof {
                let p = first_index_of(v@, c);
                assert(0 <= i < v@.len() && v@[i as int] == c && forall|q: int| 0 <= q < i ==> v@[q] != c);
                assert(0 <= p < v@.len() && v@[p] == c && forall|q: int| 0 <= q < p ==> v@[q] != c);
                if p < i {
                } else if p > i {
                    assert(v@[i as int] != c);
                }
            }
            return Some(i);
        }
        i = i + 1;
    }
    assert(!v@.contains(c));
    None
}

// ---------------------------------------------------------------------
// Lines mentioning keywords
// ---------------------------------------------------------------------

/// The texts of a vector of character vectors.
pub open spec fn char_views(v: Seq<Vec<char>>) -> Seq<Seq<char>> {
    v.map_values(|x: Vec<char>| x@)
}

/// `lowered` contains one of `kws`.
pub open spec fn mentions_any(lowered: Seq<char>, kws: Seq<Seq<char>>) -> bool {
    exists|k: int| 0 <= k < kws.len() && contains_text(lowered, kws[k])
}

/// The lines of `ls` whose lowercase form contains one of `kws`, in order.
pub open spec fn keyword_lines(ls: Seq<Seq<char>>, kws: Seq<Seq<char>>) -> Seq<Seq<char>>
    decreases ls.len(),
{
    if ls.len() == 0 {
        Seq::empty()
    } else {
        let rest = keyword_lines(ls.drop_last(), kws);
        if mentions_any(lowered_text(ls.last()), kws) {
            rest.push(ls.last())
        } else {
            rest
        }
    }
}

/// At most the first `n` elements of `s`.
pub open spec fn at_most<A>(s: Seq<A>, n: nat) -> Seq<A> {
    if s.len() <= n { s } else { s.take(n as int) }
}

/// Selecting from a shorter prefix of lines gives a prefix of the selection.
pub proof fn lemma_keyword_lines_prefix(ls: Seq<Seq<char>>, kws: Seq<Seq<char>>, i: int, j: int)
    requires
        0 <= i <= j <= ls.len(),
    ensures
        keyword_lines(ls.take(i), kws).len() <= keyword_lines(ls.take(j), kws).len(),
        keyword_lines(ls.take(i), kws) == keyword_lines(ls.take(j), kws).take(
            keyword_lines(ls.take(i), kws).len() as int,
        ),
    decreases j - i,
{
    if i < j {
        lemma_keyword_lines_prefix(ls, kws, i, j - 1);
        assert(ls.take(j).drop_last() == ls.take(j - 1));
        let a = keyword_lines(ls.take(i), kws);
        let b = keyword_lines(ls.take(j - 1), kws);
        let c = keyword_lines(ls.take(j), kws);
        assert(c.take(a.len() as int) =~= b.take(a.len() as int));
    } else {
        let a = keyword_lines(ls.take(i), kws);
        assert(a.take(a.len() as int) =~= a);
    }
}

/// Whether the lowercase line `lowered` contains one of `kws`.
pub fn mentions_any_exec(lowered: &Vec<char>, kws: &Vec<Vec<char>>) -> (b: bool)
    ensures
        b == mentions_any(lowered@, char_views(kws@)),
{
    let mut k: usize = 0;
    while k < kws.len()
        invariant
            k <= kws.len(),
            forall|m: int| 0 <= m < k ==> !contains_text(lowered@, char_views(kws@)[m]),
        decreases kws.len() - k,
    {
        if contains_chars(lowered, &kws[k]) {
            assert(contains_text(lowered@, char_views(kws@)[k as int]));
            return true;
        }
        k = k + 1;
    }
    false
}

/// The first `limit` lines of `content` whose lowercase form contains one of
/// `kws`.
pub fn select_keyword_lines(content: &str, kws: &Vec<Vec<char>>, limit: usize) -> (r: Vec<String>)
    ensures
        views(r@) == at_most(keyword_lines(lines_of(content@), char_views(kws@)), limit as nat),
{
    let ls = lines(content);
    let ghost all = views(ls@);
    let ghost ks = char_views(kws@);
    let mut r: Vec<String> = Vec::new();
    let mut i: usize = 0;
    assert(all.take(0) =~= Seq::<Seq<char>>::empty());
    while i < ls.len() && r.len() < limit
        invariant
            i <= ls.len(),
            all == views(ls@),
            all == lines_of(content@),
            ks == char_views(kws@),
            r.len() <= limit,
            views(r@) == keyword_lines(all.take(i as int), ks),
        decreases ls.len() - i,
    {
        let lowered = to_lowercase(ls[i].as_str());
        let lc = chars_of(lowered.as_str());
        proof {
            assert(all.take(i + 1).drop_last() == all.take(i as int));
            assert(all.take(i + 1).last() == ls@[i as int]@);
        }
        if mentions_any_exec(&lc, kws) {
            let ghost before = views(r@);
            r.push(ls[i].clone());
            assert(views(r@) =~= before.push(ls@[i as int]@));
        }
        i = i + 1;
    }
    proof {
        let sel = keyword_lines(all, ks);
        assert(all.take(all.len() as int) == all);
        lemma_keyword_lines_prefix(all, ks, i as int, all.len() as int);
        if i == ls.len() {
            assert(all.take(i as int) == all);
        } else {
            assert(r.len() == limit);
        }
    }
    r
}

/// The byte length of a concatenation is the sum of the byte lengths.
pub proof fn lemma_byte_len_concat(a: Seq<char>, b: Seq<char>)
    ensures
        byte_len(a + b) == byte_len(a) + byte_len(b),
    decreases b.len(),
{
    if b.len() > 0 {
        lemma_byte_len_concat(a, b.drop_last());
        assert((a + b).drop_last() =~= a + b.drop_last());
        assert((a + b).last() == b.last());
    } else {
        assert(a + b =~= a);
    }
}

/// Prefixes are never longer in bytes.
pub proof fn lemma_byte_len_prefix(s: Seq<char>, i: int)
    requires
        0 <= i <= s.len(),
    ensures
        byte_len(s.take(i)) <= byte_len(s),
        i < s.len() ==> byte_len(s.take(i + 1)) == byte_len(s.take(i)) + utf8_width(s[i]),
{
    lemma_byte_len_concat(s.take(i), s.skip(i));
    assert(s.take(i) + s.skip(i) =~= s);
    if i < s.len() {
        assert(s.take(i + 1).drop_last() =~= s.take(i));
    }
}

/// `byte_len(v)`, or `cap + 1` when that is larger than `cap`.
pub fn byte_len_upto(v: &Vec<char>, cap: usize) -> (n: usize)
    requires
        cap < usize::MAX - 4,
    ensures
        n == if byte_len(v@) <= cap { byte_len(v@) } else { (cap + 1) as nat },
{
    let mut acc: usize = 0;
    let mut i: usize = 0;
    while i < v.len()
        invariant
            i <= v.len(),
            cap < usize::MAX - 4,
            acc <= cap,
            acc == byte_len(v@.take(i as int)),
        decreases v.len() - i,
    {
        proof {
            lemma_byte_len_prefix(v@, i as int);
        }
        acc = acc + char_width(v[i]);
        i = i + 1;
        if acc > cap {
            proof {
                lemma_byte_len_prefix(v@, i as int);
            }
            return cap + 1;
        }
    }
    assert(v@.take(v.len() as int) == v@);
    acc
}

/// Byte offset `n` falls between two characters of `s` (or at its end).
pub open spec fn is_boundary(s: Seq<char>, n: nat) -> bool {
    exists|k: int| 0 <= k <= s.len() && byte_len(s.take(k)) == n
}

/// The characters of `s` before byte offset `n` (meaningful at a boundary).
pub open spec fn bytes_prefix(s: Seq<char>, n: nat) -> Seq<char> {
    s.take(choose|k: int| 0 <= k <= s.len() && byte_len(s.take(k)) == n)
}

proof fn lemma_byte_len_strictly_increasing(s: Seq<char>, a: int, b: int)
    requires
        0 <= a < b <= s.len(),
    ensures
        byte_len(s.take(a)) < byte_len(s.take(b)),
    decreases b - a,
{
    lemma_byte_len_prefix(s, b - 1);
    if a < b - 1 {
        lemma_byte_len_strictly_increasing(s, a, b - 1);
    }
}

/// The number of characters of `v` that fill exactly `n` bytes, if `n` is a
/// character boundary.
pub fn boundary_chars(v: &Vec<char>, n: usize) -> (r: Option<usize>)
    ensures
        r is Some <==> is_boundary(v@, n as nat),
        r matches Some(k) ==> k <= v.len() && v@.take(k as int) == bytes_prefix(v@, n as nat),
{
    let mut acc: usize = 0;
    let mut i: usize = 0;
    while i < v.len() && acc < n
        invariant
            i <= v.len(),
            acc <= n,
            acc == byte_len(v@.take(i as int)),
            forall|k: int| 0 <= k < i ==> byte_len(v@.take(k)) < n,
        decreases v.len() - i,
    {
        proof {
            lemma_byte_len_prefix(v@, i as int);
        }
        let w = char_width(v[i]);
        if w > n - acc {
            proof {
                assert forall|k: int| 0 <= k <= v@.len() implies byte_len(v@.take(k)) != n by {
                    if k > i + 1 {
                        lemma_byte_len_strictly_increasing(v@, i + 1, k);
                    }
                }
            }
            return None;
        }
        acc = acc + w;
        i = i + 1;
    }
    if acc == n {
        proof {
            let c = choose|k: int| 0 <= k <= v@.len() && byte_len(v@.take(k)) == n;
            if c < i {
                lemma_byte_len_strictly_increasing(v@, c, i as int);
            } else if c > i {
                lemma_byte_len_strictly_increasing(v@, i as int, c);
            }
        }
        Some(i)
    } else {
        proof {
            assert(i == v.len());
            assert(v@.take(i as int) == v@);
            assert forall|k: int| 0 <= k <= v@.len() implies byte_len(v@.take(k)) != n by {
                if k < i {
                    lemma_byte_len_strictly_increasing(v@, k, i as int);
                }
            }
        }
        None
    }
}

proof fn lemma_trim_start_shape(s: Seq<char>)
    ensures
        exists|k: int| 0 <= k <= s.len() && trim_start(s) == s.subrange(k, s.len() as int),
        trim_start(s).len() == 0 || !is_space(trim_start(s)[0]),
    decreases s.len(),
{
    if s.len() > 0 && is_space(s[0]) {
        lemma_trim_start_shape(s.drop_first());
        let k = choose|k: int| 0 <= k <= s.drop_first().len() && trim_start(s.drop_first()) == s.drop_first().subrange(k, s.drop_first().len() as int);
        assert(s.drop_first().subrange(k, s.drop_first().len() as int) =~= s.subrange(k + 1, s.len() as int));
    } else {
        assert(s.subrange(0, s.len() as int) =~= s);
    }
}

proof fn lemma_trim_end_shape(s: Seq<char>)
    ensures
        exists|j: int| 0 <= j <= s.len() && trim_end(s) == s.subrange(0, j),
        trim_end(s).len() == 0 || !is_space(trim_end(s).last()),
    decreases s.len(),
{
    if s.len() > 0 && is_space(s.last()) {
        lemma_trim_end_shape(s.drop_last());
        let j = choose|j: int| 0 <= j <= s.drop_last().len() && trim_end(s.drop_last()) == s.drop_last().subrange(0, j);
        assert(s.drop_last().subrange(0, j) =~= s.subrange(0, j));
    } else {
        assert(s.subrange(0, s.len() as int) =~= s);
    }
}

/// A trimmed text has no white space at either end, so trimming it again
/// changes nothing.
pub proof fn lemma_trim_idempotent(s: Seq<char>)
    ensures
        trim(trim(s)) == trim(s),
        trim(s).len() == 0 || (!is_space(trim(s)[0]) && !is_space(trim(s).last())),
{
    let t = trim_start(s);
    lemma_trim_start_shape(s);
    lemma_trim_end_shape(t);
    let u = trim_end(t);
    let j = choose|j: int| 0 <= j <= t.len() && u == t.subrange(0, j);
    if u.len() > 0 {
        assert(u[0] == t[0]);
        assert(trim_start(u) == u);
        assert(trim_end(u) == u);
    } else {
        assert(trim_start(u) == u);
        assert(trim_end(u) == u);
    }
}

/// `s` has no newline.
pub open spec fn no_newline(s: Seq<char>) -> bool {
    forall|i: int| 0 <= i < s.len() ==> s[i] != '\n'
}

proof fn lemma_split_pieces_single(t: Seq<char>)
    requires
        no_newline(t),
    ensures
        split_pieces(t) == seq![t],
    decreases t.len(),
{
    if t.len() > 0 {
        let u = t.drop_last();
        assert(no_newline(u)) by {
            assert forall|i: int| 0 <= i < u.len() implies u[i] != '\n' by {
                assert(u[i] == t[i]);
            }
        }
        lemma_split_pieces_single(u);
        assert(t.last() != '\n') by {
            assert(t[t.len() - 1] != '\n');
        }
        assert(u.push(t.last()) =~= t);
        assert(split_pieces(t) =~= seq![t]);
    } else {
        assert(t =~= Seq::<char>::empty());
    }
}

proof fn lemma_split_pieces_after_newline(s: Seq<char>, t: Seq<char>)
    requires
        no_newline(t),
    ensures
        split_pieces(s + seq!['\n'] + t) == split_pieces(s).push(t),
    decreases t.len(),
{
    if t.len() == 0 {
        assert(s + seq!['\n'] + t =~= s.push('\n'));
        assert((s.push('\n')).drop_last() =~= s);
        assert(t =~= Seq::<char>::empty());
    } else {
        let u = t.drop_last();
        assert(no_newline(u)) by {
            assert forall|i: int| 0 <= i < u.len() implies u[i] != '\n' by {
                assert(u[i] == t[i]);
            }
        }
        lemma_split_pieces_after_newline(s, u);
        let whole = s + seq!['\n'] + t;
        assert(whole.drop_last() =~= s + seq!['\n'] + u);
        assert(whole.last() == t.last());
        lemma_split_pieces_nonempty(s);
        assert(t.last() != '\n') by {
            assert(t[t.len() - 1] != '\n');
        }
        assert(u.push(t.last()) =~= t);
        let p = split_pieces(s).push(u);
        assert(split_pieces(whole) == p.update(p.len() - 1, p.last().push(whole.last())));
        assert(split_pieces(whole) =~= split_pieces(s).push(t));
    }
}

/// Splitting a newline-joined list of newline-free pieces gives the pieces.
pub proof fn lemma_split_joined(cs: Seq<Seq<char>>)
    requires
        cs.len() > 0,
        forall|i: int| 0 <= i < cs.len() ==> no_newline(#[trigger] cs[i]),
    ensures
        split_pieces(join(cs, "\n"@)) == cs,
    decreases cs.len(),
{
    reveal_strlit("\n");
    assert("\n"@ =~= seq!['\n']);
    if cs.len() == 1 {
        lemma_split_pieces_single(cs[0]);
        assert(cs =~= seq![cs[0]]);
    } else {
        let init = cs.drop_last();
        assert forall|i: int| 0 <= i < init.len() implies no_newline(#[trigger] init[i]) by {
            assert(init[i] == cs[i]);
        }
        lemma_split_joined(init);
        assert(no_newline(cs[cs.len() - 1]));
        lemma_split_pieces_after_newline(join(init, "\n"@), cs.last());
        assert(cs =~= init.push(cs.last()));
    }
}

/// The lines of newline-joined pieces are the pieces, when none holds a
/// newline or ends with a carriage return and the last is not empty.
pub proof fn lemma_lines_of_joined(cs: Seq<Seq<char>>)
    requires
        forall|i: int| 0 <= i < cs.len() ==> no_newline(#[trigger] cs[i]),
        forall|i: int| 0 <= i < cs.len() ==> strip_cr(#[trigger] cs[i]) == cs[i],
        cs.len() > 0 ==> cs.last().len() > 0,
    ensures
        lines_of(join(cs, "\n"@)) == cs,
{
    if cs.len() == 0 {
        assert(split_pieces(Seq::<char>::empty()) =~= seq![Seq::<char>::empty()]);
        assert(lines_of(join(cs, "\n"@)) =~= cs);
    } else {
        lemma_split_joined(cs);
        let done = cs.drop_last().map_values(|l: Seq<char>| strip_cr(l));
        assert(done =~= cs.drop_last()) by {
            assert forall|i: int| 0 <= i < done.len() implies done[i] == cs.drop_last()[i] by {
                assert(cs.drop_last()[i] == cs[i]);
            }
        }
        assert(cs.drop_last().push(cs.last()) =~= cs);
    }
}

/// No line holds a newline.
pub proof fn lemma_lines_have_no_newline(s: Seq<char>)
    ensures
        forall|i: int| 0 <= i < lines_of(s).len() ==> no_newline(#[trigger] lines_of(s)[i]),
{
    lemma_pieces_have_no_newline(s);
    lemma_split_pieces_nonempty(s);
    let p = split_pieces(s);
    assert forall|i: int| 0 <= i < lines_of(s).len() implies no_newline(#[trigger] lines_of(s)[i]) by {
        if i < p.len() - 1 {
            let l = p[i];
            assert(lines_of(s)[i] == strip_cr(l));
            assert(no_newline(l));
            assert forall|k: int| 0 <= k < strip_cr(l).len() implies strip_cr(l)[k] != '\n' by {
                assert(strip_cr(l)[k] == l[k]);
            }
        } else {
            assert(lines_of(s)[i] == p.last());
        }
    }
}

proof fn lemma_pieces_have_no_newline(s: Seq<char>)
    ensures
        forall|i: int| 0 <= i < split_pieces(s).len() ==> no_newline(#[trigger] split_pieces(s)[i]),
    decreases s.len(),
{
    if s.len() > 0 {
        lemma_pieces_have_no_newline(s.drop_last());
        lemma_split_pieces_nonempty(s.drop_last());
        let p = split_pieces(s.drop_last());
        let q = split_pieces(s);
        assert forall|i: int| 0 <= i < q.len() implies no_newline(#[trigger] q[i]) by {
            if s.last() == '\n' {
                if i < p.len() {
                    assert(q[i] == p[i]);
                } else {
                    assert(q[i] =~= Seq::<char>::empty());
                }
            } else {
                if i < p.len() - 1 {
                    assert(q[i] == p[i]);
                } else {
                    let l = p.last().push(s.last());
                    assert(q[i] == l);
                    assert(no_newline(p[p.len() - 1]));
                    assert forall|k: int| 0 <= k < l.len() implies l[k] != '\n' by {
                        if k < l.len() - 1 {
                            assert(l[k] == p.last()[k]);
                        }
                    }
                }
            }
        }
    } else {
        assert(split_pieces(s) =~= seq![Seq::<char>::empty()]);
    }
}

/// `trim(s)` is a slice of `s`.
pub proof fn lemma_trim_slice(s: Seq<char>)
    ensures
        exists|a: int, b: int| 0 <= a <= b <= s.len() && trim(s) == s.subrange(a, b),
{
    lemma_trim_start_shape(s);
    let k = choose|k: int| 0 <= k <= s.len() && trim_start(s) == s.subrange(k, s.len() as int);
    let t = trim_start(s);
    lemma_trim_end_shape(t);
    let j = choose|j: int| 0 <= j <= t.len() && trim_end(t) == t.subrange(0, j);
    assert(t.subrange(0, j) =~= s.subrange(k, k + j));
}

} // verus!
