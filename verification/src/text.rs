//! The text buffer: a `ropey::Rope` seen as a sequence of chars, with the
//! line structure that ropey gives it.

use vstd::prelude::*;
use ropey::Rope;

verus! {

#[verifier::external_type_specification]
#[verifier::external_body]
pub struct ExRope(Rope);

/// The chars that a rope holds, in order.
pub uninterp spec fn rope_chars(r: Rope) -> Seq<char>;

/// The chars ropey treats as ending a line (Unicode Annex #14 hard breaks).
pub open spec fn is_line_break_char(c: char) -> bool {
    c == '\n' || c == '\u{0B}' || c == '\u{0C}' || c == '\r' || c == '\u{85}' || c == '\u{2028}'
        || c == '\u{2029}'
}

/// Position `i` of `s` ends a line break: a break char that is not the `\r`
/// of a `\r\n` pair.
pub open spec fn is_break_end(s: Seq<char>, i: int) -> bool {
    &&& 0 <= i < s.len()
    &&& is_line_break_char(s[i])
    &&& !(s[i] == '\r' && i + 1 < s.len() && s[i + 1] == '\n')
}

/// Number of line breaks that end strictly before position `c`.
pub open spec fn breaks_before(s: Seq<char>, c: int) -> nat
    decreases c,
{
    if c <= 0 {
        0
    } else {
        breaks_before(s, c - 1) + if is_break_end(s, c - 1) { 1nat } else { 0nat }
    }
}

/// Number of lines of `s`: one more than the number of line breaks.
pub open spec fn line_count(s: Seq<char>) -> nat {
    breaks_before(s, s.len() as int) + 1
}


/// Char index at which line `l` starts: 0 for the first line, just after the
/// `l`-th line break for the others, and the end of the text for `l` at or past
/// the line count.
pub open spec fn line_start(s: Seq<char>, l: int) -> int {
    if l <= 0 {
        0
    } else if l >= line_count(s) {
        s.len() as int
    } else {
        (choose|q: int| #![trigger breaks_before(s, q)] is_break_end(s, q) && breaks_before(s, q) == l - 1) + 1
    }
}

/// Number of chars of line `l`, its line break included.
pub open spec fn line_len(s: Seq<char>, l: int) -> int {
    line_start(s, l + 1) - line_start(s, l)
}

pub proof fn lemma_breaks_before_mono(s: Seq<char>, a: int, b: int)
    requires
        0 <= a <= b,
    ensures
        breaks_before(s, a) <= breaks_before(s, b) <= breaks_before(s, a) + (b - a),
    decreases b - a,
{
    if a < b {
        lemma_breaks_before_mono(s, a, b - 1);
    }
}

pub proof fn lemma_breaks_before_end(s: Seq<char>, c: int)
    requires
        c >= s.len(),
    ensures
        breaks_before(s, c) == breaks_before(s, s.len() as int),
    decreases c,
{
    if c > s.len() {
        lemma_breaks_before_end(s, c - 1);
    }
}

/// Below the number of breaks before `c` every break count is reached at a
/// break end before `c`.
pub proof fn lemma_break_exists(s: Seq<char>, c: int, t: int)
    requires
        0 <= t < breaks_before(s, c),
    ensures
        exists|q: int|
            #![trigger breaks_before(s, q)]
            q < c && is_break_end(s, q) && breaks_before(s, q) == t,
    decreases c,
{
    if c > 0 {
        if t < breaks_before(s, c - 1) {
            lemma_break_exists(s, c - 1, t);
        } else {
            assert(is_break_end(s, c - 1) && breaks_before(s, c - 1) == t);
        }
    }
}

/// Line `l` starts at the first position with `l` breaks before it.
pub proof fn lemma_line_start(s: Seq<char>, l: int)
    requires
        0 <= l < line_count(s),
    ensures
        0 <= line_start(s, l) <= s.len(),
        breaks_before(s, line_start(s, l)) == l,
        forall|x: int| 0 <= x < line_start(s, l) ==> breaks_before(s, x) < l,
        l > 0 ==> is_break_end(s, line_start(s, l) - 1),
{
    if l > 0 {
        lemma_break_exists(s, s.len() as int, l - 1);
        let q = choose|q: int|
            #![trigger breaks_before(s, q)]
            is_break_end(s, q) && breaks_before(s, q) == l - 1;
        assert(line_start(s, l) == q + 1);
        assert forall|x: int| 0 <= x < line_start(s, l) implies breaks_before(s, x) < l by {
            if x >= 0 {
                lemma_breaks_before_mono(s, x, q);
            }
        }
    }
}

/// Lines start in order: line `l + 1` starts no earlier than line `l`.
pub proof fn lemma_line_start_mono(s: Seq<char>, l: int)
    requires
        0 <= l < line_count(s),
    ensures
        line_start(s, l) <= line_start(s, l + 1) <= s.len(),
        l + 1 < line_count(s) ==> line_start(s, l) < line_start(s, l + 1),
{
    lemma_line_start(s, l);
    if l + 1 < line_count(s) {
        lemma_line_start(s, l + 1);
        let p = line_start(s, l + 1);
        if p <= line_start(s, l) {
            lemma_breaks_before_mono(s, p, line_start(s, l));
        }
    }
}

/// Position `c` lies on line `breaks_before(s, c)`, between the start of that
/// line and the start of the next.
pub proof fn lemma_line_of(s: Seq<char>, c: int)
    requires
        0 <= c <= s.len(),
    ensures
        breaks_before(s, c) < line_count(s),
        line_start(s, breaks_before(s, c) as int) <= c,
        c <= line_start(s, breaks_before(s, c) as int + 1),
        breaks_before(s, c) + 1 < line_count(s) ==> c < line_start(s, breaks_before(s, c) as int + 1),
{
    let l = breaks_before(s, c) as int;
    lemma_breaks_before_mono(s, c, s.len() as int);
    lemma_line_start(s, l);
    if line_start(s, l) > c {
        assert(breaks_before(s, c) < l);
    }
    lemma_line_start_mono(s, l);
    if l + 1 < line_count(s) {
        lemma_line_start(s, l + 1);
        if line_start(s, l + 1) <= c {
            lemma_breaks_before_mono(s, line_start(s, l + 1), c);
        }
    }
}

/// Width of line `l` without a final `'\n'`; 0 for lines past the end.
pub open spec fn line_text_len(s: Seq<char>, l: int) -> int {
    if 0 <= l < line_count(s) {
        let n = line_len(s, l);
        if n > 0 && s[line_start(s, l) + n - 1] == '\n' {
            n - 1
        } else {
            n
        }
    } else {
        0
    }
}

/// `Rope::len_chars`: the number of chars in the rope.
#[verifier::external_body]
pub(crate) fn rope_len_chars(r: &Rope) -> (n: usize)
    ensures
        n == rope_chars(*r).len(),
{
    r.len_chars()
}

/// `Rope::char`: the char at index `i`; ropey panics past the end.
#[verifier::external_body]
pub(crate) fn rope_char(r: &Rope, i: usize) -> (c: char)
    requires
        i < rope_chars(*r).len(),
    ensures
        c == rope_chars(*r)[i as int],
{
    r.char(i)
}

/// `Rope::len_lines`: one more than the number of line breaks, a `\r\n` pair
/// counting once.
#[verifier::external_body]
pub(crate) fn rope_len_lines(r: &Rope) -> (n: usize)
    ensures
        n == line_count(rope_chars(*r)),
{
    r.len_lines()
}

/// `Rope::char_to_line`: the number of line breaks before char index `i`;
/// ropey panics for `i` past the end.
#[verifier::external_body]
pub(crate) fn rope_char_to_line(r: &Rope, i: usize) -> (l: usize)
    requires
        i <= rope_chars(*r).len(),
    ensures
        l == breaks_before(rope_chars(*r), i as int),
{
    r.char_to_line(i)
}

/// `Rope::line_to_char`: the char index at which line `l` starts (the end of
/// the text for `l == len_lines()`); ropey panics for larger `l`.
#[verifier::external_body]
pub(crate) fn rope_line_to_char(r: &Rope, l: usize) -> (i: usize)
    requires
        l <= line_count(rope_chars(*r)),
    ensures
        i == line_start(rope_chars(*r), l as int),
{
    r.line_to_char(l)
}

/// `Rope::line(l).len_chars()`: the number of chars of line `l`, its line
/// break included; ropey panics for `l >= len_lines()`.
#[verifier::external_body]
pub(crate) fn rope_line_len(r: &Rope, l: usize) -> (n: usize)
    requires
        l < line_count(rope_chars(*r)),
    ensures
        n == line_len(rope_chars(*r), l as int),
{
    r.line(l).len_chars()
}

/// `Rope::insert_char`: inserts `c` at char index `i`; ropey panics past the end.
#[verifier::external_body]
pub(crate) fn rope_insert_char(r: &mut Rope, i: usize, c: char)
    requires
        i <= rope_chars(*old(r)).len(),
    ensures
        rope_chars(*final(r)) == rope_chars(*old(r)).insert(i as int, c),
{
    r.insert_char(i, c)
}

/// `Rope::insert`: inserts the chars of `text` at char index `i`; ropey panics
/// past the end.
#[verifier::external_body]
pub(crate) fn rope_insert(r: &mut Rope, i: usize, text: &str)
    requires
        i <= rope_chars(*old(r)).len(),
    ensures
        rope_chars(*final(r)) == rope_chars(*old(r)).take(i as int) + text@ + rope_chars(
            *old(r),
        ).skip(i as int),
{
    r.insert(i, text)
}

/// `Rope::remove(start..end)`: removes the chars in that range; ropey panics
/// when `start > end` or `end` is past the end.
#[verifier::external_body]
pub(crate) fn rope_remove(r: &mut Rope, start: usize, end: usize)
    requires
        start <= end <= rope_chars(*old(r)).len(),
    ensures
        rope_chars(*final(r)) == rope_chars(*old(r)).take(start as int) + rope_chars(
            *old(r),
        ).skip(end as int),
{
    r.remove(start..end)
}

/// `Rope::slice(start..end).to_string()`: the chars in that range as a
/// `String`; ropey panics when `start > end` or `end` is past the end.
#[verifier::external_body]
pub(crate) fn rope_slice_string(r: &Rope, start: usize, end: usize) -> (s: String)
    requires
        start <= end <= rope_chars(*r).len(),
    ensures
        s@ == rope_chars(*r).subrange(start as int, end as int),
{
    r.slice(start..end).to_string()
}

/// `Rope::line(l).char(k)`: char `k` of line `l`; ropey panics when `l` or `k`
/// is out of range.
#[verifier::external_body]
pub(crate) fn rope_line_char(r: &Rope, l: usize, k: usize) -> (c: char)
    requires
        l < line_count(rope_chars(*r)),
        k < line_len(rope_chars(*r), l as int),
    ensures
        c == rope_chars(*r)[line_start(rope_chars(*r), l as int) + k],
{
    r.line(l).char(k)
}

/// Number of chars of line `l` before a final `'\n'`.
pub(crate) fn line_width_without_newline(rope: &Rope, l: usize) -> (n: usize)
    requires
        l < line_count(rope_chars(*rope)),
    ensures
        n == line_text_len(rope_chars(*rope), l as int),
{
    proof {
        lemma_line_start_mono(rope_chars(*rope), l as int);
    }
    let len = rope_line_len(rope, l);
    if len > 0 && rope_line_char(rope, l, len - 1) == '\n' {
        len - 1
    } else {
        len
    }
}

/// `Rope::from_str`: a rope holding the chars of `text`.
#[verifier::external_body]
pub(crate) fn rope_from_str(text: &str) -> (r: Rope)
    ensures
        rope_chars(r) == text@,
{
    Rope::from_str(text)
}

/// The text of the editor and what the display needs to know of its changes.
pub struct TextViewState {
    /// The text.
    pub rope: Rope,
    /// Bumped (wrapping) on every change of the text.
    pub content_version: u64,
    /// A display refresh is due, and may wait for the debounce.
    pub pending_update: bool,
    /// A full display refresh is due now.
    pub needs_update: bool,
    /// The lines whose display is stale, when only some are.
    pub dirty_lines: Option<std::ops::Range<usize>>,
    /// Line count at the last refresh.
    pub previous_line_count: usize,
}

impl TextViewState {
    /// An editor text holding `text`, with nothing pending.
    pub fn new(text: &str) -> (r: Self)
        ensures
            rope_chars(r.rope) == text@,
            r.content_version == 0,
            !r.pending_update,
            !r.needs_update,
            r.dirty_lines is None,
            r.previous_line_count == line_count(text@),
    {
        let rope = rope_from_str(text);
        let n = rope_len_lines(&rope);
        TextViewState {
            rope,
            content_version: 0,
            pending_update: false,
            needs_update: false,
            dirty_lines: None,
            previous_line_count: n,
        }
    }

    /// The chars of the text.
    pub open spec fn text(&self) -> Seq<char> {
        rope_chars(self.rope)
    }
}

} // verus!
