//! Cursor movement by lines and words, and deletion of words.

use vstd::prelude::*;
use ropey::Rope;
use crate::text::{
    breaks_before, lemma_line_of, lemma_line_start_mono, line_count, line_len, line_start,
    rope_char, rope_char_to_line, rope_chars, rope_len_chars, rope_len_lines, rope_line_len,
    rope_line_to_char, rope_remove, rope_slice_string, TextViewState,
};
use crate::types::CursorState;
use crate::selection::SelectionState;
use crate::history::{apply_op, recorded_on, EditHistoryState, EditKind, EditOperation};
use crate::editor::CodeEditorState;

verus! {

/// Whether `c` has the Unicode `White_Space` property, as
/// `char::is_whitespace` documents: U+0009 to U+000D, U+0020, U+0085, U+00A0,
/// U+1680, U+2000 to U+200A, U+2028, U+2029, U+202F, U+205F and U+3000.
pub open spec fn char_is_whitespace(c: char) -> bool {
    let v = c as u32;
    ||| 0x09 <= v <= 0x0D
    ||| v == 0x20
    ||| v == 0x85
    ||| v == 0xA0
    ||| v == 0x1680
    ||| 0x2000 <= v <= 0x200A
    ||| v == 0x2028
    ||| v == 0x2029
    ||| v == 0x202F
    ||| v == 0x205F
    ||| v == 0x3000
}

/// Whether `c` is alphabetic or numeric in Unicode (what
/// `char::is_alphanumeric` returns).
pub uninterp spec fn char_is_alphanumeric(c: char) -> bool;

/// Whether `c` has the Unicode `White_Space` property.
pub(crate) fn is_whitespace(c: char) -> (r: bool)
    ensures
        r == char_is_whitespace(c),
{
    let v: u32 = c as u32;
    (0x09 <= v && v <= 0x0D) || v == 0x20 || v == 0x85 || v == 0xA0 || v == 0x1680 || (0x2000 <= v
        && v <= 0x200A) || v == 0x2028 || v == 0x2029 || v == 0x202F || v == 0x205F || v == 0x3000
}

/// `char::is_alphanumeric`; its result is named, not stated.
#[verifier::external_body]
pub(crate) fn is_alphanumeric(c: char) -> (r: bool)
    ensures
        r == char_is_alphanumeric(c),
{
    c.is_alphanumeric()
}

/// Chars of identifiers: alphanumeric or `_`.
pub open spec fn is_word_char(c: char) -> bool {
    char_is_alphanumeric(c) || c == '_'
}

/// Whether `c` is alphanumeric or `_`.
pub(crate) fn word_char(c: char) -> (r: bool)
    ensures
        r == is_word_char(c),
{
    is_alphanumeric(c) || c == '_'
}

/// The classes that word motion tells apart.
#[derive(PartialEq, Eq, Clone, Copy, Debug, Structural)]
pub enum CharClass {
    Whitespace,
    Word,
    Punctuation,
}

pub open spec fn char_class(c: char) -> CharClass {
    if char_is_whitespace(c) {
        CharClass::Whitespace
    } else if is_word_char(c) {
        CharClass::Word
    } else {
        CharClass::Punctuation
    }
}

fn classify_char(c: char) -> (r: CharClass)
    ensures
        r == char_class(c),
{
    if is_whitespace(c) {
        CharClass::Whitespace
    } else if word_char(c) {
        CharClass::Word
    } else {
        CharClass::Punctuation
    }
}

/// Start of the run of whitespace other than `'\n'` that ends at `p`.
pub open spec fn ws_run_left(s: Seq<char>, p: int) -> int
    decreases p,
{
    if 0 < p <= s.len() && char_is_whitespace(s[p - 1]) && s[p - 1] != '\n' {
        ws_run_left(s, p - 1)
    } else {
        p
    }
}

/// Start of the run of chars of class `cls`, not crossing a `'\n'`, that ends at `p`.
pub open spec fn class_run_left(s: Seq<char>, p: int, cls: CharClass) -> int
    decreases p,
{
    if 0 < p <= s.len() && s[p - 1] != '\n' && char_class(s[p - 1]) == cls {
        class_run_left(s, p - 1, cls)
    } else {
        p
    }
}

/// Where a move one word left from `pos` lands: back over whitespace on the
/// line, then over the run of chars of the class met there.
pub open spec fn word_boundary_left(s: Seq<char>, pos: int) -> int {
    if pos <= 0 {
        0
    } else {
        let q = ws_run_left(s, pos);
        if q == 0 {
            0
        } else {
            class_run_left(s, q, char_class(s[q - 1]))
        }
    }
}

/// From `p`, past whitespace up to and including a first `'\n'`.
pub open spec fn ws_skip_right(s: Seq<char>, p: int) -> int
    decreases s.len() - p,
{
    if 0 <= p < s.len() {
        if s[p] == '\n' {
            p + 1
        } else if char_is_whitespace(s[p]) {
            ws_skip_right(s, p + 1)
        } else {
            p
        }
    } else {
        p
    }
}

/// End of the run of chars of class `cls`, not crossing a `'\n'`, from `p`.
pub open spec fn class_run_right(s: Seq<char>, p: int, cls: CharClass) -> int
    decreases s.len() - p,
{
    if 0 <= p < s.len() && s[p] != '\n' && char_class(s[p]) == cls {
        class_run_right(s, p + 1, cls)
    } else {
        p
    }
}

/// End of the run of whitespace other than `'\n'` from `p`.
pub open spec fn ws_run_right(s: Seq<char>, p: int) -> int
    decreases s.len() - p,
{
    if 0 <= p < s.len() && char_is_whitespace(s[p]) && s[p] != '\n' {
        ws_run_right(s, p + 1)
    } else {
        p
    }
}

/// Where a move one word right from `pos` lands: on whitespace, past it and a
/// first `'\n'`; otherwise past the run of the class there, then past the
/// whitespace after it on the line.
pub open spec fn word_boundary_right(s: Seq<char>, pos: int) -> int {
    if pos >= s.len() {
        s.len() as int
    } else if char_is_whitespace(s[pos]) {
        ws_skip_right(s, pos)
    } else {
        ws_run_right(s, class_run_right(s, pos, char_class(s[pos])))
    }
}

pub proof fn lemma_runs_left(s: Seq<char>, p: int, cls: CharClass)
    requires
        0 <= p <= s.len(),
    ensures
        0 <= ws_run_left(s, p) <= p,
        0 <= class_run_left(s, p, cls) <= p,
    decreases p,
{
    if p > 0 {
        lemma_runs_left(s, p - 1, cls);
    }
}

pub proof fn lemma_runs_right(s: Seq<char>, p: int, cls: CharClass)
    requires
        0 <= p <= s.len(),
    ensures
        p <= ws_skip_right(s, p) <= s.len(),
        p <= class_run_right(s, p, cls) <= s.len(),
        p <= ws_run_right(s, p) <= s.len(),
    decreases s.len() - p,
{
    if p < s.len() {
        lemma_runs_right(s, p + 1, cls);
    }
}

proof fn lemma_ws_run_left_props(s: Seq<char>, p: int)
    requires
        0 <= p <= s.len(),
    ensures
        0 <= ws_run_left(s, p) <= p,
        forall|j: int| ws_run_left(s, p) <= j < p ==> char_is_whitespace(#[trigger] s[j]) && s[j] != '\n',
        ws_run_left(s, p) == 0 || !char_is_whitespace(s[ws_run_left(s, p) - 1]) || s[ws_run_left(s, p) - 1]
            == '\n',
    decreases p,
{
    if 0 < p && char_is_whitespace(s[p - 1]) && s[p - 1] != '\n' {
        lemma_ws_run_left_props(s, p - 1);
    }
}

proof fn lemma_class_run_left_props(s: Seq<char>, p: int, cls: CharClass)
    requires
        0 <= p <= s.len(),
    ensures
        0 <= class_run_left(s, p, cls) <= p,
        forall|j: int| class_run_left(s, p, cls) <= j < p ==> s[j] != '\n' && char_class(#[trigger] s[j]) == cls,
        class_run_left(s, p, cls) == 0 || s[class_run_left(s, p, cls) - 1] == '\n' || char_class(
            s[class_run_left(s, p, cls) - 1],
        ) != cls,
    decreases p,
{
    if 0 < p && s[p - 1] != '\n' && char_class(s[p - 1]) == cls {
        lemma_class_run_left_props(s, p - 1, cls);
    }
}

/// The classes word motion tells apart: whitespace; word chars, which are
/// the alphanumeric chars and `_`; and punctuation, every other char.
pub proof fn law_char_classes(c: char)
    ensures
        is_word_char(c) <==> (char_is_alphanumeric(c) || c == '_'),
        (char_class(c) == CharClass::Whitespace) <==> char_is_whitespace(c),
        (char_class(c) == CharClass::Word) <==> (!char_is_whitespace(c) && (char_is_alphanumeric(c) || c == '_')),
        (char_class(c) == CharClass::Punctuation) <==> (!char_is_whitespace(c) && !char_is_alphanumeric(c) && c
            != '_'),
{
}

/// A word-left move from `pos` to `r`, passing whitespace from `q` to `pos`:
/// the chars from `q` to `pos` are whitespace other than line breaks, and
/// the whitespace run stops at `q`; then the chars from `r` to `q` cross no
/// line break and all have the class of the char just before `q`, and the
/// move stops at the start of the text, after a line break, or after a char
/// of another class (it moves at least one char unless a line break or the
/// start of the text is met first).
pub open spec fn word_left_split(s: Seq<char>, pos: int, r: int, q: int) -> bool {
    &&& 0 <= r <= q <= pos
    &&& forall|j: int| q <= j < pos ==> char_is_whitespace(#[trigger] s[j]) && s[j] != '\n'
    &&& q == 0 || !char_is_whitespace(s[q - 1]) || s[q - 1] == '\n'
    &&& q == 0 ==> r == 0
    &&& q > 0 && s[q - 1] != '\n' ==> r < q
    &&& q > 0 ==> forall|j: int| r <= j < q ==> s[j] != '\n' && char_class(#[trigger] s[j]) == char_class(s[q - 1])
    &&& q > 0 ==> (r == 0 || s[r - 1] == '\n' || char_class(s[r - 1]) != char_class(s[q - 1]))
}

/// A word-left move from `pos` (Ctrl+Left, and what Ctrl+Backspace
/// deletes) first passes the whitespace before it on the line, and then the
/// run of chars of one class (word chars, punctuation, or whitespace) that
/// ends there, stopping at a class change (such as between word chars and
/// punctuation), a line break, or the start of the text.
pub proof fn law_word_left_stops_at_class_change(s: Seq<char>, pos: int)
    requires
        0 < pos <= s.len(),
    ensures
        exists|q: int| #[trigger] word_left_split(s, pos, word_boundary_left(s, pos), q),
{
    let q = ws_run_left(s, pos);
    lemma_ws_run_left_props(s, pos);
    if q > 0 {
        lemma_class_run_left_props(s, q, char_class(s[q - 1]));
    }
    assert(word_left_split(s, pos, word_boundary_left(s, pos), q));
}

/// A move one word right from inside the text always moves forward.
pub proof fn lemma_word_right_advances(s: Seq<char>, pos: int)
    requires
        0 <= pos < s.len(),
    ensures
        pos < word_boundary_right(s, pos) <= s.len(),
{
    let cls = char_class(s[pos]);
    lemma_runs_right(s, pos + 1, cls);
    if !char_is_whitespace(s[pos]) {
        assert(s[pos] != '\n');
        let q = class_run_right(s, pos, cls);
        assert(q == class_run_right(s, pos + 1, cls));
        lemma_runs_right(s, q, cls);
    }
}

/// Where moving up a line from `p` lands: the same column on the line above,
/// or that line's last column before its break.
pub open spec fn pos_up(s: Seq<char>, p: int) -> int {
    let l = breaks_before(s, p) as int;
    if p > 0 && l > 0 {
        let col = p - line_start(s, l);
        let room = if line_len(s, l - 1) > 0 { line_len(s, l - 1) - 1 } else { 0 };
        line_start(s, l - 1) + if col <= room { col } else { room }
    } else {
        p
    }
}

/// Where moving down a line from `p` lands.
pub open spec fn pos_down(s: Seq<char>, p: int) -> int {
    let l = breaks_before(s, p) as int;
    if l + 1 < line_count(s) {
        let col = p - line_start(s, l);
        let room = if line_len(s, l + 1) > 0 { line_len(s, l + 1) - 1 } else { 0 };
        line_start(s, l + 1) + if col <= room { col } else { room }
    } else {
        p
    }
}

/// Start of the line of `p`.
pub open spec fn pos_line_start(s: Seq<char>, p: int) -> int {
    line_start(s, breaks_before(s, p) as int)
}

/// Last column of the line of `p`: the one before its last char.
pub open spec fn pos_line_end(s: Seq<char>, p: int) -> int {
    let l = breaks_before(s, p) as int;
    line_start(s, l) + if line_len(s, l) > 0 { line_len(s, l) - 1 } else { 0 }
}

/// Start a selection at the cursor when there is none.
pub fn init_selection(sel: &mut SelectionState, cursor: &CursorState)
    ensures
        final(sel).selections == old(sel).selections,
        old(sel).selection_start is Some ==> *final(sel) == *old(sel),
        old(sel).selection_start is None ==> final(sel).selection_start == Some(cursor.cursor_pos)
            && final(sel).selection_end == Some(cursor.cursor_pos),
{
    if sel.selection_start.is_none() {
        sel.selection_start = Some(cursor.cursor_pos);
        sel.selection_end = Some(cursor.cursor_pos);
    }
}

/// Move the cursor to the same column of the line above, if there is one.
pub fn move_cursor_up(cursor: &mut CursorState, rope: &Rope)
    requires
        old(cursor).cursor_pos <= rope_chars(*rope).len(),
    ensures
        final(cursor).cursors == old(cursor).cursors,
        final(cursor).cursor_pos == pos_up(rope_chars(*rope), old(cursor).cursor_pos as int),
        final(cursor).cursor_pos <= rope_chars(*rope).len(),
{
    let ghost s = rope_chars(*rope);
    if cursor.cursor_pos > 0 {
        let line_idx = rope_char_to_line(rope, cursor.cursor_pos);
        if line_idx > 0 {
            proof {
                lemma_line_of(s, cursor.cursor_pos as int);
                lemma_line_start_mono(s, line_idx - 1);
            }
            let line_start = rope_line_to_char(rope, line_idx);
            let col_offset = cursor.cursor_pos - line_start;
            let prev_line_start = rope_line_to_char(rope, line_idx - 1);
            let prev_line_len = rope_line_len(rope, line_idx - 1);
            let room = prev_line_len.saturating_sub(1);
            let col = if col_offset <= room {
                col_offset
            } else {
                room
            };
            cursor.cursor_pos = prev_line_start + col;
        }
    }
}

/// Move the cursor to the same column of the line below, if there is one.
pub fn move_cursor_down(cursor: &mut CursorState, rope: &Rope)
    requires
        old(cursor).cursor_pos <= rope_chars(*rope).len(),
    ensures
        final(cursor).cursors == old(cursor).cursors,
        final(cursor).cursor_pos == pos_down(rope_chars(*rope), old(cursor).cursor_pos as int),
        final(cursor).cursor_pos <= rope_chars(*rope).len(),
{
    let ghost s = rope_chars(*rope);
    let _len = rope_len_chars(rope);
    let line_idx = rope_char_to_line(rope, cursor.cursor_pos);
    let line_count = rope_len_lines(rope);
    proof {
        lemma_line_of(s, cursor.cursor_pos as int);
    }
    if line_idx + 1 < line_count {
        proof {
            lemma_line_start_mono(s, line_idx as int);
            lemma_line_start_mono(s, line_idx + 1);
        }
        let line_start = rope_line_to_char(rope, line_idx);
        let col_offset = cursor.cursor_pos - line_start;
        let next_line_start = rope_line_to_char(rope, line_idx + 1);
        let next_line_len = rope_line_len(rope, line_idx + 1);
        let room = next_line_len.saturating_sub(1);
        let col = if col_offset <= room {
            col_offset
        } else {
            room
        };
        cursor.cursor_pos = next_line_start + col;
    }
}

/// Move the cursor to the start of its line.
pub fn move_cursor_line_start(cursor: &mut CursorState, rope: &Rope)
    requires
        old(cursor).cursor_pos <= rope_chars(*rope).len(),
    ensures
        final(cursor).cursors == old(cursor).cursors,
        final(cursor).cursor_pos == pos_line_start(rope_chars(*rope), old(cursor).cursor_pos as int),
        final(cursor).cursor_pos <= old(cursor).cursor_pos,
{
    proof {
        lemma_line_of(rope_chars(*rope), cursor.cursor_pos as int);
    }
    let line_idx = rope_char_to_line(rope, cursor.cursor_pos);
    cursor.cursor_pos = rope_line_to_char(rope, line_idx);
}

/// Move the cursor to the last column of its line: before its last char,
/// which is the line break except on the last line.
pub fn move_cursor_line_end(cursor: &mut CursorState, rope: &Rope)
    requires
        old(cursor).cursor_pos <= rope_chars(*rope).len(),
    ensures
        final(cursor).cursors == old(cursor).cursors,
        final(cursor).cursor_pos == pos_line_end(rope_chars(*rope), old(cursor).cursor_pos as int),
        final(cursor).cursor_pos <= rope_chars(*rope).len(),
{
    let ghost s = rope_chars(*rope);
    let _len = rope_len_chars(rope);
    proof {
        lemma_line_of(s, cursor.cursor_pos as int);
    }
    let line_idx = rope_char_to_line(rope, cursor.cursor_pos);
    proof {
        lemma_line_start_mono(s, line_idx as int);
    }
    let line_start = rope_line_to_char(rope, line_idx);
    let line_len = rope_line_len(rope, line_idx);
    cursor.cursor_pos = line_start + line_len.saturating_sub(1);
}

/// Start of the previous word (Ctrl+Left, Ctrl+Backspace): back over
/// whitespace on the line, then over chars of one class.
pub fn find_word_boundary_left(rope: &Rope, pos: usize) -> (r: usize)
    requires
        pos <= rope_chars(*rope).len(),
    ensures
        r == word_boundary_left(rope_chars(*rope), pos as int),
        r <= pos,
{
    let ghost s = rope_chars(*rope);
    if pos == 0 {
        return 0;
    }
    let mut current = pos;
    while current > 0
        invariant
            0 <= current <= pos <= s.len(),
            s == rope_chars(*rope),
            ws_run_left(s, current as int) == ws_run_left(s, pos as int),
        ensures
            current == ws_run_left(s, pos as int),
        decreases current,
    {
        let c = rope_char(rope, current - 1);
        if is_whitespace(c) && c != '\n' {
            current -= 1;
        } else {
            break;
        }
    }
    if current == 0 {
        return 0;
    }
    let class = classify_char(rope_char(rope, current - 1));
    let ghost q = current as int;
    while current > 0
        invariant
            0 <= current <= q <= pos <= s.len(),
            s == rope_chars(*rope),
            q > 0,
            class == char_class(s[q - 1]),
            class_run_left(s, current as int, class) == class_run_left(s, q, class),
        ensures
            current == class_run_left(s, q, class),
        decreases current,
    {
        let c = rope_char(rope, current - 1);
        if c == '\n' {
            break;
        }
        if classify_char(c) == class {
            current -= 1;
        } else {
            break;
        }
    }
    current
}

/// End of the next word (Ctrl+Right, Ctrl+Delete).
pub fn find_word_boundary_right(rope: &Rope, pos: usize) -> (r: usize)
    ensures
        r == word_boundary_right(rope_chars(*rope), pos as int),
        pos <= rope_chars(*rope).len() ==> pos <= r,
        pos < rope_chars(*rope).len() ==> pos < r,
        r <= rope_chars(*rope).len(),
{
    let ghost s = rope_chars(*rope);
    proof {
        if 0 <= pos < s.len() {
            lemma_word_right_advances(s, pos as int);
        }
    }
    let len = rope_len_chars(rope);
    if pos >= len {
        return len;
    }
    let mut current = pos;
    let c = rope_char(rope, current);
    if is_whitespace(c) {
        while current < len
            invariant
                pos <= current <= len == s.len(),
                pos < len,
                char_is_whitespace(s[pos as int]),
                s == rope_chars(*rope),
                ws_skip_right(s, current as int) == ws_skip_right(s, pos as int),
            ensures
                current == ws_skip_right(s, pos as int),
            decreases len - current,
        {
            let c = rope_char(rope, current);
            if c == '\n' {
                return current + 1;
            }
            if is_whitespace(c) {
                current += 1;
            } else {
                break;
            }
        }
        return current;
    }
    let class = classify_char(c);
    while current < len
        invariant
            pos <= current <= len == s.len(),
            s == rope_chars(*rope),
            class == char_class(s[pos as int]),
            class_run_right(s, current as int, class) == class_run_right(s, pos as int, class),
        ensures
            current == class_run_right(s, pos as int, class),
        decreases len - current,
    {
        let c = rope_char(rope, current);
        if c == '\n' {
            break;
        }
        if classify_char(c) == class {
            current += 1;
        } else {
            break;
        }
    }
    let ghost after_class = current as int;
    while current < len
        invariant
            after_class <= current <= len == s.len(),
            s == rope_chars(*rope),
            after_class == class_run_right(s, pos as int, class),
            class == char_class(s[pos as int]),
            ws_run_right(s, current as int) == ws_run_right(s, after_class),
        ensures
            current == ws_run_right(s, after_class),
        decreases len - current,
    {
        let c = rope_char(rope, current);
        if is_whitespace(c) && c != '\n' {
            current += 1;
        } else {
            break;
        }
    }
    current
}

/// Move the cursor to the start of the previous word.
pub fn move_cursor_word_left(cursor: &mut CursorState, rope: &Rope)
    requires
        old(cursor).cursor_pos <= rope_chars(*rope).len(),
    ensures
        final(cursor).cursors == old(cursor).cursors,
        final(cursor).cursor_pos == word_boundary_left(rope_chars(*rope), old(cursor).cursor_pos as int),
{
    cursor.cursor_pos = find_word_boundary_left(rope, cursor.cursor_pos);
}

/// Move the cursor to the end of the next word.
pub fn move_cursor_word_right(cursor: &mut CursorState, rope: &Rope)
    ensures
        final(cursor).cursors == old(cursor).cursors,
        final(cursor).cursor_pos == word_boundary_right(rope_chars(*rope), old(cursor).cursor_pos as int),
{
    cursor.cursor_pos = find_word_boundary_right(rope, cursor.cursor_pos);
}

/// `op` deletes the chars of `s` from `start` to `end`, and nothing else.
pub open spec fn is_deletion(
    op: EditOperation,
    s: Seq<char>,
    start: int,
    end: int,
    cursor_before: int,
    cursor_after: int,
    kind: EditKind,
) -> bool {
    &&& op.position == start
    &&& op.removed_text@ == s.subrange(start, end)
    &&& op.inserted_text@ == Seq::<char>::empty()
    &&& op.cursor_before == cursor_before
    &&& op.cursor_after == cursor_after
    &&& op.kind == kind
}

/// What deleting back to the start of the previous word does: nothing when
/// the cursor is there already; otherwise the chars go, the cursor moves to
/// where they started, and the deletion is recorded.
pub open spec fn word_deleted_backward(
    oh: EditHistoryState,
    nh: EditHistoryState,
    oc: CursorState,
    nc: CursorState,
    ot: TextViewState,
    nt: TextViewState,
) -> bool {
    &&& nc.cursors == oc.cursors
    &&& {
        let s = rope_chars(ot.rope);
        let p = oc.cursor_pos as int;
        let w = word_boundary_left(s, p);
        if w < p {
            &&& rope_chars(nt.rope) == s.take(w) + s.skip(p)
            &&& nc.cursor_pos == w
            &&& nh.history.redo_stack@.len() == 0
            &&& nh.history.undo_stack@.len() == oh.history.undo_stack@.len() + 1
            &&& nh.history.undo_stack@.drop_last() == oh.history.undo_stack@
            &&& is_deletion(nh.history.undo_stack@.last(), s, w, p, p, w, EditKind::DeleteBackward)
            &&& recorded_on(s, nh.history.undo_stack@.last())
            &&& rope_chars(nt.rope) == apply_op(s, nh.history.undo_stack@.last())
            &&& nt.content_version == ot.content_version.wrapping_add(1)
            &&& nt.pending_update == ot.pending_update
            &&& nt.needs_update == ot.needs_update
            &&& nt.dirty_lines == ot.dirty_lines
            &&& nt.previous_line_count == ot.previous_line_count
        } else {
            &&& nt == ot
            &&& nc == oc
            &&& nh == oh
        }
    }
}

/// Delete from the start of the previous word to the cursor, and record it.
pub fn delete_word_backward(
    state: &mut CodeEditorState,
    _sel: &mut SelectionState,
    hist: &mut EditHistoryState,
    cursor: &mut CursorState,
    tv: &mut TextViewState,
)
    requires
        old(cursor).cursor_pos <= rope_chars(old(tv).rope).len(),
    ensures
        *final(state) == *old(state),
        *final(_sel) == *old(_sel),
        word_deleted_backward(*old(hist), *final(hist), *old(cursor), *final(cursor), *old(tv), *final(tv)),
{
    let ghost s = rope_chars(tv.rope);
    let cursor_before = cursor.cursor_pos;
    let word_start = find_word_boundary_left(&tv.rope, cursor_before);
    if word_start < cursor_before {
        let deleted_text = rope_slice_string(&tv.rope, word_start, cursor_before);
        rope_remove(&mut tv.rope, word_start, cursor_before);
        cursor.cursor_pos = word_start;
        let op = EditOperation {
            removed_text: deleted_text,
            inserted_text: String::new(),
            position: word_start,
            cursor_before,
            cursor_after: word_start,
            kind: EditKind::DeleteBackward,
        };
        proof {
            assert(op.inserted_text@ =~= Seq::<char>::empty());
            assert(apply_op(s, op) =~= s.take(word_start as int) + s.skip(cursor_before as int));
        }
        hist.history.record(op);
        assert(hist.history.undo_stack@.drop_last() =~= old(hist).history.undo_stack@);
        tv.content_version = tv.content_version.wrapping_add(1);
    }
}

/// What deleting to the end of the next word does: nothing when the cursor is
/// there already; otherwise the chars go, the cursor stays, and the deletion
/// is recorded.
pub open spec fn word_deleted_forward(
    oh: EditHistoryState,
    nh: EditHistoryState,
    oc: CursorState,
    nc: CursorState,
    ot: TextViewState,
    nt: TextViewState,
) -> bool {
    &&& nc.cursors == oc.cursors
    &&& {
        let s = rope_chars(ot.rope);
        let p = oc.cursor_pos as int;
        let w = word_boundary_right(s, p);
        if w > p {
            &&& rope_chars(nt.rope) == s.take(p) + s.skip(w)
            &&& nh.history.redo_stack@.len() == 0
            &&& nh.history.undo_stack@.len() == oh.history.undo_stack@.len() + 1
            &&& nh.history.undo_stack@.drop_last() == oh.history.undo_stack@
            &&& is_deletion(nh.history.undo_stack@.last(), s, p, w, p, p, EditKind::DeleteForward)
            &&& recorded_on(s, nh.history.undo_stack@.last())
            &&& rope_chars(nt.rope) == apply_op(s, nh.history.undo_stack@.last())
            &&& nt.content_version == ot.content_version.wrapping_add(1)
            &&& nt.pending_update == ot.pending_update
            &&& nt.needs_update == ot.needs_update
            &&& nt.dirty_lines == ot.dirty_lines
            &&& nt.previous_line_count == ot.previous_line_count
        } else {
            &&& nt == ot
            &&& nh == oh
        }
    }
}

/// Delete from the cursor to the end of the next word, and record it; the
/// cursor stays.
pub fn delete_word_forward(
    state: &mut CodeEditorState,
    _sel: &mut SelectionState,
    hist: &mut EditHistoryState,
    cursor: &mut CursorState,
    tv: &mut TextViewState,
)
    ensures
        *final(state) == *old(state),
        *final(_sel) == *old(_sel),
        *final(cursor) == *old(cursor),
        word_deleted_forward(*old(hist), *final(hist), *old(cursor), *final(cursor), *old(tv), *final(tv)),
{
    let ghost s = rope_chars(tv.rope);
    let cursor_before = cursor.cursor_pos;
    let word_end = find_word_boundary_right(&tv.rope, cursor_before);
    if word_end > cursor_before {
        let deleted_text = rope_slice_string(&tv.rope, cursor_before, word_end);
        rope_remove(&mut tv.rope, cursor_before, word_end);
        let op = EditOperation {
            removed_text: deleted_text,
            inserted_text: String::new(),
            position: cursor_before,
            cursor_before,
            cursor_after: cursor_before,
            kind: EditKind::DeleteForward,
        };
        proof {
            assert(op.inserted_text@ =~= Seq::<char>::empty());
            assert(apply_op(s, op) =~= s.take(cursor_before as int) + s.skip(word_end as int));
        }
        hist.history.record(op);
        assert(hist.history.undo_stack@.drop_last() =~= old(hist).history.undo_stack@);
        tv.content_version = tv.content_version.wrapping_add(1);
    }
}

} // verus!
