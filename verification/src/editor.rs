//! The editor: its focus, and the text operations on the cursor and the text
//! that do not depend on the display: moving, typing, deleting, undo and
//! redo, and searching for words.

use vstd::prelude::*;
use ropey::Rope;
use crate::text::{
    breaks_before, lemma_line_of, line_count, rope_char, rope_char_to_line, rope_chars,
    rope_insert, rope_insert_char, rope_len_chars, rope_len_lines, rope_remove, rope_slice_string,
    TextViewState,
};
use crate::types::{cursor_end, cursor_start, Cursor, CursorState};
use crate::selection::{cursors_merged_with, min_usize, synced_end, synced_start, SelectionState};
use crate::history::{
    apply_op, in_effect_on, recorded_on, redoable_on, revert_op, undoable_on, EditHistoryState, EditKind,
    EditOperation,
};
use crate::cursor::{is_word_char, word_char};

verus! {

/// Editor-wide state that the text operations are methods of.
#[derive(Clone, Copy, Debug, PartialEq, Eq, Structural)]
pub struct CodeEditorState {
    /// Whether the editor takes keyboard input.
    pub is_focused: bool,
}

/// The display bookkeeping after an edit confined to the line of `pos`: that
/// line is stale, a refresh is pending, and the version moved on.
pub open spec fn marked_line_dirty(new: TextViewState, old: TextViewState, pos: int) -> bool {
    let s = rope_chars(new.rope);
    let l = breaks_before(s, pos) as int;
    let n = line_count(s) as int;
    &&& new.pending_update
    &&& new.needs_update == old.needs_update
    &&& new.content_version == old.content_version.wrapping_add(1)
    &&& new.dirty_lines == Some(
        (std::ops::Range { start: l as usize, end: (if l + 1 <= n { l + 1 } else { n }) as usize }),
    )
    &&& new.previous_line_count == n
}

/// The display bookkeeping after an edit that calls for a full refresh.
pub open spec fn marked_for_refresh(new: TextViewState, old: TextViewState) -> bool {
    &&& new.needs_update
    &&& !new.pending_update
    &&& new.content_version == old.content_version.wrapping_add(1)
    &&& new.dirty_lines is None
    &&& new.previous_line_count == line_count(rope_chars(new.rope))
}

/// Mark the line of `pos` stale after an edit confined to it.
pub(crate) fn mark_line_dirty(tv: &mut TextViewState, pos: usize)
    requires
        pos <= rope_chars(old(tv).rope).len(),
    ensures
        final(tv).rope == old(tv).rope,
        marked_line_dirty(*final(tv), *old(tv), pos as int),
{
    proof {
        lemma_line_of(rope_chars(tv.rope), pos as int);
    }
    let line_idx = rope_char_to_line(&tv.rope, pos);
    let new_line_count = rope_len_lines(&tv.rope);
    let end = if line_idx + 1 <= new_line_count {
        line_idx + 1
    } else {
        new_line_count
    };
    tv.pending_update = true;
    tv.content_version = tv.content_version.wrapping_add(1);
    tv.dirty_lines = Some(line_idx..end);
    tv.previous_line_count = new_line_count;
}

/// Ask for a full refresh after an edit.
pub(crate) fn mark_for_refresh(tv: &mut TextViewState)
    ensures
        final(tv).rope == old(tv).rope,
        marked_for_refresh(*final(tv), *old(tv)),
{
    tv.needs_update = true;
    tv.pending_update = false;
    tv.content_version = tv.content_version.wrapping_add(1);
    tv.dirty_lines = None;
    tv.previous_line_count = rope_len_lines(&tv.rope);
}

/// Shortest time between two display refreshes (about one frame).
pub const DEBOUNCE_INTERVAL_MS: u64 = 16;

/// Let a pending refresh through once a frame's time has passed since the
/// last one (times in milliseconds); the refresh time moves to `now_ms`.
pub fn debounce_updates(tv: &mut TextViewState, last_render_ms: &mut u64, now_ms: u64)
    ensures
        (old(tv).pending_update && now_ms >= *old(last_render_ms) + DEBOUNCE_INTERVAL_MS) ==> {
            &&& *final(tv) == (TextViewState { needs_update: true, pending_update: false, ..*old(tv) })
            &&& *final(last_render_ms) == now_ms
        },
        !(old(tv).pending_update && now_ms >= *old(last_render_ms) + DEBOUNCE_INTERVAL_MS) ==> {
            &&& *final(tv) == *old(tv)
            &&& *final(last_render_ms) == *old(last_render_ms)
        },
{
    if !tv.pending_update {
        return;
    }
    let elapsed = now_ms.saturating_sub(*last_render_ms);
    if elapsed >= DEBOUNCE_INTERVAL_MS {
        tv.needs_update = true;
        tv.pending_update = false;
        *last_render_ms = now_ms;
    }
}

/// Start of the run of word chars that ends at `p`.
pub open spec fn word_run_left(s: Seq<char>, p: int) -> int
    decreases p,
{
    if 0 < p <= s.len() && is_word_char(s[p - 1]) {
        word_run_left(s, p - 1)
    } else {
        p
    }
}

/// End of the run of word chars that starts at `p`.
pub open spec fn word_run_right(s: Seq<char>, p: int) -> int
    decreases s.len() - p,
{
    if 0 <= p < s.len() && is_word_char(s[p]) {
        word_run_right(s, p + 1)
    } else {
        p
    }
}

/// The word (a run of alphanumerics and `_`) around position `pos` (clamped
/// to the text), when the char there is a word char.
pub open spec fn word_at(s: Seq<char>, pos: int) -> Option<(usize, usize)> {
    let p = if pos <= s.len() { pos } else { s.len() as int };
    if p >= s.len() || !is_word_char(s[p]) {
        None
    } else {
        Some((word_run_left(s, p) as usize, word_run_right(s, p) as usize))
    }
}

/// `t` occurs in `s` at `p`.
pub open spec fn matches_at(s: Seq<char>, t: Seq<char>, p: int) -> bool {
    &&& 0 <= p
    &&& p + t.len() <= s.len()
    &&& s.subrange(p, p + t.len()) == t
}

/// The first position from `p` on at which `t` occurs ending no later than `limit`.
pub open spec fn first_match(s: Seq<char>, t: Seq<char>, p: int, limit: int) -> Option<int>
    decreases limit - p,
{
    if p + t.len() > limit || p + t.len() > s.len() || p < 0 {
        None
    } else if matches_at(s, t, p) {
        Some(p)
    } else if p + 1 <= limit {
        first_match(s, t, p + 1, limit)
    } else {
        None
    }
}

/// The next occurrence of `t` in `s` from `after` on, wrapping round to the
/// start of the text when there is none; none for an empty `t`.
pub open spec fn next_occurrence(s: Seq<char>, t: Seq<char>, after: int) -> Option<(usize, usize)> {
    if t.len() == 0 {
        None
    } else {
        match first_match(s, t, after, s.len() as int) {
            Some(p) => Some((p as usize, (p + t.len()) as usize)),
            None => match first_match(s, t, 0, if after <= s.len() { after } else { s.len() as int }) {
                Some(p) => Some((p as usize, (p + t.len()) as usize)),
                None => None,
            },
        }
    }
}

/// Largest selection end among the cursors (0 for none).
pub open spec fn max_selection_end(cs: Seq<Cursor>) -> usize
    decreases cs.len(),
{
    if cs.len() == 0 {
        0
    } else {
        let m = max_selection_end(cs.drop_last());
        if cursor_end(cs.last()) > m { cursor_end(cs.last()) } else { m }
    }
}

/// Some cursor's selection covers the span from `start` to `end`.
pub open spec fn span_covered(cs: Seq<Cursor>, start: usize, end: usize) -> bool {
    exists|i: int| 0 <= i < cs.len() && cursor_start(#[trigger] cs[i]) <= start && end <= cursor_end(cs[i])
}

pub proof fn lemma_first_match(s: Seq<char>, t: Seq<char>, p: int, limit: int)
    ensures
        first_match(s, t, p, limit) matches Some(q) ==> p <= q && q + t.len() <= limit && q + t.len()
            <= s.len() && matches_at(s, t, q),
    decreases limit - p,
{
    if !(p + t.len() > limit || p + t.len() > s.len() || p < 0) && !matches_at(s, t, p) && p + 1 <= limit {
        lemma_first_match(s, t, p + 1, limit);
    }
}

/// The first match the search from `p` finds is the first position from `p`
/// on at which `t` matches and ends no later than `limit`; no such position
/// when it finds none.
proof fn lemma_first_match_least(s: Seq<char>, t: Seq<char>, p: int, limit: int)
    requires
        0 <= p,
    ensures
        first_match(s, t, p, limit) matches Some(q) ==> forall|r: int| p <= r < q ==> !#[trigger] matches_at(s, t, r),
        first_match(s, t, p, limit) is None ==> forall|r: int|
            p <= r && r + t.len() <= limit ==> !#[trigger] matches_at(s, t, r),
    decreases limit - p,
{
    lemma_first_match(s, t, p, limit);
    if !(p + t.len() > limit || p + t.len() > s.len() || p < 0) && !matches_at(s, t, p) && p + 1 <= limit {
        lemma_first_match_least(s, t, p + 1, limit);
    }
}

/// There is no occurrence of empty text.
pub proof fn law_no_occurrence_of_empty_text(s: Seq<char>, t: Seq<char>, after: int)
    requires
        t.len() == 0,
    ensures
        next_occurrence(s, t, after) is None,
{
}

/// The text `t` stands in `s` at position `q`: the chars of `s` from `q`
/// for the length of `t` are those of `t`.
pub open spec fn text_at(s: Seq<char>, t: Seq<char>, q: int) -> bool {
    0 <= q && q + t.len() <= s.len() && forall|k: int| 0 <= k < t.len() ==> s[q + k] == #[trigger] t[k]
}

/// Ctrl+D finds the next occurrence of the selected text: when the text
/// occurs at or after `after`, the occurrence found is the first one that
/// starts at `after` or later (one that starts right at `after` included);
/// otherwise it is the first one that ends by `after`, if any; and what is
/// found is always an occurrence of the text, spanning its length.
pub proof fn law_next_occurrence_is_first(s: Seq<char>, t: Seq<char>, after: int)
    requires
        t.len() > 0,
        0 <= after,
        s.len() <= usize::MAX,
    ensures
        next_occurrence(s, t, after) matches Some((a, b)) ==> text_at(s, t, a as int) && b == a + t.len(),
        (exists|q: int| q >= after && #[trigger] text_at(s, t, q)) ==> (next_occurrence(s, t, after) matches Some(
            (a, b),
        ) && a >= after && forall|r: int| after <= r < a ==> !#[trigger] text_at(s, t, r)),
        (forall|q: int| q >= after ==> !#[trigger] text_at(s, t, q)) ==> (next_occurrence(s, t, after) is Some
            <==> exists|q: int| q + t.len() <= after && #[trigger] text_at(s, t, q)),
        (forall|q: int| q >= after ==> !#[trigger] text_at(s, t, q)) ==> (next_occurrence(s, t, after) matches Some(
            (a, b),
        ) ==> forall|r: int| 0 <= r < a ==> !#[trigger] text_at(s, t, r)),
{
    assert forall|q: int| #[trigger] text_at(s, t, q) == matches_at(s, t, q) by {
        if text_at(s, t, q) {
            assert(s.subrange(q, q + t.len()) =~= t);
        }
        if matches_at(s, t, q) {
            assert forall|k: int| 0 <= k < t.len() implies s[q + k] == #[trigger] t[k] by {
                assert(s.subrange(q, q + t.len())[k] == s[q + k]);
            }
        }
    }
    let lim = if after <= s.len() { after } else { s.len() as int };
    lemma_first_match(s, t, after, s.len() as int);
    lemma_first_match_least(s, t, after, s.len() as int);
    lemma_first_match(s, t, 0, lim);
    lemma_first_match_least(s, t, 0, lim);
    if exists|q: int| q >= after && #[trigger] text_at(s, t, q) {
        let q = choose|q: int| q >= after && #[trigger] text_at(s, t, q);
        assert(q + t.len() <= s.len());
    }
    if exists|q: int| q + t.len() <= after && #[trigger] text_at(s, t, q) {
        let q = choose|q: int| q + t.len() <= after && #[trigger] text_at(s, t, q);
        assert(q + t.len() <= lim);
        assert(matches_at(s, t, q));
    }
    match first_match(s, t, after, s.len() as int) {
        Some(q) => {
            assert(matches_at(s, t, q));
            assert(text_at(s, t, q));
        },
        None => {},
    }
    match first_match(s, t, 0, lim) {
        Some(q) => {
            assert(matches_at(s, t, q));
            assert(text_at(s, t, q));
        },
        None => {},
    }
}

pub proof fn lemma_word_run_left(s: Seq<char>, p: int)
    requires
        0 <= p <= s.len(),
    ensures
        0 <= word_run_left(s, p) <= p,
    decreases p,
{
    if 0 < p && is_word_char(s[p - 1]) {
        lemma_word_run_left(s, p - 1);
    }
}

pub proof fn lemma_word_run_right(s: Seq<char>, p: int)
    requires
        0 <= p <= s.len(),
    ensures
        p <= word_run_right(s, p) <= s.len(),
    decreases s.len() - p,
{
    if p < s.len() && is_word_char(s[p]) {
        lemma_word_run_right(s, p + 1);
    }
}

/// What typing `c` at the cursor does: the char goes in at the cursor
/// (clamped to the text), the cursor moves past it, and the insertion is
/// recorded.
pub open spec fn char_inserted(
    oh: EditHistoryState,
    nh: EditHistoryState,
    oc: CursorState,
    nc: CursorState,
    ot: TextViewState,
    nt: TextViewState,
    c: char,
) -> bool {
    let s = rope_chars(ot.rope);
    let p = min_usize(oc.cursor_pos, s.len() as usize) as int;
    let op = nh.history.undo_stack@.last();
    &&& nc.cursors == oc.cursors
    &&& rope_chars(nt.rope) == s.insert(p, c)
    &&& nc.cursor_pos == p + 1
    &&& nh.history.undo_stack@.drop_last() == oh.history.undo_stack@
    &&& nh.history.undo_stack@.len() == oh.history.undo_stack@.len() + 1
    &&& nh.history.redo_stack@.len() == 0
    &&& op.position == p
    &&& op.removed_text@ == Seq::<char>::empty()
    &&& op.inserted_text@ == seq![c]
    &&& op.cursor_before == oc.cursor_pos
    &&& op.cursor_after == p + 1
    &&& op.kind == EditKind::Insert
    &&& recorded_on(s, op)
    &&& rope_chars(nt.rope) == apply_op(s, op)
    &&& marked_line_dirty(nt, ot, p)
}

/// What deleting the char before the cursor (clamped to the text) does:
/// nothing at the start of the text; otherwise the char goes, the cursor
/// moves back over it, and the deletion is recorded.
pub open spec fn backspaced(
    oh: EditHistoryState,
    nh: EditHistoryState,
    oc: CursorState,
    nc: CursorState,
    ot: TextViewState,
    nt: TextViewState,
) -> bool {
    let s = rope_chars(ot.rope);
    let p = min_usize(oc.cursor_pos, s.len() as usize) as int;
    let op = nh.history.undo_stack@.last();
    if p > 0 {
        &&& nc.cursors == oc.cursors
        &&& rope_chars(nt.rope) == s.remove(p - 1)
        &&& nc.cursor_pos == p - 1
        &&& nh.history.undo_stack@.drop_last() == oh.history.undo_stack@
        &&& nh.history.undo_stack@.len() == oh.history.undo_stack@.len() + 1
        &&& nh.history.redo_stack@.len() == 0
        &&& op.position == p - 1
        &&& op.removed_text@ == seq![s[p - 1]]
        &&& op.inserted_text@ == Seq::<char>::empty()
        &&& op.cursor_before == oc.cursor_pos
        &&& op.cursor_after == p - 1
        &&& op.kind == EditKind::DeleteBackward
        &&& recorded_on(s, op)
        &&& rope_chars(nt.rope) == apply_op(s, op)
        &&& marked_line_dirty(nt, ot, p - 1)
    } else {
        &&& nt == ot
        &&& nh == oh
        &&& nc == oc
    }
}

/// What deleting the char at the cursor (clamped to the text) does: nothing
/// at the end of the text; otherwise the char goes, the cursor stays, and the
/// deletion is recorded.
pub open spec fn deleted_forward(
    oh: EditHistoryState,
    nh: EditHistoryState,
    oc: CursorState,
    nc: CursorState,
    ot: TextViewState,
    nt: TextViewState,
) -> bool {
    let s = rope_chars(ot.rope);
    let p = min_usize(oc.cursor_pos, s.len() as usize) as int;
    let op = nh.history.undo_stack@.last();
    if p < s.len() {
        &&& nc.cursors == oc.cursors
        &&& rope_chars(nt.rope) == s.remove(p)
        &&& nc.cursor_pos == p
        &&& nh.history.undo_stack@.drop_last() == oh.history.undo_stack@
        &&& nh.history.undo_stack@.len() == oh.history.undo_stack@.len() + 1
        &&& nh.history.redo_stack@.len() == 0
        &&& op.position == p
        &&& op.removed_text@ == seq![s[p]]
        &&& op.inserted_text@ == Seq::<char>::empty()
        &&& op.cursor_before == oc.cursor_pos
        &&& op.cursor_after == p
        &&& op.kind == EditKind::DeleteForward
        &&& recorded_on(s, op)
        &&& rope_chars(nt.rope) == apply_op(s, op)
        &&& marked_line_dirty(nt, ot, p)
    } else {
        &&& nt == ot
        &&& nh == oh
        &&& nc == oc
    }
}

/// What undoing the last recorded edit does: its inserted chars are replaced
/// by the chars it removed, the cursor goes back to where it was (clamped to
/// the text), the selection is dropped, and the edit becomes the next to redo.
/// Nothing happens, and `r` is false, when there is nothing to undo or the
/// edit does not fit the text.
pub open spec fn undone(
    os: SelectionState,
    ns: SelectionState,
    oh: EditHistoryState,
    nh: EditHistoryState,
    oc: CursorState,
    nc: CursorState,
    ot: TextViewState,
    nt: TextViewState,
    r: bool,
) -> bool {
    let s = rope_chars(ot.rope);
    let undo = oh.history.undo_stack@;
    if undo.len() > 0 && undoable_on(s, undo.last()) {
        let op = undo.last();
        &&& r
        &&& nc.cursors == oc.cursors
        &&& ns.selections == os.selections
        &&& rope_chars(nt.rope) == revert_op(s, op)
        &&& nc.cursor_pos == min_usize(op.cursor_before, revert_op(s, op).len() as usize)
        &&& ns.selection_start is None
        &&& ns.selection_end is None
        &&& nh.history.undo_stack@ == undo.drop_last()
        &&& nh.history.redo_stack@ == oh.history.redo_stack@.push(op)
        &&& marked_for_refresh(nt, ot)
    } else {
        &&& !r
        &&& nt == ot
        &&& nh == oh
        &&& nc == oc
        &&& ns == os
    }
}

/// What redoing the last undone edit does: its removed chars are replaced
/// again by the chars it inserted, the cursor goes to where the edit left it
/// (clamped to the text), the selection is dropped, and the edit becomes the
/// next to undo. Nothing happens, and `r` is false, when there is nothing to
/// redo or the edit does not fit the text.
pub open spec fn redone(
    os: SelectionState,
    ns: SelectionState,
    oh: EditHistoryState,
    nh: EditHistoryState,
    oc: CursorState,
    nc: CursorState,
    ot: TextViewState,
    nt: TextViewState,
    r: bool,
) -> bool {
    let s = rope_chars(ot.rope);
    let redo = oh.history.redo_stack@;
    if redo.len() > 0 && redoable_on(s, redo.last()) {
        let op = redo.last();
        &&& r
        &&& nc.cursors == oc.cursors
        &&& ns.selections == os.selections
        &&& rope_chars(nt.rope) == apply_op(s, op)
        &&& nc.cursor_pos == min_usize(op.cursor_after, apply_op(s, op).len() as usize)
        &&& ns.selection_start is None
        &&& ns.selection_end is None
        &&& nh.history.redo_stack@ == redo.drop_last()
        &&& nh.history.undo_stack@ == oh.history.undo_stack@.push(op)
        &&& marked_for_refresh(nt, ot)
    } else {
        &&& !r
        &&& nt == ot
        &&& nh == oh
        &&& nc == oc
        &&& ns == os
    }
}

/// The first cursor, if any, and its anchor lie within a text of `len` chars.
pub open spec fn primary_within(cs: Seq<Cursor>, len: int) -> bool {
    cs.len() > 0 ==> cs[0].position <= len && (cs[0].anchor is Some ==> cs[0].anchor->0 <= len)
}

/// What adding a cursor at the next occurrence does. Without a selection on
/// the first cursor, the word under it becomes its selection (and the
/// primary cursor follows). With one, the next occurrence of the selected
/// text after every cursor's selection (wrapping round) gets a new cursor
/// selecting it, unless some cursor's selection covers it already. `r` tells
/// whether anything changed.
pub open spec fn occurrence_added(
    os: SelectionState,
    ns: SelectionState,
    oc: CursorState,
    nc: CursorState,
    ot: TextViewState,
    nt: TextViewState,
    r: bool,
) -> bool {
    let s = rope_chars(ot.rope);
    let cs = oc.cursors@;
    let unchanged = !r && nc == oc && ns == os && nt == ot;
    if cs.len() == 0 {
        unchanged
    } else if !(cs[0].anchor is Some && cs[0].anchor->0 != cs[0].position) {
        match word_at(s, cs[0].position as int) {
            Some((a, b)) => {
                let c = Cursor { position: b, anchor: Some(a) };
                &&& r
                &&& nc.cursors@ == cs.update(0, c)
                &&& nc.cursor_pos == b
                &&& ns.selection_start == synced_start(c)
                &&& ns.selection_end == synced_end(c)
                &&& ns.selections == os.selections
                &&& nt == (TextViewState { pending_update: true, ..ot })
            },
            None => unchanged,
        }
    } else {
        let t = s.subrange(cursor_start(cs[0]) as int, cursor_end(cs[0]) as int);
        match next_occurrence(s, t, max_selection_end(cs) as int) {
            Some((a, b)) => if span_covered(cs, a, b) {
                unchanged
            } else {
                &&& r
                &&& nt == ot
                &&& cursors_merged_with(os, ns, oc, nc, Cursor { position: b, anchor: Some(a) })
            },
            None => unchanged,
        }
    }
}

impl CodeEditorState {
    /// The whole text as a `String`.
    pub fn text(&self, rope: &Rope) -> (r: String)
        ensures
            r@ == rope_chars(*rope),
    {
        let len = rope_len_chars(rope);
        let r = rope_slice_string(rope, 0, len);
        assert(rope_chars(*rope).subrange(0, len as int) =~= rope_chars(*rope));
        r
    }

    /// Number of lines of the text.
    pub fn line_count(&self, rope: &Rope) -> (r: usize)
        ensures
            r == line_count(rope_chars(*rope)),
    {
        rope_len_lines(rope)
    }

    /// Move the cursor by `delta` chars, stopping at the start and end of the
    /// text.
    pub fn move_cursor(&self, cursor: &mut CursorState, rope: &Rope, delta: isize)
        ensures
            final(cursor).cursors == old(cursor).cursors,
            final(cursor).cursor_pos == (if delta < 0 {
                if old(cursor).cursor_pos + delta >= 0 { old(cursor).cursor_pos + delta } else { 0 }
            } else {
                if old(cursor).cursor_pos + delta <= rope_chars(*rope).len() {
                    old(cursor).cursor_pos + delta
                } else {
                    rope_chars(*rope).len() as int
                }
            }),
    {
        if delta < 0 {
            let amount = ((-(delta + 1)) as usize) + 1;
            cursor.cursor_pos = cursor.cursor_pos.saturating_sub(amount);
        } else {
            let amount = delta as usize;
            let len = rope_len_chars(rope);
            let moved = cursor.cursor_pos.saturating_add(amount);
            cursor.cursor_pos = if moved <= len {
                moved
            } else {
                len
            };
        }
    }

    /// Kept for callers that report byte ranges of edits; it does nothing.
    pub fn record_edit(&self, _start_byte: usize, _old_end_byte: usize, _new_end_byte: usize) {
    }

    /// The word around `pos` (clamped to the text): the run of alphanumerics
    /// and `_` containing the char at `pos`.
    pub fn word_at_position(&self, rope: &Rope, pos: usize) -> (r: Option<(usize, usize)>)
        ensures
            r == word_at(rope_chars(*rope), pos as int),
            r matches Some((a, b)) ==> a <= b <= rope_chars(*rope).len() && a < b,
    {
        let ghost s = rope_chars(*rope);
        let len = rope_len_chars(rope);
        let pos = if pos <= len {
            pos
        } else {
            len
        };
        if pos >= len {
            return None;
        }
        let c = rope_char(rope, pos);
        if !word_char(c) {
            return None;
        }
        let mut start = pos;
        while start > 0
            invariant
                0 <= start <= pos < len == s.len(),
                s == rope_chars(*rope),
                word_run_left(s, start as int) == word_run_left(s, pos as int),
            ensures
                start == word_run_left(s, pos as int),
            decreases start,
        {
            let prev = rope_char(rope, start - 1);
            if word_char(prev) {
                start -= 1;
            } else {
                break;
            }
        }
        let mut end = pos;
        while end < len
            invariant
                pos <= end <= len == s.len(),
                s == rope_chars(*rope),
                word_run_right(s, end as int) == word_run_right(s, pos as int),
            ensures
                end == word_run_right(s, pos as int),
            decreases len - end,
        {
            let ch = rope_char(rope, end);
            if word_char(ch) {
                end += 1;
            } else {
                break;
            }
        }
        proof {
            lemma_word_run_left(s, pos as int);
            lemma_word_run_right(s, pos + 1);
            assert(word_run_right(s, pos as int) == word_run_right(s, pos + 1));
        }
        if start < end {
            Some((start, end))
        } else {
            None
        }
    }

    /// The next occurrence of `text` at or after `after_pos`, wrapping round
    /// to the start; none for an empty `text`.
    pub fn find_next_occurrence(&self, rope: &Rope, text: &str, after_pos: usize) -> (r: Option<
        (usize, usize),
    >)
        ensures
            r == next_occurrence(rope_chars(*rope), text@, after_pos as int),
    {
        let ghost s = rope_chars(*rope);
        let ghost t = text@;
        let text_len = text.unicode_len();
        if text_len == 0 {
            return None;
        }
        let rope_len = rope_len_chars(rope);
        proof {
            lemma_first_match(s, t, after_pos as int, s.len() as int);
            lemma_first_match(s, t, 0, if after_pos <= s.len() { after_pos as int } else { s.len() as int });
        }
        match self.search_between(rope, text, text_len, after_pos, rope_len) {
            Some(p) => {
                return Some((p, p + text_len));
            },
            None => {},
        }
        let limit = if after_pos <= rope_len {
            after_pos
        } else {
            rope_len
        };
        match self.search_between(rope, text, text_len, 0, limit) {
            Some(p) => Some((p, p + text_len)),
            None => None,
        }
    }

    /// First position from `from` on at which `text` occurs ending no later
    /// than `limit`.
    fn search_between(&self, rope: &Rope, text: &str, text_len: usize, from: usize, limit: usize) -> (r:
        Option<usize>)
        requires
            text_len == text@.len(),
            text_len > 0,
            limit <= rope_chars(*rope).len(),
        ensures
            r == (match first_match(rope_chars(*rope), text@, from as int, limit as int) {
                Some(p) => Some(p as usize),
                None => None::<usize>,
            }),
            r matches Some(p) ==> p + text_len <= limit,
    {
        let ghost s = rope_chars(*rope);
        let ghost t = text@;
        let mut pos = from;
        while text_len <= limit && pos <= limit - text_len
            invariant
                s == rope_chars(*rope),
                t == text@,
                text_len == t.len() > 0,
                limit <= s.len(),
                from <= pos,
                first_match(s, t, pos as int, limit as int) == first_match(s, t, from as int, limit as int),
            decreases limit - pos,
        {
            let mut matches = true;
            let mut i: usize = 0;
            while i < text_len
                invariant
                    s == rope_chars(*rope),
                    t == text@,
                    text_len == t.len(),
                    pos + text_len <= limit <= s.len(),
                    0 <= i <= text_len,
                    matches == (forall|k: int| 0 <= k < i ==> s[pos + k] == t[k]),
                decreases text_len - i,
            {
                if rope_char(rope, pos + i) != text.get_char(i) {
                    matches = false;
                }
                i += 1;
            }
            proof {
                if matches {
                    assert(s.subrange(pos as int, pos + t.len()) =~= t);
                } else {
                    let k = choose|k: int| 0 <= k < text_len && s[pos + k] != t[k];
                    assert(s.subrange(pos as int, pos + t.len())[k] != t[k]);
                }
            }
            if matches {
                return Some(pos);
            }
            pos += 1;
        }
        None
    }

    /// Add a cursor at the next occurrence of the primary selection (Ctrl+D).
    /// Without a selection, the word under the primary cursor is selected
    /// first; an occurrence already inside some cursor's selection adds
    /// nothing. Returns whether anything changed.
    pub fn add_cursor_at_next_occurrence(
        &self,
        sel: &mut SelectionState,
        cursor: &mut CursorState,
        tv: &mut TextViewState,
    ) -> (r: bool)
        requires
            primary_within(old(cursor).cursors@, rope_chars(old(tv).rope).len() as int),
        ensures
            occurrence_added(*old(sel), *final(sel), *old(cursor), *final(cursor), *old(tv), *final(tv), r),
    {
        let ghost s = rope_chars(tv.rope);
        let _len = rope_len_chars(&tv.rope);
        if cursor.cursors.len() == 0 {
            return false;
        }
        let primary = cursor.cursors[0];
        if !primary.has_selection() {
            match self.word_at_position(&tv.rope, primary.position) {
                Some((start, end)) => {
                    cursor.cursors.set(0, Cursor::with_selection(end, start));
                    sel.sync_primary_cursor(cursor);
                    tv.pending_update = true;
                    return true;
                },
                None => {
                    return false;
                },
            }
        }
        let start = primary.selection_start();
        let end = primary.selection_end();
        assert(cursor.cursors@[0] == primary);
        let search_text = rope_slice_string(&tv.rope, start, end);
        if search_text.unicode_len() == 0 {
            return false;
        }
        let mut search_from: usize = 0;
        let mut i: usize = 0;
        assert(cursor.cursors@.take(0) =~= Seq::<Cursor>::empty());
        while i < cursor.cursors.len()
            invariant
                0 <= i <= cursor.cursors@.len(),
                search_from == max_selection_end(cursor.cursors@.take(i as int)),
            decreases cursor.cursors@.len() - i,
        {
            assert(cursor.cursors@.take(i + 1).drop_last() =~= cursor.cursors@.take(i as int));
            let e = cursor.cursors[i].selection_end();
            if e > search_from {
                search_from = e;
            }
            i += 1;
        }
        assert(cursor.cursors@.take(cursor.cursors@.len() as int) =~= cursor.cursors@);
        let found = self.find_next_occurrence(&tv.rope, search_text.as_str(), search_from);
        proof {
            lemma_first_match(s, search_text@, search_from as int, s.len() as int);
            lemma_first_match(s, search_text@, 0, if search_from <= s.len() { search_from as int } else { s.len() as int });
        }
        match found {
            Some((found_start, found_end)) => {
                let mut covered = false;
                let mut k: usize = 0;
                while k < cursor.cursors.len()
                    invariant
                        0 <= k <= cursor.cursors@.len(),
                        covered == exists|j: int|
                            0 <= j < k && cursor_start(#[trigger] cursor.cursors@[j]) <= found_start
                                && found_end <= cursor_end(cursor.cursors@[j]),
                    decreases cursor.cursors@.len() - k,
                {
                    let c = cursor.cursors[k];
                    if found_start >= c.selection_start() && found_end <= c.selection_end() {
                        covered = true;
                    }
                    proof {
                        if !covered {
                            assert forall|j: int| 0 <= j < k + 1 implies !(cursor_start(
                                #[trigger] cursor.cursors@[j],
                            ) <= found_start && found_end <= cursor_end(cursor.cursors@[j])) by {
                                if j == k {
                                    assert(cursor.cursors@[j] == c);
                                }
                            }
                        }
                    }
                    k += 1;
                }
                if !covered {
                    proof {
                        let t = search_text@;
                        let lim = if search_from <= s.len() { search_from as int } else { s.len() as int };
                        if first_match(s, t, search_from as int, s.len() as int) is Some {
                            let q = first_match(s, t, search_from as int, s.len() as int)->0;
                            assert(found_start == q && found_end == q + t.len());
                        } else {
                            let q = first_match(s, t, 0, lim)->0;
                            assert(found_start == q && found_end == q + t.len());
                        }
                        assert(found_end <= s.len());
                        assert(min_usize(found_end, s.len() as usize) == found_end);
                        assert(min_usize(found_start, s.len() as usize) == found_start);
                    }
                    sel.add_cursor_with_selection(cursor, tv, found_end, found_start);
                    return true;
                }
                false
            },
            None => false,
        }
    }

    /// Type `c` at the cursor (clamped to the text): the cursor moves past it
    /// and the insertion is recorded.
    pub fn insert_char(&self, hist: &mut EditHistoryState, cursor: &mut CursorState, tv: &mut TextViewState, c: char)
        ensures
            char_inserted(*old(hist), *final(hist), *old(cursor), *final(cursor), *old(tv), *final(tv), c),
    {
        let ghost s = rope_chars(tv.rope);
        let len = rope_len_chars(&tv.rope);
        let cursor_before = cursor.cursor_pos;
        let pos = if cursor_before <= len {
            cursor_before
        } else {
            len
        };
        rope_insert_char(&mut tv.rope, pos, c);
        let _new_len = rope_len_chars(&tv.rope);
        let inserted = rope_slice_string(&tv.rope, pos, pos + 1);
        cursor.cursor_pos = pos + 1;
        let op = EditOperation {
            removed_text: String::new(),
            inserted_text: inserted,
            position: pos,
            cursor_before,
            cursor_after: pos + 1,
            kind: EditKind::Insert,
        };
        proof {
            assert(op.inserted_text@ =~= seq![c]);
            assert(s.subrange(pos as int, pos as int) =~= Seq::<char>::empty());
            assert(apply_op(s, op) =~= s.insert(pos as int, c));
        }
        hist.history.record(op);
        assert(hist.history.undo_stack@.drop_last() =~= old(hist).history.undo_stack@);
        mark_line_dirty(tv, pos);
    }


    /// Delete the char before the cursor (clamped to the text), if any, and
    /// record it.
    pub fn delete_backward(&self, hist: &mut EditHistoryState, cursor: &mut CursorState, tv: &mut TextViewState)
        ensures
            backspaced(*old(hist), *final(hist), *old(cursor), *final(cursor), *old(tv), *final(tv)),
    {
        let ghost s = rope_chars(tv.rope);
        let len = rope_len_chars(&tv.rope);
        let cursor_before = cursor.cursor_pos;
        let pos = if cursor_before <= len {
            cursor_before
        } else {
            len
        };
        if pos == 0 {
            return;
        }
        let removed = rope_slice_string(&tv.rope, pos - 1, pos);
        rope_remove(&mut tv.rope, pos - 1, pos);
        cursor.cursor_pos = pos - 1;
        let op = EditOperation {
            removed_text: removed,
            inserted_text: String::new(),
            position: pos - 1,
            cursor_before,
            cursor_after: pos - 1,
            kind: EditKind::DeleteBackward,
        };
        proof {
            assert(op.removed_text@ =~= seq![s[pos - 1]]);
            assert(apply_op(s, op) =~= s.remove(pos - 1));
            assert(rope_chars(tv.rope) =~= s.remove(pos - 1));
        }
        hist.history.record(op);
        assert(hist.history.undo_stack@.drop_last() =~= old(hist).history.undo_stack@);
        mark_line_dirty(tv, pos - 1);
    }


    /// Delete the char at the cursor (clamped to the text), if any, and record
    /// it; the cursor stays.
    pub fn delete_forward(&self, hist: &mut EditHistoryState, cursor: &mut CursorState, tv: &mut TextViewState)
        ensures
            deleted_forward(*old(hist), *final(hist), *old(cursor), *final(cursor), *old(tv), *final(tv)),
    {
        let ghost s = rope_chars(tv.rope);
        let len = rope_len_chars(&tv.rope);
        let cursor_before = cursor.cursor_pos;
        let pos = if cursor_before <= len {
            cursor_before
        } else {
            len
        };
        if pos >= len {
            return;
        }
        let removed = rope_slice_string(&tv.rope, pos, pos + 1);
        rope_remove(&mut tv.rope, pos, pos + 1);
        cursor.cursor_pos = pos;
        let op = EditOperation {
            removed_text: removed,
            inserted_text: String::new(),
            position: pos,
            cursor_before,
            cursor_after: pos,
            kind: EditKind::DeleteForward,
        };
        proof {
            assert(op.removed_text@ =~= seq![s[pos as int]]);
            assert(apply_op(s, op) =~= s.remove(pos as int));
            assert(rope_chars(tv.rope) =~= s.remove(pos as int));
        }
        hist.history.record(op);
        assert(hist.history.undo_stack@.drop_last() =~= old(hist).history.undo_stack@);
        mark_line_dirty(tv, pos);
    }


    /// Undo the last recorded edit: its inserted chars are replaced by the
    /// chars it removed, the cursor goes back to where it was, the selection
    /// is dropped, and the edit becomes the next to redo. Nothing happens, and
    /// `false` comes back, when there is nothing to undo or the edit does not
    /// fit the text.
    pub fn undo(&self, sel: &mut SelectionState, hist: &mut EditHistoryState, cursor: &mut CursorState, tv: &mut TextViewState) -> (r: bool)
        ensures
            undone(*old(sel), *final(sel), *old(hist), *final(hist), *old(cursor), *final(cursor), *old(tv), *final(tv), r),
    {
        let len = rope_len_chars(&tv.rope);
        let n = hist.history.undo_stack.len();
        if n == 0 {
            return false;
        }
        let inserted_len = hist.history.undo_stack[n - 1].inserted_text.unicode_len();
        let position = hist.history.undo_stack[n - 1].position;
        if inserted_len > len || position > len - inserted_len {
            return false;
        }
        let ghost s = rope_chars(tv.rope);
        let op = hist.history.undo_stack.pop().unwrap();
        rope_remove(&mut tv.rope, op.position, op.position + inserted_len);
        rope_insert(&mut tv.rope, op.position, op.removed_text.as_str());
        assert(rope_chars(tv.rope) =~= revert_op(s, op));
        let new_len = rope_len_chars(&tv.rope);
        cursor.cursor_pos = if op.cursor_before <= new_len {
            op.cursor_before
        } else {
            new_len
        };
        sel.selection_start = None;
        sel.selection_end = None;
        hist.history.redo_stack.push(op);
        mark_for_refresh(tv);
        true
    }


    /// Redo the last undone edit: its removed chars are replaced again by the
    /// chars it inserted, the cursor goes to where the edit left it, the
    /// selection is dropped, and the edit becomes the next to undo. Nothing
    /// happens, and `false` comes back, when there is nothing to redo or the
    /// edit does not fit the text.
    pub fn redo(&self, sel: &mut SelectionState, hist: &mut EditHistoryState, cursor: &mut CursorState, tv: &mut TextViewState) -> (r: bool)
        ensures
            redone(*old(sel), *final(sel), *old(hist), *final(hist), *old(cursor), *final(cursor), *old(tv), *final(tv), r),
    {
        let len = rope_len_chars(&tv.rope);
        let n = hist.history.redo_stack.len();
        if n == 0 {
            return false;
        }
        let removed_len = hist.history.redo_stack[n - 1].removed_text.unicode_len();
        let position = hist.history.redo_stack[n - 1].position;
        if removed_len > len || position > len - removed_len {
            return false;
        }
        let ghost s = rope_chars(tv.rope);
        let op = hist.history.redo_stack.pop().unwrap();
        rope_remove(&mut tv.rope, op.position, op.position + removed_len);
        rope_insert(&mut tv.rope, op.position, op.inserted_text.as_str());
        assert(rope_chars(tv.rope) =~= apply_op(s, op));
        let new_len = rope_len_chars(&tv.rope);
        cursor.cursor_pos = if op.cursor_after <= new_len {
            op.cursor_after
        } else {
            new_len
        };
        sel.selection_start = None;
        sel.selection_end = None;
        hist.history.undo_stack.push(op);
        mark_for_refresh(tv);
        true
    }
}

/// Typing a char and then undoing gives back the text it was typed into,
/// the history as it was, and the cursor where it stood (clamped to the text).
pub proof fn law_undo_typing(
    os: SelectionState,
    ns: SelectionState,
    h0: EditHistoryState,
    h1: EditHistoryState,
    h2: EditHistoryState,
    c0: CursorState,
    c1: CursorState,
    c2: CursorState,
    t0: TextViewState,
    t1: TextViewState,
    t2: TextViewState,
    c: char,
    r: bool,
)
    requires
        char_inserted(h0, h1, c0, c1, t0, t1, c),
        undone(os, ns, h1, h2, c1, c2, t1, t2, r),
    ensures
        r,
        rope_chars(t2.rope) == rope_chars(t0.rope),
        h2.history.undo_stack@ == h0.history.undo_stack@,
        c2.cursor_pos == min_usize(c0.cursor_pos, rope_chars(t0.rope).len() as usize),
{
    let op = h1.history.undo_stack@.last();
    crate::history::law_undo_restores(rope_chars(t0.rope), op);
}

/// Deleting the char before the cursor and then undoing gives back the text
/// and the history as they were.
pub proof fn law_undo_backspace(
    os: SelectionState,
    ns: SelectionState,
    h0: EditHistoryState,
    h1: EditHistoryState,
    h2: EditHistoryState,
    c0: CursorState,
    c1: CursorState,
    c2: CursorState,
    t0: TextViewState,
    t1: TextViewState,
    t2: TextViewState,
    r: bool,
)
    requires
        backspaced(h0, h1, c0, c1, t0, t1),
        undone(os, ns, h1, h2, c1, c2, t1, t2, r),
        h1 != h0,
    ensures
        r,
        rope_chars(t2.rope) == rope_chars(t0.rope),
        h2.history.undo_stack@ == h0.history.undo_stack@,
        c2.cursor_pos == min_usize(c0.cursor_pos, rope_chars(t0.rope).len() as usize),
{
    let op = h1.history.undo_stack@.last();
    crate::history::law_undo_restores(rope_chars(t0.rope), op);
}

/// Deleting the char at the cursor and then undoing gives back the text and
/// the history as they were.
pub proof fn law_undo_delete_forward(
    os: SelectionState,
    ns: SelectionState,
    h0: EditHistoryState,
    h1: EditHistoryState,
    h2: EditHistoryState,
    c0: CursorState,
    c1: CursorState,
    c2: CursorState,
    t0: TextViewState,
    t1: TextViewState,
    t2: TextViewState,
    r: bool,
)
    requires
        deleted_forward(h0, h1, c0, c1, t0, t1),
        undone(os, ns, h1, h2, c1, c2, t1, t2, r),
        h1 != h0,
    ensures
        r,
        rope_chars(t2.rope) == rope_chars(t0.rope),
        h2.history.undo_stack@ == h0.history.undo_stack@,
        c2.cursor_pos == min_usize(c0.cursor_pos, rope_chars(t0.rope).len() as usize),
{
    let op = h1.history.undo_stack@.last();
    crate::history::law_undo_restores(rope_chars(t0.rope), op);
}

/// Undoing and then redoing gives back the text and both stacks as they were,
/// wherever the edit to undo is in effect on the text.
pub proof fn law_redo_after_undo(
    s0: SelectionState,
    s1: SelectionState,
    s2: SelectionState,
    h0: EditHistoryState,
    h1: EditHistoryState,
    h2: EditHistoryState,
    c0: CursorState,
    c1: CursorState,
    c2: CursorState,
    t0: TextViewState,
    t1: TextViewState,
    t2: TextViewState,
    r1: bool,
    r2: bool,
)
    requires
        undone(s0, s1, h0, h1, c0, c1, t0, t1, r1),
        redone(s1, s2, h1, h2, c1, c2, t1, t2, r2),
        h0.history.undo_stack@.len() > 0,
        in_effect_on(rope_chars(t0.rope), h0.history.undo_stack@.last()),
    ensures
        r2,
        rope_chars(t2.rope) == rope_chars(t0.rope),
        h2.history.undo_stack@ == h0.history.undo_stack@,
        h2.history.redo_stack@ == h0.history.redo_stack@,
{
    let op = h0.history.undo_stack@.last();
    let s = rope_chars(t0.rope);
    crate::history::law_undo_then_redo(s, op);
    assert(h1.history.redo_stack@.last() == op);
    assert(h0.history.undo_stack@.drop_last().push(op) =~= h0.history.undo_stack@);
}

} // verus!
