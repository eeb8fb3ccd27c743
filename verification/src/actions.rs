//! Editing actions: typing with auto-closed brackets, deleting the
//! selection, accepting completions, and the dispatch of key-bound actions.

use vstd::prelude::*;
use ropey::Rope;
use crate::text::{
    breaks_before, lemma_line_of, lemma_line_start_mono, line_count, line_start,
    rope_char, rope_char_to_line, rope_chars, rope_insert, rope_insert_char, rope_len_chars,
    rope_len_lines, rope_line_len, rope_line_to_char, rope_remove, rope_slice_string,
    TextViewState,
};
use crate::types::CursorState;
use crate::selection::{cursor_added, min_usize, secondary_cleared, synced_cursor_seq, SelectionState};
use crate::types::{set_fold_at, toggle_fold_at, with_folded, FoldRegion, FoldState};
use crate::editor::{occurrence_added, undone, redone};
use crate::history::{recorded_on, apply_op, EditHistoryState, EditKind, EditOperation};
use crate::editor::{
    char_inserted, marked_for_refresh, marked_line_dirty, mark_for_refresh, mark_line_dirty,
    word_run_left, CodeEditorState,
};
use crate::cursor::{
    is_deletion, pos_down, pos_up, pos_line_start, pos_line_end, word_boundary_left,
    word_boundary_right, word_char, init_selection, move_cursor_up, move_cursor_down,
    move_cursor_line_start, move_cursor_line_end, move_cursor_word_left, move_cursor_word_right,
};
use crate::settings::{IndentationSettings, LspSettings};
use crate::keybindings::EditorAction;
use crate::cursor::{word_deleted_backward, word_deleted_forward, delete_word_backward, delete_word_forward};
use crate::editor::{backspaced, deleted_forward};
use crate::completion::{opt_chars, scrolled_into_view};
use crate::search::{all_matches, next_match_index, previous_match_index, FindMatch, FindState, GotoLineState};
use crate::cursor::is_word_char;
use crate::editor::word_run_right;
use crate::completion::{
    insert_chars, CompletionState, LspRequest, LspSyncState, document_words,
    word_strings,
};

verus! {

/// What executing an action changed.
#[derive(Clone, Copy, Debug, PartialEq, Eq, Structural)]
pub struct ActionResult {
    /// Whether the text changed.
    pub text_changed: bool,
    /// Whether the cursor moved sideways (which dismisses completion).
    pub horizontal_move: bool,
}

/// The closing bracket paired with `open` in `pairs` (the first pair that
/// opens with it).
pub open spec fn closing_bracket(open: char, pairs: Seq<(char, char)>) -> Option<char>
    decreases pairs.len(),
{
    if pairs.len() == 0 {
        None
    } else if pairs[0].0 == open {
        Some(pairs[0].1)
    } else {
        closing_bracket(open, pairs.drop_first())
    }
}

/// The closing bracket for an opening bracket.
pub fn get_closing_bracket(open: char, pairs: &[(char, char)]) -> (r: Option<char>)
    ensures
        r == closing_bracket(open, pairs@),
{
    let mut i: usize = 0;
    assert(pairs@.skip(0) =~= pairs@);
    while i < pairs.len()
        invariant
            0 <= i <= pairs@.len(),
            closing_bracket(open, pairs@.skip(i as int)) == closing_bracket(open, pairs@),
        decreases pairs@.len() - i,
    {
        assert(pairs@.skip(i as int).drop_first() =~= pairs@.skip(i + 1));
        if pairs[i].0 == open {
            return Some(pairs[i].1);
        }
        i += 1;
    }
    assert(pairs@.skip(i as int).len() == 0);
    None
}

/// Quotes close themselves: the closing quote of `"`, `'` and `` ` `` is the
/// same char.
pub fn get_closing_quote(c: char) -> (r: Option<char>)
    ensures
        r == (if c == '"' || c == '\'' || c == '`' { Some(c) } else { None::<char> }),
{
    if c == '"' || c == '\'' || c == '`' {
        Some(c)
    } else {
        None
    }
}

/// Whether typing `closing` should step over the same char at the cursor
/// instead of inserting another.
pub fn should_skip_auto_close(cursor: &CursorState, rope: &Rope, closing: char) -> (r: bool)
    ensures
        r == (cursor.cursor_pos < rope_chars(*rope).len() && rope_chars(*rope)[cursor.cursor_pos as int]
            == closing),
{
    let cursor_pos = cursor.cursor_pos;
    if cursor_pos >= rope_len_chars(rope) {
        return false;
    }
    rope_char(rope, cursor_pos) == closing
}

/// Insert a closing char at the cursor (clamped to the text) without moving
/// the cursor, for auto-closed brackets and quotes.
pub fn insert_closing_char(state: &mut CodeEditorState, cursor: &CursorState, tv: &mut TextViewState, c: char)
    ensures
        *final(state) == *old(state),
        ({
            let s = rope_chars(old(tv).rope);
            let p = min_usize(cursor.cursor_pos, s.len() as usize) as int;
            &&& rope_chars(final(tv).rope) == s.insert(p, c)
            &&& marked_line_dirty(*final(tv), *old(tv), p)
        }),
{
    let len = rope_len_chars(&tv.rope);
    let cursor_pos = if cursor.cursor_pos <= len {
        cursor.cursor_pos
    } else {
        len
    };
    rope_insert_char(&mut tv.rope, cursor_pos, c);
    mark_line_dirty(tv, cursor_pos);
}

/// Start of the identifier that ends at `cursor_pos`.
pub fn find_word_start(rope: &Rope, cursor_pos: usize) -> (r: usize)
    requires
        cursor_pos <= rope_chars(*rope).len(),
    ensures
        r == word_run_left(rope_chars(*rope), cursor_pos as int),
        r <= cursor_pos,
{
    let ghost s = rope_chars(*rope);
    proof {
        crate::editor::lemma_word_run_left(s, cursor_pos as int);
    }
    let mut pos = cursor_pos;
    while pos > 0
        invariant
            0 <= pos <= cursor_pos <= s.len(),
            s == rope_chars(*rope),
            word_run_left(s, pos as int) == word_run_left(s, cursor_pos as int),
        ensures
            pos == word_run_left(s, cursor_pos as int),
        decreases pos,
    {
        if word_char(rope_char(rope, pos - 1)) {
            pos -= 1;
        } else {
            break;
        }
    }
    pos
}

/// The selected span, start first, when both ends are set.
pub open spec fn selection_span(sel: SelectionState) -> Option<(int, int)> {
    match (sel.selection_start, sel.selection_end) {
        (Some(a), Some(b)) => Some(if a <= b { (a as int, b as int) } else { (b as int, a as int) }),
        _ => None,
    }
}

/// The selection, if any, lies within a text of `len` chars.
pub open spec fn selection_fits(sel: SelectionState, len: int) -> bool {
    match selection_span(sel) {
        Some((a, b)) => b <= len,
        None => true,
    }
}

/// What deleting the selection does: nothing without one; otherwise its
/// chars go, the cursor moves to where they started, the selection is
/// dropped, the display is refreshed, and, when `record` and chars went, the
/// deletion is recorded.
pub open spec fn selection_deleted(
    os: SelectionState,
    ns: SelectionState,
    oh: EditHistoryState,
    nh: EditHistoryState,
    oc: CursorState,
    nc: CursorState,
    ot: TextViewState,
    nt: TextViewState,
    record: bool,
) -> bool {
    match selection_span(os) {
        None => ns == os && nh == oh && nc == oc && nt == ot,
        Some((a, b)) => {
            let s = rope_chars(ot.rope);
            &&& rope_chars(nt.rope) == s.take(a) + s.skip(b)
            &&& nc.cursor_pos == a
            &&& nc.cursors == oc.cursors
            &&& ns.selection_start is None
            &&& ns.selection_end is None
            &&& ns.selections == os.selections
            &&& if record && a < b {
                &&& nh.history.undo_stack@.len() == oh.history.undo_stack@.len() + 1
                &&& nh.history.undo_stack@.drop_last() == oh.history.undo_stack@
                &&& nh.history.redo_stack@.len() == 0
                &&& is_deletion(nh.history.undo_stack@.last(), s, a, b, oc.cursor_pos as int, a, EditKind::Other)
                &&& recorded_on(s, nh.history.undo_stack@.last())
                &&& rope_chars(nt.rope) == apply_op(s, nh.history.undo_stack@.last())
            } else {
                nh == oh
            }
            &&& marked_for_refresh(nt, ot)
        },
    }
}

/// Delete the selected text and record the deletion.
pub fn delete_selection(
    state: &mut CodeEditorState,
    sel: &mut SelectionState,
    hist: &mut EditHistoryState,
    cursor: &mut CursorState,
    tv: &mut TextViewState,
)
    requires
        selection_fits(*old(sel), rope_chars(old(tv).rope).len() as int),
    ensures
        *final(state) == *old(state),
        selection_deleted(*old(sel), *final(sel), *old(hist), *final(hist), *old(cursor), *final(cursor), *old(tv), *final(tv), true),
{
    delete_selection_with_history(state, sel, hist, cursor, tv, true);
}

/// Delete the selected text, recording the deletion when `record_history`.
fn delete_selection_with_history(
    state: &mut CodeEditorState,
    sel: &mut SelectionState,
    hist: &mut EditHistoryState,
    cursor: &mut CursorState,
    tv: &mut TextViewState,
    record_history: bool,
)
    requires
        selection_fits(*old(sel), rope_chars(old(tv).rope).len() as int),
    ensures
        *final(state) == *old(state),
        selection_deleted(*old(sel), *final(sel), *old(hist), *final(hist), *old(cursor), *final(cursor), *old(tv), *final(tv), record_history),
{
    match (sel.selection_start, sel.selection_end) {
        (Some(start), Some(end)) => {
            let ghost s = rope_chars(tv.rope);
            let (start, end) = if start <= end {
                (start, end)
            } else {
                (end, start)
            };
            let cursor_before = cursor.cursor_pos;
            let deleted_text = rope_slice_string(&tv.rope, start, end);
            let n = deleted_text.unicode_len();
            rope_remove(&mut tv.rope, start, end);
            cursor.cursor_pos = start;
            if record_history && n > 0 {
                let op = EditOperation {
                    removed_text: deleted_text,
                    inserted_text: String::new(),
                    position: start,
                    cursor_before,
                    cursor_after: start,
                    kind: EditKind::Other,
                };
                proof {
                    assert(apply_op(s, op) =~= s.take(start as int) + s.skip(end as int));
                }
                hist.history.record(op);
                assert(hist.history.undo_stack@.drop_last() =~= old(hist).history.undo_stack@);
            }
            sel.selection_start = None;
            sel.selection_end = None;
            mark_for_refresh(tv);
        },
        _ => {},
    }
}

/// What typing `c` does: the selection, if any, is deleted first, then the
/// char is typed at the cursor.
pub open spec fn typed(
    os: SelectionState,
    ns: SelectionState,
    oh: EditHistoryState,
    nh: EditHistoryState,
    oc: CursorState,
    nc: CursorState,
    ot: TextViewState,
    nt: TextViewState,
    c: char,
) -> bool {
    exists|ms: SelectionState, mh: EditHistoryState, mc: CursorState, mt: TextViewState|
        #![trigger selection_deleted(os, ms, oh, mh, oc, mc, ot, mt, true)]
        selection_deleted(os, ms, oh, mh, oc, mc, ot, mt, true) && ns == ms && char_inserted(mh, nh, mc, nc, mt, nt, c)
}

/// Type `c` at the cursor, replacing the selection if there is one.
pub fn insert_char(
    state: &mut CodeEditorState,
    sel: &mut SelectionState,
    hist: &mut EditHistoryState,
    cursor: &mut CursorState,
    tv: &mut TextViewState,
    c: char,
)
    requires
        selection_fits(*old(sel), rope_chars(old(tv).rope).len() as int),
    ensures
        *final(state) == *old(state),
        typed(*old(sel), *final(sel), *old(hist), *final(hist), *old(cursor), *final(cursor), *old(tv), *final(tv), c),
{
    if sel.selection_start.is_some() && sel.selection_end.is_some() {
        delete_selection(state, sel, hist, cursor, tv);
    }
    let ghost ms = *sel;
    let ghost mh = *hist;
    let ghost mc = *cursor;
    let ghost mt = *tv;
    state.insert_char(hist, cursor, tv, c);
    assert(selection_deleted(*old(sel), ms, *old(hist), mh, *old(cursor), mc, *old(tv), mt, true));
}

/// The completion filter after the cursor moved or text was typed: the text
/// from where completion started to the cursor (clamped to the text).
pub fn update_completion_filter(cursor: &CursorState, rope: &Rope, completion_state: &mut CompletionState)
    ensures
        final(completion_state).items == old(completion_state).items,
        final(completion_state).word_items == old(completion_state).word_items,
        final(completion_state).visible == old(completion_state).visible,
        final(completion_state).start_char_index == old(completion_state).start_char_index,
        final(completion_state).is_incomplete == old(completion_state).is_incomplete,
        final(completion_state).scroll_offset == 0,
        ({
            let s = rope_chars(*rope);
            let p = min_usize(cursor.cursor_pos, s.len() as usize) as int;
            let b = old(completion_state).start_char_index as int;
            if p > b && b <= s.len() {
                &&& final(completion_state).filter@ == s.subrange(b, p)
                &&& final(completion_state).selected_index == 0
            } else {
                &&& final(completion_state).filter@.len() == 0
                &&& final(completion_state).selected_index == old(completion_state).selected_index
            }
        }),
{
    let len = rope_len_chars(rope);
    let cursor_pos = if cursor.cursor_pos <= len {
        cursor.cursor_pos
    } else {
        len
    };
    let start = completion_state.start_char_index;
    if cursor_pos > start && start <= len {
        completion_state.filter = rope_slice_string(rope, start, cursor_pos);
        completion_state.selected_index = 0;
        completion_state.scroll_offset = 0;
    } else {
        completion_state.filter = String::new();
        completion_state.scroll_offset = 0;
    }
}

/// Text that accepting the selected completion inserts, if a row is selected.
pub open spec fn chosen_text(cs: CompletionState) -> Option<Seq<char>> {
    let k = cs.selected_index as int;
    let io = cs.item_order();
    let wo = cs.word_order();
    if k < io.len() {
        Some(insert_chars((false, cs.items@[io[k] as int]@)))
    } else if k < io.len() + wo.len() {
        Some(cs.word_items@[wo[k - io.len()] as int].word@)
    } else {
        None
    }
}

/// What accepting the selected completion does: the text from where
/// completion started to the cursor is replaced by the item's text and the
/// cursor moves past it (when that span lies in the text); the popup closes
/// either way.
pub open spec fn completion_applied(
    oc: CursorState,
    nc: CursorState,
    ot: TextViewState,
    nt: TextViewState,
    ocs: CompletionState,
    ncs: CompletionState,
) -> bool {
    &&& nc.cursors == oc.cursors
    &&& !ncs.visible
    &&& ncs.filter@.len() == 0
    &&& ncs.scroll_offset == 0
    &&& ncs.items == ocs.items
    &&& ncs.word_items == ocs.word_items
    &&& ncs.selected_index == ocs.selected_index
    &&& ncs.start_char_index == ocs.start_char_index
    &&& ncs.is_incomplete == ocs.is_incomplete
    &&& ({
        let s = rope_chars(ot.rope);
        let b = ocs.start_char_index as int;
        let e = oc.cursor_pos as int;
        match chosen_text(ocs) {
            Some(t) => if b <= e && e <= s.len() {
                let ns = s.take(b) + t + s.skip(e);
                let l = breaks_before(ns, b) as int;
                let n = line_count(ns) as int;
                &&& rope_chars(nt.rope) == ns
                &&& nc.cursor_pos == b + t.len()
                &&& nt.needs_update
                &&& !nt.pending_update
                &&& nt.content_version == ot.content_version.wrapping_add(1)
                &&& nt.dirty_lines == Some(
                    (std::ops::Range { start: l as usize, end: (if l + 1 <= n { l + 1 } else { n }) as usize }),
                )
                &&& nt.previous_line_count == n
            } else {
                nt == ot && nc == oc
            },
            None => nt == ot && nc == oc,
        }
    })
}

/// Accept the selected completion: the text from where completion started to
/// the cursor is replaced by the item's text and the cursor moves past it
/// (when that span lies in the text); the popup closes either way.
pub fn apply_completion(
    state: &mut CodeEditorState,
    cursor: &mut CursorState,
    tv: &mut TextViewState,
    completion_state: &mut CompletionState,
)
    ensures
        *final(state) == *old(state),
        completion_applied(*old(cursor), *final(cursor), *old(tv), *final(tv), *old(completion_state), *final(completion_state)),
{
    let filtered = completion_state.filtered_items();
    let k = completion_state.selected_index;
    if k < filtered.len() {
        let ghost s = rope_chars(tv.rope);
        let start = completion_state.start_char_index;
        let end = cursor.cursor_pos;
        let len = rope_len_chars(&tv.rope);
        let insert_text = filtered[k].insert_text();
        proof {
            let io = completion_state.item_order();
            if (k as int) < io.len() {
                assert(filtered@[k as int]@ == (false, completion_state.items@[io[k as int] as int]@));
            } else {
                let j = k - io.len();
                assert(filtered@[io.len() + j]@ == crate::completion::word_view(
                    completion_state.word_items@[completion_state.word_order()[j] as int].word@,
                ));
            }
        }
        if start <= end && end <= len {
            let n = insert_text.unicode_len();
            rope_remove(&mut tv.rope, start, end);
            rope_insert(&mut tv.rope, start, insert_text);
            let new_len = rope_len_chars(&tv.rope);
            assert(rope_chars(tv.rope) =~= s.take(start as int) + insert_text@ + s.skip(end as int));
            cursor.cursor_pos = start + n;
            proof {
                lemma_line_of(rope_chars(tv.rope), start as int);
            }
            let line_idx = rope_char_to_line(&tv.rope, start);
            let new_line_count = rope_len_lines(&tv.rope);
            tv.needs_update = true;
            tv.pending_update = false;
            tv.content_version = tv.content_version.wrapping_add(1);
            let dirty_end = if line_idx < new_line_count {
                line_idx + 1
            } else {
                new_line_count
            };
            tv.dirty_lines = Some(line_idx..dirty_end);
            tv.previous_line_count = new_line_count;
        }
    }
    completion_state.visible = false;
    completion_state.filter = String::new();
    completion_state.scroll_offset = 0;
}

/// What asking for completion does to the popup: when it was hidden it
/// starts afresh at the cursor (clamped to the text) with no server items;
/// the document's words are collected again and the popup shows.
pub open spec fn completion_requested(oc: CompletionState, nc: CompletionState, s: Seq<char>, cursor_pos: usize) -> bool {
    let p = min_usize(cursor_pos, s.len() as usize);
    &&& nc.visible
    &&& word_strings(nc.word_items@) == document_words(s, p as int)
    &&& nc.is_incomplete == oc.is_incomplete
    &&& nc.scroll_offset == oc.scroll_offset
    &&& if oc.visible {
        &&& nc.start_char_index == oc.start_char_index
        &&& nc.items == oc.items
        &&& nc.selected_index == oc.selected_index
        &&& nc.filter == oc.filter
    } else {
        &&& nc.start_char_index == p
        &&& nc.items@.len() == 0
        &&& nc.selected_index == 0
        &&& nc.filter@.len() == 0
    }
}

/// Open or refresh completion at the cursor. When the document is known to
/// the language server, the position to ask it about comes back (its line,
/// and its char in the line).
pub fn request_completion(
    cursor: &CursorState,
    rope: &Rope,
    completion_state: &mut CompletionState,
    lsp_sync: &LspSyncState,
) -> (r: Option<LspRequest>)
    ensures
        completion_requested(*old(completion_state), *final(completion_state), rope_chars(*rope), cursor.cursor_pos),
        ({
            let s = rope_chars(*rope);
            let p = min_usize(cursor.cursor_pos, s.len() as usize) as int;
            let l = breaks_before(s, p) as int;
            match lsp_sync.document_uri {
                Some(_) => r matches Some(LspRequest::Completion { line, character }) && line == l as u32
                    && character == (p - line_start(s, l)) as u32,
                None => r is None,
            }
        }),
{
    let ghost s = rope_chars(*rope);
    let len = rope_len_chars(rope);
    let cursor_pos = if cursor.cursor_pos <= len {
        cursor.cursor_pos
    } else {
        len
    };
    proof {
        lemma_line_of(s, cursor_pos as int);
    }
    let line_index = rope_char_to_line(rope, cursor_pos);
    let char_in_line_index = cursor_pos - rope_line_to_char(rope, line_index);
    let request = match &lsp_sync.document_uri {
        Some(_) => Some(
            LspRequest::Completion {
                line: #[verifier::truncate] (line_index as u32),
                character: #[verifier::truncate] (char_in_line_index as u32),
            },
        ),
        None => None,
    };
    if !completion_state.visible {
        completion_state.start_char_index = cursor_pos;
        completion_state.items.clear();
        completion_state.selected_index = 0;
        completion_state.filter = String::new();
    }
    completion_state.update_word_completions(rope, cursor_pos);
    completion_state.visible = true;
    request
}

/// Tell the language server the document changed: when it knows the
/// document, the version moves on and the full text comes back to be sent.
pub fn send_did_change(rope: &Rope, lsp_sync: &mut LspSyncState) -> (r: Option<LspRequest>)
    ensures
        final(lsp_sync).document_uri == old(lsp_sync).document_uri,
        match old(lsp_sync).document_uri {
            Some(_) => {
                &&& final(lsp_sync).document_version == old(lsp_sync).document_version.wrapping_add(1)
                &&& r matches Some(LspRequest::DidChange { version, text }) && version == final(lsp_sync).document_version
                    && text@ == rope_chars(*rope)
            },
            None => r is None && final(lsp_sync).document_version == old(lsp_sync).document_version,
        },
{
    match &lsp_sync.document_uri {
        Some(_) => {
            lsp_sync.document_version = lsp_sync.document_version.wrapping_add(1);
            let len = rope_len_chars(rope);
            let text = rope_slice_string(rope, 0, len);
            assert(rope_chars(*rope).subrange(0, len as int) =~= rope_chars(*rope));
            Some(LspRequest::DidChange { version: lsp_sync.document_version, text })
        },
        None => None,
    }
}

/// What adding a cursor a line above or below the primary one does: nothing
/// without cursors or when there is no such line; else a cursor is added at
/// `target` of the primary cursor's position.
pub open spec fn cursor_added_beside(
    os: SelectionState,
    ns: SelectionState,
    oc: CursorState,
    nc: CursorState,
    s: Seq<char>,
    up: bool,
) -> bool {
    if oc.cursors@.len() == 0 {
        nc == oc && ns == os
    } else {
        let p = oc.cursors@[0].position as int;
        let l = breaks_before(s, p) as int;
        if (up && l == 0) || (!up && l + 1 >= line_count(s)) {
            nc == oc && ns == os
        } else {
            cursor_added(os, ns, oc, nc, s.len() as int, (if up { pos_up(s, p) } else { pos_down(s, p) }) as usize)
        }
    }
}

/// The first cursor, if any, lies within a text of `len` chars.
pub open spec fn primary_fits(cursor: CursorState, len: int) -> bool {
    cursor.cursors@.len() > 0 ==> cursor.cursors@[0].position <= len
}

/// Add a cursor at the same column on the line above the primary cursor.
fn add_cursor_above(state: &mut CodeEditorState, sel: &mut SelectionState, cursor: &mut CursorState, tv: &mut TextViewState)
    requires
        primary_fits(*old(cursor), rope_chars(old(tv).rope).len() as int),
    ensures
        *final(state) == *old(state),
        *final(tv) == *old(tv),
        cursor_added_beside(*old(sel), *final(sel), *old(cursor), *final(cursor), rope_chars(old(tv).rope), true),
{
    if cursor.cursors.len() == 0 {
        return;
    }
    let ghost s = rope_chars(tv.rope);
    let primary_pos = cursor.cursors[0].position;
    let line_idx = rope_char_to_line(&tv.rope, primary_pos);
    if line_idx == 0 {
        return;
    }
    proof {
        lemma_line_of(s, primary_pos as int);
        lemma_line_start_mono(s, line_idx - 1);
    }
    let line_start = rope_line_to_char(&tv.rope, line_idx);
    let col_offset = primary_pos - line_start;
    let prev_line_start = rope_line_to_char(&tv.rope, line_idx - 1);
    let prev_line_len = rope_line_len(&tv.rope, line_idx - 1).saturating_sub(1);
    let col = if col_offset <= prev_line_len {
        col_offset
    } else {
        prev_line_len
    };
    let new_pos = prev_line_start + col;
    sel.add_cursor(cursor, tv, new_pos);
}

/// Add a cursor at the same column on the line below the primary cursor.
fn add_cursor_below(state: &mut CodeEditorState, sel: &mut SelectionState, cursor: &mut CursorState, tv: &mut TextViewState)
    requires
        primary_fits(*old(cursor), rope_chars(old(tv).rope).len() as int),
    ensures
        *final(state) == *old(state),
        *final(tv) == *old(tv),
        cursor_added_beside(*old(sel), *final(sel), *old(cursor), *final(cursor), rope_chars(old(tv).rope), false),
{
    if cursor.cursors.len() == 0 {
        return;
    }
    let ghost s = rope_chars(tv.rope);
    let _len = rope_len_chars(&tv.rope);
    let primary_pos = cursor.cursors[0].position;
    let line_idx = rope_char_to_line(&tv.rope, primary_pos);
    let line_count = rope_len_lines(&tv.rope);
    proof {
        lemma_line_of(s, primary_pos as int);
    }
    if line_idx + 1 >= line_count {
        return;
    }
    proof {
        lemma_line_start_mono(s, line_idx as int);
        lemma_line_start_mono(s, line_idx + 1);
    }
    let line_start = rope_line_to_char(&tv.rope, line_idx);
    let col_offset = primary_pos - line_start;
    let next_line_start = rope_line_to_char(&tv.rope, line_idx + 1);
    let next_line_len = rope_line_len(&tv.rope, line_idx + 1).saturating_sub(1);
    let col = if col_offset <= next_line_len {
        col_offset
    } else {
        next_line_len
    };
    let new_pos = next_line_start + col;
    sel.add_cursor(cursor, tv, new_pos);
}

/// The editor parts that text actions read and change: the selection, the
/// history, the cursors and the text.
pub type EditParts = (SelectionState, EditHistoryState, CursorState, TextViewState);

/// Typing `c` along `steps`: each state is the one before with `c` typed.
pub open spec fn typing_steps(steps: Seq<EditParts>, c: char) -> bool {
    forall|i: int|
        0 <= i < steps.len() - 1 ==> #[trigger] typed(
            steps[i].0,
            steps[i + 1].0,
            steps[i].1,
            steps[i + 1].1,
            steps[i].2,
            steps[i + 1].2,
            steps[i].3,
            steps[i + 1].3,
            c,
        )
}

/// Typing `c` `k` times, one after the other, leads from `o` to `n`.
pub open spec fn typed_times(o: EditParts, n: EditParts, c: char, k: nat) -> bool {
    exists|steps: Seq<EditParts>|
        #![trigger typing_steps(steps, c)]
        steps.len() == k + 1 && steps[0] == o && steps.last() == n && typing_steps(steps, c)
}

/// The positions that the action reads lie in the text.
pub open spec fn action_in_text(a: EditorAction, sel: SelectionState, cursor: CursorState, tv: TextViewState) -> bool {
    let len = rope_chars(tv.rope).len() as int;
    let p = cursor.cursor_pos as int;
    match a {
        EditorAction::InsertNewline | EditorAction::InsertTab | EditorAction::DeleteBackward
        | EditorAction::DeleteForward | EditorAction::DeleteWordForward | EditorAction::Find => selection_fits(sel, len),
        EditorAction::DeleteWordBackward => selection_fits(sel, len) && (sel.selection_start is None ==> p <= len),
        EditorAction::MoveCursorUp | EditorAction::MoveCursorDown | EditorAction::MoveCursorWordLeft
        | EditorAction::MoveCursorLineStart | EditorAction::MoveCursorLineEnd | EditorAction::SelectUp
        | EditorAction::SelectDown | EditorAction::SelectWordLeft | EditorAction::SelectLineStart
        | EditorAction::SelectLineEnd | EditorAction::ToggleFold | EditorAction::Fold | EditorAction::Unfold
        | EditorAction::AddCursorAbove | EditorAction::AddCursorBelow => p <= len,
        EditorAction::AddCursorAtNextOccurrence => p <= len && (sel.selection_start matches Some(a) ==> a <= len),
        _ => true,
    }
}

/// The action may run without a panic: the open popup with rows takes it,
/// or the positions it reads lie in the text.
pub open spec fn action_ready(
    a: EditorAction,
    sel: SelectionState,
    cursor: CursorState,
    tv: TextViewState,
    cs: CompletionState,
) -> bool {
    (cs.visible && cs.filtered_len() > 0 && is_popup_action(a)) || action_in_text(a, sel, cursor, tv)
}

fn selection_fits_exec(sel: &SelectionState, len: usize) -> (r: bool)
    ensures
        r == selection_fits(*sel, len as int),
{
    match (sel.selection_start, sel.selection_end) {
        (Some(a), Some(b)) => if a <= b { b <= len } else { a <= len },
        _ => true,
    }
}

/// Whether `execute_action` can run `action` on these states: the
/// selection and the cursor lie in the text where the action reads them.
pub fn action_can_run(
    action: EditorAction,
    sel: &SelectionState,
    cursor: &CursorState,
    tv: &TextViewState,
    completion_state: &CompletionState,
) -> (r: bool)
    ensures
        r == action_ready(action, *sel, *cursor, *tv, *completion_state),
{
    if completion_state.visible && completion_state.filtered_items().len() > 0 {
        match action {
            EditorAction::MoveCursorUp | EditorAction::MoveCursorDown | EditorAction::InsertNewline
            | EditorAction::InsertTab | EditorAction::ClearSelection => {
                return true;
            },
            _ => {},
        }
    }
    let len = rope_len_chars(&tv.rope);
    let p = cursor.cursor_pos;
    match action {
        EditorAction::InsertNewline | EditorAction::InsertTab | EditorAction::DeleteBackward
        | EditorAction::DeleteForward | EditorAction::DeleteWordForward | EditorAction::Find => selection_fits_exec(sel, len),
        EditorAction::DeleteWordBackward => selection_fits_exec(sel, len) && (sel.selection_start.is_some() || p <= len),
        EditorAction::MoveCursorUp | EditorAction::MoveCursorDown | EditorAction::MoveCursorWordLeft
        | EditorAction::MoveCursorLineStart | EditorAction::MoveCursorLineEnd | EditorAction::SelectUp
        | EditorAction::SelectDown | EditorAction::SelectWordLeft | EditorAction::SelectLineStart
        | EditorAction::SelectLineEnd | EditorAction::ToggleFold | EditorAction::Fold | EditorAction::Unfold
        | EditorAction::AddCursorAbove | EditorAction::AddCursorBelow => p <= len,
        EditorAction::AddCursorAtNextOccurrence => p <= len && match sel.selection_start {
            Some(a) => a <= len,
            None => true,
        },
        _ => true,
    }
}

/// The actions that type or delete text.
pub open spec fn is_edit_action(a: EditorAction) -> bool {
    a is InsertNewline || a is InsertTab || a is DeleteBackward || a is DeleteForward || a is DeleteWordBackward
        || a is DeleteWordForward
}

/// What a typing or deleting action does to the text parts: deletion with a
/// selection removes the selection instead.
pub open spec fn edit_effect(a: EditorAction, o: EditParts, n: EditParts, tab_width: usize) -> bool {
    let del_sel = o.0.selection_start is Some;
    match a {
        EditorAction::InsertNewline => typed(o.0, n.0, o.1, n.1, o.2, n.2, o.3, n.3, '\n'),
        EditorAction::InsertTab => typed_times(o, n, ' ', tab_width as nat),
        EditorAction::DeleteBackward => if del_sel {
            selection_deleted(o.0, n.0, o.1, n.1, o.2, n.2, o.3, n.3, true)
        } else {
            n.0 == o.0 && backspaced(o.1, n.1, o.2, n.2, o.3, n.3)
        },
        EditorAction::DeleteForward => if del_sel {
            selection_deleted(o.0, n.0, o.1, n.1, o.2, n.2, o.3, n.3, true)
        } else {
            n.0 == o.0 && deleted_forward(o.1, n.1, o.2, n.2, o.3, n.3)
        },
        EditorAction::DeleteWordBackward => if del_sel {
            selection_deleted(o.0, n.0, o.1, n.1, o.2, n.2, o.3, n.3, true)
        } else {
            n.0 == o.0 && word_deleted_backward(o.1, n.1, o.2, n.2, o.3, n.3)
        },
        EditorAction::DeleteWordForward => if del_sel {
            selection_deleted(o.0, n.0, o.1, n.1, o.2, n.2, o.3, n.3, true)
        } else {
            n.0 == o.0 && word_deleted_forward(o.1, n.1, o.2, n.2, o.3, n.3)
        },
        _ => false,
    }
}

/// After typing, the cursor sits just past the typed char, within the text,
/// and there is no selection.
pub proof fn lemma_typed_cursor(
    os: SelectionState,
    ns: SelectionState,
    oh: EditHistoryState,
    nh: EditHistoryState,
    oc: CursorState,
    nc: CursorState,
    ot: TextViewState,
    nt: TextViewState,
    c: char,
)
    requires
        typed(os, ns, oh, nh, oc, nc, ot, nt, c),
    ensures
        1 <= nc.cursor_pos <= rope_chars(nt.rope).len(),
        selection_span(ns) is None,
        rope_chars(nt.rope)[nc.cursor_pos - 1] == c,
{
    let (ms, mh, mc, mt) = choose|ms: SelectionState, mh: EditHistoryState, mc: CursorState, mt: TextViewState|
        #![trigger selection_deleted(os, ms, oh, mh, oc, mc, ot, mt, true)]
        selection_deleted(os, ms, oh, mh, oc, mc, ot, mt, true) && ns == ms && char_inserted(mh, nh, mc, nc, mt, nt, c);
}

pub proof fn lemma_typed_fits(o: EditParts, n: EditParts, c: char)
    requires
        typed(o.0, n.0, o.1, n.1, o.2, n.2, o.3, n.3, c),
    ensures
        selection_span(n.0) is None,
{
    let (ms, mh, mc, mt) = choose|ms: SelectionState, mh: EditHistoryState, mc: CursorState, mt: TextViewState|
        #![trigger selection_deleted(o.0, ms, o.1, mh, o.2, mc, o.3, mt, true)]
        selection_deleted(o.0, ms, o.1, mh, o.2, mc, o.3, mt, true) && n.0 == ms && char_inserted(mh, n.1, mc, n.2, mt, n.3, c);
}

/// Type `count` spaces.
fn insert_spaces(
    state: &mut CodeEditorState,
    sel: &mut SelectionState,
    hist: &mut EditHistoryState,
    cursor: &mut CursorState,
    tv: &mut TextViewState,
    count: usize,
)
    requires
        selection_fits(*old(sel), rope_chars(old(tv).rope).len() as int),
    ensures
        *final(state) == *old(state),
        typed_times((*old(sel), *old(hist), *old(cursor), *old(tv)), (*final(sel), *final(hist), *final(cursor), *final(tv)), ' ', count as nat),
{
    let ghost o = (*sel, *hist, *cursor, *tv);
    let ghost mut steps: Seq<EditParts> = seq![o];
    let mut i: usize = 0;
    while i < count
        invariant
            0 <= i <= count,
            *state == *old(state),
            o == (*old(sel), *old(hist), *old(cursor), *old(tv)),
            selection_fits(*sel, rope_chars(tv.rope).len() as int),
            steps.len() == i + 1,
            steps[0] == o,
            steps.last() == (*sel, *hist, *cursor, *tv),
            typing_steps(steps, ' '),
        decreases count - i,
    {
        let ghost m = (*sel, *hist, *cursor, *tv);
        insert_char(state, sel, hist, cursor, tv, ' ');
        proof {
            lemma_typed_fits(m, (*sel, *hist, *cursor, *tv), ' ');
            let next = steps.push((*sel, *hist, *cursor, *tv));
            assert forall|j: int| 0 <= j < next.len() - 1 implies #[trigger] typed(
                next[j].0,
                next[j + 1].0,
                next[j].1,
                next[j + 1].1,
                next[j].2,
                next[j + 1].2,
                next[j].3,
                next[j + 1].3,
                ' ',
            ) by {
                if j < steps.len() - 1 {
                    assert(next[j] == steps[j] && next[j + 1] == steps[j + 1]);
                } else {
                    assert(next[j] == m);
                }
            }
            steps = next;
        }
        i += 1;
    }
    assert(typing_steps(steps, ' '));
}

/// Run a typing or deleting action.
fn run_edit_action(
    state: &mut CodeEditorState,
    sel: &mut SelectionState,
    hist: &mut EditHistoryState,
    cursor: &mut CursorState,
    tv: &mut TextViewState,
    action: EditorAction,
    indentation: &IndentationSettings,
)
    requires
        is_edit_action(action),
        action_in_text(action, *old(sel), *old(cursor), *old(tv)),
    ensures
        *final(state) == *old(state),
        edit_effect(
            action,
            (*old(sel), *old(hist), *old(cursor), *old(tv)),
            (*final(sel), *final(hist), *final(cursor), *final(tv)),
            indentation.tab_width,
        ),
{
    match action {
        EditorAction::InsertNewline => {
            insert_char(state, sel, hist, cursor, tv, '\n');
        },
        EditorAction::InsertTab => {
            insert_spaces(state, sel, hist, cursor, tv, indentation.tab_width);
        },
        EditorAction::DeleteBackward => {
            if sel.selection_start.is_some() {
                delete_selection(state, sel, hist, cursor, tv);
            } else {
                state.delete_backward(hist, cursor, tv);
            }
        },
        EditorAction::DeleteForward => {
            if sel.selection_start.is_some() {
                delete_selection(state, sel, hist, cursor, tv);
            } else {
                state.delete_forward(hist, cursor, tv);
            }
        },
        EditorAction::DeleteWordBackward => {
            if sel.selection_start.is_some() {
                delete_selection(state, sel, hist, cursor, tv);
            } else {
                delete_word_backward(state, sel, hist, cursor, tv);
            }
        },
        _ => {
            if sel.selection_start.is_some() {
                delete_selection(state, sel, hist, cursor, tv);
            } else {
                delete_word_forward(state, sel, hist, cursor, tv);
            }
        },
    }
}

/// The actions that move the cursor and drop the selection.
pub open spec fn is_move_action(a: EditorAction) -> bool {
    a is MoveCursorLeft || a is MoveCursorRight || a is MoveCursorUp || a is MoveCursorDown
        || a is MoveCursorWordLeft || a is MoveCursorWordRight || a is MoveCursorLineStart
        || a is MoveCursorLineEnd || a is MoveCursorDocumentStart || a is MoveCursorDocumentEnd
        || a is MoveCursorPageUp || a is MoveCursorPageDown
}

/// The actions that move the cursor and extend the selection to it.
pub open spec fn is_select_action(a: EditorAction) -> bool {
    a is SelectLeft || a is SelectRight || a is SelectUp || a is SelectDown || a is SelectWordLeft
        || a is SelectWordRight || a is SelectLineStart || a is SelectLineEnd
}

/// The actions that move the cursor sideways.
pub open spec fn is_horizontal(a: EditorAction) -> bool {
    a is MoveCursorLeft || a is MoveCursorRight || a is MoveCursorWordLeft || a is MoveCursorWordRight
}

/// Where a moving action takes the cursor from `p`. Page moves leave it.
pub open spec fn motion_target(a: EditorAction, s: Seq<char>, p: int) -> int {
    match a {
        EditorAction::MoveCursorLeft | EditorAction::SelectLeft => if p >= 1 { p - 1 } else { 0 },
        EditorAction::MoveCursorRight | EditorAction::SelectRight => if p + 1 <= s.len() {
            p + 1
        } else {
            s.len() as int
        },
        EditorAction::MoveCursorUp | EditorAction::SelectUp => pos_up(s, p),
        EditorAction::MoveCursorDown | EditorAction::SelectDown => pos_down(s, p),
        EditorAction::MoveCursorWordLeft | EditorAction::SelectWordLeft => word_boundary_left(s, p),
        EditorAction::MoveCursorWordRight | EditorAction::SelectWordRight => word_boundary_right(s, p),
        EditorAction::MoveCursorLineStart | EditorAction::SelectLineStart => pos_line_start(s, p),
        EditorAction::MoveCursorLineEnd | EditorAction::SelectLineEnd => pos_line_end(s, p),
        EditorAction::MoveCursorDocumentStart => 0,
        EditorAction::MoveCursorDocumentEnd => s.len() as int,
        _ => p,
    }
}

/// What a moving action does: the cursor goes to its target; a move drops
/// the selection, a select action keeps its anchor (the cursor when there
/// was none) and ends it at the cursor.
pub open spec fn motion_effect(a: EditorAction, o: EditParts, n: EditParts) -> bool {
    let t = motion_target(a, rope_chars(o.3.rope), o.2.cursor_pos as int);
    &&& n.1 == o.1
    &&& n.3 == o.3
    &&& n.2.cursors == o.2.cursors
    &&& n.2.cursor_pos == t
    &&& n.0.selections == o.0.selections
    &&& if is_move_action(a) {
        n.0.selection_start is None && n.0.selection_end is None
    } else {
        &&& n.0.selection_start == (if o.0.selection_start is Some {
            o.0.selection_start
        } else {
            Some(o.2.cursor_pos)
        })
        &&& n.0.selection_end == Some(t as usize)
    }
}

/// Move the cursor as `action` says, for a move or select action.
fn move_for(state: &CodeEditorState, cursor: &mut CursorState, rope: &Rope, action: EditorAction)
    requires
        is_move_action(action) || is_select_action(action),
        (action is MoveCursorUp || action is MoveCursorDown || action is MoveCursorWordLeft
            || action is MoveCursorLineStart || action is MoveCursorLineEnd || action is SelectUp
            || action is SelectDown || action is SelectWordLeft || action is SelectLineStart
            || action is SelectLineEnd) ==> old(cursor).cursor_pos <= rope_chars(*rope).len(),
    ensures
        final(cursor).cursors == old(cursor).cursors,
        final(cursor).cursor_pos == motion_target(action, rope_chars(*rope), old(cursor).cursor_pos as int),
{
    match action {
        EditorAction::MoveCursorLeft | EditorAction::SelectLeft => state.move_cursor(cursor, rope, -1),
        EditorAction::MoveCursorRight | EditorAction::SelectRight => state.move_cursor(cursor, rope, 1),
        EditorAction::MoveCursorUp | EditorAction::SelectUp => move_cursor_up(cursor, rope),
        EditorAction::MoveCursorDown | EditorAction::SelectDown => move_cursor_down(cursor, rope),
        EditorAction::MoveCursorWordLeft | EditorAction::SelectWordLeft => move_cursor_word_left(cursor, rope),
        EditorAction::MoveCursorWordRight | EditorAction::SelectWordRight => move_cursor_word_right(cursor, rope),
        EditorAction::MoveCursorLineStart | EditorAction::SelectLineStart => move_cursor_line_start(cursor, rope),
        EditorAction::MoveCursorLineEnd | EditorAction::SelectLineEnd => move_cursor_line_end(cursor, rope),
        EditorAction::MoveCursorDocumentStart => {
            cursor.cursor_pos = 0;
        },
        EditorAction::MoveCursorDocumentEnd => {
            cursor.cursor_pos = rope_len_chars(rope);
        },
        _ => {},
    }
}

/// Run a move or select action.
fn run_motion_action(
    state: &mut CodeEditorState,
    sel: &mut SelectionState,
    hist: &mut EditHistoryState,
    cursor: &mut CursorState,
    tv: &mut TextViewState,
    action: EditorAction,
)
    requires
        is_move_action(action) || is_select_action(action),
        action_in_text(action, *old(sel), *old(cursor), *old(tv)),
    ensures
        *final(state) == *old(state),
        motion_effect(
            action,
            (*old(sel), *old(hist), *old(cursor), *old(tv)),
            (*final(sel), *final(hist), *final(cursor), *final(tv)),
        ),
{
    if is_move(action) {
        sel.selection_start = None;
        sel.selection_end = None;
        move_for(state, cursor, &tv.rope, action);
    } else {
        init_selection(sel, cursor);
        move_for(state, cursor, &tv.rope, action);
        sel.selection_end = Some(cursor.cursor_pos);
    }
}

/// Whether `a` moves the cursor and drops the selection.
fn is_move(a: EditorAction) -> (r: bool)
    ensures
        r == is_move_action(a),
{
    match a {
        EditorAction::MoveCursorLeft | EditorAction::MoveCursorRight | EditorAction::MoveCursorUp
        | EditorAction::MoveCursorDown | EditorAction::MoveCursorWordLeft | EditorAction::MoveCursorWordRight
        | EditorAction::MoveCursorLineStart | EditorAction::MoveCursorLineEnd
        | EditorAction::MoveCursorDocumentStart | EditorAction::MoveCursorDocumentEnd
        | EditorAction::MoveCursorPageUp | EditorAction::MoveCursorPageDown => true,
        _ => false,
    }
}

/// The display bookkeeping after an edit that calls for a refresh now, with
/// line `l` marked stale.
pub open spec fn refreshed_at_line(nt: TextViewState, ot: TextViewState, l: int) -> bool {
    let n = line_count(rope_chars(nt.rope)) as int;
    &&& nt.needs_update
    &&& !nt.pending_update
    &&& nt.content_version == ot.content_version.wrapping_add(1)
    &&& nt.dirty_lines == Some((std::ops::Range { start: l as usize, end: (if l + 1 <= n { l + 1 } else { n }) as usize }))
    &&& nt.previous_line_count == n
}

/// The selected span, start first, clamped to a text of `len` chars.
pub open spec fn clamped_span(sel: SelectionState, len: int) -> Option<(int, int)> {
    match selection_span(sel) {
        Some((a, b)) => Some((if a <= len { a } else { len }, if b <= len { b } else { len })),
        None => None,
    }
}

/// `op` replaced `removed` by `inserted` at `pos`, the cursor going from
/// `before` to `after`.
pub open spec fn op_is(op: EditOperation, pos: int, removed: Seq<char>, inserted: Seq<char>, before: int, after: int, kind: EditKind) -> bool {
    &&& op.position == pos
    &&& op.removed_text@ == removed
    &&& op.inserted_text@ == inserted
    &&& op.cursor_before == before
    &&& op.cursor_after == after
    &&& op.kind == kind
}

/// `nh` is `oh` with one more edit recorded, of which `pred` holds.
pub open spec fn one_recorded(oh: EditHistoryState, nh: EditHistoryState) -> bool {
    &&& nh.history.undo_stack@.len() == oh.history.undo_stack@.len() + 1
    &&& nh.history.undo_stack@.drop_last() == oh.history.undo_stack@
    &&& nh.history.redo_stack@.len() == 0
}

/// What copying does: the selected text (clamped to the text) goes to the
/// clipboard; nothing else changes.
pub open spec fn copy_effect(o: EditParts, n: EditParts, oclip: Option<String>, nclip: Option<String>) -> bool {
    let s = rope_chars(o.3.rope);
    &&& n == o
    &&& match clamped_span(o.0, s.len() as int) {
        Some((a, b)) => opt_chars(nclip) == Some(s.subrange(a, b)),
        None => nclip == oclip,
    }
}

/// What cutting does: with a selection, its text (clamped to the text) goes
/// to the clipboard and is deleted, the deletion is recorded, the cursor goes
/// to where it started and the selection is dropped.
pub open spec fn cut_effect(o: EditParts, n: EditParts, oclip: Option<String>, nclip: Option<String>, changed: bool) -> bool {
    let s = rope_chars(o.3.rope);
    match clamped_span(o.0, s.len() as int) {
        Some((a, b)) => {
            let ns = s.take(a) + s.skip(b);
            &&& changed
            &&& opt_chars(nclip) == Some(s.subrange(a, b))
            &&& rope_chars(n.3.rope) == ns
            &&& n.2.cursor_pos == a
            &&& n.2.cursors == o.2.cursors
            &&& n.0.selection_start is None
            &&& n.0.selection_end is None
            &&& n.0.selections == o.0.selections
            &&& one_recorded(o.1, n.1)
            &&& op_is(n.1.history.undo_stack@.last(), a, s.subrange(a, b), Seq::empty(), o.2.cursor_pos as int, a, EditKind::Other)
            &&& refreshed_at_line(n.3, o.3, breaks_before(ns, a) as int)
        },
        None => !changed && n == o && nclip == oclip,
    }
}

/// What pasting does when the clipboard gave text `t`: the selection
/// (clamped to the text), if any, is replaced by `t`, else `t` goes in at the
/// cursor (clamped); the cursor moves past it and the whole is recorded as
/// one edit. Without text, nothing happens.
pub open spec fn paste_effect(o: EditParts, n: EditParts, clip: Option<String>, changed: bool) -> bool {
    let s = rope_chars(o.3.rope);
    match clip {
        None => !changed && n == o,
        Some(t) => {
            let span = clamped_span(o.0, s.len() as int);
            let s1 = match span {
                Some((a, b)) => s.take(a) + s.skip(b),
                None => s,
            };
            let pos = match span {
                Some((a, b)) => a,
                None => min_usize(o.2.cursor_pos, s.len() as usize) as int,
            };
            let removed = match span {
                Some((a, b)) => s.subrange(a, b),
                None => Seq::empty(),
            };
            &&& changed
            &&& rope_chars(n.3.rope) == s1.take(pos) + t@ + s1.skip(pos)
            &&& n.2.cursor_pos == pos + t@.len()
            &&& n.2.cursors == o.2.cursors
            &&& n.0.selections == o.0.selections
            &&& (span is Some ==> n.0.selection_start is None && n.0.selection_end is None)
            &&& (span is None ==> n.0 == o.0)
            &&& one_recorded(o.1, n.1)
            &&& op_is(n.1.history.undo_stack@.last(), pos, removed, t@, o.2.cursor_pos as int, pos + t@.len(), EditKind::Paste)
            &&& refreshed_at_line(n.3, o.3, breaks_before(s1, pos) as int)
        },
    }
}

/// Order and clamp the selection ends, when both are set.
fn clamped_selection(sel: &SelectionState, len: usize) -> (r: Option<(usize, usize)>)
    requires
        len == len as int,
    ensures
        match clamped_span(*sel, len as int) {
            Some((a, b)) => r == Some((a as usize, b as usize)) && a <= b <= len,
            None => r is None,
        },
{
    match (sel.selection_start, sel.selection_end) {
        (Some(s), Some(e)) => {
            let (start, end) = if s <= e {
                (s, e)
            } else {
                (e, s)
            };
            let start = if start <= len {
                start
            } else {
                len
            };
            let end = if end <= len {
                end
            } else {
                len
            };
            Some((start, end))
        },
        _ => None,
    }
}

/// Copy the selection to `clipboard`.
fn copy_selection(sel: &SelectionState, tv: &TextViewState, clipboard: &mut Option<String>)
    ensures
        match clamped_span(*sel, rope_chars(tv.rope).len() as int) {
            Some((a, b)) => opt_chars(*final(clipboard)) == Some(rope_chars(tv.rope).subrange(a, b)),
            None => *final(clipboard) == *old(clipboard),
        },
{
    let len = rope_len_chars(&tv.rope);
    match clamped_selection(sel, len) {
        Some((start, end)) => {
            *clipboard = Some(rope_slice_string(&tv.rope, start, end));
        },
        None => {},
    }
}

/// Cut the selection to `clipboard`; whether the text changed comes back.
fn cut_selection(
    sel: &mut SelectionState,
    hist: &mut EditHistoryState,
    cursor: &mut CursorState,
    tv: &mut TextViewState,
    clipboard: &mut Option<String>,
) -> (changed: bool)
    ensures
        cut_effect(
            (*old(sel), *old(hist), *old(cursor), *old(tv)),
            (*final(sel), *final(hist), *final(cursor), *final(tv)),
            *old(clipboard),
            *final(clipboard),
            changed,
        ),
{
    let ghost s = rope_chars(tv.rope);
    let len = rope_len_chars(&tv.rope);
    match clamped_selection(sel, len) {
        Some((start, end)) => {
            let selected_text = rope_slice_string(&tv.rope, start, end);
            let cursor_before = cursor.cursor_pos;
            *clipboard = Some(selected_text.clone());
            rope_remove(&mut tv.rope, start, end);
            cursor.cursor_pos = start;
            let op = EditOperation {
                removed_text: selected_text,
                inserted_text: String::new(),
                position: start,
                cursor_before,
                cursor_after: start,
                kind: EditKind::Other,
            };
            hist.history.record(op);
            assert(hist.history.undo_stack@.drop_last() =~= old(hist).history.undo_stack@);
            sel.selection_start = None;
            sel.selection_end = None;
            tv.needs_update = true;
            tv.pending_update = false;
            tv.content_version = tv.content_version.wrapping_add(1);
            let new_line_count = rope_len_lines(&tv.rope);
            proof {
                lemma_line_of(rope_chars(tv.rope), start as int);
            }
            let line_idx = rope_char_to_line(&tv.rope, start);
            let dirty_end = if line_idx < new_line_count {
                line_idx + 1
            } else {
                new_line_count
            };
            tv.dirty_lines = Some(line_idx..dirty_end);
            tv.previous_line_count = new_line_count;
            true
        },
        None => false,
    }
}

/// Paste `clipboard`'s text over the selection or at the cursor; whether the
/// text changed comes back.
fn paste_clipboard(
    sel: &mut SelectionState,
    hist: &mut EditHistoryState,
    cursor: &mut CursorState,
    tv: &mut TextViewState,
    clipboard: &Option<String>,
) -> (changed: bool)
    ensures
        paste_effect(
            (*old(sel), *old(hist), *old(cursor), *old(tv)),
            (*final(sel), *final(hist), *final(cursor), *final(tv)),
            *clipboard,
            changed,
        ),
{
    match clipboard {
        Some(text) => {
            let ghost s = rope_chars(tv.rope);
            let cursor_before = cursor.cursor_pos;
            let len = rope_len_chars(&tv.rope);
            let mut deleted_text = String::new();
            let paste_position;
            match clamped_selection(sel, len) {
                Some((start, end)) => {
                    deleted_text = rope_slice_string(&tv.rope, start, end);
                    rope_remove(&mut tv.rope, start, end);
                    cursor.cursor_pos = start;
                    sel.selection_start = None;
                    sel.selection_end = None;
                    paste_position = start;
                },
                None => {
                    paste_position = if cursor.cursor_pos <= len {
                        cursor.cursor_pos
                    } else {
                        len
                    };
                    assert(deleted_text@ =~= Seq::<char>::empty());
                },
            }
            let ghost s1 = rope_chars(tv.rope);
            proof {
                lemma_line_of(s1, paste_position as int);
            }
            let line_idx = rope_char_to_line(&tv.rope, paste_position);
            let n = text.unicode_len();
            rope_insert(&mut tv.rope, paste_position, text.as_str());
            let _new_len = rope_len_chars(&tv.rope);
            cursor.cursor_pos = paste_position + n;
            tv.needs_update = true;
            tv.pending_update = false;
            tv.content_version = tv.content_version.wrapping_add(1);
            let op = EditOperation {
                removed_text: deleted_text,
                inserted_text: text.clone(),
                position: paste_position,
                cursor_before,
                cursor_after: cursor.cursor_pos,
                kind: EditKind::Paste,
            };
            hist.history.record(op);
            assert(hist.history.undo_stack@.drop_last() =~= old(hist).history.undo_stack@);
            let new_line_count = rope_len_lines(&tv.rope);
            let dirty_end = if line_idx < new_line_count {
                line_idx + 1
            } else {
                new_line_count
            };
            tv.dirty_lines = Some(line_idx..dirty_end);
            tv.previous_line_count = new_line_count;
            true
        },
        None => false,
    }
}

/// What Find searches for: the selected text, else the word at the cursor
/// (clamped to the text).
pub open spec fn find_query(sel: SelectionState, cursor_pos: usize, s: Seq<char>) -> Option<Seq<char>> {
    match selection_span(sel) {
        Some((a, b)) => Some(s.subrange(a, b)),
        None => {
            let p = min_usize(cursor_pos, s.len() as usize) as int;
            if p < s.len() && is_word_char(s[p]) {
                Some(s.subrange(word_run_left(s, p), word_run_right(s, p)))
            } else {
                None
            }
        },
    }
}

/// The find bar after Find: a non-empty query becomes the find bar's, which
/// opens with every occurrence in the text `s` found; otherwise it stays.
pub open spec fn find_bar_after(query: Option<Seq<char>>, s: Seq<char>, of: FindState, nf: FindState) -> bool {
    match query {
        Some(q) => if q.len() > 0 {
            &&& nf.query@ == q
            &&& nf.active
            &&& nf.matches@ == all_matches(s, q, 0)
            &&& nf.current_match_index is None
        } else {
            nf == of
        },
        None => nf == of,
    }
}

/// What Find does: only the find bar changes.
pub open spec fn find_effect(o: EditParts, n: EditParts, of: FindState, nf: FindState) -> bool {
    let s = rope_chars(o.3.rope);
    n == o && find_bar_after(find_query(o.0, o.2.cursor_pos, s), s, of, nf)
}

/// The find bar's current match, if any.
pub open spec fn current_of(f: FindState) -> Option<FindMatch> {
    match f.current_match_index {
        Some(i) => if i < f.matches@.len() {
            Some(f.matches@[i as int])
        } else {
            None
        },
        None => None,
    }
}

/// The cursor and selection after a find step: onto the current match `m`
/// of `nf`, with a display refresh pending; unchanged without one.
pub open spec fn moved_to_match(
    os: SelectionState,
    ns: SelectionState,
    oc: CursorState,
    nc: CursorState,
    ot: TextViewState,
    nt: TextViewState,
    nf: FindState,
) -> bool {
    match current_of(nf) {
        Some(m) => {
            &&& nc.cursor_pos == m.start
            &&& nc.cursors == oc.cursors
            &&& ns.selection_start == Some(m.start)
            &&& ns.selection_end == Some(m.end)
            &&& ns.selections == os.selections
            &&& nt == (TextViewState { pending_update: true, ..ot })
        },
        None => ns == os && nc == oc && nt == ot,
    }
}

/// What Find Next (or Previous, with `next` false) does: with an open find
/// bar that has matches, the next (previous) match after (before) the cursor
/// becomes current, and the cursor and selection move onto it.
pub open spec fn find_step_effect(o: EditParts, n: EditParts, of: FindState, nf: FindState, next: bool) -> bool {
    &&& n.1 == o.1
    &&& if of.active && of.matches@.len() > 0 {
        let idx = if next {
            next_match_index(of.matches@, o.2.cursor_pos as int)
        } else {
            previous_match_index(of.matches@, o.2.cursor_pos as int)
        };
        &&& nf == (FindState { current_match_index: idx, ..of })
        &&& moved_to_match(o.0, n.0, o.2, n.2, o.3, n.3, nf)
    } else {
        n == o && nf == of
    }
}

/// What the go-to-line action does: the prompt opens or closes, and opens
/// empty.
pub open spec fn goto_effect(og: GotoLineState, ng: GotoLineState) -> bool {
    &&& ng.active == !og.active
    &&& if ng.active {
        ng.input@.len() == 0
    } else {
        ng.input == og.input
    }
}

/// Run Find.
fn run_find(sel: &SelectionState, cursor: &CursorState, tv: &TextViewState, find_state: &mut FindState)
    requires
        selection_fits(*sel, rope_chars(tv.rope).len() as int),
    ensures
        find_bar_after(
            find_query(*sel, cursor.cursor_pos, rope_chars(tv.rope)),
            rope_chars(tv.rope),
            *old(find_state),
            *final(find_state),
        ),
{
    let ghost s = rope_chars(tv.rope);
    match (sel.selection_start, sel.selection_end) {
        (Some(start), Some(end)) => {
            let (start, end) = if start < end {
                (start, end)
            } else {
                (end, start)
            };
            let query = rope_slice_string(&tv.rope, start, end);
            if query.unicode_len() > 0 {
                find_state.query = query;
                find_state.active = true;
                find_state.search(&tv.rope);
            }
        },
        _ => {
            let len = rope_len_chars(&tv.rope);
            let cursor_pos = if cursor.cursor_pos <= len {
                cursor.cursor_pos
            } else {
                len
            };
            if cursor_pos < len {
                let c = rope_char(&tv.rope, cursor_pos);
                if word_char(c) {
                    let mut start = cursor_pos;
                    while start > 0
                        invariant
                            0 <= start <= cursor_pos < len == s.len(),
                            s == rope_chars(tv.rope),
                            word_run_left(s, start as int) == word_run_left(s, cursor_pos as int),
                        ensures
                            start == word_run_left(s, cursor_pos as int),
                        decreases start,
                    {
                        if word_char(rope_char(&tv.rope, start - 1)) {
                            start -= 1;
                        } else {
                            break;
                        }
                    }
                    let mut end = cursor_pos;
                    while end < len
                        invariant
                            cursor_pos <= end <= len == s.len(),
                            s == rope_chars(tv.rope),
                            word_run_right(s, end as int) == word_run_right(s, cursor_pos as int),
                        ensures
                            end == word_run_right(s, cursor_pos as int),
                        decreases len - end,
                    {
                        if word_char(rope_char(&tv.rope, end)) {
                            end += 1;
                        } else {
                            break;
                        }
                    }
                    let query = rope_slice_string(&tv.rope, start, end);
                    if query.unicode_len() > 0 {
                        find_state.query = query;
                        find_state.active = true;
                        find_state.search(&tv.rope);
                    }
                }
            }
        },
    }
}

/// Run Find Next (`next`) or Find Previous.
fn run_find_step(
    sel: &mut SelectionState,
    cursor: &mut CursorState,
    tv: &mut TextViewState,
    find_state: &mut FindState,
    next: bool,
)
    ensures
        if old(find_state).active && old(find_state).matches@.len() > 0 {
            &&& *final(find_state) == (FindState {
                current_match_index: if next {
                    next_match_index(old(find_state).matches@, old(cursor).cursor_pos as int)
                } else {
                    previous_match_index(old(find_state).matches@, old(cursor).cursor_pos as int)
                },
                ..*old(find_state)
            })
            &&& moved_to_match(*old(sel), *final(sel), *old(cursor), *final(cursor), *old(tv), *final(tv), *final(find_state))
        } else {
            *final(sel) == *old(sel) && *final(cursor) == *old(cursor) && *final(tv) == *old(tv)
                && *final(find_state) == *old(find_state)
        },
{
    if find_state.active && find_state.matches.len() > 0 {
        if next {
            find_state.find_next(cursor.cursor_pos);
        } else {
            find_state.find_previous(cursor.cursor_pos);
        }
        match find_state.current_match() {
            Some(m) => {
                cursor.cursor_pos = m.start;
                sel.selection_start = Some(m.start);
                sel.selection_end = Some(m.end);
                tv.pending_update = true;
            },
            None => {},
        }
    }
}

/// Open or close the go-to-line prompt.
fn run_goto_line(goto_line_state: &mut GotoLineState)
    ensures
        goto_effect(*old(goto_line_state), *final(goto_line_state)),
{
    goto_line_state.active = !goto_line_state.active;
    if goto_line_state.active {
        goto_line_state.input = String::new();
    }
}

/// The actions on multiple cursors.
pub open spec fn is_multi_cursor_action(a: EditorAction) -> bool {
    a is AddCursorAtNextOccurrence || a is AddCursorAbove || a is AddCursorBelow || a is ClearSecondaryCursors
}

/// What the multi-cursor actions do. Adding a cursor first sets the first
/// cursor from the primary cursor fields.
pub open spec fn multi_cursor_effect(a: EditorAction, o: EditParts, n: EditParts) -> bool {
    let s = rope_chars(o.3.rope);
    &&& n.1 == o.1
    &&& match a {
        EditorAction::AddCursorAtNextOccurrence => exists|mc: CursorState, r: bool|
            #![trigger occurrence_added(o.0, n.0, mc, n.2, o.3, n.3, r)]
            mc.cursor_pos == o.2.cursor_pos && mc.cursors@ == synced_cursor_seq(o.0, o.2) && occurrence_added(
                o.0,
                n.0,
                mc,
                n.2,
                o.3,
                n.3,
                r,
            ),
        EditorAction::AddCursorAbove | EditorAction::AddCursorBelow => {
            &&& n.3 == o.3
            &&& exists|mc: CursorState|
                #![trigger cursor_added_beside(o.0, n.0, mc, n.2, s, a is AddCursorAbove)]
                mc.cursor_pos == o.2.cursor_pos && mc.cursors@ == synced_cursor_seq(o.0, o.2)
                    && cursor_added_beside(o.0, n.0, mc, n.2, s, a is AddCursorAbove)
        },
        _ => if o.2.cursors@.len() > 1 {
            n.3 == o.3 && secondary_cleared(o.0, n.0, o.2, n.2)
        } else {
            n == o
        },
    }
}

/// Run a multi-cursor action.
fn run_multi_cursor_action(
    state: &mut CodeEditorState,
    sel: &mut SelectionState,
    hist: &mut EditHistoryState,
    cursor: &mut CursorState,
    tv: &mut TextViewState,
    action: EditorAction,
)
    requires
        is_multi_cursor_action(action),
        action_in_text(action, *old(sel), *old(cursor), *old(tv)),
    ensures
        *final(state) == *old(state),
        multi_cursor_effect(
            action,
            (*old(sel), *old(hist), *old(cursor), *old(tv)),
            (*final(sel), *final(hist), *final(cursor), *final(tv)),
        ),
{
    match action {
        EditorAction::AddCursorAtNextOccurrence => {
            sel.sync_cursors_from_primary(cursor);
            let ghost mc = *cursor;
            let r = state.add_cursor_at_next_occurrence(sel, cursor, tv);
            assert(occurrence_added(*old(sel), *sel, mc, *cursor, *old(tv), *tv, r));
            assert(mc.cursor_pos == old(cursor).cursor_pos && mc.cursors@ == synced_cursor_seq(*old(sel), *old(cursor)));
            let ghost o = (*old(sel), *old(hist), *old(cursor), *old(tv));
            let ghost n = (*sel, *hist, *cursor, *tv);
            assert(o.0 == *old(sel) && o.2 == *old(cursor) && o.3 == *old(tv) && n.0 == *sel && n.2 == *cursor && n.3 == *tv);
            assert(multi_cursor_effect(action, (*old(sel), *old(hist), *old(cursor), *old(tv)), (*sel, *hist, *cursor, *tv)));
        },
        EditorAction::AddCursorAbove => {
            sel.sync_cursors_from_primary(cursor);
            let ghost mc = *cursor;
            add_cursor_above(state, sel, cursor, tv);
            assert(cursor_added_beside(*old(sel), *sel, mc, *cursor, rope_chars(tv.rope), action is AddCursorAbove));
            let ghost o = (*old(sel), *old(hist), *old(cursor), *old(tv));
            let ghost n = (*sel, *hist, *cursor, *tv);
            assert(o.0 == *old(sel) && o.2 == *old(cursor) && o.3 == *old(tv) && n.0 == *sel && n.2 == *cursor && n.3 == *tv);
            assert(multi_cursor_effect(action, (*old(sel), *old(hist), *old(cursor), *old(tv)), (*sel, *hist, *cursor, *tv)));
        },
        EditorAction::AddCursorBelow => {
            sel.sync_cursors_from_primary(cursor);
            let ghost mc = *cursor;
            add_cursor_below(state, sel, cursor, tv);
            assert(cursor_added_beside(*old(sel), *sel, mc, *cursor, rope_chars(tv.rope), action is AddCursorAbove));
            let ghost o = (*old(sel), *old(hist), *old(cursor), *old(tv));
            let ghost n = (*sel, *hist, *cursor, *tv);
            assert(o.0 == *old(sel) && o.2 == *old(cursor) && o.3 == *old(tv) && n.0 == *sel && n.2 == *cursor && n.3 == *tv);
            assert(multi_cursor_effect(action, (*old(sel), *old(hist), *old(cursor), *old(tv)), (*sel, *hist, *cursor, *tv)));
        },
        _ => {
            if sel.has_multiple_cursors(cursor) {
                sel.clear_secondary_cursors(cursor, tv);
            }
        },
    }
}

/// The folding actions.
pub open spec fn is_fold_action(a: EditorAction) -> bool {
    a is ToggleFold || a is Fold || a is Unfold || a is FoldAll || a is UnfoldAll
}

/// The fold regions after folding action `a`, with the cursor on line `l`.
pub open spec fn folds_after(a: EditorAction, l: usize, of: FoldState, nf: FoldState) -> bool {
    match a {
        EditorAction::ToggleFold => nf.regions@ == toggle_fold_at(of.regions@, l),
        EditorAction::Fold => nf.regions@ == set_fold_at(of.regions@, l, true),
        EditorAction::Unfold => nf.regions@ == set_fold_at(of.regions@, l, false),
        EditorAction::FoldAll => nf.regions@ == of.regions@.map_values(|r: FoldRegion| with_folded(r, true)),
        _ => nf.regions@ == of.regions@.map_values(|r: FoldRegion| with_folded(r, false)),
    }
}

/// What the folding actions do: the region starting on the cursor's line,
/// or every region, is folded or opened, and a display refresh is pending.
pub open spec fn fold_effect(a: EditorAction, o: EditParts, n: EditParts, of: FoldState, nf: FoldState) -> bool {
    let l = breaks_before(rope_chars(o.3.rope), o.2.cursor_pos as int) as usize;
    &&& n.0 == o.0
    &&& n.1 == o.1
    &&& n.2 == o.2
    &&& n.3 == (TextViewState { pending_update: true, ..o.3 })
    &&& folds_after(a, l, of, nf)
}

/// Run a folding action.
fn run_fold_action(cursor: &CursorState, tv: &mut TextViewState, fold_state: &mut FoldState, action: EditorAction)
    requires
        is_fold_action(action),
        (action is ToggleFold || action is Fold || action is Unfold) ==> cursor.cursor_pos <= rope_chars(old(tv).rope).len(),
    ensures
        *final(tv) == (TextViewState { pending_update: true, ..*old(tv) }),
        folds_after(
            action,
            breaks_before(rope_chars(old(tv).rope), cursor.cursor_pos as int) as usize,
            *old(fold_state),
            *final(fold_state),
        ),
{
    match action {
        EditorAction::ToggleFold => {
            let line = rope_char_to_line(&tv.rope, cursor.cursor_pos);
            fold_state.toggle_fold_at_line(line);
        },
        EditorAction::Fold => {
            let line = rope_char_to_line(&tv.rope, cursor.cursor_pos);
            fold_state.fold_at_line(line);
        },
        EditorAction::Unfold => {
            let line = rope_char_to_line(&tv.rope, cursor.cursor_pos);
            fold_state.unfold_at_line(line);
        },
        EditorAction::FoldAll => {
            fold_state.fold_all();
        },
        _ => {
            fold_state.unfold_all();
        },
    }
    tv.pending_update = true;
}

/// The editor state besides the text parts that actions read and change:
/// the find bar, the go-to-line prompt, the fold regions and the clipboard.
pub type AuxParts = (FindState, GotoLineState, FoldState, Option<String>);

pub open spec fn no_result() -> ActionResult {
    ActionResult { text_changed: false, horizontal_move: false }
}

pub open spec fn changed_result() -> ActionResult {
    ActionResult { text_changed: true, horizontal_move: false }
}

/// What executing `a` does to the text parts `o` (giving `n`) and the other
/// parts `oa` (giving `na`), and what it reports in `r`. `tab_width` is how
/// many spaces a tab types.
pub open spec fn action_effect(
    a: EditorAction,
    o: EditParts,
    n: EditParts,
    oa: AuxParts,
    na: AuxParts,
    tab_width: usize,
    r: ActionResult,
) -> bool {
    let s = rope_chars(o.3.rope);
    if is_edit_action(a) {
        edit_effect(a, o, n, tab_width) && na == oa && r == changed_result()
    } else if is_move_action(a) || is_select_action(a) {
        &&& motion_effect(a, o, n)
        &&& na == oa
        &&& r == (ActionResult { text_changed: false, horizontal_move: is_horizontal(a) })
    } else if is_multi_cursor_action(a) {
        multi_cursor_effect(a, o, n) && na == oa && r == no_result()
    } else if is_fold_action(a) {
        &&& fold_effect(a, o, n, oa.2, na.2)
        &&& na.0 == oa.0 && na.1 == oa.1 && na.3 == oa.3
        &&& r == no_result()
    } else {
        match a {
            EditorAction::SelectAll => {
                &&& n.0 == (SelectionState { selection_start: Some(0), selection_end: Some(s.len() as usize), ..o.0 })
                &&& n.1 == o.1
                &&& n.2.cursors == o.2.cursors
                &&& n.2.cursor_pos == s.len()
                &&& n.3 == o.3
                &&& na == oa
                &&& r == no_result()
            },
            EditorAction::ClearSelection => {
                &&& n.0 == (SelectionState { selection_start: None, selection_end: None, ..o.0 })
                &&& n.1 == o.1 && n.2 == o.2 && n.3 == o.3
                &&& na == oa
                &&& r == no_result()
            },
            EditorAction::Copy => {
                &&& copy_effect(o, n, oa.3, na.3)
                &&& na.0 == oa.0 && na.1 == oa.1 && na.2 == oa.2
                &&& r == no_result()
            },
            EditorAction::Cut => {
                &&& cut_effect(o, n, oa.3, na.3, r.text_changed)
                &&& !r.horizontal_move
                &&& na.0 == oa.0 && na.1 == oa.1 && na.2 == oa.2
            },
            EditorAction::Paste => {
                &&& paste_effect(o, n, oa.3, r.text_changed)
                &&& !r.horizontal_move
                &&& na == oa
            },
            EditorAction::Undo => {
                &&& undone(o.0, n.0, o.1, n.1, o.2, n.2, o.3, n.3, r.text_changed)
                &&& !r.horizontal_move
                &&& na == oa
            },
            EditorAction::Redo => {
                &&& redone(o.0, n.0, o.1, n.1, o.2, n.2, o.3, n.3, r.text_changed)
                &&& !r.horizontal_move
                &&& na == oa
            },
            EditorAction::Find => {
                &&& find_effect(o, n, oa.0, na.0)
                &&& na.1 == oa.1 && na.2 == oa.2 && na.3 == oa.3
                &&& r == no_result()
            },
            EditorAction::FindNext | EditorAction::FindPrevious => {
                &&& find_step_effect(o, n, oa.0, na.0, a is FindNext)
                &&& na.1 == oa.1 && na.2 == oa.2 && na.3 == oa.3
                &&& r == no_result()
            },
            EditorAction::GotoLine => {
                &&& goto_effect(oa.1, na.1)
                &&& n == o
                &&& na.0 == oa.0 && na.2 == oa.2 && na.3 == oa.3
                &&& r == no_result()
            },
            _ => n == o && na == oa && r == no_result(),
        }
    }
}

/// Execute an action on the editor. What the clipboard would give is in
/// `clipboard` when the action is Paste (none when it gave nothing); Copy and
/// Cut leave the text for the clipboard there.
fn execute_action_core(
    state: &mut CodeEditorState,
    sel: &mut SelectionState,
    hist: &mut EditHistoryState,
    cursor: &mut CursorState,
    tv: &mut TextViewState,
    action: EditorAction,
    indentation: &IndentationSettings,
    find_state: &mut FindState,
    goto_line_state: &mut GotoLineState,
    fold_state: &mut FoldState,
    clipboard: &mut Option<String>,
) -> (r: ActionResult)
    requires
        action_in_text(action, *old(sel), *old(cursor), *old(tv)),
    ensures
        *final(state) == *old(state),
        action_effect(
            action,
            (*old(sel), *old(hist), *old(cursor), *old(tv)),
            (*final(sel), *final(hist), *final(cursor), *final(tv)),
            (*old(find_state), *old(goto_line_state), *old(fold_state), *old(clipboard)),
            (*final(find_state), *final(goto_line_state), *final(fold_state), *final(clipboard)),
            indentation.tab_width,
            r,
        ),
{
    let mut result = ActionResult { text_changed: false, horizontal_move: false };
    if is_edit(action) {
        run_edit_action(state, sel, hist, cursor, tv, action, indentation);
        result.text_changed = true;
    } else if is_move(action) || is_select(action) {
        run_motion_action(state, sel, hist, cursor, tv, action);
        result.horizontal_move = match action {
            EditorAction::MoveCursorLeft | EditorAction::MoveCursorRight | EditorAction::MoveCursorWordLeft
            | EditorAction::MoveCursorWordRight => true,
            _ => false,
        };
    } else if is_multi(action) {
        run_multi_cursor_action(state, sel, hist, cursor, tv, action);
    } else if is_fold(action) {
        run_fold_action(cursor, tv, fold_state, action);
    } else {
        match action {
            EditorAction::SelectAll => {
                let len = rope_len_chars(&tv.rope);
                sel.selection_start = Some(0);
                sel.selection_end = Some(len);
                cursor.cursor_pos = len;
            },
            EditorAction::ClearSelection => {
                sel.selection_start = None;
                sel.selection_end = None;
            },
            EditorAction::Copy => {
                copy_selection(sel, tv, clipboard);
            },
            EditorAction::Cut => {
                result.text_changed = cut_selection(sel, hist, cursor, tv, clipboard);
            },
            EditorAction::Paste => {
                result.text_changed = paste_clipboard(sel, hist, cursor, tv, clipboard);
            },
            EditorAction::Undo => {
                result.text_changed = state.undo(sel, hist, cursor, tv);
            },
            EditorAction::Redo => {
                result.text_changed = state.redo(sel, hist, cursor, tv);
            },
            EditorAction::Find => {
                run_find(sel, cursor, tv, find_state);
            },
            EditorAction::FindNext => {
                run_find_step(sel, cursor, tv, find_state, true);
            },
            EditorAction::FindPrevious => {
                run_find_step(sel, cursor, tv, find_state, false);
            },
            EditorAction::GotoLine => {
                run_goto_line(goto_line_state);
            },
            _ => {},
        }
    }
    result
}

/// Whether `a` types or deletes text.
fn is_edit(a: EditorAction) -> (r: bool)
    ensures
        r == is_edit_action(a),
{
    match a {
        EditorAction::InsertNewline | EditorAction::InsertTab | EditorAction::DeleteBackward
        | EditorAction::DeleteForward | EditorAction::DeleteWordBackward | EditorAction::DeleteWordForward => true,
        _ => false,
    }
}

/// Whether `a` moves the cursor and extends the selection.
fn is_select(a: EditorAction) -> (r: bool)
    ensures
        r == is_select_action(a),
{
    match a {
        EditorAction::SelectLeft | EditorAction::SelectRight | EditorAction::SelectUp | EditorAction::SelectDown
        | EditorAction::SelectWordLeft | EditorAction::SelectWordRight | EditorAction::SelectLineStart
        | EditorAction::SelectLineEnd => true,
        _ => false,
    }
}

/// Whether `a` acts on multiple cursors.
fn is_multi(a: EditorAction) -> (r: bool)
    ensures
        r == is_multi_cursor_action(a),
{
    match a {
        EditorAction::AddCursorAtNextOccurrence | EditorAction::AddCursorAbove | EditorAction::AddCursorBelow
        | EditorAction::ClearSecondaryCursors => true,
        _ => false,
    }
}

/// Whether `a` folds or unfolds.
fn is_fold(a: EditorAction) -> (r: bool)
    ensures
        r == is_fold_action(a),
{
    match a {
        EditorAction::ToggleFold | EditorAction::Fold | EditorAction::Unfold | EditorAction::FoldAll
        | EditorAction::UnfoldAll => true,
        _ => false,
    }
}

/// The popup is the same in everything but maybe visibility, filter,
/// selection and scrolling.
pub open spec fn same_popup_items(a: CompletionState, b: CompletionState) -> bool {
    &&& b.items == a.items
    &&& b.word_items == a.word_items
    &&& b.start_char_index == a.start_char_index
    &&& b.is_incomplete == a.is_incomplete
}

/// The popup is the same in everything but maybe visibility.
pub open spec fn same_popup_but_visibility(a: CompletionState, b: CompletionState) -> bool {
    &&& same_popup_items(a, b)
    &&& b.filter == a.filter
    &&& b.selected_index == a.selected_index
    &&& b.scroll_offset == a.scroll_offset
}

/// The popup after its filter followed the cursor at `p` (clamped to the
/// text `s`): the text from where completion started to the cursor.
pub open spec fn filter_followed(p0: usize, s: Seq<char>, a: CompletionState, b: CompletionState) -> bool {
    let p = min_usize(p0, s.len() as usize) as int;
    let st = a.start_char_index as int;
    &&& same_popup_items(a, b)
    &&& b.visible == a.visible
    &&& b.scroll_offset == 0
    &&& if p > st && st <= s.len() {
        b.filter@ == s.subrange(st, p) && b.selected_index == 0
    } else {
        b.filter@.len() == 0 && b.selected_index == a.selected_index
    }
}

/// The popup after an action ran: it hides when the cursor moved sideways;
/// after a backward deletion while it shows, its filter follows the cursor
/// `p`, and it hides when the cursor went before where completion started.
pub open spec fn completion_followed(a: CompletionState, b: CompletionState, hide: bool, del_back: bool, p: usize, s: Seq<char>) -> bool {
    let visible = a.visible && !hide;
    if del_back && visible {
        if p > a.start_char_index {
            filter_followed(p, s, a, b) && b.visible
        } else if p == a.start_char_index {
            &&& same_popup_items(a, b)
            &&& b.visible
            &&& b.filter@.len() == 0
            &&& b.selected_index == 0
            &&& b.scroll_offset == a.scroll_offset
        } else {
            &&& same_popup_items(a, b)
            &&& !b.visible
            &&& b.filter@.len() == 0
            &&& b.selected_index == a.selected_index
            &&& b.scroll_offset == a.scroll_offset
        }
    } else {
        b.visible == visible && same_popup_but_visibility(a, b)
    }
}

/// The messages for the server after an edit: the new text, when the server
/// knows the document.
pub open spec fn did_change_sent(osync: LspSyncState, nsync: LspSyncState, s: Seq<char>, reqs: Seq<LspRequest>) -> bool {
    &&& nsync.document_uri == osync.document_uri
    &&& match osync.document_uri {
        Some(_) => {
            &&& nsync.document_version == osync.document_version.wrapping_add(1)
            &&& reqs.len() == 1
            &&& (reqs[0] matches LspRequest::DidChange { version, text } && version == nsync.document_version && text@ == s)
        },
        None => nsync.document_version == osync.document_version && reqs.len() == 0,
    }
}

/// The completion row selected after moving up (`up`) or down in a list of
/// `n > 0` rows, wrapping round.
pub open spec fn stepped_row(selected: usize, n: nat, up: bool) -> usize {
    if up {
        if selected > 0 { (selected - 1) as usize } else { (n - 1) as usize }
    } else {
        if selected + 1 < n { (selected + 1) as usize } else { 0 }
    }
}

/// The actions the completion popup takes while it shows rows.
pub open spec fn is_popup_action(a: EditorAction) -> bool {
    a is MoveCursorUp || a is MoveCursorDown || a is InsertNewline || a is InsertTab || a is ClearSelection
}

/// What the popup actions do: Up and Down move the selected row (wrapping)
/// and scroll it into view, Enter and Tab accept it and tell the server, and
/// Escape hides the popup.
pub open spec fn completion_navigated(
    a: EditorAction,
    oc: CursorState,
    nc: CursorState,
    ot: TextViewState,
    nt: TextViewState,
    ocs: CompletionState,
    ncs: CompletionState,
    osync: LspSyncState,
    nsync: LspSyncState,
    reqs: Seq<LspRequest>,
    max_visible: usize,
) -> bool {
    if a is MoveCursorUp || a is MoveCursorDown {
        let n = ocs.filtered_len();
        let row = stepped_row(ocs.selected_index, n, a is MoveCursorUp);
        &&& nc == oc
        &&& nt == ot
        &&& nsync == osync
        &&& reqs.len() == 0
        &&& same_popup_items(ocs, ncs)
        &&& ncs.visible
        &&& ncs.filter == ocs.filter
        &&& (ncs.selected_index, ncs.scroll_offset) == scrolled_into_view(row, ocs.scroll_offset, max_visible, n)
    } else if a is InsertNewline || a is InsertTab {
        &&& completion_applied(oc, nc, ot, nt, ocs, ncs)
        &&& did_change_sent(osync, nsync, rope_chars(nt.rope), reqs)
    } else {
        &&& nc == oc
        &&& nt == ot
        &&& nsync == osync
        &&& reqs.len() == 0
        &&& same_popup_items(ocs, ncs)
        &&& !ncs.visible
        &&& ncs.filter@.len() == 0
        &&& ncs.scroll_offset == 0
        &&& ncs.selected_index == ocs.selected_index
    }
}

/// Handle an action while the completion popup shows rows: Up and Down move
/// the selected row, Enter and Tab accept it, Escape hides the popup. Whether
/// the action was taken comes back.
fn completion_navigation(
    state: &mut CodeEditorState,
    cursor: &mut CursorState,
    tv: &mut TextViewState,
    action: EditorAction,
    lsp: &LspSettings,
    completion_state: &mut CompletionState,
    lsp_sync: &mut LspSyncState,
    requests: &mut Vec<LspRequest>,
) -> (taken: bool)
    requires
        old(completion_state).visible,
        old(completion_state).filtered_len() > 0,
        old(requests)@.len() == 0,
    ensures
        *final(state) == *old(state),
        taken == is_popup_action(action),
        !taken ==> *final(cursor) == *old(cursor) && *final(tv) == *old(tv) && *final(completion_state)
            == *old(completion_state) && *final(lsp_sync) == *old(lsp_sync) && final(requests)@.len() == 0,
        taken ==> completion_navigated(
            action,
            *old(cursor),
            *final(cursor),
            *old(tv),
            *final(tv),
            *old(completion_state),
            *final(completion_state),
            *old(lsp_sync),
            *final(lsp_sync),
            final(requests)@,
            lsp.completion.max_visible_items,
        ),
{
    let filtered_count = completion_state.filtered_items().len();
    let max_visible = lsp.completion.max_visible_items;
    match action {
        EditorAction::MoveCursorUp => {
            if completion_state.selected_index > 0 {
                completion_state.selected_index = completion_state.selected_index - 1;
            } else {
                completion_state.selected_index = filtered_count - 1;
            }
            completion_state.ensure_selected_visible_with_max(max_visible);
            true
        },
        EditorAction::MoveCursorDown => {
            if completion_state.selected_index < filtered_count - 1 {
                completion_state.selected_index = completion_state.selected_index + 1;
            } else {
                completion_state.selected_index = 0;
            }
            completion_state.ensure_selected_visible_with_max(max_visible);
            true
        },
        EditorAction::InsertNewline | EditorAction::InsertTab => {
            apply_completion(state, cursor, tv, completion_state);
            match send_did_change(&tv.rope, lsp_sync) {
                Some(req) => requests.push(req),
                None => {},
            }
            true
        },
        EditorAction::ClearSelection => {
            completion_state.visible = false;
            completion_state.filter = String::new();
            completion_state.scroll_offset = 0;
            true
        },
        _ => false,
    }
}

/// Execute an action, with the completion popup and the language server in
/// mind. Escape first drops extra cursors, else closes the go-to-line prompt,
/// else closes the find bar; while the popup shows rows, Up, Down, Enter, Tab
/// and Escape act on it; asking for completion opens it; every other action
/// runs, after which the popup hides on sideways moves and its filter follows
/// a backward deletion. The messages for the server come back, in order.
/// `clipboard` holds what the clipboard gave for Paste and receives the text
/// of Copy and Cut.
pub fn execute_action(
    state: &mut CodeEditorState,
    sel: &mut SelectionState,
    hist: &mut EditHistoryState,
    cursor: &mut CursorState,
    tv: &mut TextViewState,
    action: EditorAction,
    indentation: &IndentationSettings,
    lsp: &LspSettings,
    find_state: &mut FindState,
    goto_line_state: &mut GotoLineState,
    fold_state: &mut FoldState,
    completion_state: &mut CompletionState,
    lsp_sync: &mut LspSyncState,
    clipboard: &mut Option<String>,
) -> (requests: Vec<LspRequest>)
    requires
        action_ready(action, *old(sel), *old(cursor), *old(tv), *old(completion_state)),
    ensures
        *final(state) == *old(state),
        ({
            let o = (*old(sel), *old(hist), *old(cursor), *old(tv));
            let n = (*final(sel), *final(hist), *final(cursor), *final(tv));
            let oa = (*old(find_state), *old(goto_line_state), *old(fold_state), *old(clipboard));
            let na = (*final(find_state), *final(goto_line_state), *final(fold_state), *final(clipboard));
            let ocs = *old(completion_state);
            let ncs = *final(completion_state);
            let quiet = ncs == ocs && *final(lsp_sync) == *old(lsp_sync) && requests@.len() == 0;
            if action is ClearSelection && o.2.cursors@.len() > 1 {
                &&& secondary_cleared(o.0, n.0, o.2, n.2)
                &&& n.1 == o.1 && n.3 == o.3 && na == oa
                &&& quiet
            } else if action is ClearSelection && oa.1.active {
                &&& !na.1.active && na.1.input@.len() == 0
                &&& n == o && na.0 == oa.0 && na.2 == oa.2 && na.3 == oa.3
                &&& quiet
            } else if action is ClearSelection && oa.0.active {
                &&& !na.0.active && na.0.query@.len() == 0 && na.0.matches@.len() == 0 && na.0.current_match_index is None
                &&& n.0 == (SelectionState { selection_start: None, selection_end: None, ..o.0 })
                &&& n.1 == o.1 && n.2 == o.2
                &&& n.3 == (TextViewState { pending_update: true, ..o.3 })
                &&& na.1 == oa.1 && na.2 == oa.2 && na.3 == oa.3
                &&& quiet
            } else if ocs.visible && ocs.filtered_len() > 0 && is_popup_action(action) {
                &&& completion_navigated(
                    action,
                    o.2,
                    n.2,
                    o.3,
                    n.3,
                    ocs,
                    ncs,
                    *old(lsp_sync),
                    *final(lsp_sync),
                    requests@,
                    lsp.completion.max_visible_items,
                )
                &&& n.0 == o.0 && n.1 == o.1 && na == oa
            } else if action is RequestCompletion {
                let s = rope_chars(o.3.rope);
                let p = min_usize(o.2.cursor_pos, s.len() as usize) as int;
                let l = breaks_before(s, p) as int;
                &&& completion_requested(ocs, ncs, s, o.2.cursor_pos)
                &&& n == o && na == oa && *final(lsp_sync) == *old(lsp_sync)
                &&& match old(lsp_sync).document_uri {
                    Some(_) => requests@.len() == 1 && (requests@[0] matches LspRequest::Completion { line, character }
                        && line == l as u32 && character == (p - line_start(s, l)) as u32),
                    None => requests@.len() == 0,
                }
            } else {
                exists|r: ActionResult|
                    #![trigger action_effect(action, o, n, oa, na, indentation.tab_width, r)]
                    {
                        &&& action_effect(action, o, n, oa, na, indentation.tab_width, r)
                        &&& completion_followed(
                            ocs,
                            ncs,
                            r.horizontal_move,
                            action is DeleteBackward,
                            n.2.cursor_pos,
                            rope_chars(n.3.rope),
                        )
                        &&& if r.text_changed {
                            did_change_sent(*old(lsp_sync), *final(lsp_sync), rope_chars(n.3.rope), requests@)
                        } else {
                            *final(lsp_sync) == *old(lsp_sync) && requests@.len() == 0
                        }
                    }
            }
        }),
{
    let mut requests: Vec<LspRequest> = Vec::new();
    if action == EditorAction::ClearSelection {
        if sel.has_multiple_cursors(cursor) {
            sel.clear_secondary_cursors(cursor, tv);
            return requests;
        }
        if goto_line_state.active {
            goto_line_state.clear();
            return requests;
        }
        if find_state.active {
            find_state.clear();
            sel.selection_start = None;
            sel.selection_end = None;
            tv.pending_update = true;
            return requests;
        }
    }
    if completion_state.visible && completion_state.filtered_items().len() > 0 {
        if completion_navigation(state, cursor, tv, action, lsp, completion_state, lsp_sync, &mut requests) {
            return requests;
        }
    }
    if action == EditorAction::RequestCompletion {
        match request_completion(cursor, &tv.rope, completion_state, lsp_sync) {
            Some(req) => requests.push(req),
            None => {},
        }
        return requests;
    }
    let ghost o = (*sel, *hist, *cursor, *tv);
    let ghost oa = (*find_state, *goto_line_state, *fold_state, *clipboard);
    let result = execute_action_core(
        state,
        sel,
        hist,
        cursor,
        tv,
        action,
        indentation,
        find_state,
        goto_line_state,
        fold_state,
        clipboard,
    );
    if result.horizontal_move {
        completion_state.visible = false;
    }
    if action == EditorAction::DeleteBackward && completion_state.visible {
        if cursor.cursor_pos > completion_state.start_char_index {
            update_completion_filter(cursor, &tv.rope, completion_state);
        } else if cursor.cursor_pos == completion_state.start_char_index {
            completion_state.filter = String::new();
            completion_state.selected_index = 0;
        } else {
            completion_state.visible = false;
            completion_state.filter = String::new();
        }
    }
    if result.text_changed {
        match send_did_change(&tv.rope, lsp_sync) {
            Some(req) => requests.push(req),
            None => {},
        }
    }
    proof {
        let n = (*sel, *hist, *cursor, *tv);
        let na = (*find_state, *goto_line_state, *fold_state, *clipboard);
        assert(action_effect(action, o, n, oa, na, indentation.tab_width, result));
    }
    requests
}

} // verus!
