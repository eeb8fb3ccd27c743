//! Mouse input: where a click lands in the text, and what clicks and drags
//! do to the cursor and selection.

use vstd::prelude::*;
use ropey::Rope;
use crate::text::{
    breaks_before, lemma_line_of, lemma_line_start_mono, line_count, line_len, line_start,
    rope_char_to_line, rope_chars, rope_len_chars, rope_len_lines, rope_line_len, rope_line_to_char,
    TextViewState,
};
use crate::types::{region_at, toggle_fold_at, CursorState, FoldState};
use crate::selection::{cursor_added, synced_cursor_seq, SelectionState};
use crate::editor::CodeEditorState;
use crate::completion::LspSyncState;
use crate::lsp_edits::LspPosition;
use crate::lsp_responses::{hover_cleared, HoverState};
use crate::settings::HoverSettings;
use crate::timer::{after_tick, finishes_on_tick, fresh_timer, DelayTimer};

verus! {

/// Whether the left button is dragging a selection, and from where.
#[derive(Clone, Copy, Debug, PartialEq, Eq, Structural)]
pub struct MouseDragState {
    pub is_dragging: bool,
    pub drag_start_pos: Option<usize>,
}

/// Char index of column `col` of line `line` of `s`: past the last line,
/// the end of the text; columns past the line's last char (its break
/// excluded) stop there.
pub open spec fn line_col_index(s: Seq<char>, line: int, col: int) -> int {
    if line >= line_count(s) {
        s.len() as int
    } else {
        let room = if line_len(s, line) > 0 { line_len(s, line) - 1 } else { 0 };
        line_start(s, line) + if col <= room { col } else { room }
    }
}

/// The char index a click on buffer line `buffer_line`, column `col`, lands on.
pub fn line_col_to_char(rope: &Rope, buffer_line: usize, col: usize) -> (r: usize)
    ensures
        r == line_col_index(rope_chars(*rope), buffer_line as int, col as int),
        r <= rope_chars(*rope).len(),
{
    let len = rope_len_chars(rope);
    let line_count = rope_len_lines(rope);
    if buffer_line >= line_count {
        return len;
    }
    proof {
        lemma_line_start_mono(rope_chars(*rope), buffer_line as int);
    }
    let line_start_char = rope_line_to_char(rope, buffer_line);
    let line_len = rope_line_len(rope, buffer_line).saturating_sub(1);
    let char_in_line = if col <= line_len {
        col
    } else {
        line_len
    };
    line_start_char + char_in_line
}

/// The protocol position for hovering over char `p`: its line, and its
/// column clamped to the line's last char before its break.
pub open spec fn hover_position_of(s: Seq<char>, p: int) -> LspPosition {
    let l = breaks_before(s, p) as int;
    let room = if line_len(s, l) > 0 { line_len(s, l) - 1 } else { 0 };
    let col = p - line_start(s, l);
    LspPosition { line: l as u32, character: (if col <= room { col } else { room }) as u32 }
}

/// Where to ask the server for hover information about char `char_pos`.
pub fn hover_position(rope: &Rope, char_pos: usize) -> (r: LspPosition)
    requires
        char_pos <= rope_chars(*rope).len(),
    ensures
        r == hover_position_of(rope_chars(*rope), char_pos as int),
{
    proof {
        lemma_line_of(rope_chars(*rope), char_pos as int);
    }
    let line_index = rope_char_to_line(rope, char_pos);
    let line_start = rope_line_to_char(rope, line_index);
    let line_len = rope_line_len(rope, line_index).saturating_sub(1);
    let col = char_pos - line_start;
    let char_in_line = if col <= line_len {
        col
    } else {
        line_len
    };
    LspPosition {
        line: #[verifier::truncate] (line_index as u32),
        character: #[verifier::truncate] (char_in_line as u32),
    }
}

/// What the pointer resting on char `char_pos` (none when it is off the
/// text) does to the hover state, over a frame of `delta_ms`: with hovering
/// off or the pointer away, the popup is cleared. On a new char the popup
/// hides and the delay starts over. When the delay finishes on this frame
/// and no request went out for the char, one goes out (if the document is
/// known to the server) and is remembered as pending.
pub open spec fn hover_tracked(
    settings: HoverSettings,
    char_pos: Option<usize>,
    delta_ms: u64,
    s: Seq<char>,
    sync: LspSyncState,
    oh: HoverState,
    nh: HoverState,
    request: Option<LspPosition>,
) -> bool {
    if settings.enabled && char_pos is Some {
        let p = char_pos->0;
        let moved = oh.trigger_char_index != p;
        let timer0 = if moved { Some(fresh_timer(settings.delay_ms)) } else { oh.timer };
        let sent0 = if moved { false } else { oh.request_sent };
        &&& nh.trigger_char_index == p
        &&& nh.visible == (if moved { false } else { oh.visible })
        &&& nh.content == oh.content
        &&& nh.range == oh.range
        &&& match timer0 {
            Some(t) => {
                let asks = finishes_on_tick(t, delta_ms) && !sent0 && sync.document_uri is Some;
                &&& nh.timer == Some(after_tick(t, delta_ms))
                &&& if asks {
                    &&& request == Some(hover_position_of(s, p as int))
                    &&& nh.request_sent
                    &&& nh.pending_char_index == Some(p)
                } else {
                    &&& request is None
                    &&& nh.request_sent == sent0
                    &&& nh.pending_char_index == oh.pending_char_index
                }
            },
            None => {
                &&& nh.timer is None
                &&& request is None
                &&& nh.request_sent == sent0
                &&& nh.pending_char_index == oh.pending_char_index
            },
        }
    } else {
        hover_cleared(nh, oh) && request is None
    }
}

/// Track the pointer for hover information (see `hover_tracked`); the
/// position to ask the server about comes back when a request is due.
pub fn handle_hover(
    settings: &HoverSettings,
    char_pos: Option<usize>,
    delta_ms: u64,
    rope: &Rope,
    sync: &LspSyncState,
    hover: &mut HoverState,
) -> (request: Option<LspPosition>)
    requires
        char_pos matches Some(p) ==> p <= rope_chars(*rope).len(),
    ensures
        hover_tracked(*settings, char_pos, delta_ms, rope_chars(*rope), *sync, *old(hover), *final(hover), request),
{
    if !settings.enabled {
        hover.reset();
        return None;
    }
    match char_pos {
        None => {
            hover.reset();
            None
        },
        Some(p) => {
            if hover.trigger_char_index != p {
                hover.trigger_char_index = p;
                hover.timer = Some(DelayTimer::new(settings.delay_ms));
                hover.visible = false;
                hover.request_sent = false;
            }
            let mut request: Option<LspPosition> = None;
            match hover.timer.take() {
                Some(mut t) => {
                    let just_finished = t.tick(delta_ms);
                    hover.timer = Some(t);
                    if just_finished && !hover.request_sent {
                        if sync.document_uri.is_some() {
                            request = Some(hover_position(rope, p));
                            hover.request_sent = true;
                            hover.pending_char_index = Some(p);
                        }
                    }
                },
                None => {},
            }
            request
        },
    }
}

/// A click in the fold gutter on buffer line `line`: the region starting
/// there, if any, is folded or opened and the editor takes focus. Whether
/// the click was taken comes back.
pub fn click_fold_gutter(state: &mut CodeEditorState, tv: &mut TextViewState, fold_state: &mut FoldState, line: usize) -> (taken: bool)
    ensures
        taken == (region_at(old(fold_state).regions@, line) is Some),
        taken ==> {
            &&& final(fold_state).regions@ == toggle_fold_at(old(fold_state).regions@, line)
            &&& final(state).is_focused
            &&& *final(tv) == (TextViewState { pending_update: true, ..*old(tv) })
        },
        !taken ==> *final(fold_state) == *old(fold_state) && *final(state) == *old(state) && *final(tv) == *old(tv),
{
    if fold_state.is_foldable_line(line) {
        fold_state.toggle_fold_at_line(line);
        tv.pending_update = true;
        state.is_focused = true;
        true
    } else {
        false
    }
}

/// What a left click does: the position to ask the server for the
/// definition at, for a Ctrl+click when the server knows the document.
pub open spec fn definition_position(s: Seq<char>, p: int) -> LspPosition {
    let l = breaks_before(s, p) as int;
    LspPosition { line: l as u32, character: (p - line_start(s, l)) as u32 }
}

/// Handle a left click landing on char `char_pos` (none outside the text
/// area), with Ctrl or Alt held. Outside, the editor loses focus. Inside it
/// takes focus; a Ctrl+click asks for the definition there; an Alt+click adds
/// a cursor there; a plain click drops extra cursors, puts the cursor there
/// without a selection and starts a drag. The definition request, if any,
/// comes back.
pub fn handle_click(
    state: &mut CodeEditorState,
    sel: &mut SelectionState,
    cursor: &mut CursorState,
    tv: &mut TextViewState,
    drag: &mut MouseDragState,
    lsp_sync: &LspSyncState,
    char_pos: Option<usize>,
    ctrl: bool,
    alt: bool,
) -> (goto: Option<LspPosition>)
    requires
        char_pos matches Some(p) ==> p <= rope_chars(old(tv).rope).len(),
    ensures
        final(tv).rope == old(tv).rope,
        match char_pos {
            None => {
                &&& !final(state).is_focused
                &&& goto is None
                &&& *final(sel) == *old(sel) && *final(cursor) == *old(cursor) && *final(tv) == *old(tv)
                &&& *final(drag) == *old(drag)
            },
            Some(p) => {
                let s = rope_chars(old(tv).rope);
                &&& final(state).is_focused
                &&& if ctrl {
                    &&& goto == (if lsp_sync.document_uri is Some { Some(definition_position(s, p as int)) } else { None })
                    &&& *final(sel) == *old(sel) && *final(cursor) == *old(cursor) && *final(tv) == *old(tv)
                    &&& *final(drag) == *old(drag)
                } else if alt {
                    &&& goto is None
                    &&& *final(tv) == *old(tv) && *final(drag) == *old(drag)
                    &&& exists|mc: CursorState|
                        #![trigger cursor_added(*old(sel), *final(sel), mc, *final(cursor), s.len() as int, p)]
                        mc.cursor_pos == old(cursor).cursor_pos && mc.cursors@ == synced_cursor_seq(*old(sel), *old(cursor))
                            && cursor_added(*old(sel), *final(sel), mc, *final(cursor), s.len() as int, p)
                } else {
                    &&& goto is None
                    &&& *final(drag) == (MouseDragState { is_dragging: true, drag_start_pos: Some(p) })
                    &&& final(cursor).cursor_pos == p
                    &&& final(sel).selection_start is None
                    &&& final(sel).selection_end is None
                    &&& final(sel).selections == old(sel).selections
                    &&& final(cursor).cursors@.len() >= 1
                    &&& final(cursor).cursors@[0] == (crate::types::Cursor { position: p, anchor: None })
                    &&& (old(cursor).cursors@.len() <= 1 ==> final(cursor).cursors@ == synced_cursor_seq(
                        SelectionState { selection_start: None, selection_end: None, ..*old(sel) },
                        CursorState { cursor_pos: p, ..*old(cursor) },
                    ))
                    &&& (old(cursor).cursors@.len() > 1 ==> final(cursor).cursors@.len() == 1)
                    &&& *final(tv) == (TextViewState { pending_update: true, ..*old(tv) })
                }
            },
        },
{
    match char_pos {
        None => {
            state.is_focused = false;
            None
        },
        Some(p) => {
            state.is_focused = true;
            if ctrl {
                let ghost s = rope_chars(tv.rope);
                proof {
                    lemma_line_of(s, p as int);
                }
                match &lsp_sync.document_uri {
                    Some(_) => {
                        let line_index = rope_char_to_line(&tv.rope, p);
                        let character = p - rope_line_to_char(&tv.rope, line_index);
                        return Some(
                            LspPosition {
                                line: #[verifier::truncate] (line_index as u32),
                                character: #[verifier::truncate] (character as u32),
                            },
                        );
                    },
                    None => {
                        return None;
                    },
                }
            }
            if alt {
                sel.sync_cursors_from_primary(cursor);
                let ghost mc = *cursor;
                sel.add_cursor(cursor, tv, p);
                assert(cursor_added(*old(sel), *sel, mc, *cursor, rope_chars(tv.rope).len() as int, p));
                return None;
            }
            drag.is_dragging = true;
            drag.drag_start_pos = Some(p);
            if sel.has_multiple_cursors(cursor) {
                sel.clear_secondary_cursors(cursor, tv);
            }
            let ghost mid = *cursor;
            cursor.cursor_pos = p;
            sel.selection_start = None;
            sel.selection_end = None;
            sel.sync_cursors_from_primary(cursor);
            tv.pending_update = true;
            proof {
                if old(cursor).cursors@.len() > 1 {
                    assert(mid.cursors@.len() == 1);
                }
            }
            None
        },
    }
}

/// Drag with the left button held to char `current_pos`: the selection
/// runs from where the drag started to there, and the cursor follows.
pub fn handle_drag(sel: &mut SelectionState, cursor: &mut CursorState, tv: &mut TextViewState, drag: &MouseDragState, current_pos: usize)
    ensures
        final(sel).selections == old(sel).selections,
        final(cursor).cursors == old(cursor).cursors,
        final(tv).rope == old(tv).rope,
        match (drag.is_dragging, drag.drag_start_pos) {
            (true, Some(start)) => if current_pos != old(cursor).cursor_pos {
                &&& final(cursor).cursor_pos == current_pos
                &&& final(sel).selection_start == Some(start)
                &&& final(sel).selection_end == Some(current_pos)
                &&& *final(tv) == (TextViewState { pending_update: true, ..*old(tv) })
            } else {
                *final(sel) == *old(sel) && *final(cursor) == *old(cursor) && *final(tv) == *old(tv)
            },
            _ => *final(sel) == *old(sel) && *final(cursor) == *old(cursor) && *final(tv) == *old(tv),
        },
{
    if drag.is_dragging {
        match drag.drag_start_pos {
            Some(start) => {
                if current_pos != cursor.cursor_pos {
                    cursor.cursor_pos = current_pos;
                    sel.selection_start = Some(start);
                    sel.selection_end = Some(current_pos);
                    tv.pending_update = true;
                }
            },
            None => {},
        }
    }
}

/// The left button went up: the drag ends.
pub fn handle_release(drag: &mut MouseDragState)
    ensures
        *final(drag) == (MouseDragState { is_dragging: false, drag_start_pos: None }),
{
    drag.is_dragging = false;
    drag.drag_start_pos = None;
}

} // verus!
