use bevscode::actions::{
    delete_selection, find_word_start, get_closing_bracket, get_closing_quote, insert_char,
    insert_closing_char, should_skip_auto_close,
};
use bevscode::cursor::{
    delete_word_backward, delete_word_forward, find_word_boundary_left, find_word_boundary_right,
    init_selection, move_cursor_down, move_cursor_line_end, move_cursor_line_start, move_cursor_up,
};
use bevscode::editor::{debounce_updates, CodeEditorState};
use bevscode::history::{EditHistoryState, EditKind};
use bevscode::selection::SelectionState;
use bevscode::text::TextViewState;
use bevscode::types::{Cursor, CursorState};
use ropey::Rope;

fn setup(text: &str, pos: usize) -> (CodeEditorState, SelectionState, EditHistoryState, CursorState, TextViewState) {
    let mut cursor = CursorState::new();
    cursor.cursor_pos = pos;
    (
        CodeEditorState { is_focused: true },
        SelectionState::new(),
        EditHistoryState::new(),
        cursor,
        TextViewState::new(text),
    )
}

#[test]
fn typing_inserts_at_cursor_and_records() {
    let (mut state, mut sel, mut hist, mut cursor, mut tv) = setup("helo", 3);
    insert_char(&mut state, &mut sel, &mut hist, &mut cursor, &mut tv, 'l');
    assert_eq!(tv.rope.to_string(), "hello");
    assert_eq!(cursor.cursor_pos, 4);
    assert_eq!(hist.history.undo_stack.len(), 1);
    let op = &hist.history.undo_stack[0];
    assert_eq!(op.inserted_text, "l");
    assert_eq!(op.removed_text, "");
    assert_eq!(op.position, 3);
    assert_eq!(op.kind, EditKind::Insert);
    assert!(tv.pending_update);
    assert_eq!(tv.content_version, 1);
    assert_eq!(tv.dirty_lines, Some(0..1));
}

#[test]
fn typing_replaces_selection() {
    let (mut state, mut sel, mut hist, mut cursor, mut tv) = setup("hello world", 11);
    sel.selection_start = Some(6);
    sel.selection_end = Some(11);
    insert_char(&mut state, &mut sel, &mut hist, &mut cursor, &mut tv, 'X');
    assert_eq!(tv.rope.to_string(), "hello X");
    assert_eq!(cursor.cursor_pos, 7);
    assert_eq!(sel.selection_start, None);
    assert_eq!(hist.history.undo_stack.len(), 2);
    assert_eq!(hist.history.undo_stack[0].removed_text, "world");
    assert_eq!(hist.history.undo_stack[0].kind, EditKind::Other);
}

#[test]
fn delete_selection_backwards_selection() {
    let (mut state, mut sel, mut hist, mut cursor, mut tv) = setup("abcdef", 1);
    sel.selection_start = Some(4);
    sel.selection_end = Some(1);
    delete_selection(&mut state, &mut sel, &mut hist, &mut cursor, &mut tv);
    assert_eq!(tv.rope.to_string(), "aef");
    assert_eq!(cursor.cursor_pos, 1);
    assert_eq!(sel.selection_end, None);
    assert!(tv.needs_update);
    assert!(!tv.pending_update);
    assert_eq!(tv.dirty_lines, None);
    assert_eq!(hist.history.undo_stack[0].removed_text, "bcd");
}

#[test]
fn delete_selection_without_one_does_nothing() {
    let (mut state, mut sel, mut hist, mut cursor, mut tv) = setup("abc", 1);
    sel.selection_start = Some(0);
    delete_selection(&mut state, &mut sel, &mut hist, &mut cursor, &mut tv);
    assert_eq!(tv.rope.to_string(), "abc");
    assert_eq!(hist.history.undo_stack.len(), 0);
    assert_eq!(sel.selection_start, Some(0));
}

#[test]
fn undo_restores_text_and_redo_reapplies() {
    let (state, mut sel, mut hist, mut cursor, mut tv) = setup("abc", 3);
    state.insert_char(&mut hist, &mut cursor, &mut tv, 'd');
    assert_eq!(tv.rope.to_string(), "abcd");
    assert!(state.undo(&mut sel, &mut hist, &mut cursor, &mut tv));
    assert_eq!(tv.rope.to_string(), "abc");
    assert_eq!(cursor.cursor_pos, 3);
    assert_eq!(hist.history.redo_stack.len(), 1);
    assert!(state.redo(&mut sel, &mut hist, &mut cursor, &mut tv));
    assert_eq!(tv.rope.to_string(), "abcd");
    assert_eq!(cursor.cursor_pos, 4);
    assert!(!state.redo(&mut sel, &mut hist, &mut cursor, &mut tv));
}

#[test]
fn undo_of_deletion_puts_text_back() {
    let (mut state, mut sel, mut hist, mut cursor, mut tv) = setup("foo bar baz", 7);
    delete_word_backward(&mut state, &mut sel, &mut hist, &mut cursor, &mut tv);
    assert_eq!(tv.rope.to_string(), "foo  baz");
    assert_eq!(cursor.cursor_pos, 4);
    assert!(state.undo(&mut sel, &mut hist, &mut cursor, &mut tv));
    assert_eq!(tv.rope.to_string(), "foo bar baz");
    assert_eq!(cursor.cursor_pos, 7);
}

#[test]
fn nothing_to_undo() {
    let (state, mut sel, mut hist, mut cursor, mut tv) = setup("abc", 0);
    assert!(!state.undo(&mut sel, &mut hist, &mut cursor, &mut tv));
    assert_eq!(tv.content_version, 0);
}

#[test]
fn backspace_and_delete() {
    let (state, _sel, mut hist, mut cursor, mut tv) = setup("abc", 2);
    state.delete_backward(&mut hist, &mut cursor, &mut tv);
    assert_eq!(tv.rope.to_string(), "ac");
    assert_eq!(cursor.cursor_pos, 1);
    state.delete_forward(&mut hist, &mut cursor, &mut tv);
    assert_eq!(tv.rope.to_string(), "a");
    assert_eq!(cursor.cursor_pos, 1);
    state.delete_forward(&mut hist, &mut cursor, &mut tv);
    assert_eq!(tv.rope.to_string(), "a");
    assert_eq!(hist.history.undo_stack.len(), 2);
}

#[test]
fn word_boundaries() {
    let rope = Rope::from_str("let foo_bar = 42;\nnext");
    assert_eq!(find_word_boundary_left(&rope, 11), 4);
    assert_eq!(find_word_boundary_left(&rope, 4), 0);
    assert_eq!(find_word_boundary_left(&rope, 14), 12);
    assert_eq!(find_word_boundary_left(&rope, 0), 0);
    assert_eq!(find_word_boundary_right(&rope, 0), 4);
    assert_eq!(find_word_boundary_right(&rope, 4), 12);
    assert_eq!(find_word_boundary_right(&rope, 16), 17);
    assert_eq!(find_word_boundary_right(&rope, 17), 18);
    assert_eq!(find_word_boundary_right(&rope, 100), 22);
}

#[test]
fn word_right_always_moves_inside_the_text() {
    let rope = Rope::from_str("a \u{3000}\u{2028}b\n\u{85}c");
    let len = rope.len_chars();
    for pos in 0..len {
        assert!(find_word_boundary_right(&rope, pos) > pos);
    }
    assert_eq!(find_word_boundary_right(&rope, 1), 4);
}

#[test]
fn delete_word_forward_keeps_cursor() {
    let (mut state, mut sel, mut hist, mut cursor, mut tv) = setup("alpha beta", 0);
    delete_word_forward(&mut state, &mut sel, &mut hist, &mut cursor, &mut tv);
    assert_eq!(tv.rope.to_string(), "beta");
    assert_eq!(cursor.cursor_pos, 0);
    assert_eq!(hist.history.undo_stack[0].kind, EditKind::DeleteForward);
}

#[test]
fn vertical_and_line_moves() {
    let rope = Rope::from_str("abcdef\nxy\nlonger line");
    let mut cursor = CursorState::new();
    cursor.cursor_pos = 5;
    move_cursor_down(&mut cursor, &rope);
    assert_eq!(cursor.cursor_pos, 9);
    move_cursor_down(&mut cursor, &rope);
    assert_eq!(cursor.cursor_pos, 12);
    move_cursor_up(&mut cursor, &rope);
    assert_eq!(cursor.cursor_pos, 9);
    move_cursor_line_start(&mut cursor, &rope);
    assert_eq!(cursor.cursor_pos, 7);
    move_cursor_line_end(&mut cursor, &rope);
    assert_eq!(cursor.cursor_pos, 9);
    move_cursor_up(&mut cursor, &rope);
    assert_eq!(cursor.cursor_pos, 2);
    move_cursor_up(&mut cursor, &rope);
    assert_eq!(cursor.cursor_pos, 2);
}

#[test]
fn move_cursor_by_delta_clamps() {
    let rope = Rope::from_str("abc");
    let state = CodeEditorState { is_focused: true };
    let mut cursor = CursorState::new();
    state.move_cursor(&mut cursor, &rope, -5);
    assert_eq!(cursor.cursor_pos, 0);
    state.move_cursor(&mut cursor, &rope, 2);
    assert_eq!(cursor.cursor_pos, 2);
    state.move_cursor(&mut cursor, &rope, 10);
    assert_eq!(cursor.cursor_pos, 3);
    state.move_cursor(&mut cursor, &rope, isize::MIN);
    assert_eq!(cursor.cursor_pos, 0);
}

#[test]
fn init_selection_keeps_existing_anchor() {
    let mut sel = SelectionState::new();
    let mut cursor = CursorState::new();
    cursor.cursor_pos = 3;
    init_selection(&mut sel, &cursor);
    assert_eq!(sel.selection_start, Some(3));
    assert_eq!(sel.selection_end, Some(3));
    cursor.cursor_pos = 5;
    init_selection(&mut sel, &cursor);
    assert_eq!(sel.selection_start, Some(3));
}

#[test]
fn closing_brackets_and_quotes() {
    let pairs = [('(', ')'), ('[', ']'), ('{', '}')];
    assert_eq!(get_closing_bracket('[', &pairs), Some(']'));
    assert_eq!(get_closing_bracket('x', &pairs), None);
    assert_eq!(get_closing_quote('"'), Some('"'));
    assert_eq!(get_closing_quote('\''), Some('\''));
    assert_eq!(get_closing_quote('`'), Some('`'));
    assert_eq!(get_closing_quote('a'), None);
}

#[test]
fn closing_char_leaves_cursor() {
    let (mut state, _sel, _hist, cursor, mut tv) = setup("f(", 2);
    insert_closing_char(&mut state, &cursor, &mut tv, ')');
    assert_eq!(tv.rope.to_string(), "f()");
    assert_eq!(cursor.cursor_pos, 2);
    assert!(should_skip_auto_close(&cursor, &tv.rope, ')'));
    assert!(!should_skip_auto_close(&cursor, &tv.rope, ']'));
}

#[test]
fn word_start_for_completion() {
    let rope = Rope::from_str("let my_var");
    assert_eq!(find_word_start(&rope, 10), 4);
    assert_eq!(find_word_start(&rope, 3), 0);
    assert_eq!(find_word_start(&rope, 4), 4);
}

#[test]
fn cursor_helpers() {
    let c = Cursor::with_selection(2, 7);
    assert!(c.has_selection());
    assert_eq!(c.selection_start(), 2);
    assert_eq!(c.selection_end(), 7);
    assert!(!Cursor::new(4).has_selection());
}

#[test]
fn pending_refresh_waits_a_frame() {
    let mut tv = TextViewState::new("abc");
    let mut last: u64 = 100;
    debounce_updates(&mut tv, &mut last, 200);
    assert!(!tv.needs_update);
    assert_eq!(last, 100);
    tv.pending_update = true;
    debounce_updates(&mut tv, &mut last, 110);
    assert!(tv.pending_update && !tv.needs_update);
    debounce_updates(&mut tv, &mut last, 116);
    assert!(!tv.pending_update && tv.needs_update);
    assert_eq!(last, 116);
}

#[test]
fn undo_after_backspace_and_delete_restores() {
    let (state, mut sel, mut hist, mut cursor, mut tv) = setup("héllo", 2);
    state.delete_backward(&mut hist, &mut cursor, &mut tv);
    assert_eq!(tv.rope.to_string(), "hllo");
    assert!(state.undo(&mut sel, &mut hist, &mut cursor, &mut tv));
    assert_eq!(tv.rope.to_string(), "héllo");
    assert_eq!(cursor.cursor_pos, 2);
    assert!(hist.history.undo_stack.is_empty());
    state.delete_forward(&mut hist, &mut cursor, &mut tv);
    assert_eq!(tv.rope.to_string(), "hélo");
    assert!(state.undo(&mut sel, &mut hist, &mut cursor, &mut tv));
    assert_eq!(tv.rope.to_string(), "héllo");
    // Undo then redo gives back the edited text and both stacks.
    assert!(state.redo(&mut sel, &mut hist, &mut cursor, &mut tv));
    assert_eq!(tv.rope.to_string(), "hélo");
    assert!(state.undo(&mut sel, &mut hist, &mut cursor, &mut tv));
    assert!(state.redo(&mut sel, &mut hist, &mut cursor, &mut tv));
    assert_eq!(tv.rope.to_string(), "hélo");
    assert_eq!(hist.history.undo_stack.len(), 1);
    assert!(hist.history.redo_stack.is_empty());
}
