use bevscode::highlight::{selection_highlight_spans, visible_segments};
use ropey::Rope;
use bevscode::editor::CodeEditorState;
use bevscode::selection::SelectionState;
use bevscode::text::TextViewState;
use bevscode::types::{Cursor, CursorState, PendingEdit, Selection, SelectionCollection};

fn cursors(positions: &[(usize, Option<usize>)]) -> CursorState {
    let mut cs = CursorState::new();
    cs.cursors = positions.iter().map(|&(p, a)| Cursor { position: p, anchor: a }).collect();
    cs
}

#[test]
fn sort_and_merge_plain_cursors() {
    let mut sel = SelectionState::new();
    let mut cs = cursors(&[(9, None), (3, None), (9, None), (1, None)]);
    sel.sort_and_merge_cursors(&mut cs);
    let positions: Vec<usize> = cs.cursors.iter().map(|c| c.position).collect();
    assert_eq!(positions, vec![1, 3, 9]);
    assert_eq!(cs.cursor_pos, 1);
    assert_eq!(sel.selection_start, None);
}

#[test]
fn sort_and_merge_overlapping_selections() {
    let mut sel = SelectionState::new();
    let mut cs = cursors(&[(10, Some(4)), (6, None), (20, Some(15))]);
    sel.sort_and_merge_cursors(&mut cs);
    assert_eq!(cs.cursors.len(), 2);
    assert_eq!(cs.cursors[0], Cursor { position: 10, anchor: Some(4) });
    assert_eq!(cs.cursors[1], Cursor { position: 20, anchor: Some(15) });
    assert_eq!(cs.cursor_pos, 10);
    assert_eq!(sel.selection_start, Some(4));
    assert_eq!(sel.selection_end, Some(10));
}

#[test]
fn sort_and_merge_joins_every_overlap() {
    let mut sel = SelectionState::new();
    let mut cs = cursors(&[(1, None), (5, None), (6, Some(0))]);
    sel.sort_and_merge_cursors(&mut cs);
    assert_eq!(cs.cursors, vec![Cursor { position: 6, anchor: Some(0) }]);
    assert_eq!(cs.cursor_pos, 6);
    assert_eq!(sel.selection_start, Some(0));
    assert_eq!(sel.selection_end, Some(6));
}

#[test]
fn sort_and_merge_keeps_spans_apart() {
    let mut sel = SelectionState::new();
    let mut cs = cursors(&[(12, Some(8)), (2, Some(4)), (3, None), (9, None), (20, None)]);
    sel.sort_and_merge_cursors(&mut cs);
    assert_eq!(
        cs.cursors,
        vec![
            Cursor { position: 4, anchor: Some(2) },
            Cursor { position: 12, anchor: Some(8) },
            Cursor { position: 20, anchor: None },
        ]
    );
}

#[test]
fn single_cursor_left_alone() {
    let mut sel = SelectionState::new();
    let mut cs = cursors(&[(5, None)]);
    cs.cursor_pos = 2;
    sel.sort_and_merge_cursors(&mut cs);
    assert_eq!(cs.cursor_pos, 2);
    assert_eq!(cs.cursors.len(), 1);
}

#[test]
fn add_cursor_skips_existing_and_clamps() {
    let mut sel = SelectionState::new();
    let mut tv = TextViewState::new("hello");
    let mut cs = cursors(&[(1, None)]);
    sel.add_cursor(&mut cs, &mut tv, 1);
    assert_eq!(cs.cursors.len(), 1);
    sel.add_cursor(&mut cs, &mut tv, 100);
    assert_eq!(cs.cursors.len(), 2);
    assert_eq!(cs.cursors[1].position, 5);
    assert!(sel.has_multiple_cursors(&cs));
    assert_eq!(sel.cursor_count(&cs), 2);
    sel.clear_secondary_cursors(&mut cs, &mut tv);
    assert_eq!(sel.cursor_count(&cs), 1);
    assert_eq!(cs.cursor_pos, 1);
}

#[test]
fn add_cursor_with_selection_merges() {
    let mut sel = SelectionState::new();
    let mut tv = TextViewState::new("abcdefghij");
    let mut cs = cursors(&[(2, None)]);
    sel.add_cursor_with_selection(&mut cs, &mut tv, 5, 1);
    assert_eq!(cs.cursors.len(), 1);
    assert_eq!(cs.cursors[0], Cursor { position: 5, anchor: Some(1) });
}

#[test]
fn sync_between_primary_and_cursors() {
    let mut sel = SelectionState::new();
    let mut cs = CursorState::new();
    cs.cursors.clear();
    cs.cursor_pos = 4;
    sel.selection_start = Some(2);
    sel.sync_cursors_from_primary(&mut cs);
    assert_eq!(cs.cursors, vec![Cursor { position: 4, anchor: Some(2) }]);
    cs.cursors[0] = Cursor { position: 7, anchor: None };
    sel.sync_primary_cursor(&mut cs);
    assert_eq!(cs.cursor_pos, 7);
    assert_eq!(sel.selection_start, None);
    assert_eq!(sel.selection_end, None);
}

#[test]
fn selection_collection_round_trip() {
    let mut sel = SelectionState::new();
    let mut tv = TextViewState::new("some text here");
    let mut cs = CursorState::new();
    sel.add_selection_range(&mut cs, &mut tv, 9, 5);
    sel.add_selection(&mut cs, &mut tv, 99);
    assert!(sel.has_multiple_selections());
    assert_eq!(sel.selection_ranges(), vec![(0, 0), (5, 9), (14, 14)]);
    assert_eq!(cs.cursors.len(), 3);
    assert_eq!(cs.cursors[1], Cursor { position: 9, anchor: Some(5) });
    sel.set_primary_selection(&mut cs, &mut tv, 3, false);
    assert_eq!(*sel.primary_selection(), Selection { anchor: 3, head: 3 });
    sel.set_primary_selection(&mut cs, &mut tv, 6, true);
    assert_eq!(*sel.primary_selection(), Selection { anchor: 3, head: 6 });
    assert_eq!(sel.selection_start, Some(3));
    assert_eq!(sel.selection_end, Some(6));
    assert_eq!(cs.cursor_pos, 6);
    sel.clear_secondary_selections_sel(&mut cs, &mut tv);
    assert!(!sel.has_multiple_selections());
    assert_eq!(cs.cursors.len(), 1);
}

#[test]
fn sync_to_selections_uses_anchor() {
    let mut sel = SelectionState::new();
    let mut cs = CursorState::new();
    cs.cursor_pos = 8;
    sel.selection_start = Some(2);
    sel.sync_to_selections(&cs);
    assert_eq!(*sel.primary_selection(), Selection { anchor: 2, head: 8 });
    sel.selection_start = None;
    sel.sync_to_selections(&cs);
    assert_eq!(*sel.primary_selection(), Selection { anchor: 8, head: 8 });
}

#[test]
fn pending_edits_shift_selections() {
    let mut sel = SelectionState::new();
    let mut coll = SelectionCollection::new();
    coll.set_selection(10, 4);
    coll.add_cursor(20);
    coll.push_edit(PendingEdit { position: 2, deleted: 0, inserted: 3 });
    coll.push_edit(PendingEdit { position: 15, deleted: 5, inserted: 0 });
    sel.selections = coll;
    sel.apply_selection_edits();
    assert_eq!(sel.selection_ranges(), vec![(7, 13), (18, 18)]);
}

#[test]
fn add_cursor_at_next_occurrence_selects_word_then_next() {
    let state = CodeEditorState { is_focused: true };
    let mut sel = SelectionState::new();
    let mut tv = TextViewState::new("foo bar foo baz foo");
    let mut cs = CursorState::new();
    cs.cursor_pos = 1;
    cs.cursors = vec![Cursor::new(1)];
    assert!(state.add_cursor_at_next_occurrence(&mut sel, &mut cs, &mut tv));
    assert_eq!(cs.cursors, vec![Cursor { position: 3, anchor: Some(0) }]);
    assert_eq!(sel.selection_start, Some(0));
    assert!(state.add_cursor_at_next_occurrence(&mut sel, &mut cs, &mut tv));
    assert_eq!(cs.cursors.len(), 2);
    assert_eq!(cs.cursors[1], Cursor { position: 11, anchor: Some(8) });
    assert!(state.add_cursor_at_next_occurrence(&mut sel, &mut cs, &mut tv));
    assert_eq!(cs.cursors[2], Cursor { position: 19, anchor: Some(16) });
    // Every occurrence is covered now.
    assert!(!state.add_cursor_at_next_occurrence(&mut sel, &mut cs, &mut tv));
}

#[test]
fn word_and_occurrence_search() {
    let state = CodeEditorState { is_focused: true };
    let tv = TextViewState::new("ab cd ab");
    assert_eq!(state.word_at_position(&tv.rope, 4), Some((3, 5)));
    assert_eq!(state.word_at_position(&tv.rope, 2), None);
    assert_eq!(state.word_at_position(&tv.rope, 50), None);
    assert_eq!(state.find_next_occurrence(&tv.rope, "ab", 1), Some((6, 8)));
    assert_eq!(state.find_next_occurrence(&tv.rope, "ab", 7), Some((0, 2)));
    assert_eq!(state.find_next_occurrence(&tv.rope, "zz", 0), None);
    assert_eq!(state.find_next_occurrence(&tv.rope, "", 0), None);
    assert_eq!(state.text(&tv.rope), "ab cd ab");
    assert_eq!(state.line_count(&tv.rope), 1);
}

#[test]
fn selection_highlight_covers_lines() {
    let rope = Rope::from_str("ab\ncde\nf");
    assert_eq!(selection_highlight_spans(&rope, Some(1), Some(6)), vec![(0, 1, 3), (1, 0, 3)]);
    assert_eq!(selection_highlight_spans(&rope, Some(6), Some(1)), vec![(0, 1, 3), (1, 0, 3)]);
    assert_eq!(selection_highlight_spans(&rope, Some(2), Some(3)), vec![(0, 2, 3)]);
    assert_eq!(selection_highlight_spans(&rope, Some(3), Some(3)), vec![]);
    assert_eq!(selection_highlight_spans(&rope, None, Some(3)), vec![]);
    assert_eq!(selection_highlight_spans(&rope, Some(0), Some(8)), vec![(0, 0, 3), (1, 0, 4), (2, 0, 1)]);
}

#[test]
fn horizontal_scroll_clips_segments() {
    let segs: Vec<String> = vec!["let ".into(), "x".into(), " = 1".into()];
    assert_eq!(visible_segments(&segs, 2), vec![(0, "t ".to_string()), (1, "x".to_string()), (2, " = 1".to_string())]);
    assert_eq!(visible_segments(&segs, 5), vec![(2, " = 1".to_string())]);
    assert_eq!(visible_segments(&segs, 0).len(), 3);
    assert_eq!(visible_segments(&segs, 9), vec![]);
    let wide: Vec<String> = vec!["αβγ".into()];
    assert_eq!(visible_segments(&wide, 1), vec![(0, "βγ".to_string())]);
}
