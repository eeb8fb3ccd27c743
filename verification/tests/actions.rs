use bevscode::actions::{execute_action, ActionResult};
use bevscode::timer::DelayTimer;
use bevscode::completion::{CompletionEntry, CompletionState, LspRequest, LspSyncState, WordCompletionItem};
use bevscode::editor::CodeEditorState;
use bevscode::history::EditHistoryState;
use bevscode::keybindings::EditorAction;
use bevscode::search::{FindState, GotoLineState};
use bevscode::selection::SelectionState;
use bevscode::settings::{CompletionSettings, IndentationSettings, LspSettings};
use bevscode::text::TextViewState;
use bevscode::types::{Cursor, CursorState, FoldKind, FoldRegion, FoldState};

struct Editor {
    state: CodeEditorState,
    sel: SelectionState,
    hist: EditHistoryState,
    cursor: CursorState,
    tv: TextViewState,
    find: FindState,
    goto: GotoLineState,
    folds: FoldState,
    completion: CompletionState,
    sync: LspSyncState,
    clipboard: Option<String>,
}

fn editor(text: &str, pos: usize) -> Editor {
    let mut cursor = CursorState::new();
    cursor.cursor_pos = pos;
    cursor.cursors = vec![Cursor::new(pos)];
    Editor {
        state: CodeEditorState { is_focused: true },
        sel: SelectionState::new(),
        hist: EditHistoryState::new(),
        cursor,
        tv: TextViewState::new(text),
        find: FindState::new(),
        goto: GotoLineState::new(),
        folds: FoldState::new(),
        completion: CompletionState::new(),
        sync: LspSyncState { dirty: false, timer: DelayTimer::new(200), document_uri: None, document_version: 0 },
        clipboard: None,
    }
}

fn settings() -> LspSettings {
    LspSettings {
        completion: CompletionSettings {
            enabled: true,
            trigger_characters: vec![".".to_string(), "::".to_string()],
            min_word_length: 2,
            max_visible_items: 2,
        },
    }
}

fn run(e: &mut Editor, action: EditorAction) -> Vec<LspRequest> {
    execute_action(
        &mut e.state,
        &mut e.sel,
        &mut e.hist,
        &mut e.cursor,
        &mut e.tv,
        action,
        &IndentationSettings { tab_width: 4 },
        &settings(),
        &mut e.find,
        &mut e.goto,
        &mut e.folds,
        &mut e.completion,
        &mut e.sync,
        &mut e.clipboard,
    )
}

#[test]
fn tab_types_spaces() {
    let mut e = editor("x", 0);
    run(&mut e, EditorAction::InsertTab);
    assert_eq!(e.tv.rope.to_string(), "    x");
    assert_eq!(e.cursor.cursor_pos, 4);
    assert_eq!(e.hist.history.undo_stack.len(), 4);
}

#[test]
fn newline_and_backspace() {
    let mut e = editor("ab", 1);
    run(&mut e, EditorAction::InsertNewline);
    assert_eq!(e.tv.rope.to_string(), "a\nb");
    run(&mut e, EditorAction::DeleteBackward);
    assert_eq!(e.tv.rope.to_string(), "ab");
    assert_eq!(e.cursor.cursor_pos, 1);
}

#[test]
fn select_then_delete() {
    let mut e = editor("hello world", 6);
    run(&mut e, EditorAction::SelectWordRight);
    assert_eq!(e.sel.selection_start, Some(6));
    assert_eq!(e.sel.selection_end, Some(11));
    run(&mut e, EditorAction::DeleteForward);
    assert_eq!(e.tv.rope.to_string(), "hello ");
    assert_eq!(e.sel.selection_start, None);
}

#[test]
fn moves_clear_selection() {
    let mut e = editor("abc\ndef", 0);
    run(&mut e, EditorAction::SelectAll);
    assert_eq!(e.sel.selection_start, Some(0));
    assert_eq!(e.sel.selection_end, Some(7));
    assert_eq!(e.cursor.cursor_pos, 7);
    run(&mut e, EditorAction::MoveCursorDocumentStart);
    assert_eq!(e.cursor.cursor_pos, 0);
    assert_eq!(e.sel.selection_start, None);
    run(&mut e, EditorAction::MoveCursorDown);
    assert_eq!(e.cursor.cursor_pos, 4);
    run(&mut e, EditorAction::MoveCursorLineEnd);
    assert_eq!(e.cursor.cursor_pos, 6);
}

#[test]
fn copy_cut_paste() {
    let mut e = editor("one two", 0);
    e.sel.selection_start = Some(4);
    e.sel.selection_end = Some(7);
    run(&mut e, EditorAction::Copy);
    assert_eq!(e.clipboard.as_deref(), Some("two"));
    assert_eq!(e.tv.rope.to_string(), "one two");
    run(&mut e, EditorAction::Cut);
    assert_eq!(e.tv.rope.to_string(), "one ");
    assert_eq!(e.cursor.cursor_pos, 4);
    run(&mut e, EditorAction::MoveCursorDocumentStart);
    run(&mut e, EditorAction::Paste);
    assert_eq!(e.tv.rope.to_string(), "twoone ");
    assert_eq!(e.cursor.cursor_pos, 3);
    run(&mut e, EditorAction::Undo);
    assert_eq!(e.tv.rope.to_string(), "one ");
    run(&mut e, EditorAction::Undo);
    assert_eq!(e.tv.rope.to_string(), "one two");
}

#[test]
fn paste_over_selection() {
    let mut e = editor("abcdef", 0);
    e.sel.selection_start = Some(1);
    e.sel.selection_end = Some(3);
    e.clipboard = Some("XY".to_string());
    run(&mut e, EditorAction::Paste);
    assert_eq!(e.tv.rope.to_string(), "aXYdef");
    assert_eq!(e.cursor.cursor_pos, 3);
    assert_eq!(e.hist.history.undo_stack[0].removed_text, "bc");
}

#[test]
fn find_and_step_through_matches() {
    let mut e = editor("cat dog cat", 1);
    run(&mut e, EditorAction::Find);
    assert!(e.find.active);
    assert_eq!(e.find.query, "cat");
    assert_eq!(e.find.matches.len(), 2);
    run(&mut e, EditorAction::FindNext);
    assert_eq!(e.cursor.cursor_pos, 8);
    assert_eq!(e.sel.selection_start, Some(8));
    assert_eq!(e.sel.selection_end, Some(11));
    run(&mut e, EditorAction::FindNext);
    assert_eq!(e.cursor.cursor_pos, 0);
    run(&mut e, EditorAction::FindPrevious);
    assert_eq!(e.cursor.cursor_pos, 8);
    run(&mut e, EditorAction::ClearSelection);
    assert!(!e.find.active);
    assert_eq!(e.sel.selection_start, None);
}

#[test]
fn escape_order() {
    let mut e = editor("abc", 0);
    e.cursor.cursors = vec![Cursor::new(0), Cursor::new(2)];
    e.goto.active = true;
    run(&mut e, EditorAction::ClearSelection);
    assert_eq!(e.cursor.cursors.len(), 1);
    assert!(e.goto.active);
    run(&mut e, EditorAction::ClearSelection);
    assert!(!e.goto.active);
}

#[test]
fn goto_line_toggles() {
    let mut e = editor("abc", 0);
    e.goto.input = "12".to_string();
    run(&mut e, EditorAction::GotoLine);
    assert!(e.goto.active);
    assert_eq!(e.goto.input, "");
}

#[test]
fn folding_actions() {
    let mut e = editor("fn a() {\n  x\n}\n", 0);
    e.folds.regions = vec![FoldRegion::new(0, 2, FoldKind::Block)];
    run(&mut e, EditorAction::ToggleFold);
    assert!(e.folds.regions[0].is_folded);
    run(&mut e, EditorAction::Unfold);
    assert!(!e.folds.regions[0].is_folded);
    run(&mut e, EditorAction::FoldAll);
    assert!(e.folds.regions[0].is_folded);
    run(&mut e, EditorAction::UnfoldAll);
    assert!(!e.folds.regions[0].is_folded);
    assert!(e.tv.pending_update);
}

#[test]
fn add_cursor_below_and_above() {
    let mut e = editor("abcd\nef\nghij", 3);
    run(&mut e, EditorAction::AddCursorBelow);
    assert_eq!(e.cursor.cursors.len(), 2);
    assert_eq!(e.cursor.cursors[1].position, 7);
    run(&mut e, EditorAction::AddCursorAbove);
    assert_eq!(e.cursor.cursors.len(), 2);
    run(&mut e, EditorAction::ClearSecondaryCursors);
    assert_eq!(e.cursor.cursors.len(), 1);
}

#[test]
fn completion_navigation_and_accept() {
    let mut e = editor("pr", 2);
    e.sync.document_uri = Some("file:///a.rs".to_string());
    e.completion.visible = true;
    e.completion.start_char_index = 0;
    e.completion.items = vec![
        CompletionEntry { label: "print".into(), filter_text: None, insert_text: None, detail: None, kind: Some(3) },
        CompletionEntry { label: "println".into(), filter_text: None, insert_text: Some("println!()".into()), detail: None, kind: Some(3) },
        CompletionEntry { label: "zzz".into(), filter_text: None, insert_text: None, detail: None, kind: None },
    ];
    assert_eq!(e.completion.filtered_items().len(), 3);
    let reqs = run(&mut e, EditorAction::MoveCursorDown);
    assert!(reqs.is_empty());
    assert_eq!(e.completion.selected_index, 1);
    assert_eq!(e.cursor.cursor_pos, 2);
    let reqs = run(&mut e, EditorAction::InsertNewline);
    assert_eq!(e.tv.rope.to_string(), "println!()");
    assert_eq!(e.cursor.cursor_pos, 10);
    assert!(!e.completion.visible);
    assert_eq!(reqs.len(), 1);
    match &reqs[0] {
        LspRequest::DidChange { version, text } => {
            assert_eq!(*version, 1);
            assert_eq!(text, "println!()");
        }
        _ => panic!("expected a change notification"),
    }
}

#[test]
fn completion_wraps_up() {
    let mut e = editor("", 0);
    e.completion.visible = true;
    e.completion.items = vec![
        CompletionEntry { label: "a".into(), filter_text: None, insert_text: None, detail: None, kind: None },
        CompletionEntry { label: "b".into(), filter_text: None, insert_text: None, detail: None, kind: None },
        CompletionEntry { label: "c".into(), filter_text: None, insert_text: None, detail: None, kind: None },
    ];
    run(&mut e, EditorAction::MoveCursorUp);
    assert_eq!(e.completion.selected_index, 2);
    assert_eq!(e.completion.scroll_offset, 1);
}

#[test]
fn request_completion_collects_words() {
    let mut e = editor("alpha beta al", 13);
    e.sync.document_uri = Some("file:///x".to_string());
    let reqs = run(&mut e, EditorAction::RequestCompletion);
    assert!(e.completion.visible);
    assert_eq!(e.completion.start_char_index, 13);
    let words: Vec<&str> = e.completion.word_items.iter().map(|w| w.word.as_str()).collect();
    assert_eq!(words, vec!["alpha", "beta"]);
    assert_eq!(reqs.len(), 1);
    match &reqs[0] {
        LspRequest::Completion { line, character } => {
            assert_eq!(*line, 0);
            assert_eq!(*character, 13);
        }
        _ => panic!("expected a completion request"),
    }
}

#[test]
fn horizontal_move_hides_completion() {
    let mut e = editor("abc", 1);
    e.completion.visible = true;
    e.completion.word_items = vec![WordCompletionItem { word: "abc".into() }];
    run(&mut e, EditorAction::MoveCursorRight);
    assert!(!e.completion.visible);
    assert_eq!(e.cursor.cursor_pos, 2);
}

#[test]
fn action_result_flags() {
    let r = ActionResult { text_changed: true, horizontal_move: false };
    assert!(r.text_changed && !r.horizontal_move);
    assert!(EditorAction::DeleteBackward.is_repeatable());
    assert!(EditorAction::Undo.is_repeatable());
    assert!(!EditorAction::Copy.is_repeatable());
}

#[test]
fn popup_rows_step_without_reading_the_cursor() {
    let mut e = editor("ab", 0);
    e.cursor.cursor_pos = 40;
    e.completion.visible = true;
    e.completion.items = vec![
        CompletionEntry { label: "one".into(), filter_text: None, insert_text: None, detail: None, kind: None },
        CompletionEntry { label: "two".into(), filter_text: None, insert_text: None, detail: None, kind: None },
        CompletionEntry { label: "three".into(), filter_text: None, insert_text: None, detail: None, kind: None },
    ];
    assert!(bevscode::actions::action_can_run(EditorAction::MoveCursorDown, &e.sel, &e.cursor, &e.tv, &e.completion));
    assert!(!bevscode::actions::action_can_run(EditorAction::MoveCursorLineEnd, &e.sel, &e.cursor, &e.tv, &e.completion));
    let reqs = run(&mut e, EditorAction::MoveCursorDown);
    assert!(reqs.is_empty());
    assert_eq!(e.completion.selected_index, 1);
    run(&mut e, EditorAction::MoveCursorDown);
    assert_eq!(e.completion.selected_index, 2);
    assert_eq!(e.completion.scroll_offset, 1);
    run(&mut e, EditorAction::MoveCursorDown);
    assert_eq!(e.completion.selected_index, 0);
    assert_eq!(e.completion.scroll_offset, 0);
    run(&mut e, EditorAction::MoveCursorUp);
    assert_eq!(e.completion.selected_index, 2);
    assert_eq!(e.cursor.cursor_pos, 40);
    assert_eq!(e.tv.rope.to_string(), "ab");
}
