use bevscode::keyboard::{handle_special_action, SpecialAction};
use bevscode::lsp_state::{RenameProvider, ServerCapabilitiesCache, ServerCaps};
use bevscode::completion::{CompletionState, LspRequest, LspSyncState};
use bevscode::timer::DelayTimer;
use bevscode::editor::CodeEditorState;
use bevscode::history::EditHistoryState;
use bevscode::keybindings::EditorAction;
use bevscode::keyboard::{handle_rename_key, handle_space, handle_typed_char, KeyRepeatState, RenameKey};
use bevscode::lsp_edits::LspPosition;
use bevscode::lsp_state::{LspRange, RenameState};
use bevscode::mouse::{
    click_fold_gutter, handle_click, handle_drag, handle_release, hover_position, line_col_to_char,
    MouseDragState,
};
use bevscode::search::{FindMatch, FindState, GotoLineState};
use bevscode::selection::SelectionState;
use bevscode::settings::{BracketSettings, CompletionSettings, LspSettings};
use bevscode::text::TextViewState;
use bevscode::types::{Cursor, CursorState, FoldKind, FoldRegion, FoldState};
use ropey::Rope;

struct Ed {
    state: CodeEditorState,
    sel: SelectionState,
    hist: EditHistoryState,
    cursor: CursorState,
    tv: TextViewState,
    completion: CompletionState,
    sync: LspSyncState,
}

fn ed(text: &str, pos: usize) -> Ed {
    let mut cursor = CursorState::new();
    cursor.cursor_pos = pos;
    cursor.cursors = vec![Cursor::new(pos)];
    Ed {
        state: CodeEditorState { is_focused: true },
        sel: SelectionState::new(),
        hist: EditHistoryState::new(),
        cursor,
        tv: TextViewState::new(text),
        completion: CompletionState::new(),
        sync: LspSyncState { dirty: false, timer: DelayTimer::new(200), document_uri: Some("file:///t.rs".into()), document_version: 0 },
    }
}

fn brackets() -> BracketSettings {
    BracketSettings { auto_close: true, auto_close_quotes: true, pairs: vec![('(', ')'), ('[', ']'), ('{', '}')] }
}

fn lsp(enabled: bool) -> LspSettings {
    LspSettings {
        completion: CompletionSettings {
            enabled,
            trigger_characters: vec![".".into(), "::".into()],
            min_word_length: 3,
            max_visible_items: 10,
        },
    }
}

fn type_char(e: &mut Ed, c: char, lsp_settings: &LspSettings) -> Vec<LspRequest> {
    handle_typed_char(
        &mut e.state,
        &mut e.sel,
        &mut e.hist,
        &mut e.cursor,
        &mut e.tv,
        &brackets(),
        lsp_settings,
        &mut e.completion,
        &mut e.sync,
        c,
    )
}

#[test]
fn opening_bracket_closes_itself() {
    let mut e = ed("f", 1);
    let reqs = type_char(&mut e, '(', &lsp(false));
    assert_eq!(e.tv.rope.to_string(), "f()");
    assert_eq!(e.cursor.cursor_pos, 2);
    assert_eq!(reqs.len(), 1);
    type_char(&mut e, ')', &lsp(false));
    assert_eq!(e.tv.rope.to_string(), "f()");
    assert_eq!(e.cursor.cursor_pos, 3);
}

#[test]
fn quotes_close_but_not_after_letters() {
    let mut e = ed("", 0);
    type_char(&mut e, '"', &lsp(false));
    assert_eq!(e.tv.rope.to_string(), "\"\"");
    assert_eq!(e.cursor.cursor_pos, 1);
    let mut e = ed("don", 3);
    type_char(&mut e, '\'', &lsp(false));
    assert_eq!(e.tv.rope.to_string(), "don'");
}

#[test]
fn control_chars_are_ignored() {
    let mut e = ed("abc", 1);
    let reqs = type_char(&mut e, '\u{7}', &lsp(true));
    assert!(reqs.is_empty());
    assert_eq!(e.tv.rope.to_string(), "abc");
}

#[test]
fn control_chars_end_at_the_c1_block() {
    let mut e = ed("abc", 1);
    type_char(&mut e, '\u{9f}', &lsp(false));
    assert_eq!(e.tv.rope.to_string(), "abc");
    type_char(&mut e, '\u{a0}', &lsp(false));
    assert_eq!(e.tv.rope.to_string(), "a\u{a0}bc");
}

#[test]
fn trigger_char_asks_for_completion() {
    let mut e = ed("self", 4);
    let reqs = type_char(&mut e, '.', &lsp(true));
    assert_eq!(e.tv.rope.to_string(), "self.");
    assert!(e.completion.visible);
    assert_eq!(e.completion.start_char_index, 5);
    assert_eq!(reqs.len(), 2);
    match &reqs[1] {
        LspRequest::Completion { line, character } => assert_eq!((*line, *character), (0, 5)),
        _ => panic!("expected a completion request"),
    }
}

#[test]
fn long_identifier_opens_completion_then_filters() {
    let mut e = ed("", 0);
    type_char(&mut e, 'a', &lsp(true));
    type_char(&mut e, 'b', &lsp(true));
    assert!(!e.completion.visible);
    type_char(&mut e, 'c', &lsp(true));
    assert!(e.completion.visible);
    type_char(&mut e, 'd', &lsp(true));
    assert_eq!(e.completion.filter, "d");
    type_char(&mut e, ';', &lsp(true));
    assert!(!e.completion.visible);
}

#[test]
fn space_hides_completion() {
    let mut e = ed("x", 1);
    e.completion.visible = true;
    let reqs = handle_space(&mut e.state, &mut e.sel, &mut e.hist, &mut e.cursor, &mut e.tv, &mut e.completion, &mut e.sync);
    assert_eq!(e.tv.rope.to_string(), "x ");
    assert!(!e.completion.visible);
    assert_eq!(reqs.len(), 1);
    assert_eq!(e.sync.document_version, 1);
}

#[test]
fn key_repeat_timing() {
    let mut kr = KeyRepeatState::new();
    kr.on_pressed(EditorAction::Copy, 0);
    assert_eq!(kr.current_action, None);
    kr.on_pressed(EditorAction::DeleteBackward, 1000);
    assert_eq!(kr.poll(true, 1100, 500, 50), None);
    assert_eq!(kr.poll(true, 1500, 500, 50), Some(EditorAction::DeleteBackward));
    assert_eq!(kr.poll(true, 1520, 500, 50), None);
    assert_eq!(kr.poll(true, 1550, 500, 50), Some(EditorAction::DeleteBackward));
    assert_eq!(kr.poll(false, 1600, 500, 50), None);
    assert_eq!(kr.current_action, None);
}

#[test]
fn rename_prompt_keys() {
    let mut rs = RenameState::new();
    let pos = LspPosition { line: 0, character: 2 };
    rs.start_prepare(pos);
    rs.on_prepare_response(LspRange { start: pos, end: pos }, Some("ab".into()));
    handle_rename_key(&mut rs, RenameKey::Backspace, true);
    handle_rename_key(&mut rs, RenameKey::Char('z'), true);
    handle_rename_key(&mut rs, RenameKey::Char('\u{1b}'), true);
    handle_rename_key(&mut rs, RenameKey::Space, true);
    assert_eq!(rs.new_name, "az ");
    let req = handle_rename_key(&mut rs, RenameKey::Enter, true).expect("rename request");
    assert_eq!(req.position, pos);
    assert_eq!(req.new_name, "az ");
    assert!(!rs.visible);
    assert!(handle_rename_key(&mut rs, RenameKey::Enter, true).is_none());
}

#[test]
fn clicks_and_drags() {
    let state_text = "hello\nworld";
    let mut state = CodeEditorState { is_focused: false };
    let mut sel = SelectionState::new();
    let mut cursor = CursorState::new();
    let mut tv = TextViewState::new(state_text);
    let mut drag = MouseDragState { is_dragging: false, drag_start_pos: None };
    let sync = LspSyncState { dirty: false, timer: DelayTimer::new(200), document_uri: Some("file:///w".into()), document_version: 0 };
    let goto = handle_click(&mut state, &mut sel, &mut cursor, &mut tv, &mut drag, &sync, Some(8), true, false);
    assert_eq!(goto, Some(LspPosition { line: 1, character: 2 }));
    assert!(state.is_focused);
    assert!(!drag.is_dragging);
    let goto = handle_click(&mut state, &mut sel, &mut cursor, &mut tv, &mut drag, &sync, Some(2), false, false);
    assert_eq!(goto, None);
    assert_eq!(cursor.cursor_pos, 2);
    assert!(drag.is_dragging);
    handle_drag(&mut sel, &mut cursor, &mut tv, &drag, 9);
    assert_eq!(cursor.cursor_pos, 9);
    assert_eq!(sel.selection_start, Some(2));
    assert_eq!(sel.selection_end, Some(9));
    handle_release(&mut drag);
    assert!(!drag.is_dragging);
    handle_click(&mut state, &mut sel, &mut cursor, &mut tv, &mut drag, &sync, Some(0), false, false);
    assert_eq!(sel.selection_start, None);
    handle_click(&mut state, &mut sel, &mut cursor, &mut tv, &mut drag, &sync, Some(4), false, true);
    assert_eq!(cursor.cursors.len(), 2);
    handle_click(&mut state, &mut sel, &mut cursor, &mut tv, &mut drag, &sync, None, false, false);
    assert!(!state.is_focused);
}

#[test]
fn click_positions() {
    let rope = Rope::from_str("ab\ncdef\n");
    assert_eq!(line_col_to_char(&rope, 1, 2), 5);
    assert_eq!(line_col_to_char(&rope, 1, 99), 7);
    assert_eq!(line_col_to_char(&rope, 7, 0), 8);
    assert_eq!(hover_position(&rope, 6), LspPosition { line: 1, character: 3 });
    assert_eq!(hover_position(&rope, 7), LspPosition { line: 1, character: 4 });
}

#[test]
fn fold_gutter_clicks() {
    let mut state = CodeEditorState { is_focused: false };
    let mut tv = TextViewState::new("a\nb\nc\n");
    let mut folds = FoldState::new();
    folds.regions = vec![FoldRegion::new(1, 2, FoldKind::Comment)];
    assert!(!click_fold_gutter(&mut state, &mut tv, &mut folds, 0));
    assert!(click_fold_gutter(&mut state, &mut tv, &mut folds, 1));
    assert!(folds.regions[0].is_folded);
    assert!(state.is_focused);
    assert!(folds.is_foldable_line(1));
}

#[test]
fn find_state_by_hand() {
    let mut find = FindState::new();
    find.query = "aa".into();
    find.active = true;
    let rope = Rope::from_str("aaaa b aa");
    find.search(&rope);
    assert_eq!(find.matches, vec![FindMatch { start: 0, end: 2 }, FindMatch { start: 2, end: 4 }, FindMatch { start: 7, end: 9 }]);
    find.find_next(3);
    assert_eq!(find.current_match(), Some(FindMatch { start: 7, end: 9 }));
    find.find_previous(2);
    assert_eq!(find.current_match(), Some(FindMatch { start: 0, end: 2 }));
    find.clear();
    assert!(!find.active);
    assert_eq!(find.current_match(), None);
    let mut goto = GotoLineState::new();
    goto.active = true;
    goto.clear();
    assert!(!goto.active);
}

#[test]
fn special_actions_save_open_rename() {
    let rope = Rope::from_str("ab\ncd");
    let mut cursor = CursorState::new();
    cursor.cursor_pos = 4;
    let sync = LspSyncState { dirty: false, timer: DelayTimer::new(200), document_uri: Some("file:///a".into()), document_version: 0 };
    let mut rename = RenameState::new();
    let none = ServerCapabilitiesCache::new();
    match handle_special_action(EditorAction::Save, &none, &sync, &cursor, &rope, &mut rename) {
        Some(SpecialAction::Save { content }) => assert_eq!(content, "ab\ncd"),
        _ => panic!("expected save"),
    }
    assert!(matches!(handle_special_action(EditorAction::Open, &none, &sync, &cursor, &rope, &mut rename), Some(SpecialAction::Open)));
    assert!(handle_special_action(EditorAction::Undo, &none, &sync, &cursor, &rope, &mut rename).is_none());
    assert!(matches!(handle_special_action(EditorAction::RenameSymbol, &none, &sync, &cursor, &rope, &mut rename), Some(SpecialAction::Ignored)));
    assert!(!rename.preparing);
    let mut caps = ServerCapabilitiesCache::new();
    caps.set(ServerCaps {
        completion_provider: None,
        hover_provider: None,
        definition_provider: None,
        references_provider: None,
        document_formatting_provider: None,
        signature_help_provider: None,
        code_action_provider: None,
        inlay_hint_provider: None,
        document_highlight_provider: None,
        rename_provider: Some(RenameProvider::Options { prepare_provider: Some(true) }),
    });
    match handle_special_action(EditorAction::RenameSymbol, &caps, &sync, &cursor, &rope, &mut rename) {
        Some(SpecialAction::Rename { prepare_at }) => assert_eq!(prepare_at, Some(LspPosition { line: 1, character: 1 })),
        _ => panic!("expected rename"),
    }
    assert!(rename.preparing);
}
