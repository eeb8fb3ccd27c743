use bevscode::completion::{CompletionEntry, CompletionState, LspRequest, LspSyncState};
use bevscode::events::{
    ApplyCompletionEvent, DismissCompletionEvent, RequestCompletionEvent, RequestHoverEvent,
    RequestRenameEvent, RequestSignatureHelpEvent, TextEditEvent,
};
use bevscode::lsp_edits::{LspPosition, TextEdit};
use bevscode::lsp_requests::{
    command_to_execute, listen_apply_completion, listen_completion_requests, listen_dismiss_completion,
    listen_hover_requests, listen_rename_requests, listen_signature_help_requests, lsp_position_at,
    request_document_highlights, request_inlay_hints, sync_lsp_document, tick_lsp_debounce_timers,
    DebouncedRequest, LspDebounceTimers, PendingCodeAction,
};
use bevscode::lsp_responses::{
    extract_hover_content, find_bytes, parameter_ranges, process_response, ParameterLabel, reset_hover_state, HoverContents, MarkedString, CodeActionOrCommand, CodeActionState, DocumentHighlightEntry,
    DocumentHighlightState, HoverState, LocationType, LspCommand, LspLocation, LspResponse,
    ResponseEffect, SignatureHelpState, SignatureInfo, DiagnosticEntry,
};
use bevscode::lsp_state::{
    InlayHintEntry, InlayHintState, LspRange, Provider, RenameState, ServerCapabilitiesCache, ServerCaps,
};
use bevscode::mouse::handle_hover;
use bevscode::settings::HoverSettings;
use bevscode::text::TextViewState;
use bevscode::timer::DelayTimer;
use bevscode::types::CursorState;
use ropey::Rope;

fn sync_with(uri: Option<&str>) -> LspSyncState {
    let mut s = LspSyncState::new();
    s.document_uri = uri.map(|u| u.to_string());
    s
}

fn pos(line: u32, character: u32) -> LspPosition {
    LspPosition { line, character }
}

fn range(l0: u32, c0: u32, l1: u32, c1: u32) -> LspRange {
    LspRange { start: pos(l0, c0), end: pos(l1, c1) }
}

fn entry(label: &str, insert: Option<&str>) -> CompletionEntry {
    CompletionEntry {
        label: label.into(),
        filter_text: None,
        insert_text: insert.map(|s| s.to_string()),
        detail: None,
        kind: None,
    }
}

fn caps_all() -> ServerCapabilitiesCache {
    let mut cache = ServerCapabilitiesCache::new();
    cache.set(ServerCaps {
        completion_provider: None,
        hover_provider: Some(Provider::Simple(true)),
        definition_provider: Some(Provider::Simple(true)),
        references_provider: None,
        document_formatting_provider: None,
        signature_help_provider: None,
        code_action_provider: None,
        inlay_hint_provider: Some(Provider::Options),
        document_highlight_provider: Some(Provider::Simple(true)),
        rename_provider: None,
    });
    cache
}

struct States {
    completion: CompletionState,
    hover: HoverState,
    sig: SignatureHelpState,
    actions: CodeActionState,
    hints: InlayHintState,
    highlights: DocumentHighlightState,
    rename: RenameState,
    tv: TextViewState,
    cursor: CursorState,
}

fn states(text: &str) -> States {
    States {
        completion: CompletionState::new(),
        hover: HoverState::new(),
        sig: SignatureHelpState::new(),
        actions: CodeActionState::new(),
        hints: InlayHintState { hints: vec![], cached_range: None, needs_refresh: true },
        highlights: DocumentHighlightState::new(),
        rename: RenameState::new(),
        tv: TextViewState::new(text),
        cursor: CursorState::new(),
    }
}

fn respond(st: &mut States, sync: &LspSyncState, r: LspResponse) -> Vec<ResponseEffect> {
    process_response(
        r,
        sync,
        &mut st.completion,
        &mut st.hover,
        &mut st.sig,
        &mut st.actions,
        &mut st.hints,
        &mut st.highlights,
        &mut st.rename,
        &mut st.tv,
        &mut st.cursor,
    )
}

#[test]
fn timer_finishes_once() {
    let mut t = DelayTimer::new(500);
    assert!(!t.tick(200));
    assert!(!t.is_finished());
    assert_eq!(t.elapsed_ms, 200);
    assert!(t.tick(300));
    assert!(t.is_finished());
    assert_eq!(t.elapsed_ms, 500);
    assert!(!t.tick(1000));
    t.reset();
    assert!(!t.is_finished());
    assert_eq!(t.elapsed_ms, 0);
    let mut z = DelayTimer::new(0);
    assert!(z.tick(0));
}

#[test]
fn hover_waits_for_delay_then_asks_once() {
    let rope = Rope::from_str("fn main() {}\nlet x = 1;\n");
    let settings = HoverSettings { enabled: true, delay_ms: 300 };
    let sync = sync_with(Some("file:///a.rs"));
    let mut hover = HoverState::new();
    assert_eq!(handle_hover(&settings, Some(17), 100, &rope, &sync, &mut hover), None);
    assert_eq!(hover.trigger_char_index, 17);
    assert!(!hover.visible);
    assert_eq!(handle_hover(&settings, Some(17), 250, &rope, &sync, &mut hover), Some(pos(1, 4)));
    assert_eq!(hover.pending_char_index, Some(17));
    assert!(hover.request_sent);
    assert_eq!(handle_hover(&settings, Some(17), 500, &rope, &sync, &mut hover), None);
    // The answer for that char shows.
    let mut st = states("fn main() {}\nlet x = 1;\n");
    st.hover = hover;
    let fx = respond(&mut st, &sync, LspResponse::Hover { content: "i32".into(), range: None });
    assert!(fx.is_empty());
    assert!(st.hover.visible);
    assert_eq!(st.hover.content, "i32");
    assert_eq!(st.hover.pending_char_index, None);
}

#[test]
fn hover_clamps_column_and_clears_when_away() {
    let rope = Rope::from_str("ab\ncd");
    let settings = HoverSettings { enabled: true, delay_ms: 0 };
    let sync = sync_with(Some("file:///a.rs"));
    let mut hover = HoverState::new();
    // Char 5 is the end of the last line: the column stops at its last char.
    assert_eq!(handle_hover(&settings, Some(5), 0, &rope, &sync, &mut hover), Some(pos(1, 1)));
    hover.visible = true;
    assert_eq!(handle_hover(&settings, None, 10, &rope, &sync, &mut hover), None);
    assert!(!hover.visible);
    assert!(hover.timer.is_none());
    assert_eq!(hover.trigger_char_index, 5);
    let off = HoverSettings { enabled: false, delay_ms: 0 };
    assert_eq!(handle_hover(&off, Some(4), 10, &rope, &sync, &mut hover), None);
    assert_eq!(hover.trigger_char_index, 5);
}

#[test]
fn hover_without_document_sends_nothing() {
    let rope = Rope::from_str("abc");
    let settings = HoverSettings { enabled: true, delay_ms: 0 };
    let mut hover = HoverState::new();
    assert_eq!(handle_hover(&settings, Some(1), 5, &rope, &sync_with(None), &mut hover), None);
    assert!(!hover.request_sent);
}

#[test]
fn stale_or_empty_hover_answer_is_dropped() {
    let sync = sync_with(Some("file:///a.rs"));
    let mut st = states("abc");
    st.hover.trigger_char_index = 2;
    st.hover.pending_char_index = Some(1);
    respond(&mut st, &sync, LspResponse::Hover { content: "old".into(), range: None });
    assert!(!st.hover.visible);
    assert_eq!(st.hover.pending_char_index, None);
    st.hover.pending_char_index = Some(2);
    respond(&mut st, &sync, LspResponse::Hover { content: String::new(), range: None });
    assert!(!st.hover.visible);
    reset_hover_state(&mut st.hover);
    assert_eq!(st.hover.content, "");
}

#[test]
fn completion_answer_fills_popup() {
    let sync = sync_with(Some("file:///a.rs"));
    let mut st = states("abc");
    st.completion.selected_index = 3;
    respond(&mut st, &sync, LspResponse::Completion { items: vec![entry("len", None)], is_incomplete: true });
    assert!(st.completion.visible);
    assert!(st.completion.is_incomplete);
    assert_eq!(st.completion.selected_index, 0);
    assert_eq!(st.completion.items.len(), 1);
    respond(&mut st, &sync, LspResponse::Completion { items: vec![], is_incomplete: false });
    assert!(!st.completion.visible);
}

#[test]
fn definition_in_same_file_moves_cursor() {
    let sync = sync_with(Some("file:///a.rs"));
    let mut st = states("one\ntwo\nthree");
    let fx = respond(
        &mut st,
        &sync,
        LspResponse::Definition {
            locations: vec![LspLocation { uri: "file:///a.rs".into(), range: range(2, 3, 2, 5) }],
        },
    );
    assert!(fx.is_empty());
    assert_eq!(st.cursor.cursor_pos, 11);
    assert!(st.tv.needs_update);
    // A column past the line stops at the end of the text.
    respond(
        &mut st,
        &sync,
        LspResponse::Definition {
            locations: vec![LspLocation { uri: "file:///a.rs".into(), range: range(2, 40, 2, 40) }],
        },
    );
    assert_eq!(st.cursor.cursor_pos, 13);
}

#[test]
fn definition_elsewhere_navigates_and_lists() {
    let sync = sync_with(Some("file:///a.rs"));
    let mut st = states("one");
    let fx = respond(
        &mut st,
        &sync,
        LspResponse::Definition {
            locations: vec![
                LspLocation { uri: "file:///b.rs".into(), range: range(7, 2, 7, 4) },
                LspLocation { uri: "file:///c.rs".into(), range: range(1, 0, 1, 1) },
            ],
        },
    );
    assert_eq!(fx.len(), 2);
    match &fx[0] {
        ResponseEffect::MultipleLocations { locations, location_type } => {
            assert_eq!(locations.len(), 2);
            assert_eq!(*location_type, LocationType::Definition);
        },
        _ => panic!("expected a list of places"),
    }
    match &fx[1] {
        ResponseEffect::NavigateToFile { uri, line, character } => {
            assert_eq!(uri, "file:///b.rs");
            assert_eq!((*line, *character), (7, 2));
        },
        _ => panic!("expected navigation"),
    }
    assert_eq!(st.cursor.cursor_pos, 0);
    assert!(respond(&mut st, &sync, LspResponse::Definition { locations: vec![] }).is_empty());
}

#[test]
fn references_and_plain_notifications() {
    let sync = sync_with(Some("file:///a.rs"));
    let mut st = states("x");
    let fx = respond(
        &mut st,
        &sync,
        LspResponse::References { locations: vec![LspLocation { uri: "file:///a.rs".into(), range: range(0, 0, 0, 1) }] },
    );
    assert!(matches!(fx[0], ResponseEffect::MultipleLocations { location_type: LocationType::References, .. }));
    assert!(respond(&mut st, &sync, LspResponse::References { locations: vec![] }).is_empty());
    assert!(matches!(respond(&mut st, &sync, LspResponse::Initialized)[..], [ResponseEffect::MarkInitialized]));
    let diags = vec![
        DiagnosticEntry { range: range(3, 1, 3, 4), severity: Some(1), message: "bad".into() },
        DiagnosticEntry { range: range(5, 0, 6, 2), severity: None, message: "note".into() },
    ];
    let fx = respond(&mut st, &sync, LspResponse::Diagnostics { uri: "file:///a.rs".into(), diagnostics: diags });
    match &fx[..] {
        [ResponseEffect::ReplaceDiagnostics { uri, markers }] => {
            assert_eq!(uri, "file:///a.rs");
            assert_eq!(markers.len(), 2);
            assert_eq!((markers[0].line, markers[0].severity, markers[0].message.as_str()), (3, 1, "bad"));
            assert_eq!((markers[1].line, markers[1].severity, markers[1].message.as_str()), (5, 4, "note"));
            assert_eq!(markers[1].range, range(5, 0, 6, 2));
        },
        _ => panic!("expected new diagnostic markers"),
    }
}

#[test]
fn format_answer_edits_and_refreshes() {
    let sync = sync_with(Some("file:///a.rs"));
    let mut st = states("let  a=1;");
    let v = st.tv.content_version;
    respond(
        &mut st,
        &sync,
        LspResponse::Format {
            edits: vec![
                TextEdit { start_line: 0, start_character: 3, end_line: 0, end_character: 5, new_text: " ".into() },
                TextEdit { start_line: 0, start_character: 6, end_line: 0, end_character: 7, new_text: " = ".into() },
            ],
        },
    );
    assert_eq!(st.tv.rope.to_string(), "let a = 1;");
    assert!(st.tv.needs_update);
    assert_eq!(st.tv.content_version, v + 1);
}

#[test]
fn signature_actions_hints_highlights_answers() {
    let sync = sync_with(Some("file:///a.rs"));
    let mut st = states("x");
    respond(
        &mut st,
        &sync,
        LspResponse::SignatureHelp {
            signatures: vec![
                SignatureInfo { label: "f(a)".into(), documentation: None, parameters: vec![ParameterLabel::Simple("a".into())], active_parameter: None },
                SignatureInfo { label: "f(a, b)".into(), documentation: None, parameters: vec![], active_parameter: None },
            ],
            active_signature: Some(1),
            active_parameter: None,
        },
    );
    assert!(st.sig.visible);
    assert_eq!(st.sig.active_signature, 1);
    assert_eq!(st.sig.active_parameter, 0);
    assert_eq!(st.sig.current_signature().unwrap().label, "f(a, b)");
    st.sig.active_signature = 5;
    assert!(st.sig.current_signature().is_none());
    st.sig.reset();
    assert!(!st.sig.visible && st.sig.signatures.is_empty());

    st.actions.selected_index = 4;
    respond(
        &mut st,
        &sync,
        LspResponse::CodeActions {
            actions: vec![CodeActionOrCommand::Action { title: "fix".into(), has_edit: true, command: None }],
        },
    );
    assert!(st.actions.visible);
    assert_eq!(st.actions.selected_index, 0);
    st.actions.reset();
    assert!(!st.actions.visible && st.actions.actions.is_empty());

    respond(&mut st, &sync, LspResponse::InlayHints { hints: vec![InlayHintEntry { position: pos(0, 1), label: ": i32".into() }] });
    assert_eq!(st.hints.hints.len(), 1);
    assert!(!st.hints.needs_refresh);

    respond(
        &mut st,
        &sync,
        LspResponse::DocumentHighlights { highlights: vec![DocumentHighlightEntry { range: range(0, 0, 0, 1), kind: Some(1) }] },
    );
    assert!(st.highlights.visible);
    st.highlights.clear_highlights();
    assert!(!st.highlights.visible && st.highlights.highlights.is_empty());
    st.highlights.debounce_timer = Some(DelayTimer::new(5));
    st.highlights.reset();
    assert!(st.highlights.debounce_timer.is_none());
}

#[test]
fn rename_answers_open_and_close_prompt() {
    let sync = sync_with(Some("file:///a.rs"));
    let mut st = states("let old = old + 1;");
    respond(&mut st, &sync, LspResponse::PrepareRename { range: range(0, 4, 0, 7), placeholder: Some("old".into()) });
    assert!(st.rename.visible);
    assert_eq!(st.rename.new_name, "old");
    let edits = vec![
        TextEdit { start_line: 0, start_character: 4, end_line: 0, end_character: 7, new_text: "new".into() },
        TextEdit { start_line: 0, start_character: 10, end_line: 0, end_character: 13, new_text: "new".into() },
    ];
    let other = vec![TextEdit { start_line: 0, start_character: 0, end_line: 0, end_character: 0, new_text: "zzz".into() }];
    let fx = respond(
        &mut st,
        &sync,
        LspResponse::Rename { changes: Some(vec![("file:///b.rs".into(), other), ("file:///a.rs".into(), edits)]) },
    );
    match &fx[..] {
        [ResponseEffect::WorkspaceEdit { changes: Some(cs) }] => {
            assert_eq!(cs.len(), 2);
            assert_eq!(cs[0].0, "file:///b.rs");
            assert_eq!(cs[0].1[0].new_text, "zzz");
            assert_eq!(cs[1].0, "file:///a.rs");
            assert_eq!(cs[1].1.len(), 2);
        },
        _ => panic!("expected the workspace changes handed on"),
    }
    assert_eq!(st.tv.rope.to_string(), "let new = new + 1;");
    assert!(!st.rename.visible);
    assert_eq!(st.rename.new_name, "");
    // Changes only to other documents leave the text alone.
    respond(&mut st, &sync, LspResponse::Rename { changes: Some(vec![("file:///b.rs".into(), vec![])]) });
    assert_eq!(st.tv.rope.to_string(), "let new = new + 1;");
}

#[test]
fn highlights_wait_for_debounce() {
    let rope = Rope::from_str("ab\ncd");
    let caps = caps_all();
    let sync = sync_with(Some("file:///a.rs"));
    let mut hs = DocumentHighlightState::new();
    hs.cursor_position = 9;
    assert_eq!(request_document_highlights(true, &caps, &sync, &rope, 4, 16, &mut hs), None);
    assert_eq!(hs.cursor_position, 4);
    assert!(hs.debounce_timer.is_some());
    assert_eq!(request_document_highlights(true, &caps, &sync, &rope, 4, 100, &mut hs), None);
    assert_eq!(request_document_highlights(true, &caps, &sync, &rope, 4, 60, &mut hs), Some(pos(1, 1)));
    assert!(hs.debounce_timer.is_none());
    // Not ready: nothing at all.
    let mut hs2 = DocumentHighlightState::new();
    assert_eq!(request_document_highlights(false, &caps, &sync, &rope, 4, 16, &mut hs2), None);
    assert!(hs2.debounce_timer.is_none());
    // Shown highlights for the cursor's place stay.
    hs2.cursor_position = 4;
    hs2.visible = true;
    assert_eq!(request_document_highlights(true, &caps, &sync, &rope, 4, 16, &mut hs2), None);
    assert!(hs2.debounce_timer.is_none());
}

#[test]
fn inlay_hints_asked_for_visible_lines() {
    let rope = Rope::from_str("a\nb\nc\nd\ne");
    let caps = caps_all();
    let sync = sync_with(Some("file:///a.rs"));
    let mut hs = InlayHintState { hints: vec![], cached_range: None, needs_refresh: true };
    let r = request_inlay_hints(true, &caps, &sync, &rope, false, false, 1, 2, &mut hs);
    assert_eq!(r, Some(range(1, 0, 5, 0)));
    assert_eq!(hs.cached_range, Some(range(1, 0, 5, 0)));
    assert!(!hs.needs_refresh);
    // Cached, nothing changed: no request.
    assert_eq!(request_inlay_hints(true, &caps, &sync, &rope, true, false, 1, 2, &mut hs), None);
    assert_eq!(request_inlay_hints(true, &caps, &sync, &rope, false, false, 0, 2, &mut hs), None);
    // Scrolled up past the cache while the viewport changed.
    assert_eq!(request_inlay_hints(true, &caps, &sync, &rope, false, true, 0, 2, &mut hs), Some(range(0, 0, 5, 0)));
    let mut hs2 = InlayHintState { hints: vec![], cached_range: None, needs_refresh: true };
    assert_eq!(request_inlay_hints(true, &caps, &sync_with(None), &rope, true, true, 0, 2, &mut hs2), None);
    assert!(hs2.needs_refresh);
}

#[test]
fn code_action_commands() {
    let cmd = LspCommand { title: "t".into(), command: "run".into(), arguments: None };
    let a = CodeActionOrCommand::Command(cmd);
    assert_eq!(command_to_execute(&a).unwrap().command, "run");
    let b = CodeActionOrCommand::Action {
        title: "x".into(),
        has_edit: true,
        command: Some(LspCommand { title: "t".into(), command: "fix".into(), arguments: Some(vec!["1".into()]) }),
    };
    assert_eq!(command_to_execute(&b).unwrap().command, "fix");
    let c = CodeActionOrCommand::Action { title: "x".into(), has_edit: true, command: None };
    assert!(command_to_execute(&c).is_none());
}

#[test]
fn debounced_requests_fire_after_their_delay() {
    let sync = sync_with(Some("file:///a.rs"));
    let mut debounce = LspDebounceTimers::new(100, 200, 150, 50);
    let mut cs = CompletionState::new();
    listen_completion_requests(
        &vec![RequestCompletionEvent::new(0, 1), RequestCompletionEvent::new(3, 4)],
        &sync,
        &mut debounce,
        &mut cs,
    );
    assert!(cs.visible);
    listen_hover_requests(&vec![RequestHoverEvent::new(2, 2)], &sync, &mut debounce);
    debounce.pending_code_action = Some(PendingCodeAction { uri: "file:///a.rs".into(), range: range(0, 0, 0, 1) });
    let first = tick_lsp_debounce_timers(60, &mut debounce);
    assert_eq!(first.len(), 1);
    assert!(matches!(first[0], DebouncedRequest::CodeAction(_)));
    let second = tick_lsp_debounce_timers(60, &mut debounce);
    assert_eq!(second.len(), 1);
    match &second[0] {
        DebouncedRequest::Completion(p) => {
            assert_eq!(p.uri, "file:///a.rs");
            assert_eq!((p.line, p.character), (3, 4));
        },
        _ => panic!("expected completion"),
    }
    let third = tick_lsp_debounce_timers(100, &mut debounce);
    assert!(matches!(third[..], [DebouncedRequest::Hover(_)]));
    assert!(tick_lsp_debounce_timers(1000, &mut debounce).is_empty());
    // Without a known document nothing waits.
    let mut d2 = LspDebounceTimers::new(1, 1, 1, 1);
    let mut cs2 = CompletionState::new();
    listen_completion_requests(&vec![RequestCompletionEvent::new(0, 0)], &sync_with(None), &mut d2, &mut cs2);
    assert!(d2.pending_completion.is_none());
    assert!(!cs2.visible);
}

#[test]
fn rename_and_signature_events_become_requests() {
    let sync = sync_with(Some("file:///a.rs"));
    let mut rename = RenameState::new();
    let reqs = listen_rename_requests(&vec![RequestRenameEvent::new(1, 2), RequestRenameEvent::new(3, 4)], &sync, &mut rename);
    assert_eq!(reqs, vec![pos(1, 2), pos(3, 4)]);
    assert!(rename.preparing);
    assert_eq!(rename.position, Some(pos(3, 4)));
    let mut sig = SignatureHelpState::new();
    sig.visible = true;
    let reqs = listen_signature_help_requests(&vec![RequestSignatureHelpEvent::new(0, 5)], &sync, &mut sig);
    assert_eq!(reqs, vec![pos(0, 5)]);
    assert!(!sig.visible);
    let none = listen_rename_requests(&vec![RequestRenameEvent::new(1, 2)], &sync_with(None), &mut RenameState::new());
    assert!(none.is_empty());
}

#[test]
fn dismiss_and_apply_completion_events() {
    let mut cs = CompletionState::new();
    cs.visible = true;
    cs.items = vec![entry("x", None)];
    cs.selected_index = 1;
    listen_dismiss_completion(&vec![DismissCompletionEvent], &mut cs);
    assert!(!cs.visible && cs.items.is_empty() && cs.selected_index == 0);

    let mut tv = TextViewState::new("let ve = 1;");
    let mut cursor = CursorState::new();
    cursor.cursor_pos = 6;
    let mut cs = CompletionState::new();
    cs.visible = true;
    cs.items = vec![entry("vec", None), entry("velocity", Some("velocity()"))];
    listen_apply_completion(&vec![ApplyCompletionEvent::new(7), ApplyCompletionEvent::new(1), ApplyCompletionEvent::new(0)], &mut cursor, &mut tv, &mut cs);
    assert_eq!(tv.rope.to_string(), "let velocity() = 1;");
    assert_eq!(cursor.cursor_pos, 14);
    assert!(tv.pending_update);
    assert!(!cs.visible && cs.items.is_empty());
}

#[test]
fn changed_text_is_sent_after_rest() {
    let rope = Rope::from_str("hello");
    let mut sync = sync_with(Some("file:///a.rs"));
    assert!(sync_lsp_document(500, &mut sync, &rope).is_none());
    sync.dirty = true;
    sync.document_version = 3;
    assert!(sync_lsp_document(150, &mut sync, &rope).is_none());
    match sync_lsp_document(60, &mut sync, &rope) {
        Some(LspRequest::DidChange { version, text }) => {
            assert_eq!(version, 3);
            assert_eq!(text, "hello");
        },
        _ => panic!("expected the text"),
    }
    assert!(!sync.dirty);
    assert_eq!(sync.timer.elapsed_ms, 0);
}

#[test]
fn positions_and_event_constructors() {
    let rope = Rope::from_str("ab\ncd");
    assert_eq!(lsp_position_at(&rope, 4), pos(1, 1));
    assert_eq!(lsp_position_at(&rope, 99), pos(1, 2));
    let e = TextEditEvent::new(1, 2, 3, 4);
    assert_eq!((e.start_byte, e.old_end_byte, e.new_end_byte, e.content_version), (1, 2, 3, 4));
}

#[test]
fn hover_contents_to_text() {
    let pieces = HoverContents::Array(vec![
        MarkedString::LanguageString { language: "rust".into(), value: "fn f()".into() },
        MarkedString::String("Does things.".into()),
    ]);
    assert_eq!(extract_hover_content(&pieces), "fn f()\nDoes things.");
    assert_eq!(extract_hover_content(&HoverContents::Array(vec![])), "");
    assert_eq!(extract_hover_content(&HoverContents::Scalar(MarkedString::String("x".into()))), "x");
    assert_eq!(
        extract_hover_content(&HoverContents::Markup { value: "**b**".into() }),
        "**b**"
    );
}

#[test]
fn signature_parameter_ranges_in_bytes() {
    let sig = SignatureInfo {
        label: "fn f(a: i32, bé: u8)".into(),
        documentation: None,
        parameters: vec![
            ParameterLabel::Simple("a: i32".into()),
            ParameterLabel::Simple("zz".into()),
            ParameterLabel::Simple("bé: u8".into()),
            ParameterLabel::Offsets(1, 2),
        ],
        active_parameter: Some(0),
    };
    assert_eq!(parameter_ranges(&sig), vec![(5, 11), (13, 20), (1, 2)]);
    assert_eq!(find_bytes(b"abcabc", b"ca"), Some(2));
    assert_eq!(find_bytes(b"abc", b""), Some(0));
    assert_eq!(find_bytes(b"ab", b"abc"), None);
}
