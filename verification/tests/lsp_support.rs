use bevscode::completion::{
    popup_width_chars, rank_by_score, CompletionEntry, CompletionState, UnifiedCompletionItem, WordCompletionItem,
};
use bevscode::lsp_edits::{apply_text_edits, byte_to_lsp_position, LspPosition, TextEdit};
use bevscode::lsp_state::{
    should_send, InlayHintState, LspMessageKind, LspRange, Provider, RenameProvider, RenameState,
    ServerCapabilitiesCache, ServerCaps, TriggerOptions,
};
use bevscode::text::TextViewState;
use ropey::Rope;

fn entry(label: &str) -> CompletionEntry {
    CompletionEntry { label: label.into(), filter_text: None, insert_text: None, detail: None, kind: None }
}

#[test]
fn ranking_by_score_is_stable() {
    let order = rank_by_score(&[Some(5), None, Some(9), Some(5), Some(1)]);
    assert_eq!(order, vec![2, 0, 3, 4]);
    assert_eq!(rank_by_score(&[]), Vec::<usize>::new());
}

#[test]
fn fuzzy_filtering_drops_non_matches_and_label_words() {
    let mut cs = CompletionState::new();
    cs.items = vec![entry("format"), entry("zebra"), entry("from_str")];
    cs.word_items = vec![
        WordCompletionItem { word: "format".into() },
        WordCompletionItem { word: "frobnicate".into() },
        WordCompletionItem { word: "xyz".into() },
    ];
    cs.filter = "fr".into();
    let items = cs.filtered_items();
    let labels: Vec<&str> = items.iter().map(|i| i.label()).collect();
    assert!(labels.contains(&"from_str"));
    assert!(labels.contains(&"format"));
    assert!(!labels.contains(&"zebra"));
    assert!(!labels.contains(&"xyz"));
    // The word equal to a server label is left out; the other word comes last.
    assert_eq!(labels.iter().filter(|l| **l == "format").count(), 1);
    assert_eq!(*labels.last().unwrap(), "frobnicate");
    assert!(items.last().unwrap().is_word());
}

#[test]
fn empty_filter_lists_items_only() {
    let mut cs = CompletionState::new();
    cs.items = vec![entry("b"), entry("a")];
    cs.word_items = vec![WordCompletionItem { word: "word".into() }];
    let items = cs.filtered_items();
    let labels: Vec<&str> = items.iter().map(|i| i.label()).collect();
    assert_eq!(labels, vec!["b", "a"]);
}

#[test]
fn unified_item_accessors() {
    let lsp = UnifiedCompletionItem::Lsp(CompletionEntry {
        label: "len".into(),
        filter_text: None,
        insert_text: Some("len()".into()),
        detail: Some("fn len(&self) -> usize".into()),
        kind: Some(2),
    });
    assert_eq!(lsp.label(), "len");
    assert_eq!(lsp.insert_text(), "len()");
    assert_eq!(lsp.detail(), Some("fn len(&self) -> usize"));
    assert_eq!(lsp.kind_icon(), "ƒ");
    assert!(!lsp.is_word());
    let word = UnifiedCompletionItem::Word(WordCompletionItem { word: "total".into() });
    assert_eq!(word.insert_text(), "total");
    assert_eq!(word.detail(), Some("word"));
    assert_eq!(word.kind_icon(), "𝑤");
    let other = UnifiedCompletionItem::Lsp(CompletionEntry { kind: Some(99), ..entry("x") });
    assert_eq!(other.kind_icon(), "•");
}

#[test]
fn word_completions_skip_short_and_cursor_word() {
    let mut cs = CompletionState::new();
    let rope = Rope::from_str("a bb ccc bb dd é ccc");
    cs.update_word_completions(&rope, 11);
    let words: Vec<&str> = cs.word_items.iter().map(|w| w.word.as_str()).collect();
    assert_eq!(words, vec!["ccc", "dd", "é"]);
}

#[test]
fn scroll_keeps_selection_visible() {
    let mut cs = CompletionState::new();
    cs.items = (0..20).map(|i| entry(&format!("item{}", i))).collect();
    cs.selected_index = 15;
    cs.ensure_selected_visible();
    assert_eq!(cs.scroll_offset, 6);
    cs.selected_index = 2;
    cs.ensure_selected_visible_with_max(5);
    assert_eq!(cs.scroll_offset, 2);
    cs.selected_index = 50;
    cs.ensure_selected_visible_with_max(5);
    assert_eq!(cs.selected_index, 19);
    assert_eq!(cs.scroll_offset, 15);
    cs.reset();
    assert!(!cs.visible);
    assert!(cs.items.is_empty());
}

#[test]
fn text_edits_apply_last_first() {
    let mut tv = TextViewState::new("let a = 1;\nlet b = 2;\n");
    let edits = vec![
        TextEdit { start_line: 0, start_character: 4, end_line: 0, end_character: 5, new_text: "alpha".into() },
        TextEdit { start_line: 1, start_character: 4, end_line: 1, end_character: 5, new_text: "beta".into() },
        TextEdit { start_line: 9, start_character: 0, end_line: 9, end_character: 0, new_text: "ignored".into() },
    ];
    apply_text_edits(&mut tv, edits);
    assert_eq!(tv.rope.to_string(), "let alpha = 1;\nlet beta = 2;\n");
}

#[test]
fn text_edit_past_end_clamps() {
    let mut tv = TextViewState::new("abc");
    let edits = vec![TextEdit { start_line: 0, start_character: 1, end_line: 7, end_character: 0, new_text: "Z".into() }];
    apply_text_edits(&mut tv, edits);
    assert_eq!(tv.rope.to_string(), "aZ");
}

#[test]
fn byte_offsets_to_positions() {
    let rope = Rope::from_str("aé\nxyz");
    assert_eq!(byte_to_lsp_position(&rope, 0), LspPosition { line: 0, character: 0 });
    assert_eq!(byte_to_lsp_position(&rope, 2), LspPosition { line: 0, character: 1 });
    assert_eq!(byte_to_lsp_position(&rope, 4), LspPosition { line: 1, character: 0 });
    assert_eq!(byte_to_lsp_position(&rope, 5), LspPosition { line: 1, character: 1 });
    assert_eq!(byte_to_lsp_position(&rope, 100), LspPosition { line: 1, character: 3 });
}

fn caps() -> ServerCaps {
    ServerCaps {
        completion_provider: Some(TriggerOptions { trigger_characters: Some(vec![".".into()]) }),
        hover_provider: Some(Provider::Simple(false)),
        definition_provider: Some(Provider::Options),
        references_provider: None,
        document_formatting_provider: Some(Provider::Simple(true)),
        signature_help_provider: None,
        code_action_provider: None,
        inlay_hint_provider: None,
        document_highlight_provider: None,
        rename_provider: Some(RenameProvider::Options { prepare_provider: Some(true) }),
    }
}

#[test]
fn capabilities_decide_requests() {
    let mut cache = ServerCapabilitiesCache::new();
    assert!(!cache.supports_completion());
    assert!(should_send(&cache, LspMessageKind::DidChange));
    assert!(!should_send(&cache, LspMessageKind::Hover));
    cache.set(caps());
    assert!(cache.supports_completion());
    assert!(!cache.supports_hover());
    assert!(cache.supports_definition());
    assert!(!cache.supports_references());
    assert!(cache.supports_formatting());
    assert!(cache.supports_rename());
    assert!(cache.supports_prepare_rename());
    assert_eq!(cache.completion_triggers(), vec![".".to_string()]);
    assert!(cache.signature_help_triggers().is_empty());
    assert!(should_send(&cache, LspMessageKind::GotoDefinition));
    assert!(!should_send(&cache, LspMessageKind::SignatureHelp));
}

#[test]
fn rename_prompt_lifecycle() {
    let mut rs = RenameState::new();
    let pos = LspPosition { line: 3, character: 4 };
    rs.start_prepare(pos);
    assert!(rs.preparing);
    let range = LspRange { start: pos, end: LspPosition { line: 3, character: 7 } };
    rs.on_prepare_response(range, Some("foo".into()));
    assert!(rs.visible);
    assert_eq!(rs.new_name, "foo");
    assert!(!rs.can_submit());
    rs.new_name = "bar".into();
    assert!(rs.can_submit());
    rs.reset();
    assert!(!rs.visible);
    assert_eq!(rs.position, None);
}

#[test]
fn inlay_hint_cache() {
    let line = |l: u32| LspPosition { line: l, character: 0 };
    let mut st = InlayHintState { hints: Vec::new(), cached_range: Some(LspRange { start: line(10), end: line(50) }), needs_refresh: false };
    assert!(st.is_range_cached(&LspRange { start: line(12), end: line(40) }));
    assert!(!st.is_range_cached(&LspRange { start: line(5), end: line(40) }));
    st.invalidate();
    assert!(st.needs_refresh);
    assert!(!st.is_range_cached(&LspRange { start: line(12), end: line(40) }));
}

#[test]
fn popup_width_from_first_rows() {
    let mut with_detail = entry("len");
    with_detail.detail = Some("fn len()".into());
    let items = vec![
        UnifiedCompletionItem::Lsp(with_detail),
        UnifiedCompletionItem::Word(WordCompletionItem { word: "lengthy".into() }),
        UnifiedCompletionItem::Lsp(entry("a")),
    ];
    assert_eq!(popup_width_chars(&items), 18);
    assert_eq!(popup_width_chars(&vec![]), 20);
    let mut many: Vec<UnifiedCompletionItem> = (0..10).map(|_| UnifiedCompletionItem::Lsp(entry("ab"))).collect();
    many.push(UnifiedCompletionItem::Lsp(entry("a_very_long_label_past_the_first_rows")));
    assert_eq!(popup_width_chars(&many), 9);
}
