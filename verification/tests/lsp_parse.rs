use bevscode::lsp_parse::{
    content_length, method_name, notification, parse_notification, parse_response, request_type_of, AnswerForm,
    ParsedAnswer, RequestType,
};
use bevscode::lsp_responses::{CodeActionOrCommand, LspResponse, ParameterLabel};
use bevscode::lsp_state::{LspMessageKind, Provider, RenameProvider};

fn read(text: &str, rt: RequestType) -> Option<ParsedAnswer> {
    parse_response(Some(text.to_string()), Some(rt))
}

const RANGE: &str = "{\"start\":{\"line\":1,\"character\":2},\"end\":{\"line\":1,\"character\":5}}";

#[test]
fn missing_null_or_unknown_answers_read_as_nothing() {
    assert!(parse_response(None, Some(RequestType::Hover)).is_none());
    assert!(read("null", RequestType::Hover).is_none());
    assert!(parse_response(Some("{\"contents\":\"x\"}".to_string()), None).is_none());
}

#[test]
fn definition_single_location() {
    let a = read(
        "{\"uri\":\"file:///a.rs\",\"range\":{\"start\":{\"line\":1,\"character\":2},\"end\":{\"line\":3,\"character\":4}}}",
        RequestType::GotoDefinition,
    )
    .unwrap();
    assert_eq!(a.form, AnswerForm::DefinitionLocation);
    assert!(a.capabilities.is_none());
    match a.response {
        LspResponse::Definition { locations } => {
            assert_eq!(locations.len(), 1);
            assert_eq!(locations[0].uri, "file:///a.rs");
            assert_eq!(locations[0].range.start.line, 1);
            assert_eq!(locations[0].range.start.character, 2);
            assert_eq!(locations[0].range.end.line, 3);
            assert_eq!(locations[0].range.end.character, 4);
        },
        _ => panic!("expected a definition"),
    }
}

#[test]
fn definition_empty_list_reads_as_nothing() {
    assert!(read("[]", RequestType::GotoDefinition).is_none());
}

#[test]
fn definition_links_read_as_their_targets() {
    let link = "[{\"targetUri\":\"file:///b.rs\",\
        \"targetRange\":{\"start\":{\"line\":0,\"character\":0},\"end\":{\"line\":9,\"character\":0}},\
        \"targetSelectionRange\":{\"start\":{\"line\":5,\"character\":4},\"end\":{\"line\":5,\"character\":8}}}]";
    let a = read(link, RequestType::GotoDefinition).unwrap();
    assert_eq!(a.form, AnswerForm::DefinitionLinks);
    match a.response {
        LspResponse::Definition { locations } => {
            assert_eq!(locations.len(), 1);
            assert_eq!(locations[0].uri, "file:///b.rs");
            assert_eq!(locations[0].range.start.line, 5);
            assert_eq!(locations[0].range.start.character, 4);
            assert_eq!(locations[0].range.end.character, 8);
        },
        _ => panic!("expected a definition"),
    }
}

#[test]
fn references_may_be_empty() {
    let a = read("[]", RequestType::References).unwrap();
    assert_eq!(a.form, AnswerForm::References);
    assert!(matches!(a.response, LspResponse::References { locations } if locations.is_empty()));
}

#[test]
fn completion_items_before_completion_list() {
    let a = read("[{\"label\":\"print\",\"kind\":3,\"detail\":\"fn\",\"insertText\":\"print()\"}]", RequestType::Completion)
        .unwrap();
    assert_eq!(a.form, AnswerForm::CompletionItems);
    match a.response {
        LspResponse::Completion { items, is_incomplete } => {
            assert!(!is_incomplete);
            assert_eq!(items.len(), 1);
            assert_eq!(items[0].label, "print");
            assert_eq!(items[0].kind, Some(3));
            assert_eq!(items[0].detail.as_deref(), Some("fn"));
            assert_eq!(items[0].insert_text.as_deref(), Some("print()"));
            assert_eq!(items[0].filter_text, None);
        },
        _ => panic!("expected completion"),
    }
    let b = read("{\"isIncomplete\":true,\"items\":[{\"label\":\"x\",\"filterText\":\"xx\"}]}", RequestType::Completion).unwrap();
    assert_eq!(b.form, AnswerForm::CompletionList);
    match b.response {
        LspResponse::Completion { items, is_incomplete } => {
            assert!(is_incomplete);
            assert_eq!(items[0].label, "x");
            assert_eq!(items[0].filter_text.as_deref(), Some("xx"));
            assert_eq!(items[0].kind, None);
        },
        _ => panic!("expected completion"),
    }
    assert!(read("{\"x\":1}", RequestType::Completion).is_none());
}

#[test]
fn hover_reads_its_text_and_range() {
    let a = read(&format!("{{\"contents\":[\"a\",{{\"language\":\"rust\",\"value\":\"fn f()\"}}],\"range\":{}}}", RANGE), RequestType::Hover)
        .unwrap();
    assert_eq!(a.form, AnswerForm::Hover);
    match a.response {
        LspResponse::Hover { content, range } => {
            assert_eq!(content, "a\nfn f()");
            assert_eq!(range.unwrap().end.character, 5);
        },
        _ => panic!("expected hover"),
    }
    let b = read("{\"contents\":{\"kind\":\"markdown\",\"value\":\"**b**\"}}", RequestType::Hover).unwrap();
    assert!(matches!(b.response, LspResponse::Hover { content, range: None } if content == "**b**"));
    assert!(read("{\"x\":1}", RequestType::Hover).is_none());
}

#[test]
fn format_edits_kept_in_order() {
    let text = "[{\"range\":{\"start\":{\"line\":0,\"character\":1},\"end\":{\"line\":0,\"character\":3}},\"newText\":\"ab\"},\
        {\"range\":{\"start\":{\"line\":2,\"character\":0},\"end\":{\"line\":2,\"character\":0}},\"newText\":\"\"}]";
    let a = read(text, RequestType::Format).unwrap();
    assert_eq!(a.form, AnswerForm::Format);
    match a.response {
        LspResponse::Format { edits } => {
            assert_eq!(edits.len(), 2);
            assert_eq!(edits[0].start_character, 1);
            assert_eq!(edits[0].end_character, 3);
            assert_eq!(edits[0].new_text, "ab");
            assert_eq!(edits[1].start_line, 2);
        },
        _ => panic!("expected format edits"),
    }
}

#[test]
fn prepare_rename_forms() {
    let a = read(RANGE, RequestType::PrepareRename).unwrap();
    assert_eq!(a.form, AnswerForm::PrepareRenameRange);
    assert!(matches!(a.response, LspResponse::PrepareRename { range, placeholder: None } if range.end.character == 5));
    let with = format!("{{\"range\":{},\"placeholder\":\"name\"}}", RANGE);
    let b = read(&with, RequestType::PrepareRename).unwrap();
    assert_eq!(b.form, AnswerForm::PrepareRenameAnswer);
    match b.response {
        LspResponse::PrepareRename { range, placeholder } => {
            assert_eq!(range.start.character, 2);
            assert_eq!(placeholder.as_deref(), Some("name"));
        },
        _ => panic!("expected prepare rename"),
    }
    assert!(read("{\"defaultBehavior\":true}", RequestType::PrepareRename).is_none());
}

#[test]
fn executed_commands_are_answered_like_code_actions() {
    assert_eq!(request_type_of(LspMessageKind::ExecuteCommand), Some(RequestType::CodeAction));
    assert_eq!(request_type_of(LspMessageKind::DidChange), None);
    assert_eq!(request_type_of(LspMessageKind::Rename), Some(RequestType::Rename));
    assert_eq!(read("[]", RequestType::CodeAction).unwrap().form, AnswerForm::CodeActions);
}

#[test]
fn code_actions_and_commands_are_kept() {
    let text = "[{\"title\":\"Run\",\"command\":\"run\",\"arguments\":[1,\"a\"]},\
        {\"title\":\"Fix\",\"edit\":{\"changes\":{}},\"command\":{\"title\":\"t\",\"command\":\"c\"}}]";
    let a = read(text, RequestType::CodeAction).unwrap();
    match a.response {
        LspResponse::CodeActions { actions } => {
            assert_eq!(actions.len(), 2);
            match &actions[0] {
                CodeActionOrCommand::Command(c) => {
                    assert_eq!(c.title, "Run");
                    assert_eq!(c.command, "run");
                    assert_eq!(c.arguments, Some(vec!["1".to_string(), "\"a\"".to_string()]));
                },
                _ => panic!("expected a command"),
            }
            match &actions[1] {
                CodeActionOrCommand::Action { title, has_edit, command } => {
                    assert_eq!(title, "Fix");
                    assert!(*has_edit);
                    assert_eq!(command.as_ref().unwrap().command, "c");
                },
                _ => panic!("expected an action"),
            }
        },
        _ => panic!("expected code actions"),
    }
}

#[test]
fn signature_help_keeps_signatures_and_active_indices() {
    let a = read(
        "{\"signatures\":[{\"label\":\"f(a, b)\",\"documentation\":\"doc\",\
         \"parameters\":[{\"label\":\"a\"},{\"label\":[5,6]}]}],\"activeSignature\":0,\"activeParameter\":1}",
        RequestType::SignatureHelp,
    )
    .unwrap();
    assert_eq!(a.form, AnswerForm::SignatureHelp);
    match a.response {
        LspResponse::SignatureHelp { signatures, active_signature, active_parameter } => {
            assert_eq!(active_signature, Some(0));
            assert_eq!(active_parameter, Some(1));
            assert_eq!(signatures.len(), 1);
            assert_eq!(signatures[0].label, "f(a, b)");
            assert_eq!(signatures[0].documentation.as_deref(), Some("doc"));
            assert!(matches!(&signatures[0].parameters[0], ParameterLabel::Simple(s) if s == "a"));
            assert!(matches!(signatures[0].parameters[1], ParameterLabel::Offsets(5, 6)));
        },
        _ => panic!("expected signature help"),
    }
    assert!(read("{\"x\":1}", RequestType::SignatureHelp).is_none());
}

#[test]
fn inlay_hint_label_parts_are_joined() {
    let text = "[{\"position\":{\"line\":0,\"character\":3},\"label\":\": i32\"},\
        {\"position\":{\"line\":2,\"character\":1},\"label\":[{\"value\":\"a\"},{\"value\":\"bc\"}]}]";
    let a = read(text, RequestType::InlayHint).unwrap();
    match a.response {
        LspResponse::InlayHints { hints } => {
            assert_eq!(hints.len(), 2);
            assert_eq!(hints[0].label, ": i32");
            assert_eq!((hints[0].position.line, hints[0].position.character), (0, 3));
            assert_eq!(hints[1].label, "abc");
            assert_eq!(hints[1].position.line, 2);
        },
        _ => panic!("expected inlay hints"),
    }
}

#[test]
fn highlights_keep_kind_numbers() {
    let text = format!("[{{\"range\":{},\"kind\":3}},{{\"range\":{}}}]", RANGE, RANGE);
    let a = read(&text, RequestType::DocumentHighlight).unwrap();
    match a.response {
        LspResponse::DocumentHighlights { highlights } => {
            assert_eq!(highlights.len(), 2);
            assert_eq!(highlights[0].kind, Some(3));
            assert_eq!(highlights[1].kind, None);
            assert_eq!(highlights[1].range.start.line, 1);
        },
        _ => panic!("expected highlights"),
    }
}

#[test]
fn rename_changes_per_document() {
    let text = "{\"changes\":{\"file:///a.rs\":[{\"range\":{\"start\":{\"line\":0,\"character\":4},\
        \"end\":{\"line\":0,\"character\":7}},\"newText\":\"new\"}]}}";
    let a = read(text, RequestType::Rename).unwrap();
    match a.response {
        LspResponse::Rename { changes: Some(cs) } => {
            assert_eq!(cs.len(), 1);
            assert_eq!(cs[0].0, "file:///a.rs");
            assert_eq!(cs[0].1[0].new_text, "new");
            assert_eq!(cs[0].1[0].end_character, 7);
        },
        _ => panic!("expected rename changes"),
    }
    assert!(matches!(read("{}", RequestType::Rename).unwrap().response, LspResponse::Rename { changes: None }));
}

#[test]
fn initialize_carries_the_capabilities() {
    let text = "{\"capabilities\":{\"hoverProvider\":true,\"definitionProvider\":{},\
        \"completionProvider\":{\"triggerCharacters\":[\".\"]},\"renameProvider\":{\"prepareProvider\":true}}}";
    let a = read(text, RequestType::Initialize).unwrap();
    assert_eq!(a.form, AnswerForm::Initialize);
    assert!(matches!(a.response, LspResponse::Initialized));
    let caps = a.capabilities.unwrap();
    assert_eq!(caps.hover_provider, Some(Provider::Simple(true)));
    assert_eq!(caps.definition_provider, Some(Provider::Options));
    assert_eq!(caps.references_provider, None);
    assert_eq!(caps.completion_provider.unwrap().trigger_characters, Some(vec![".".to_string()]));
    assert_eq!(caps.rename_provider, Some(RenameProvider::Options { prepare_provider: Some(true) }));
    assert!(read("{\"x\":1}", RequestType::Initialize).is_none());
    assert!(read("{\"contents\":\"h\"}", RequestType::Hover).unwrap().capabilities.is_none());
}

#[test]
fn published_diagnostics_are_read() {
    let params = format!(
        "{{\"uri\":\"file:///a.rs\",\"diagnostics\":[{{\"range\":{},\"severity\":2,\"message\":\"unused\"}},{{\"range\":{},\"message\":\"hm\"}}]}}",
        RANGE, RANGE
    );
    match parse_notification("textDocument/publishDiagnostics", Some(params.clone())) {
        Some(LspResponse::Diagnostics { uri, diagnostics }) => {
            assert_eq!(uri, "file:///a.rs");
            assert_eq!(diagnostics.len(), 2);
            assert_eq!(diagnostics[0].severity, Some(2));
            assert_eq!(diagnostics[0].message, "unused");
            assert_eq!(diagnostics[1].severity, None);
        },
        _ => panic!("expected diagnostics"),
    }
    assert!(parse_notification("window/logMessage", Some(params)).is_none());
    assert!(parse_notification("textDocument/publishDiagnostics", None).is_none());
}

#[test]
fn content_length_headers() {
    assert_eq!(content_length("Content-Length: 123\r\n"), Some(123));
    assert_eq!(content_length("Content-Length:  +7 \r\n"), Some(7));
    assert_eq!(content_length("Content-Length: Content-Length: 9"), Some(9));
    assert_eq!(content_length("Content-Type: x\r\n"), None);
    assert_eq!(content_length("Content-Length: \r\n"), None);
    assert_eq!(content_length("Content-Length: 1x"), None);
    assert_eq!(content_length("Content-Length: 99999999999999999999999"), None);
    assert_eq!(content_length("content-length: 5"), None);
}

#[test]
fn method_names_and_notifications() {
    assert_eq!(method_name(LspMessageKind::GotoDefinition), "textDocument/definition");
    assert_eq!(method_name(LspMessageKind::ExecuteCommand), "workspace/executeCommand");
    assert_eq!(method_name(LspMessageKind::Format), "textDocument/formatting");
    assert!(notification(LspMessageKind::DidOpen));
    assert!(notification(LspMessageKind::Initialized));
    assert!(!notification(LspMessageKind::Hover));
}
