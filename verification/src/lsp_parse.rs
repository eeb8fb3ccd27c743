//! Reading the language server's answers: which reading of the answer's
//! JSON each request type tries, in what order, and what is kept of it.

use vstd::prelude::*;
use crate::completion::CompletionEntry;
use crate::cursor::{char_is_whitespace, is_whitespace};
use crate::lsp_edits::{LspPosition, TextEdit};
use crate::lsp_responses::{
    changes_view, extract_hover_content, hover_text, CodeActionOrCommand, DiagnosticEntry,
    DocumentHighlightEntry, HoverContents, LspCommand, LspLocation, LspResponse, MarkedString,
    ParameterLabel, SignatureInfo,
};
use crate::lsp_state::{
    InlayHintEntry, LspMessageKind, LspRange, Provider, RenameProvider, ServerCaps, TriggerOptions,
};

verus! {

/// The kind of request an answer belongs to.
#[derive(Clone, Copy, Debug, PartialEq, Eq, Structural)]
pub enum RequestType {
    Initialize,
    Completion,
    Hover,
    GotoDefinition,
    References,
    Format,
    SignatureHelp,
    CodeAction,
    InlayHint,
    DocumentHighlight,
    PrepareRename,
    Rename,
}

/// The request kind whose answer a message of kind `k` gets, if it gets one:
/// notifications get none, and an executed command is answered like a code
/// action request.
pub open spec fn request_type_spec(k: LspMessageKind) -> Option<RequestType> {
    match k {
        LspMessageKind::Initialize => Some(RequestType::Initialize),
        LspMessageKind::Initialized | LspMessageKind::DidOpen | LspMessageKind::DidChange => None,
        LspMessageKind::Completion => Some(RequestType::Completion),
        LspMessageKind::Hover => Some(RequestType::Hover),
        LspMessageKind::GotoDefinition => Some(RequestType::GotoDefinition),
        LspMessageKind::References => Some(RequestType::References),
        LspMessageKind::Format => Some(RequestType::Format),
        LspMessageKind::SignatureHelp => Some(RequestType::SignatureHelp),
        LspMessageKind::CodeAction | LspMessageKind::ExecuteCommand => Some(RequestType::CodeAction),
        LspMessageKind::InlayHint => Some(RequestType::InlayHint),
        LspMessageKind::DocumentHighlight => Some(RequestType::DocumentHighlight),
        LspMessageKind::PrepareRename => Some(RequestType::PrepareRename),
        LspMessageKind::Rename => Some(RequestType::Rename),
    }
}

/// The request kind whose answer a message of kind `kind` gets.
pub fn request_type_of(kind: LspMessageKind) -> (r: Option<RequestType>)
    ensures
        r == request_type_spec(kind),
{
    match kind {
        LspMessageKind::Initialize => Some(RequestType::Initialize),
        LspMessageKind::Initialized | LspMessageKind::DidOpen | LspMessageKind::DidChange => None,
        LspMessageKind::Completion => Some(RequestType::Completion),
        LspMessageKind::Hover => Some(RequestType::Hover),
        LspMessageKind::GotoDefinition => Some(RequestType::GotoDefinition),
        LspMessageKind::References => Some(RequestType::References),
        LspMessageKind::Format => Some(RequestType::Format),
        LspMessageKind::SignatureHelp => Some(RequestType::SignatureHelp),
        LspMessageKind::CodeAction | LspMessageKind::ExecuteCommand => Some(RequestType::CodeAction),
        LspMessageKind::InlayHint => Some(RequestType::InlayHint),
        LspMessageKind::DocumentHighlight => Some(RequestType::DocumentHighlight),
        LspMessageKind::PrepareRename => Some(RequestType::PrepareRename),
        LspMessageKind::Rename => Some(RequestType::Rename),
    }
}

/// The protocol's method name for a message of kind `k`.
pub open spec fn method_spec(k: LspMessageKind) -> Seq<char> {
    match k {
        LspMessageKind::Initialize => "initialize"@,
        LspMessageKind::Initialized => "initialized"@,
        LspMessageKind::DidOpen => "textDocument/didOpen"@,
        LspMessageKind::DidChange => "textDocument/didChange"@,
        LspMessageKind::ExecuteCommand => "workspace/executeCommand"@,
        LspMessageKind::Completion => "textDocument/completion"@,
        LspMessageKind::Hover => "textDocument/hover"@,
        LspMessageKind::GotoDefinition => "textDocument/definition"@,
        LspMessageKind::References => "textDocument/references"@,
        LspMessageKind::Format => "textDocument/formatting"@,
        LspMessageKind::SignatureHelp => "textDocument/signatureHelp"@,
        LspMessageKind::CodeAction => "textDocument/codeAction"@,
        LspMessageKind::InlayHint => "textDocument/inlayHint"@,
        LspMessageKind::DocumentHighlight => "textDocument/documentHighlight"@,
        LspMessageKind::PrepareRename => "textDocument/prepareRename"@,
        LspMessageKind::Rename => "textDocument/rename"@,
    }
}

/// The protocol's method name for a message of kind `kind`.
pub fn method_name(kind: LspMessageKind) -> (r: &'static str)
    ensures
        r@ == method_spec(kind),
{
    match kind {
        LspMessageKind::Initialize => "initialize",
        LspMessageKind::Initialized => "initialized",
        LspMessageKind::DidOpen => "textDocument/didOpen",
        LspMessageKind::DidChange => "textDocument/didChange",
        LspMessageKind::ExecuteCommand => "workspace/executeCommand",
        LspMessageKind::Completion => "textDocument/completion",
        LspMessageKind::Hover => "textDocument/hover",
        LspMessageKind::GotoDefinition => "textDocument/definition",
        LspMessageKind::References => "textDocument/references",
        LspMessageKind::Format => "textDocument/formatting",
        LspMessageKind::SignatureHelp => "textDocument/signatureHelp",
        LspMessageKind::CodeAction => "textDocument/codeAction",
        LspMessageKind::InlayHint => "textDocument/inlayHint",
        LspMessageKind::DocumentHighlight => "textDocument/documentHighlight",
        LspMessageKind::PrepareRename => "textDocument/prepareRename",
        LspMessageKind::Rename => "textDocument/rename",
    }
}

/// Whether a message of kind `k` is a notification, which carries no id:
/// exactly the messages that get no answer.
pub open spec fn is_notification(k: LspMessageKind) -> bool {
    request_type_spec(k) is None
}

/// Whether a message of kind `kind` is a notification (sent without an id).
pub fn notification(kind: LspMessageKind) -> (r: bool)
    ensures
        r == is_notification(kind),
{
    request_type_of(kind).is_none()
}

/// The header that gives the length of a message from the server.
pub open spec fn length_prefix() -> Seq<char> {
    "Content-Length: "@
}

/// `s` with every leading copy of `p` taken off.
pub open spec fn strip_prefixes(s: Seq<char>, p: Seq<char>) -> Seq<char>
    decreases s.len(),
{
    if p.len() > 0 && s.len() >= p.len() && s.take(p.len() as int) == p {
        strip_prefixes(s.skip(p.len() as int), p)
    } else {
        s
    }
}

/// `s` without its leading whitespace.
pub open spec fn trim_start(s: Seq<char>) -> Seq<char>
    decreases s.len(),
{
    if s.len() > 0 && char_is_whitespace(s[0]) {
        trim_start(s.drop_first())
    } else {
        s
    }
}

/// `s` without its trailing whitespace.
pub open spec fn trim_end(s: Seq<char>) -> Seq<char>
    decreases s.len(),
{
    if s.len() > 0 && char_is_whitespace(s.last()) {
        trim_end(s.drop_last())
    } else {
        s
    }
}

pub open spec fn is_digit(c: char) -> bool {
    '0' <= c && c <= '9'
}

/// The number the decimal digits of `d` write.
pub open spec fn decimal_value(d: Seq<char>) -> int
    decreases d.len(),
{
    if d.len() == 0 {
        0
    } else {
        decimal_value(d.drop_last()) * 10 + (d.last() as int - '0' as int)
    }
}

/// The `usize` that `t` writes: an optional `+` and then one or more
/// decimal digits, of a value that fits.
pub open spec fn usize_written(t: Seq<char>) -> Option<usize> {
    digits_value(if t.len() > 0 && t[0] == '+' { t.drop_first() } else { t })
}

/// The `usize` that the decimal digits `d` write, if they are one or more
/// digits of a value that fits.
pub open spec fn digits_value(d: Seq<char>) -> Option<usize> {
    if d.len() > 0 && (forall|i: int| 0 <= i < d.len() ==> is_digit(#[trigger] d[i])) && decimal_value(d)
        <= usize::MAX {
        Some(decimal_value(d) as usize)
    } else {
        None
    }
}

/// The length a header line from the server gives: a line that starts with
/// `Content-Length: ` gives, once every leading copy of that prefix and the
/// whitespace around what remains are taken off, the `usize` written there.
pub open spec fn header_length(line: Seq<char>) -> Option<usize> {
    if line.len() >= length_prefix().len() && line.take(length_prefix().len() as int) == length_prefix() {
        usize_written(trim_end(trim_start(strip_prefixes(line, length_prefix()))))
    } else {
        None
    }
}

proof fn lemma_decimal_grows(d: Seq<char>, i: int)
    requires
        0 <= i <= d.len(),
        forall|k: int| 0 <= k < d.len() ==> is_digit(#[trigger] d[k]),
    ensures
        0 <= decimal_value(d.take(i)) <= decimal_value(d),
    decreases d.len() - i,
{
    if i < d.len() {
        lemma_decimal_grows(d, i + 1);
        assert(d.take(i + 1).drop_last() =~= d.take(i));
        assert(is_digit(d[i]));
    } else {
        assert(d.take(i) =~= d);
        lemma_decimal_nonneg(d);
    }
}

proof fn lemma_decimal_nonneg(d: Seq<char>)
    requires
        forall|k: int| 0 <= k < d.len() ==> is_digit(#[trigger] d[k]),
    ensures
        decimal_value(d) >= 0,
    decreases d.len(),
{
    if d.len() > 0 {
        lemma_decimal_nonneg(d.drop_last());
        assert(is_digit(d[d.len() - 1]));
    }
}

/// Digits whose first `j + 1` already write more than `usize::MAX` write no
/// `usize`, whatever follows.
proof fn lemma_overflow_not_written(d: Seq<char>, j: int)
    requires
        0 <= j < d.len(),
        decimal_value(d.take(j + 1)) > usize::MAX,
    ensures
        !((forall|i: int| 0 <= i < d.len() ==> is_digit(#[trigger] d[i])) && decimal_value(d) <= usize::MAX),
{
    if forall|i: int| 0 <= i < d.len() ==> is_digit(#[trigger] d[i]) {
        lemma_decimal_grows(d, j + 1);
    }
}

/// Whether `s` from `at` on starts with `p`.
fn prefix_at(s: &str, at: usize, p: &str) -> (r: bool)
    requires
        at <= s@.len(),
    ensures
        r == (s@.len() - at >= p@.len() && s@.skip(at as int).take(p@.len() as int) == p@),
{
    let n = s.unicode_len();
    let m = p.unicode_len();
    if n - at < m {
        return false;
    }
    let mut k: usize = 0;
    while k < m
        invariant
            n == s@.len(),
            m == p@.len(),
            at + m <= n,
            0 <= k <= m,
            forall|j: int| 0 <= j < k ==> s@[at + j] == p@[j],
        decreases m - k,
    {
        if s.get_char(at + k) != p.get_char(k) {
            assert(s@.skip(at as int).take(m as int)[k as int] != p@[k as int]);
            return false;
        }
        k += 1;
    }
    assert(s@.skip(at as int).take(m as int) =~= p@);
    true
}

/// The length a header line from the server gives (see `header_length`).
pub fn content_length(line: &str) -> (r: Option<usize>)
    ensures
        r == header_length(line@),
{
    let p = "Content-Length: ";
    proof {
        reveal_strlit("Content-Length: ");
    }
    let ghost s = line@;
    let n = line.unicode_len();
    assert(length_prefix().len() == 16);
    if !prefix_at(line, 0, p) {
        proof {
            assert(s.skip(0) =~= s);
        }
        return None;
    }
    proof {
        assert(s.skip(0) =~= s);
    }
    // Take off every leading copy of the prefix.
    let mut at: usize = 0;
    while prefix_at(line, at, p)
        invariant
            n == s.len(),
            s == line@,
            p@ == length_prefix(),
            length_prefix().len() == 16,
            at <= n,
            strip_prefixes(s.skip(at as int), length_prefix()) == strip_prefixes(s, length_prefix()),
        decreases n - at,
    {
        proof {
            assert(s.skip(at as int).skip(16) =~= s.skip(at + 16));
        }
        at = at + 16;
    }
    // Trim whitespace at both ends.
    let mut lo: usize = at;
    while lo < n && is_whitespace(line.get_char(lo))
        invariant
            n == s.len(),
            s == line@,
            at <= lo <= n,
            trim_start(s.skip(lo as int)) == trim_start(strip_prefixes(s, length_prefix())),
        decreases n - lo,
    {
        proof {
            assert(s.skip(lo as int).drop_first() =~= s.skip(lo + 1));
        }
        lo += 1;
    }
    proof {
        assert(s.skip(lo as int).subrange(0, (n - lo) as int) =~= s.skip(lo as int));
    }
    let mut hi: usize = n;
    while hi > lo && is_whitespace(line.get_char(hi - 1))
        invariant
            n == s.len(),
            s == line@,
            lo <= hi <= n,
            trim_start(s.skip(lo as int)) == s.skip(lo as int),
            trim_end(s.subrange(lo as int, hi as int)) == trim_end(s.skip(lo as int)),
        decreases hi - lo,
    {
        proof {
            assert(s.subrange(lo as int, hi as int).drop_last() =~= s.subrange(lo as int, hi - 1));
        }
        hi -= 1;
    }
    let ghost t = s.subrange(lo as int, hi as int);
    proof {
        assert(trim_end(t) == t);
    }
    // Read an optional `+` and then the digits.
    let mut i: usize = lo;
    if i < hi && line.get_char(i) == '+' {
        i += 1;
    }
    let ghost d = s.subrange(i as int, hi as int);
    proof {
        if t.len() > 0 && t[0] == '+' {
            assert(d =~= t.drop_first());
        } else {
            assert(d =~= t);
        }
    }
    assert(header_length(s) == digits_value(d));
    if i == hi {
        return None;
    }
    let mut acc: usize = 0;
    let start = i;
    while i < hi
        invariant
            n == s.len(),
            s == line@,
            start <= i <= hi <= n,
            d == s.subrange(start as int, hi as int),
            d.len() > 0,
            header_length(line@) == digits_value(d),
            forall|k: int| 0 <= k < i - start ==> is_digit(#[trigger] d[k]),
            acc == decimal_value(d.take(i - start)),
        decreases hi - i,
    {
        let c = line.get_char(i);
        if !('0' <= c && c <= '9') {
            proof {
                assert(d[i - start] == c);
            }
            return None;
        }
        let digit: usize = (c as u32 - '0' as u32) as usize;
        proof {
            assert(d.take(i - start + 1).drop_last() =~= d.take(i - start));
            assert(d.take(i - start + 1).last() == c);
        }
        match acc.checked_mul(10) {
            Some(x) => match x.checked_add(digit) {
                Some(y) => {
                    acc = y;
                },
                None => {
                    proof {
                        lemma_overflow_not_written(d, i - start);
                    }
                    return None;
                },
            },
            None => {
                proof {
                    lemma_overflow_not_written(d, i - start);
                }
                return None;
            },
        }
        i += 1;
    }
    proof {
        assert(d.take(d.len() as int) =~= d);
    }
    Some(acc)
}

/// The three forms of an answer to a prepare-rename request.
pub enum PrepareRenameAnswer {
    Range(LspRange),
    RangeWithPlaceholder(LspRange, String),
    DefaultBehavior,
}

/// Which reading of an answer was taken.
#[derive(Clone, Copy, Debug, PartialEq, Eq, Structural)]
pub enum AnswerForm {
    /// An `InitializeResult`.
    Initialize,
    /// A plain list of completion items (complete).
    CompletionItems,
    /// A completion list, which says whether it is complete.
    CompletionList,
    Hover,
    /// One location.
    DefinitionLocation,
    /// A non-empty list of locations.
    DefinitionLocations,
    /// A non-empty list of location links, read as their targets.
    DefinitionLinks,
    References,
    Format,
    SignatureHelp,
    CodeActions,
    InlayHints,
    DocumentHighlights,
    /// A bare range.
    PrepareRenameRange,
    /// A prepare-rename answer with a range, and a placeholder or not.
    PrepareRenameAnswer,
    Rename,
}

/// An inlay hint as the server sends it: a position, and its label as one
/// piece or as several parts.
pub struct InlayHintParts {
    pub position: LspPosition,
    pub label_parts: Vec<String>,
}

/// An answer read: the reading taken, the response it makes, and the
/// capabilities an answer to `initialize` announces.
pub struct ParsedAnswer {
    pub form: AnswerForm,
    pub response: LspResponse,
    pub capabilities: Option<ServerCaps>,
}

/// The shape of a JSON value: `null`, a boolean, an object (its members,
/// each a key and the member's JSON text, in key order), or anything else.
pub enum JsonShape {
    Null,
    Bool(bool),
    Object(Vec<(String, String)>),
    Other,
}

/// The shape of the JSON value the text reads as, if it is JSON.
pub uninterp spec fn json_shape_of(json: Seq<char>) -> Option<JsonShape>;

/// What the editor reads of the `InitializeResult` the JSON text reads as:
/// the completion and signature-help trigger options, the rename
/// capability, and the capabilities' JSON text.
pub uninterp spec fn initialize_of(json: Seq<char>) -> Option<(Option<TriggerOptions>, Option<TriggerOptions>, Option<RenameProvider>, Seq<char>)>;

/// The items of the list of completion items the JSON text reads as.
pub uninterp spec fn completion_items_of(json: Seq<char>) -> Option<Seq<CompletionEntry>>;

/// Whether the completion list the JSON text reads as is incomplete, and
/// its items.
pub uninterp spec fn completion_list_of(json: Seq<char>) -> Option<(bool, Seq<CompletionEntry>)>;

/// The contents of the hover the JSON text reads as, and its range as start
/// line, start char, end line and end char.
pub uninterp spec fn hover_of(json: Seq<char>) -> Option<(HoverContents, Option<(u32, u32, u32, u32)>)>;

/// The location the JSON text reads as, if it reads as one.
pub uninterp spec fn location_of(json: Seq<char>) -> Option<LspLocation>;

/// The locations the JSON text reads as, if it reads as a list of them.
pub uninterp spec fn locations_of(json: Seq<char>) -> Option<Seq<LspLocation>>;

/// The targets (URI and selection range) of the location links the JSON
/// text reads as, if it reads as a list of them.
pub uninterp spec fn link_targets_of(json: Seq<char>) -> Option<Seq<LspLocation>>;

/// The text edits the JSON text reads as, if it reads as a list of them.
pub uninterp spec fn text_edits_of(json: Seq<char>) -> Option<Seq<TextEdit>>;

/// The signatures, active signature and active parameter of the signature
/// help the JSON text reads as.
pub uninterp spec fn signature_help_of(json: Seq<char>) -> Option<(Seq<SignatureInfo>, Option<u32>, Option<u32>)>;

/// The code actions and commands the JSON text reads as.
pub uninterp spec fn code_actions_of(json: Seq<char>) -> Option<Seq<CodeActionOrCommand>>;

/// The inlay hints the JSON text reads as.
pub uninterp spec fn inlay_hints_of(json: Seq<char>) -> Option<Seq<InlayHintParts>>;

/// The document highlights the JSON text reads as.
pub uninterp spec fn highlights_of(json: Seq<char>) -> Option<Seq<DocumentHighlightEntry>>;

/// The range the JSON text reads as, if it reads as one.
pub uninterp spec fn range_of(json: Seq<char>) -> Option<LspRange>;

/// The prepare-rename answer the JSON text reads as, if it reads as one.
pub uninterp spec fn prepare_rename_of(json: Seq<char>) -> Option<PrepareRenameAnswer>;

/// The changes of the workspace edit the JSON text reads as, if it has any:
/// the set of each changed document's URI and edits.
pub uninterp spec fn workspace_changes_of(json: Seq<char>) -> Option<Option<Set<(Seq<char>, Seq<TextEdit>)>>>;

/// The document URI and diagnostics of the published diagnostics the JSON
/// text reads as.
pub uninterp spec fn diagnostics_of(json: Seq<char>) -> Option<(Seq<char>, Seq<DiagnosticEntry>)>;

/// The set of documents and edits of workspace changes.
pub open spec fn changes_set(c: Option<Vec<(String, Vec<TextEdit>)>>) -> Option<Set<(Seq<char>, Seq<TextEdit>)>> {
    match changes_view(c) {
        Some(s) => Some(s.to_set()),
        None => None,
    }
}

/// No document occurs twice in workspace changes.
pub open spec fn documents_distinct(c: Option<Vec<(String, Vec<TextEdit>)>>) -> bool {
    match c {
        Some(v) => forall|i: int, j: int| 0 <= i < j < v@.len() ==> (#[trigger] v@[i]).0@ != (#[trigger] v@[j]).0@,
        None => true,
    }
}

/// `serde_json::from_str` into a `serde_json::Value`: its variant, an
/// object's members moved over with each value as its JSON text.
#[verifier::external_body]
fn read_json(text: &str) -> (r: Option<JsonShape>)
    ensures
        r == json_shape_of(text@),
{
    Some(match serde_json::from_str::<serde_json::Value>(text).ok()? {
        serde_json::Value::Null => JsonShape::Null,
        serde_json::Value::Bool(b) => JsonShape::Bool(b),
        serde_json::Value::Object(m) => JsonShape::Object(m.into_iter().map(|(k, v)| (k, v.to_string())).collect()),
        _ => JsonShape::Other,
    })
}

/// `serde_json::from_str` into `lsp_types::InitializeResult`: the trigger
/// characters of the completion and signature-help options, the rename
/// capability variant for variant, and the capabilities as JSON text
/// (`serde_json::to_string`).
#[verifier::external_body]
fn read_initialize(text: &str) -> (r: Option<(Option<TriggerOptions>, Option<TriggerOptions>, Option<RenameProvider>, String)>)
    ensures
        r matches Some(v) ==> initialize_of(text@) == Some((v.0, v.1, v.2, v.3@)),
        r is None ==> initialize_of(text@) is None,
{
    let c = serde_json::from_str::<lsp_types::InitializeResult>(text).ok()?.capabilities;
    let caps_text = serde_json::to_string(&c).ok()?;
    let completion = c.completion_provider.map(|o| TriggerOptions { trigger_characters: o.trigger_characters });
    let signature = c.signature_help_provider.map(|o| TriggerOptions { trigger_characters: o.trigger_characters });
    let rename = c.rename_provider.map(|r| match r {
        lsp_types::OneOf::Left(b) => RenameProvider::Simple(b),
        lsp_types::OneOf::Right(o) => RenameProvider::Options { prepare_provider: o.prepare_provider },
    });
    Some((completion, signature, rename, caps_text))
}

/// `serde_json::from_str` into `Vec<lsp_types::CompletionItem>`: each item's
/// label, filter text, insert text, detail, and kind as its protocol number.
#[verifier::external_body]
fn read_completion_items(text: &str) -> (r: Option<Vec<CompletionEntry>>)
    ensures
        r matches Some(v) ==> completion_items_of(text@) == Some(v@),
        r is None ==> completion_items_of(text@) is None,
{
    let items: Vec<lsp_types::CompletionItem> = serde_json::from_str(text).ok()?;
    Some(items.into_iter().map(|i| CompletionEntry {
        kind: i.kind.and_then(|k| serde_json::to_value(k).ok()?.as_i64()).map(|n| n as i32),
        label: i.label,
        filter_text: i.filter_text,
        insert_text: i.insert_text,
        detail: i.detail,
    }).collect())
}

/// `serde_json::from_str` into `lsp_types::CompletionList`: its
/// `is_incomplete` flag, and its items read as `read_completion_items` reads
/// them.
#[verifier::external_body]
fn read_completion_list(text: &str) -> (r: Option<(bool, Vec<CompletionEntry>)>)
    ensures
        r matches Some(v) ==> completion_list_of(text@) == Some((v.0, v.1@)),
        r is None ==> completion_list_of(text@) is None,
{
    let l: lsp_types::CompletionList = serde_json::from_str(text).ok()?;
    Some((l.is_incomplete, l.items.into_iter().map(|i| CompletionEntry {
        kind: i.kind.and_then(|k| serde_json::to_value(k).ok()?.as_i64()).map(|n| n as i32),
        label: i.label,
        filter_text: i.filter_text,
        insert_text: i.insert_text,
        detail: i.detail,
    }).collect()))
}

/// `serde_json::from_str` into `lsp_types::Hover`: its contents, variant for
/// variant, and its range's four numbers.
#[verifier::external_body]
fn read_hover(text: &str) -> (r: Option<(HoverContents, Option<(u32, u32, u32, u32)>)>)
    ensures
        r == hover_of(text@),
{
    let h: lsp_types::Hover = serde_json::from_str(text).ok()?;
    let m = |s| match s {
        lsp_types::MarkedString::String(t) => MarkedString::String(t),
        lsp_types::MarkedString::LanguageString(l) => MarkedString::LanguageString { language: l.language, value: l.value },
    };
    let contents = match h.contents {
        lsp_types::HoverContents::Scalar(s) => HoverContents::Scalar(m(s)),
        lsp_types::HoverContents::Array(v) => HoverContents::Array(v.into_iter().map(m).collect()),
        lsp_types::HoverContents::Markup(k) => HoverContents::Markup { value: k.value },
    };
    Some((contents, h.range.map(|r| (r.start.line, r.start.character, r.end.line, r.end.character))))
}

/// `serde_json::from_str` into `lsp_types::Location`: the location read,
/// with its URI as text and its range, field for field.
#[verifier::external_body]
fn read_location(text: &str) -> (r: Option<LspLocation>)
    ensures
        r == location_of(text@),
{
    let l: lsp_types::Location = serde_json::from_str(text).ok()?;
    let (s, e) = (l.range.start, l.range.end);
    let range = LspRange {
        start: LspPosition { line: s.line, character: s.character },
        end: LspPosition { line: e.line, character: e.character },
    };
    Some(LspLocation { uri: l.uri.as_str().to_string(), range })
}

/// `serde_json::from_str` into `Vec<lsp_types::Location>`: the locations
/// read, in order, each with its URI as text and its range.
#[verifier::external_body]
fn read_locations(text: &str) -> (r: Option<Vec<LspLocation>>)
    ensures
        r matches Some(v) ==> locations_of(text@) == Some(v@),
        r is None ==> locations_of(text@) is None,
{
    let ls: Vec<lsp_types::Location> = serde_json::from_str(text).ok()?;
    Some(ls.into_iter().map(|l| LspLocation {
        uri: l.uri.as_str().to_string(),
        range: LspRange {
            start: LspPosition { line: l.range.start.line, character: l.range.start.character },
            end: LspPosition { line: l.range.end.line, character: l.range.end.character },
        },
    }).collect())
}

/// `serde_json::from_str` into `Vec<lsp_types::LocationLink>`: for each link
/// in order, its target URI as text and its target selection range.
#[verifier::external_body]
fn read_location_links(text: &str) -> (r: Option<Vec<LspLocation>>)
    ensures
        r matches Some(v) ==> link_targets_of(text@) == Some(v@),
        r is None ==> link_targets_of(text@) is None,
{
    let ls: Vec<lsp_types::LocationLink> = serde_json::from_str(text).ok()?;
    Some(ls.into_iter().map(|l| LspLocation {
        uri: l.target_uri.as_str().to_string(),
        range: LspRange {
            start: LspPosition { line: l.target_selection_range.start.line, character: l.target_selection_range.start.character },
            end: LspPosition { line: l.target_selection_range.end.line, character: l.target_selection_range.end.character },
        },
    }).collect())
}

/// `serde_json::from_str` into `Vec<lsp_types::TextEdit>`: the edits read,
/// in order, each with its range's four numbers and its new text.
#[verifier::external_body]
fn read_text_edits(text: &str) -> (r: Option<Vec<TextEdit>>)
    ensures
        r matches Some(v) ==> text_edits_of(text@) == Some(v@),
        r is None ==> text_edits_of(text@) is None,
{
    let es: Vec<lsp_types::TextEdit> = serde_json::from_str(text).ok()?;
    Some(es.into_iter().map(|e| TextEdit {
        start_line: e.range.start.line,
        start_character: e.range.start.character,
        end_line: e.range.end.line,
        end_character: e.range.end.character,
        new_text: e.new_text,
    }).collect())
}

/// `serde_json::from_str` into `lsp_types::SignatureHelp`: each signature's
/// label, documentation text, parameter labels (none when it lists no
/// parameters) and active parameter, then the active signature and
/// parameter.
#[verifier::external_body]
fn read_signature_help(text: &str) -> (r: Option<(Vec<SignatureInfo>, Option<u32>, Option<u32>)>)
    ensures
        r matches Some(v) ==> signature_help_of(text@) == Some((v.0@, v.1, v.2)),
        r is None ==> signature_help_of(text@) is None,
{
    let h: lsp_types::SignatureHelp = serde_json::from_str(text).ok()?;
    let sig = |s: lsp_types::SignatureInformation| SignatureInfo {
        label: s.label,
        documentation: s.documentation.map(|d| match d {
            lsp_types::Documentation::String(t) => t,
            lsp_types::Documentation::MarkupContent(m) => m.value,
        }),
        parameters: s.parameters.unwrap_or_default().into_iter().map(|p| match p.label {
            lsp_types::ParameterLabel::Simple(t) => ParameterLabel::Simple(t),
            lsp_types::ParameterLabel::LabelOffsets([a, b]) => ParameterLabel::Offsets(a, b),
        }).collect(),
        active_parameter: s.active_parameter,
    };
    Some((h.signatures.into_iter().map(sig).collect(), h.active_signature, h.active_parameter))
}

/// `serde_json::from_str` into `Vec<lsp_types::CodeActionOrCommand>`: each
/// one, variant for variant: a command's title, name and arguments (each as
/// its JSON text); an action's title, whether it has an edit, and its
/// command.
#[verifier::external_body]
fn read_code_actions(text: &str) -> (r: Option<Vec<CodeActionOrCommand>>)
    ensures
        r matches Some(v) ==> code_actions_of(text@) == Some(v@),
        r is None ==> code_actions_of(text@) is None,
{
    let v: Vec<lsp_types::CodeActionOrCommand> = serde_json::from_str(text).ok()?;
    let cmd = |c: lsp_types::Command| LspCommand {
        title: c.title,
        command: c.command,
        arguments: c.arguments.map(|a| a.iter().map(|x| x.to_string()).collect()),
    };
    Some(v.into_iter().map(|a| match a {
        lsp_types::CodeActionOrCommand::Command(c) => CodeActionOrCommand::Command(cmd(c)),
        lsp_types::CodeActionOrCommand::CodeAction(x) => {
            CodeActionOrCommand::Action { title: x.title, has_edit: x.edit.is_some(), command: x.command.map(cmd) }
        },
    }).collect())
}

/// `serde_json::from_str` into `Vec<lsp_types::InlayHint>`: each hint's
/// position, and its label as one piece or as the values of its parts.
#[verifier::external_body]
fn read_inlay_hints(text: &str) -> (r: Option<Vec<InlayHintParts>>)
    ensures
        r matches Some(v) ==> inlay_hints_of(text@) == Some(v@),
        r is None ==> inlay_hints_of(text@) is None,
{
    let v: Vec<lsp_types::InlayHint> = serde_json::from_str(text).ok()?;
    Some(v.into_iter().map(|h| InlayHintParts {
        position: LspPosition { line: h.position.line, character: h.position.character },
        label_parts: match h.label {
            lsp_types::InlayHintLabel::String(s) => vec![s],
            lsp_types::InlayHintLabel::LabelParts(ps) => ps.into_iter().map(|p| p.value).collect(),
        },
    }).collect())
}

/// `serde_json::from_str` into `Vec<lsp_types::DocumentHighlight>`: each
/// highlight's range, and its kind as its protocol number.
#[verifier::external_body]
fn read_highlights(text: &str) -> (r: Option<Vec<DocumentHighlightEntry>>)
    ensures
        r matches Some(v) ==> highlights_of(text@) == Some(v@),
        r is None ==> highlights_of(text@) is None,
{
    let v: Vec<lsp_types::DocumentHighlight> = serde_json::from_str(text).ok()?;
    Some(v.into_iter().map(|h| DocumentHighlightEntry {
        range: LspRange {
            start: LspPosition { line: h.range.start.line, character: h.range.start.character },
            end: LspPosition { line: h.range.end.line, character: h.range.end.character },
        },
        kind: h.kind.and_then(|k| serde_json::to_value(k).ok()?.as_i64()).map(|n| n as i32),
    }).collect())
}

/// `serde_json::from_str` into `lsp_types::Range`: the range read, field for
/// field.
#[verifier::external_body]
fn read_range(text: &str) -> (r: Option<LspRange>)
    ensures
        r == range_of(text@),
{
    let r: lsp_types::Range = serde_json::from_str(text).ok()?;
    Some(LspRange {
        start: LspPosition { line: r.start.line, character: r.start.character },
        end: LspPosition { line: r.end.line, character: r.end.character },
    })
}

/// `serde_json::from_str` into `lsp_types::PrepareRenameResponse`: the
/// variant read, with its range and placeholder moved over.
#[verifier::external_body]
fn read_prepare_rename(text: &str) -> (r: Option<PrepareRenameAnswer>)
    ensures
        r == prepare_rename_of(text@),
{
    let conv = |r: lsp_types::Range| LspRange {
        start: LspPosition { line: r.start.line, character: r.start.character },
        end: LspPosition { line: r.end.line, character: r.end.character },
    };
    Some(match serde_json::from_str(text).ok()? {
        lsp_types::PrepareRenameResponse::Range(r) => PrepareRenameAnswer::Range(conv(r)),
        lsp_types::PrepareRenameResponse::RangeWithPlaceholder { range, placeholder } => {
            PrepareRenameAnswer::RangeWithPlaceholder(conv(range), placeholder)
        },
        lsp_types::PrepareRenameResponse::DefaultBehavior { .. } => PrepareRenameAnswer::DefaultBehavior,
    })
}

/// `serde_json::from_str` into `lsp_types::WorkspaceEdit`: its `changes`,
/// each document's URI as text with its edits in order. The changes are a
/// hash map, whose order of documents nothing fixes, so only their set is
/// named; the map's keys are URIs, equal exactly when their texts are, so no
/// document comes twice.
#[verifier::external_body]
fn read_workspace_changes(text: &str) -> (r: Option<Option<Vec<(String, Vec<TextEdit>)>>>)
    ensures
        r matches Some(c) ==> workspace_changes_of(text@) == Some(changes_set(c)) && documents_distinct(c),
        r is None ==> workspace_changes_of(text@) is None,
{
    let e: lsp_types::WorkspaceEdit = serde_json::from_str(text).ok()?;
    Some(e.changes.map(|m| m.into_iter().map(|(u, es)| (u.as_str().to_string(), es.into_iter().map(|x| TextEdit {
        start_line: x.range.start.line,
        start_character: x.range.start.character,
        end_line: x.range.end.line,
        end_character: x.range.end.character,
        new_text: x.new_text,
    }).collect())).collect()))
}

/// `serde_json::from_str` into `lsp_types::PublishDiagnosticsParams`: the
/// document's URI as text, and each diagnostic's range, severity as its
/// protocol number, and message.
#[verifier::external_body]
fn read_diagnostics(text: &str) -> (r: Option<(String, Vec<DiagnosticEntry>)>)
    ensures
        r matches Some(v) ==> diagnostics_of(text@) == Some((v.0@, v.1@)),
        r is None ==> diagnostics_of(text@) is None,
{
    let p: lsp_types::PublishDiagnosticsParams = serde_json::from_str(text).ok()?;
    Some((p.uri.as_str().to_string(), p.diagnostics.into_iter().map(|d| DiagnosticEntry {
        range: LspRange {
            start: LspPosition { line: d.range.start.line, character: d.range.start.character },
            end: LspPosition { line: d.range.end.line, character: d.range.end.character },
        },
        severity: d.severity.and_then(|s| serde_json::to_value(s).ok()?.as_i64()).map(|n| n as i32),
        message: d.message,
    }).collect()))
}

/// The reading an answer of request kind `rt` gets: the readings of its kind
/// are tried in order and the first that succeeds is taken; a list of
/// definition places counts only when it is not empty, and a prepare-rename
/// answer asking for the default behavior counts as none.
pub open spec fn answer_form(json: Seq<char>, rt: RequestType) -> Option<AnswerForm> {
    match rt {
        RequestType::Initialize => if initialize_of(json) is Some { Some(AnswerForm::Initialize) } else { None },
        RequestType::Completion => if completion_items_of(json) is Some {
            Some(AnswerForm::CompletionItems)
        } else if completion_list_of(json) is Some {
            Some(AnswerForm::CompletionList)
        } else {
            None
        },
        RequestType::Hover => if hover_of(json) is Some { Some(AnswerForm::Hover) } else { None },
        RequestType::GotoDefinition => if location_of(json) is Some {
            Some(AnswerForm::DefinitionLocation)
        } else if locations_of(json) matches Some(v) && v.len() > 0 {
            Some(AnswerForm::DefinitionLocations)
        } else if link_targets_of(json) matches Some(v) && v.len() > 0 {
            Some(AnswerForm::DefinitionLinks)
        } else {
            None
        },
        RequestType::References => if locations_of(json) is Some { Some(AnswerForm::References) } else { None },
        RequestType::Format => if text_edits_of(json) is Some { Some(AnswerForm::Format) } else { None },
        RequestType::SignatureHelp => if signature_help_of(json) is Some {
            Some(AnswerForm::SignatureHelp)
        } else {
            None
        },
        RequestType::CodeAction => if code_actions_of(json) is Some { Some(AnswerForm::CodeActions) } else { None },
        RequestType::InlayHint => if inlay_hints_of(json) is Some { Some(AnswerForm::InlayHints) } else { None },
        RequestType::DocumentHighlight => if highlights_of(json) is Some {
            Some(AnswerForm::DocumentHighlights)
        } else {
            None
        },
        RequestType::PrepareRename => if range_of(json) is Some {
            Some(AnswerForm::PrepareRenameRange)
        } else if prepare_rename_of(json) matches Some(a) && !(a is DefaultBehavior) {
            Some(AnswerForm::PrepareRenameAnswer)
        } else {
            None
        },
        RequestType::Rename => if workspace_changes_of(json) is Some { Some(AnswerForm::Rename) } else { None },
    }
}

/// The JSON text of the first member of `ms` with key `key`.
pub open spec fn member_text(ms: Seq<(String, String)>, key: Seq<char>) -> Option<String>
    decreases ms.len(),
{
    if ms.len() == 0 {
        None
    } else if ms[0].0@ == key {
        Some(ms[0].1)
    } else {
        member_text(ms.drop_first(), key)
    }
}

/// A capability as a JSON value announces it: a boolean flag, or options
/// (an object); absent otherwise.
pub open spec fn provider_from(shape: Option<JsonShape>) -> Option<Provider> {
    match shape {
        Some(JsonShape::Bool(b)) => Some(Provider::Simple(b)),
        Some(JsonShape::Object(_)) => Some(Provider::Options),
        _ => None,
    }
}

/// The capability `key` of the capabilities' JSON text.
pub open spec fn capability(caps: Seq<char>, key: Seq<char>) -> Option<Provider> {
    match json_shape_of(caps) {
        Some(JsonShape::Object(ms)) => match member_text(ms@, key) {
            Some(t) => provider_from(json_shape_of(t@)),
            None => None,
        },
        _ => None,
    }
}

/// The capabilities `c` are those an initialize reading `i` announces: the
/// trigger options and rename capability as read, and each other capability
/// from its member of the capabilities' JSON text (by its protocol name).
pub open spec fn capabilities_read(
    c: ServerCaps,
    i: (Option<TriggerOptions>, Option<TriggerOptions>, Option<RenameProvider>, Seq<char>),
) -> bool {
    &&& c.completion_provider == i.0
    &&& c.signature_help_provider == i.1
    &&& c.rename_provider == i.2
    &&& c.hover_provider == capability(i.3, "hoverProvider"@)
    &&& c.definition_provider == capability(i.3, "definitionProvider"@)
    &&& c.references_provider == capability(i.3, "referencesProvider"@)
    &&& c.document_formatting_provider == capability(i.3, "documentFormattingProvider"@)
    &&& c.code_action_provider == capability(i.3, "codeActionProvider"@)
    &&& c.inlay_hint_provider == capability(i.3, "inlayHintProvider"@)
    &&& c.document_highlight_provider == capability(i.3, "documentHighlightProvider"@)
}

fn find_member(ms: &Vec<(String, String)>, key: &str) -> (r: Option<String>)
    ensures
        r == member_text(ms@, key@),
{
    let k = key.to_owned();
    let mut i: usize = 0;
    assert(ms@.subrange(0, ms@.len() as int) =~= ms@);
    while i < ms.len()
        invariant
            0 <= i <= ms@.len(),
            k@ == key@,
            member_text(ms@.subrange(i as int, ms@.len() as int), key@) == member_text(ms@, key@),
        decreases ms@.len() - i,
    {
        let ghost rest = ms@.subrange(i as int, ms@.len() as int);
        assert(rest.drop_first() =~= ms@.subrange(i + 1, ms@.len() as int));
        assert(rest[0] == ms@[i as int]);
        if ms[i].0 == k {
            return Some(ms[i].1.clone());
        }
        i += 1;
    }
    None
}

fn capability_exec(caps: &str, key: &str) -> (r: Option<Provider>)
    ensures
        r == capability(caps@, key@),
{
    match read_json(caps) {
        Some(JsonShape::Object(ms)) => match find_member(&ms, key) {
            Some(t) => match read_json(t.as_str()) {
                Some(JsonShape::Bool(b)) => Some(Provider::Simple(b)),
                Some(JsonShape::Object(_)) => Some(Provider::Options),
                _ => None,
            },
            None => None,
        },
        _ => None,
    }
}

fn read_capabilities(text: &str) -> (r: Option<ServerCaps>)
    ensures
        r matches Some(c) ==> initialize_of(text@) matches Some(i) && capabilities_read(c, i),
        r is None ==> initialize_of(text@) is None,
{
    match read_initialize(text) {
        Some((completion_provider, signature_help_provider, rename_provider, caps)) => {
            let c = caps.as_str();
            Some(ServerCaps {
                completion_provider,
                hover_provider: capability_exec(c, "hoverProvider"),
                definition_provider: capability_exec(c, "definitionProvider"),
                references_provider: capability_exec(c, "referencesProvider"),
                document_formatting_provider: capability_exec(c, "documentFormattingProvider"),
                signature_help_provider,
                code_action_provider: capability_exec(c, "codeActionProvider"),
                inlay_hint_provider: capability_exec(c, "inlayHintProvider"),
                document_highlight_provider: capability_exec(c, "documentHighlightProvider"),
                rename_provider,
            })
        },
        None => None,
    }
}

/// A range given by its four numbers.
pub open spec fn range_from_numbers(n: Option<(u32, u32, u32, u32)>) -> Option<LspRange> {
    match n {
        Some((a, b, c, d)) => Some(
            LspRange { start: LspPosition { line: a, character: b }, end: LspPosition { line: c, character: d } },
        ),
        None => None,
    }
}

/// The label parts joined into one text.
pub open spec fn joined_parts(parts: Seq<String>) -> Seq<char>
    decreases parts.len(),
{
    if parts.len() == 0 {
        Seq::empty()
    } else {
        joined_parts(parts.drop_last()) + parts.last()@
    }
}

/// The inlay hints made of the hints sent: same positions, labels joined.
pub open spec fn hints_joined(hints: Seq<InlayHintEntry>, sent: Seq<InlayHintParts>) -> bool {
    &&& hints.len() == sent.len()
    &&& forall|i: int|
        0 <= i < hints.len() ==> (#[trigger] hints[i]).position == sent[i].position && hints[i].label@
            == joined_parts(sent[i].label_parts@)
}

/// `resp` is the response that reading `json` as `form` makes.
pub open spec fn response_read(resp: LspResponse, json: Seq<char>, form: AnswerForm) -> bool {
    match form {
        AnswerForm::Initialize => resp is Initialized,
        AnswerForm::CompletionItems => resp matches LspResponse::Completion { items, is_incomplete }
            && !is_incomplete && completion_items_of(json) == Some(items@),
        AnswerForm::CompletionList => resp matches LspResponse::Completion { items, is_incomplete }
            && completion_list_of(json) == Some((is_incomplete, items@)),
        AnswerForm::Hover => resp matches LspResponse::Hover { content, range } && hover_of(json) matches Some(h)
            && content@ == hover_text(h.0) && range == range_from_numbers(h.1),
        AnswerForm::DefinitionLocation => resp matches LspResponse::Definition { locations }
            && locations@ == seq![location_of(json).unwrap()],
        AnswerForm::DefinitionLocations => resp matches LspResponse::Definition { locations }
            && locations_of(json) == Some(locations@),
        AnswerForm::DefinitionLinks => resp matches LspResponse::Definition { locations }
            && link_targets_of(json) == Some(locations@),
        AnswerForm::References => resp matches LspResponse::References { locations }
            && locations_of(json) == Some(locations@),
        AnswerForm::Format => resp matches LspResponse::Format { edits } && text_edits_of(json) == Some(edits@),
        AnswerForm::SignatureHelp => resp matches LspResponse::SignatureHelp {
            signatures,
            active_signature,
            active_parameter,
        } && signature_help_of(json) == Some((signatures@, active_signature, active_parameter)),
        AnswerForm::CodeActions => resp matches LspResponse::CodeActions { actions }
            && code_actions_of(json) == Some(actions@),
        AnswerForm::InlayHints => resp matches LspResponse::InlayHints { hints } && inlay_hints_of(json) matches Some(
            sent,
        ) && hints_joined(hints@, sent),
        AnswerForm::DocumentHighlights => resp matches LspResponse::DocumentHighlights { highlights }
            && highlights_of(json) == Some(highlights@),
        AnswerForm::PrepareRenameRange => resp matches LspResponse::PrepareRename { range, placeholder }
            && range_of(json) == Some(range) && placeholder is None,
        AnswerForm::PrepareRenameAnswer => resp matches LspResponse::PrepareRename { range, placeholder }
            && match prepare_rename_of(json) {
            Some(PrepareRenameAnswer::Range(r)) => range == r && placeholder is None,
            Some(PrepareRenameAnswer::RangeWithPlaceholder(r, p)) => range == r && placeholder == Some(p),
            _ => false,
        },
        AnswerForm::Rename => resp matches LspResponse::Rename { changes } && workspace_changes_of(json) == Some(
            changes_set(changes),
        ) && documents_distinct(changes),
    }
}

/// `a` is what reading `json` as an answer of kind `rt` gives: the first
/// reading that succeeds, the response it makes, and the capabilities of an
/// answer to `initialize` (none for any other).
pub open spec fn answer_read(a: ParsedAnswer, json: Seq<char>, rt: RequestType) -> bool {
    &&& answer_form(json, rt) == Some(a.form)
    &&& response_read(a.response, json, a.form)
    &&& if a.form is Initialize {
        a.capabilities matches Some(c) && initialize_of(json) matches Some(i) && capabilities_read(c, i)
    } else {
        a.capabilities is None
    }
}

/// Whether an answer with `result` (its JSON text, if it has one) to a
/// request of kind `request_type` is read at all.
pub open spec fn answer_expected(result: Option<String>, request_type: Option<RequestType>) -> bool {
    match (result, request_type) {
        (Some(t), Some(rt)) => !(json_shape_of(t@) matches Some(JsonShape::Null)) && answer_form(t@, rt) is Some,
        _ => false,
    }
}

fn answer(form: AnswerForm, response: LspResponse) -> (r: Option<ParsedAnswer>)
    ensures
        r == Some(ParsedAnswer { form, response, capabilities: None }),
{
    Some(ParsedAnswer { form, response, capabilities: None })
}

/// The label parts joined into one text.
pub fn join_parts(parts: &Vec<String>) -> (r: String)
    ensures
        r@ == joined_parts(parts@),
{
    let mut out = String::new();
    let mut i: usize = 0;
    while i < parts.len()
        invariant
            0 <= i <= parts@.len(),
            out@ == joined_parts(parts@.take(i as int)),
        decreases parts@.len() - i,
    {
        proof {
            assert(parts@.take(i + 1).drop_last() =~= parts@.take(i as int));
        }
        out.append(parts[i].as_str());
        i += 1;
    }
    assert(parts@.take(i as int) =~= parts@);
    out
}

fn join_hints(sent: &Vec<InlayHintParts>) -> (r: Vec<InlayHintEntry>)
    ensures
        hints_joined(r@, sent@),
{
    let mut r: Vec<InlayHintEntry> = Vec::new();
    let mut i: usize = 0;
    while i < sent.len()
        invariant
            0 <= i <= sent@.len(),
            r@.len() == i,
            forall|k: int|
                0 <= k < i ==> (#[trigger] r@[k]).position == sent@[k].position && r@[k].label@
                    == joined_parts(sent@[k].label_parts@),
        decreases sent@.len() - i,
    {
        let label = join_parts(&sent[i].label_parts);
        r.push(InlayHintEntry { position: sent[i].position, label });
        i += 1;
    }
    r
}

fn read_definition(text: &str) -> (r: Option<ParsedAnswer>)
    ensures
        match answer_form(text@, RequestType::GotoDefinition) {
            Some(f) => r matches Some(a) && answer_read(a, text@, RequestType::GotoDefinition),
            None => r is None,
        },
{
    match read_location(text) {
        Some(l) => {
            let mut locations = Vec::new();
            locations.push(l);
            proof {
                assert(locations@ =~= seq![location_of(text@).unwrap()]);
            }
            return answer(AnswerForm::DefinitionLocation, LspResponse::Definition { locations });
        },
        None => {},
    }
    match read_locations(text) {
        Some(v) => if v.len() > 0 {
            return answer(AnswerForm::DefinitionLocations, LspResponse::Definition { locations: v });
        },
        None => {},
    }
    match read_location_links(text) {
        Some(v) => if v.len() > 0 {
            return answer(AnswerForm::DefinitionLinks, LspResponse::Definition { locations: v });
        },
        None => {},
    }
    None
}

fn read_prepare_rename_answer(text: &str) -> (r: Option<ParsedAnswer>)
    ensures
        match answer_form(text@, RequestType::PrepareRename) {
            Some(f) => r matches Some(a) && answer_read(a, text@, RequestType::PrepareRename),
            None => r is None,
        },
{
    match read_range(text) {
        Some(range) => {
            return answer(AnswerForm::PrepareRenameRange, LspResponse::PrepareRename { range, placeholder: None });
        },
        None => {},
    }
    match read_prepare_rename(text) {
        Some(PrepareRenameAnswer::Range(range)) => {
            answer(AnswerForm::PrepareRenameAnswer, LspResponse::PrepareRename { range, placeholder: None })
        },
        Some(PrepareRenameAnswer::RangeWithPlaceholder(range, placeholder)) => answer(
            AnswerForm::PrepareRenameAnswer,
            LspResponse::PrepareRename { range, placeholder: Some(placeholder) },
        ),
        _ => None,
    }
}

fn read_completion(text: &str) -> (r: Option<ParsedAnswer>)
    ensures
        match answer_form(text@, RequestType::Completion) {
            Some(f) => r matches Some(a) && answer_read(a, text@, RequestType::Completion),
            None => r is None,
        },
{
    match read_completion_items(text) {
        Some(items) => {
            return answer(AnswerForm::CompletionItems, LspResponse::Completion { items, is_incomplete: false });
        },
        None => {},
    }
    match read_completion_list(text) {
        Some((is_incomplete, items)) => answer(
            AnswerForm::CompletionList,
            LspResponse::Completion { items, is_incomplete },
        ),
        None => None,
    }
}

/// Read the answer of a request of kind `request_type`, given the JSON text
/// of its result: nothing for a missing or `null` result or an unknown
/// request; else the first of the kind's readings that succeeds, with the
/// response it makes and, for `initialize`, the capabilities announced.
pub fn parse_response(result: Option<String>, request_type: Option<RequestType>) -> (r: Option<ParsedAnswer>)
    ensures
        r is Some <==> answer_expected(result, request_type),
        r matches Some(a) ==> answer_read(a, result.unwrap()@, request_type.unwrap()),
{
    let text = match result {
        Some(t) => t,
        None => return None,
    };
    let rt = match request_type {
        Some(rt) => rt,
        None => return None,
    };
    let text = text.as_str();
    match read_json(text) {
        Some(JsonShape::Null) => {
            return None;
        },
        _ => {},
    }
    match rt {
        RequestType::Initialize => match read_capabilities(text) {
            Some(caps) => Some(
                ParsedAnswer { form: AnswerForm::Initialize, response: LspResponse::Initialized, capabilities: Some(caps) },
            ),
            None => None,
        },
        RequestType::Completion => read_completion(text),
        RequestType::Hover => match read_hover(text) {
            Some((contents, numbers)) => {
                let content = extract_hover_content(&contents);
                let range = match numbers {
                    Some((a, b, c, d)) => Some(
                        LspRange { start: LspPosition { line: a, character: b }, end: LspPosition { line: c, character: d } },
                    ),
                    None => None,
                };
                answer(AnswerForm::Hover, LspResponse::Hover { content, range })
            },
            None => None,
        },
        RequestType::GotoDefinition => read_definition(text),
        RequestType::References => match read_locations(text) {
            Some(locations) => answer(AnswerForm::References, LspResponse::References { locations }),
            None => None,
        },
        RequestType::Format => match read_text_edits(text) {
            Some(edits) => answer(AnswerForm::Format, LspResponse::Format { edits }),
            None => None,
        },
        RequestType::SignatureHelp => match read_signature_help(text) {
            Some((signatures, active_signature, active_parameter)) => answer(
                AnswerForm::SignatureHelp,
                LspResponse::SignatureHelp { signatures, active_signature, active_parameter },
            ),
            None => None,
        },
        RequestType::CodeAction => match read_code_actions(text) {
            Some(actions) => answer(AnswerForm::CodeActions, LspResponse::CodeActions { actions }),
            None => None,
        },
        RequestType::InlayHint => match read_inlay_hints(text) {
            Some(sent) => {
                let hints = join_hints(&sent);
                answer(AnswerForm::InlayHints, LspResponse::InlayHints { hints })
            },
            None => None,
        },
        RequestType::DocumentHighlight => match read_highlights(text) {
            Some(highlights) => answer(AnswerForm::DocumentHighlights, LspResponse::DocumentHighlights { highlights }),
            None => None,
        },
        RequestType::PrepareRename => read_prepare_rename_answer(text),
        RequestType::Rename => match read_workspace_changes(text) {
            Some(changes) => answer(AnswerForm::Rename, LspResponse::Rename { changes }),
            None => None,
        },
    }
}

/// The method of the notification that publishes diagnostics.
pub open spec fn publish_diagnostics_method() -> Seq<char> {
    "textDocument/publishDiagnostics"@
}

/// Read a notification of the server, given its method and the JSON text of
/// its parameters: published diagnostics make a response, with the
/// document's URI and its diagnostics; any other notification, or
/// parameters that do not read, make none.
pub fn parse_notification(method: &str, params: Option<String>) -> (r: Option<LspResponse>)
    ensures
        r is Some <==> (method@ == publish_diagnostics_method() && (params matches Some(p) && diagnostics_of(
            p@,
        ) is Some)),
        r matches Some(resp) ==> resp matches LspResponse::Diagnostics { uri, diagnostics } && diagnostics_of(
            params.unwrap()@,
        ) == Some((uri@, diagnostics@)),
{
    let expected = "textDocument/publishDiagnostics".to_owned();
    let given = method.to_owned();
    if !(given == expected) {
        return None;
    }
    match params {
        Some(p) => match read_diagnostics(p.as_str()) {
            Some((uri, diagnostics)) => Some(LspResponse::Diagnostics { uri, diagnostics }),
            None => None,
        },
        None => None,
    }
}

} // verus!
