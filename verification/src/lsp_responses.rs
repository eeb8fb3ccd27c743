//! What the editor does with the language server's answers: each answer
//! updates the state of the popup it feeds, moves the cursor or edits the
//! text, and may ask the host for something only it can do (open another
//! file, show a list of places, replace the diagnostic markers).

use vstd::prelude::*;
use vstd::utf8::encode_utf8;
use crate::text::{line_count, rope_chars, rope_len_lines, TextViewState};
use crate::types::CursorState;
use crate::editor::marked_for_refresh;
use crate::lsp_edits::{
    apply_text_edit_seq, apply_text_edits, position_index, position_to_index, sort_last_first, TextEdit,
};
use crate::lsp_state::{InlayHintEntry, InlayHintState, LspRange, RenameState, rename_cleared};
use crate::completion::{CompletionEntry, CompletionState, LspSyncState};
use crate::timer::DelayTimer;

verus! {

/// State of the hover popup.
pub struct HoverState {
    /// Whether the popup shows.
    pub visible: bool,
    /// What it shows.
    pub content: String,
    /// The char the pointer rests on.
    pub trigger_char_index: usize,
    /// The char a hover request was sent for, until its answer comes.
    pub pending_char_index: Option<usize>,
    /// The hover delay, running since the pointer came to rest on
    /// `trigger_char_index`.
    pub timer: Option<DelayTimer>,
    /// The range the shown content is about.
    pub range: Option<LspRange>,
    /// Whether the request for `trigger_char_index` went out.
    pub request_sent: bool,
}

/// The hover popup is hidden and holds nothing; only the char under the
/// pointer is kept.
pub open spec fn hover_cleared(new: HoverState, old: HoverState) -> bool {
    &&& !new.visible
    &&& new.content@.len() == 0
    &&& new.timer is None
    &&& new.range is None
    &&& !new.request_sent
    &&& new.pending_char_index is None
    &&& new.trigger_char_index == old.trigger_char_index
}

impl HoverState {
    /// A hidden popup with nothing pending.
    pub fn new() -> (r: Self)
        ensures
            !r.visible,
            r.content@.len() == 0,
            r.trigger_char_index == 0,
            r.pending_char_index is None,
            r.timer is None,
            r.range is None,
            !r.request_sent,
    {
        HoverState {
            visible: false,
            content: String::new(),
            trigger_char_index: 0,
            pending_char_index: None,
            timer: None,
            range: None,
            request_sent: false,
        }
    }

    /// Hide the popup and forget the pending request and its delay.
    pub fn reset(&mut self)
        ensures
            hover_cleared(*final(self), *old(self)),
    {
        self.visible = false;
        self.content = String::new();
        self.timer = None;
        self.range = None;
        self.request_sent = false;
        self.pending_char_index = None;
    }
}

/// Hide the hover popup and forget the pending request and its delay.
pub fn reset_hover_state(hover_state: &mut HoverState)
    ensures
        hover_cleared(*final(hover_state), *old(hover_state)),
{
    hover_state.reset();
}

/// How a parameter is marked in its signature's label: by its own text, or
/// by a range of the label.
pub enum ParameterLabel {
    Simple(String),
    Offsets(u32, u32),
}

/// A signature the server offers for the call being typed.
pub struct SignatureInfo {
    pub label: String,
    pub documentation: Option<String>,
    /// How its parameters are marked in the label.
    pub parameters: Vec<ParameterLabel>,
    /// The parameter this signature marks as active, if it says.
    pub active_parameter: Option<u32>,
}

/// State of the signature help popup.
pub struct SignatureHelpState {
    pub visible: bool,
    pub signatures: Vec<SignatureInfo>,
    /// Index of the signature shown.
    pub active_signature: usize,
    /// Index of the parameter being typed.
    pub active_parameter: usize,
    /// The char where signature help was asked for.
    pub trigger_position: usize,
}

impl SignatureHelpState {
    /// A hidden popup with no signatures.
    pub fn new() -> (r: Self)
        ensures
            !r.visible,
            r.signatures@.len() == 0,
            r.active_signature == 0,
            r.active_parameter == 0,
            r.trigger_position == 0,
    {
        SignatureHelpState {
            visible: false,
            signatures: Vec::new(),
            active_signature: 0,
            active_parameter: 0,
            trigger_position: 0,
        }
    }

    /// The signature shown, if its index is that of one.
    pub fn current_signature(&self) -> (r: Option<&SignatureInfo>)
        ensures
            self.active_signature < self.signatures@.len() ==> r == Some(&self.signatures@[self.active_signature as int]),
            self.active_signature >= self.signatures@.len() ==> r is None,
    {
        if self.active_signature < self.signatures.len() {
            Some(&self.signatures[self.active_signature])
        } else {
            None
        }
    }

    /// Hide the popup and drop the signatures.
    pub fn reset(&mut self)
        ensures
            !final(self).visible,
            final(self).signatures@.len() == 0,
            final(self).active_signature == 0,
            final(self).active_parameter == 0,
            final(self).trigger_position == old(self).trigger_position,
    {
        self.visible = false;
        self.signatures.clear();
        self.active_signature = 0;
        self.active_parameter = 0;
    }
}

/// A command of the server, with its arguments as JSON text.
pub struct LspCommand {
    pub title: String,
    pub command: String,
    pub arguments: Option<Vec<String>>,
}

/// A code action, or a bare command, the server offers.
pub enum CodeActionOrCommand {
    /// An action: its title, whether it carries a workspace edit, and the
    /// command it runs, if any.
    Action { title: String, has_edit: bool, command: Option<LspCommand> },
    Command(LspCommand),
}

/// State of the code action menu.
pub struct CodeActionState {
    pub visible: bool,
    pub actions: Vec<CodeActionOrCommand>,
    pub selected_index: usize,
    /// The range the actions were asked for.
    pub range: Option<LspRange>,
}

impl CodeActionState {
    /// A hidden, empty menu.
    pub fn new() -> (r: Self)
        ensures
            !r.visible,
            r.actions@.len() == 0,
            r.selected_index == 0,
            r.range is None,
    {
        CodeActionState { visible: false, actions: Vec::new(), selected_index: 0, range: None }
    }

    /// Hide the menu and drop its actions.
    pub fn reset(&mut self)
        ensures
            !final(self).visible,
            final(self).actions@.len() == 0,
            final(self).selected_index == 0,
            final(self).range is None,
    {
        self.visible = false;
        self.actions.clear();
        self.selected_index = 0;
        self.range = None;
    }
}

/// One occurrence of the symbol under the cursor, with its kind as the
/// protocol numbers it (text, read, write).
pub struct DocumentHighlightEntry {
    pub range: LspRange,
    pub kind: Option<i32>,
}

/// State of the highlights of the symbol under the cursor.
pub struct DocumentHighlightState {
    pub highlights: Vec<DocumentHighlightEntry>,
    /// The cursor position the highlights were asked for.
    pub cursor_position: usize,
    pub visible: bool,
    /// The debounce, running since the cursor came to rest.
    pub debounce_timer: Option<DelayTimer>,
}

impl DocumentHighlightState {
    /// No highlights, nothing pending.
    pub fn new() -> (r: Self)
        ensures
            r.highlights@.len() == 0,
            r.cursor_position == 0,
            !r.visible,
            r.debounce_timer is None,
    {
        DocumentHighlightState {
            highlights: Vec::new(),
            cursor_position: 0,
            visible: false,
            debounce_timer: None,
        }
    }

    /// Drop the highlights and the debounce.
    pub fn reset(&mut self)
        ensures
            final(self).highlights@.len() == 0,
            !final(self).visible,
            final(self).debounce_timer is None,
            final(self).cursor_position == old(self).cursor_position,
    {
        self.highlights.clear();
        self.visible = false;
        self.debounce_timer = None;
    }

    /// Drop the highlights; a running debounce goes on.
    pub fn clear_highlights(&mut self)
        ensures
            final(self).highlights@.len() == 0,
            !final(self).visible,
            final(self).debounce_timer == old(self).debounce_timer,
            final(self).cursor_position == old(self).cursor_position,
    {
        self.highlights.clear();
        self.visible = false;
    }
}

/// A place in a document of the server.
pub struct LspLocation {
    pub uri: String,
    pub range: LspRange,
}

/// What a list of places was asked for.
#[derive(Clone, Copy, Debug, PartialEq, Eq, Structural)]
pub enum LocationType {
    Definition,
    References,
}

/// A diagnostic the server published: its range, its severity as the
/// protocol numbers it (1 error to 4 hint), and its message.
pub struct DiagnosticEntry {
    pub range: LspRange,
    pub severity: Option<i32>,
    pub message: String,
}

/// A diagnostic as the editor marks it: on the line its range starts on,
/// with a severity (a hint when the server gave none).
pub struct DiagnosticMarker {
    pub line: u32,
    pub severity: i32,
    pub message: String,
    pub range: LspRange,
}

/// The severity number of a hint.
pub const SEVERITY_HINT: i32 = 4;

/// The marker of diagnostic `d`.
pub open spec fn marker_of(d: DiagnosticEntry) -> DiagnosticMarker {
    DiagnosticMarker {
        line: d.range.start.line,
        severity: match d.severity {
            Some(s) => s,
            None => SEVERITY_HINT,
        },
        message: d.message,
        range: d.range,
    }
}

/// The markers of published diagnostics, one each, in order.
pub fn diagnostic_markers(diagnostics: &Vec<DiagnosticEntry>) -> (r: Vec<DiagnosticMarker>)
    ensures
        r@ == diagnostics@.map_values(|d: DiagnosticEntry| marker_of(d)),
{
    let mut r: Vec<DiagnosticMarker> = Vec::new();
    let mut i: usize = 0;
    while i < diagnostics.len()
        invariant
            0 <= i <= diagnostics@.len(),
            r@ == diagnostics@.take(i as int).map_values(|d: DiagnosticEntry| marker_of(d)),
        decreases diagnostics@.len() - i,
    {
        let d = &diagnostics[i];
        let severity = match d.severity {
            Some(s) => s,
            None => SEVERITY_HINT,
        };
        r.push(DiagnosticMarker { line: d.range.start.line, severity, message: d.message.clone(), range: d.range });
        proof {
            assert(diagnostics@.take(i + 1).map_values(|d: DiagnosticEntry| marker_of(d)) =~= diagnostics@.take(
                i as int,
            ).map_values(|d: DiagnosticEntry| marker_of(d)).push(marker_of(diagnostics@[i as int])));
        }
        i += 1;
    }
    assert(diagnostics@.take(i as int) =~= diagnostics@);
    r
}

/// The changes of a workspace edit, taken by their views.
pub open spec fn changes_view(c: Option<Vec<(String, Vec<TextEdit>)>>) -> Option<Seq<(Seq<char>, Seq<TextEdit>)>> {
    match c {
        Some(v) => Some(v@.map_values(|p: (String, Vec<TextEdit>)| (p.0@, p.1@))),
        None => None,
    }
}

fn copy_edits(v: &Vec<TextEdit>) -> (r: Vec<TextEdit>)
    ensures
        r@ == v@,
{
    let mut r: Vec<TextEdit> = Vec::new();
    let mut i: usize = 0;
    while i < v.len()
        invariant
            0 <= i <= v@.len(),
            r@ == v@.take(i as int),
        decreases v@.len() - i,
    {
        r.push(v[i].clone());
        i += 1;
        assert(r@ =~= v@.take(i as int));
    }
    assert(v@.take(i as int) =~= v@);
    r
}

fn copy_changes(c: &Option<Vec<(String, Vec<TextEdit>)>>) -> (r: Option<Vec<(String, Vec<TextEdit>)>>)
    ensures
        changes_view(r) == changes_view(*c),
{
    match c {
        None => None,
        Some(v) => {
            let mut r: Vec<(String, Vec<TextEdit>)> = Vec::new();
            let mut i: usize = 0;
            while i < v.len()
                invariant
                    0 <= i <= v@.len(),
                    r@.len() == i,
                    forall|k: int| 0 <= k < i ==> (#[trigger] r@[k]).0@ == v@[k].0@ && r@[k].1@ == v@[k].1@,
                decreases v@.len() - i,
            {
                let u = v[i].0.clone();
                let es = copy_edits(&v[i].1);
                r.push((u, es));
                i += 1;
            }
            assert(r@.map_values(|p: (String, Vec<TextEdit>)| (p.0@, p.1@)) =~= v@.map_values(
                |p: (String, Vec<TextEdit>)| (p.0@, p.1@),
            ));
            Some(r)
        },
    }
}

/// An answer of the server, with what the editor reads of it.
pub enum LspResponse {
    /// The server finished starting.
    Initialized,
    /// New diagnostics for document `uri`.
    Diagnostics { uri: String, diagnostics: Vec<DiagnosticEntry> },
    Completion { items: Vec<CompletionEntry>, is_incomplete: bool },
    Hover { content: String, range: Option<LspRange> },
    Definition { locations: Vec<LspLocation> },
    References { locations: Vec<LspLocation> },
    Format { edits: Vec<TextEdit> },
    SignatureHelp { signatures: Vec<SignatureInfo>, active_signature: Option<u32>, active_parameter: Option<u32> },
    CodeActions { actions: Vec<CodeActionOrCommand> },
    InlayHints { hints: Vec<InlayHintEntry> },
    DocumentHighlights { highlights: Vec<DocumentHighlightEntry> },
    PrepareRename { range: LspRange, placeholder: Option<String> },
    /// A workspace edit: for each document it changes, its URI and edits.
    Rename { changes: Option<Vec<(String, Vec<TextEdit>)>> },
}

/// What an answer asks of the host.
pub enum ResponseEffect {
    /// Note that the server is ready.
    MarkInitialized,
    /// Replace the diagnostic markers of document `uri` by these.
    ReplaceDiagnostics { uri: String, markers: Vec<DiagnosticMarker> },
    /// Let the user choose among several places.
    MultipleLocations { locations: Vec<LspLocation>, location_type: LocationType },
    /// Open another document at a position.
    NavigateToFile { uri: String, line: u32, character: u32 },
    /// Hand the answer's workspace changes on, for the documents they change.
    WorkspaceEdit { changes: Option<Vec<(String, Vec<TextEdit>)>> },
}

/// The edits of the first entry of `changes` for the document `uri`.
pub open spec fn edits_for(changes: Seq<(String, Vec<TextEdit>)>, uri: Seq<char>) -> Option<Seq<TextEdit>>
    decreases changes.len(),
{
    if changes.len() == 0 {
        None
    } else if changes[0].0@ == uri {
        Some(changes[0].1@)
    } else {
        edits_for(changes.drop_first(), uri)
    }
}

/// The edits a workspace edit makes to the open document, if any.
pub open spec fn document_edits(changes: Option<Vec<(String, Vec<TextEdit>)>>, sync: LspSyncState) -> Option<
    Seq<TextEdit>,
> {
    match (changes, sync.document_uri) {
        (Some(cs), Some(u)) => edits_for(cs@, u@),
        _ => None,
    }
}

/// The first place is in the open document.
pub open spec fn in_open_document(loc: LspLocation, sync: LspSyncState) -> bool {
    sync.document_uri matches Some(u) && u@ == loc.uri@
}

/// What a definition answer does to the text view and cursor, and asks of
/// the host: nothing when it has no place; a list to choose from when it has
/// several; the cursor goes to the first place when it is in this document
/// on an existing line (clamped to the text), and another document opens
/// there when it is elsewhere.
pub open spec fn definition_followed(
    locations: Seq<LspLocation>,
    sync: LspSyncState,
    ot: TextViewState,
    nt: TextViewState,
    oc: CursorState,
    nc: CursorState,
    effects: Seq<ResponseEffect>,
) -> bool {
    let s = rope_chars(ot.rope);
    if locations.len() == 0 {
        nt == ot && nc == oc && effects.len() == 0
    } else {
        let first = locations[0];
        let here = in_open_document(first, sync);
        &&& effects.len() == (if locations.len() > 1 { 1int } else { 0int }) + (if here { 0int } else { 1int })
        &&& locations.len() > 1 ==> (effects[0] matches ResponseEffect::MultipleLocations { locations: l, location_type: t }
            && l@ == locations && t == LocationType::Definition)
        &&& if here {
            if first.range.start.line < line_count(s) {
                &&& nt.rope == ot.rope
                &&& nc.cursors == oc.cursors
                &&& nc.cursor_pos == position_index(s, first.range.start.line, first.range.start.character)
                &&& nt.needs_update
                &&& nt.pending_update == ot.pending_update
                &&& nt.content_version == ot.content_version
                &&& nt.dirty_lines == ot.dirty_lines
                &&& nt.previous_line_count == ot.previous_line_count
            } else {
                nt == ot && nc == oc
            }
        } else {
            &&& nt == ot
            &&& nc == oc
            &&& effects.last() matches ResponseEffect::NavigateToFile { uri, line, character }
            &&& uri@ == first.uri@
            &&& line == first.range.start.line
            &&& character == first.range.start.character
        }
    }
}

/// Follow a definition answer (see `definition_followed`).
pub fn follow_definition(
    locations: Vec<LspLocation>,
    sync: &LspSyncState,
    tv: &mut TextViewState,
    cursor: &mut CursorState,
) -> (effects: Vec<ResponseEffect>)
    ensures
        definition_followed(locations@, *sync, *old(tv), *final(tv), *old(cursor), *final(cursor), effects@),
{
    let mut effects: Vec<ResponseEffect> = Vec::new();
    if locations.len() == 0 {
        return effects;
    }
    let ghost locs = locations@;
    let first_uri = locations[0].uri.clone();
    let first_range = locations[0].range;
    let here = match &sync.document_uri {
        Some(u) => *u == first_uri,
        None => false,
    };
    if locations.len() > 1 {
        effects.push(ResponseEffect::MultipleLocations { locations, location_type: LocationType::Definition });
    }
    if here {
        let line = first_range.start.line;
        if (line as usize) < rope_len_lines(&tv.rope) {
            let target = position_to_index(&tv.rope, line, first_range.start.character);
            cursor.cursor_pos = target;
            tv.needs_update = true;
        }
    } else {
        effects.push(ResponseEffect::NavigateToFile {
            uri: first_uri,
            line: first_range.start.line,
            character: first_range.start.character,
        });
    }
    proof {
        assert(locs.len() > 1 ==> (effects@[0] matches ResponseEffect::MultipleLocations { locations: l, location_type: t }
            && l@ == locs && t == LocationType::Definition));
    }
    effects
}

/// Index of the first entry of `changes` for the document `uri`.
fn find_document_edits(changes: &Vec<(String, Vec<TextEdit>)>, uri: &String) -> (r: Option<usize>)
    ensures
        match r {
            Some(i) => i < changes@.len() && edits_for(changes@, uri@) == Some(changes@[i as int].1@),
            None => edits_for(changes@, uri@) is None,
        },
{
    let mut i: usize = 0;
    assert(changes@.skip(0) =~= changes@);
    while i < changes.len()
        invariant
            i <= changes@.len(),
            edits_for(changes@, uri@) == edits_for(changes@.skip(i as int), uri@),
        decreases changes@.len() - i,
    {
        proof {
            assert(changes@.skip(i as int)[0] == changes@[i as int]);
            assert(changes@.skip(i as int).drop_first() =~= changes@.skip(i + 1));
        }
        if changes[i].0 == *uri {
            return Some(i);
        }
        i += 1;
    }
    proof {
        assert(changes@.skip(i as int).len() == 0);
    }
    None
}

/// What the text view does on a workspace edit: the edits it makes to the
/// open document are applied and the display refreshed; otherwise nothing.
pub open spec fn workspace_edit_applied(
    changes: Option<Vec<(String, Vec<TextEdit>)>>,
    sync: LspSyncState,
    ot: TextViewState,
    nt: TextViewState,
) -> bool {
    match document_edits(changes, sync) {
        Some(es) => {
            &&& rope_chars(nt.rope) == apply_text_edit_seq(rope_chars(ot.rope), sort_last_first(es))
            &&& marked_for_refresh(nt, ot)
        },
        None => nt == ot,
    }
}

/// Apply the edits a workspace edit makes to the open document.
pub fn apply_workspace_edit(changes: Option<Vec<(String, Vec<TextEdit>)>>, sync: &LspSyncState, tv: &mut TextViewState)
    ensures
        workspace_edit_applied(changes, *sync, *old(tv), *final(tv)),
{
    match changes {
        Some(cs) => match &sync.document_uri {
            Some(u) => {
                match find_document_edits(&cs, u) {
                    Some(i) => {
                        let mut cs = cs;
                        let (_, edits) = cs.remove(i);
                        apply_text_edits(tv, edits);
                    },
                    None => {},
                }
            },
            None => {},
        },
        None => {},
    }
}

/// What a hover answer does: it shows, unless empty, when it answers the
/// request for the char the pointer still rests on; the request is no
/// longer pending either way.
pub open spec fn hover_answered(content: Seq<char>, range: Option<LspRange>, oh: HoverState, nh: HoverState) -> bool {
    let shows = content.len() > 0 && oh.pending_char_index == Some(oh.trigger_char_index);
    &&& nh.pending_char_index is None
    &&& nh.trigger_char_index == oh.trigger_char_index
    &&& nh.timer == oh.timer
    &&& nh.request_sent == oh.request_sent
    &&& if shows {
        nh.content@ == content && nh.range == range && nh.visible
    } else {
        nh.content@ == oh.content@ && nh.range == oh.range && nh.visible == oh.visible
    }
}

impl HoverState {
    /// Take a hover answer (see `hover_answered`).
    pub fn on_hover_response(&mut self, content: String, range: Option<LspRange>)
        ensures
            hover_answered(content@, range, *old(self), *final(self)),
    {
        if content.unicode_len() > 0 {
            if let Some(pending) = self.pending_char_index {
                if pending == self.trigger_char_index {
                    self.content = content;
                    self.range = range;
                    self.visible = true;
                }
            }
        }
        self.pending_char_index = None;
    }
}

/// The completion list after an answer: its items, shown unless empty, the
/// first selected; the word completions, scroll, start and filter stay.
pub open spec fn completion_answered(
    items: Seq<CompletionEntry>,
    is_incomplete: bool,
    oc: CompletionState,
    nc: CompletionState,
) -> bool {
    &&& nc.items@ == items
    &&& nc.is_incomplete == is_incomplete
    &&& nc.visible == (items.len() > 0)
    &&& nc.selected_index == 0
    &&& nc.word_items@ == oc.word_items@
    &&& nc.scroll_offset == oc.scroll_offset
    &&& nc.start_char_index == oc.start_char_index
    &&& nc.filter@ == oc.filter@
}

/// Signature help after an answer: its signatures, shown unless empty, with
/// the active signature and parameter it names (the first when it names
/// none).
pub open spec fn signatures_answered(
    signatures: Seq<SignatureInfo>,
    active_signature: Option<u32>,
    active_parameter: Option<u32>,
    os: SignatureHelpState,
    ns: SignatureHelpState,
) -> bool {
    &&& ns.signatures@ == signatures
    &&& ns.active_signature == (match active_signature { Some(a) => a as usize, None => 0usize })
    &&& ns.active_parameter == (match active_parameter { Some(a) => a as usize, None => 0usize })
    &&& ns.visible == (signatures.len() > 0)
    &&& ns.trigger_position == os.trigger_position
}

/// What one answer of the server does to the editor's states, and what it
/// asks of the host.
pub open spec fn response_handled(
    resp: LspResponse,
    sync: LspSyncState,
    oc: CompletionState,
    nc: CompletionState,
    oh: HoverState,
    nh: HoverState,
    os: SignatureHelpState,
    ns: SignatureHelpState,
    oa: CodeActionState,
    na: CodeActionState,
    oi: InlayHintState,
    ni: InlayHintState,
    od: DocumentHighlightState,
    nd: DocumentHighlightState,
    orn: RenameState,
    nrn: RenameState,
    ot: TextViewState,
    nt: TextViewState,
    ocur: CursorState,
    ncur: CursorState,
    effects: Seq<ResponseEffect>,
) -> bool {
    let popups_kept = nc == oc && nh == oh && ns == os && na == oa && ni == oi && nd == od && nrn == orn;
    match resp {
        LspResponse::Initialized => {
            &&& popups_kept && nt == ot && ncur == ocur
            &&& effects.len() == 1 && effects[0] is MarkInitialized
        },
        LspResponse::Diagnostics { uri, diagnostics } => {
            &&& popups_kept && nt == ot && ncur == ocur
            &&& effects.len() == 1
            &&& effects[0] matches ResponseEffect::ReplaceDiagnostics { uri: u, markers }
            &&& u == uri
            &&& markers@ == diagnostics@.map_values(|d: DiagnosticEntry| marker_of(d))
        },
        LspResponse::Completion { items, is_incomplete } => {
            &&& completion_answered(items@, is_incomplete, oc, nc)
            &&& nh == oh && ns == os && na == oa && ni == oi && nd == od && nrn == orn
            &&& nt == ot && ncur == ocur && effects.len() == 0
        },
        LspResponse::Hover { content, range } => {
            &&& hover_answered(content@, range, oh, nh)
            &&& nc == oc && ns == os && na == oa && ni == oi && nd == od && nrn == orn
            &&& nt == ot && ncur == ocur && effects.len() == 0
        },
        LspResponse::Definition { locations } => {
            &&& popups_kept
            &&& definition_followed(locations@, sync, ot, nt, ocur, ncur, effects)
        },
        LspResponse::References { locations } => {
            &&& popups_kept && nt == ot && ncur == ocur
            &&& if locations@.len() > 0 {
                &&& effects.len() == 1
                &&& effects[0] matches ResponseEffect::MultipleLocations { locations: l, location_type: t }
                &&& l@ == locations@
                &&& t == LocationType::References
            } else {
                effects.len() == 0
            }
        },
        LspResponse::Format { edits } => {
            &&& popups_kept && ncur == ocur && effects.len() == 0
            &&& rope_chars(nt.rope) == apply_text_edit_seq(rope_chars(ot.rope), sort_last_first(edits@))
            &&& marked_for_refresh(nt, ot)
        },
        LspResponse::SignatureHelp { signatures, active_signature, active_parameter } => {
            &&& signatures_answered(signatures@, active_signature, active_parameter, os, ns)
            &&& nc == oc && nh == oh && na == oa && ni == oi && nd == od && nrn == orn
            &&& nt == ot && ncur == ocur && effects.len() == 0
        },
        LspResponse::CodeActions { actions } => {
            &&& na.actions@ == actions@ && na.visible == (actions@.len() > 0) && na.selected_index == 0
            &&& na.range == oa.range
            &&& nc == oc && nh == oh && ns == os && ni == oi && nd == od && nrn == orn
            &&& nt == ot && ncur == ocur && effects.len() == 0
        },
        LspResponse::InlayHints { hints } => {
            &&& ni.hints@ == hints@ && !ni.needs_refresh && ni.cached_range == oi.cached_range
            &&& nc == oc && nh == oh && ns == os && na == oa && nd == od && nrn == orn
            &&& nt == ot && ncur == ocur && effects.len() == 0
        },
        LspResponse::DocumentHighlights { highlights } => {
            &&& nd.highlights@ == highlights@ && nd.visible == (highlights@.len() > 0)
            &&& nd.cursor_position == od.cursor_position && nd.debounce_timer == od.debounce_timer
            &&& nc == oc && nh == oh && ns == os && na == oa && ni == oi && nrn == orn
            &&& nt == ot && ncur == ocur && effects.len() == 0
        },
        LspResponse::PrepareRename { range, placeholder } => {
            &&& !nrn.preparing && nrn.range == Some(range) && nrn.visible
            &&& nrn.original_text@ == (match placeholder {
                Some(p) => p@,
                None => Seq::<char>::empty(),
            })
            &&& nrn.new_name@ == nrn.original_text@
            &&& nrn.position == orn.position && nrn.error == orn.error
            &&& nc == oc && nh == oh && ns == os && na == oa && ni == oi && nd == od
            &&& nt == ot && ncur == ocur && effects.len() == 0
        },
        LspResponse::Rename { changes } => {
            &&& workspace_edit_applied(changes, sync, ot, nt)
            &&& rename_cleared(nrn)
            &&& nc == oc && nh == oh && ns == os && na == oa && ni == oi && nd == od
            &&& ncur == ocur
            &&& effects.len() == 1
            &&& effects[0] matches ResponseEffect::WorkspaceEdit { changes: c }
            &&& changes_view(c) == changes_view(changes)
        },
    }
}

/// Take one answer of the server (see `response_handled`).
pub fn process_response(
    response: LspResponse,
    sync: &LspSyncState,
    completion: &mut CompletionState,
    hover: &mut HoverState,
    signature_help: &mut SignatureHelpState,
    code_actions: &mut CodeActionState,
    inlay_hints: &mut InlayHintState,
    highlights: &mut DocumentHighlightState,
    rename: &mut RenameState,
    tv: &mut TextViewState,
    cursor: &mut CursorState,
) -> (effects: Vec<ResponseEffect>)
    ensures
        response_handled(
            response,
            *sync,
            *old(completion),
            *final(completion),
            *old(hover),
            *final(hover),
            *old(signature_help),
            *final(signature_help),
            *old(code_actions),
            *final(code_actions),
            *old(inlay_hints),
            *final(inlay_hints),
            *old(highlights),
            *final(highlights),
            *old(rename),
            *final(rename),
            *old(tv),
            *final(tv),
            *old(cursor),
            *final(cursor),
            effects@,
        ),
{
    let mut effects: Vec<ResponseEffect> = Vec::new();
    match response {
        LspResponse::Initialized => {
            effects.push(ResponseEffect::MarkInitialized);
        },
        LspResponse::Diagnostics { uri, diagnostics } => {
            let markers = diagnostic_markers(&diagnostics);
            effects.push(ResponseEffect::ReplaceDiagnostics { uri, markers });
        },
        LspResponse::Completion { items, is_incomplete } => {
            let visible = items.len() > 0;
            completion.items = items;
            completion.is_incomplete = is_incomplete;
            completion.visible = visible;
            completion.selected_index = 0;
        },
        LspResponse::Hover { content, range } => {
            hover.on_hover_response(content, range);
        },
        LspResponse::Definition { locations } => {
            effects = follow_definition(locations, sync, tv, cursor);
        },
        LspResponse::References { locations } => {
            if locations.len() > 0 {
                effects.push(ResponseEffect::MultipleLocations { locations, location_type: LocationType::References });
            }
        },
        LspResponse::Format { edits } => {
            apply_text_edits(tv, edits);
        },
        LspResponse::SignatureHelp { signatures, active_signature, active_parameter } => {
            let visible = signatures.len() > 0;
            signature_help.signatures = signatures;
            signature_help.active_signature = match active_signature {
                Some(a) => a as usize,
                None => 0,
            };
            signature_help.active_parameter = match active_parameter {
                Some(a) => a as usize,
                None => 0,
            };
            signature_help.visible = visible;
        },
        LspResponse::CodeActions { actions } => {
            let visible = actions.len() > 0;
            code_actions.actions = actions;
            code_actions.visible = visible;
            code_actions.selected_index = 0;
        },
        LspResponse::InlayHints { hints } => {
            inlay_hints.hints = hints;
            inlay_hints.needs_refresh = false;
        },
        LspResponse::DocumentHighlights { highlights: hs } => {
            let visible = hs.len() > 0;
            highlights.highlights = hs;
            highlights.visible = visible;
        },
        LspResponse::PrepareRename { range, placeholder } => {
            rename.on_prepare_response(range, placeholder);
        },
        LspResponse::Rename { changes } => {
            let handed_on = copy_changes(&changes);
            apply_workspace_edit(changes, sync, tv);
            effects.push(ResponseEffect::WorkspaceEdit { changes: handed_on });
            rename.reset();
        },
    }
    effects
}

/// A piece of hover text: plain, or code in a language.
pub enum MarkedString {
    String(String),
    LanguageString { language: String, value: String },
}

/// What a hover answer holds: markup, one piece, or several pieces.
pub enum HoverContents {
    /// Markup text (markdown or plain; the editor shows either as it is).
    Markup { value: String },
    Scalar(MarkedString),
    Array(Vec<MarkedString>),
}

/// The text of a piece.
pub open spec fn marked_text(m: MarkedString) -> Seq<char> {
    match m {
        MarkedString::String(s) => s@,
        MarkedString::LanguageString { value, .. } => value@,
    }
}

/// The texts of the pieces, a line break between each two.
pub open spec fn joined_texts(ms: Seq<MarkedString>) -> Seq<char>
    decreases ms.len(),
{
    if ms.len() == 0 {
        Seq::empty()
    } else if ms.len() == 1 {
        marked_text(ms[0])
    } else {
        joined_texts(ms.drop_last()) + seq!['\n'] + marked_text(ms.last())
    }
}

/// The text a hover answer shows.
pub open spec fn hover_text(c: HoverContents) -> Seq<char> {
    match c {
        HoverContents::Markup { value, .. } => value@,
        HoverContents::Scalar(m) => marked_text(m),
        HoverContents::Array(ms) => joined_texts(ms@),
    }
}

fn marked_string_text(m: &MarkedString) -> (r: String)
    ensures
        r@ == marked_text(*m),
{
    match m {
        MarkedString::String(s) => s.clone(),
        MarkedString::LanguageString { value, .. } => value.clone(),
    }
}

/// The text a hover answer shows: the markup, the piece, or the pieces one
/// per line.
pub fn extract_hover_content(contents: &HoverContents) -> (r: String)
    ensures
        r@ == hover_text(*contents),
{
    match contents {
        HoverContents::Markup { value, .. } => value.clone(),
        HoverContents::Scalar(m) => marked_string_text(m),
        HoverContents::Array(ms) => {
            let mut out = String::new();
            let mut i: usize = 0;
            while i < ms.len()
                invariant
                    i <= ms@.len(),
                    out@ == joined_texts(ms@.take(i as int)),
                decreases ms@.len() - i,
            {
                proof {
                    assert(ms@.take(i + 1).drop_last() =~= ms@.take(i as int));
                    assert(ms@.take(i + 1).last() == ms@[i as int]);
                }
                if i > 0 {
                    out.append("\n");
                    proof {
                        reveal_strlit("\n");
                    }
                }
                let t = marked_string_text(&ms[i]);
                out.append(t.as_str());
                proof {
                    if i == 0 {
                        assert(ms@.take(1) =~= seq![ms@[0]]);
                        assert(out@ =~= marked_text(ms@[0]));
                    }
                }
                i += 1;
            }
            proof {
                assert(ms@.take(ms@.len() as int) =~= ms@);
            }
            out
        },
    }
}

/// `needle` occurs in `hay` at byte `i`.
pub open spec fn bytes_at(hay: Seq<u8>, needle: Seq<u8>, i: int) -> bool {
    &&& 0 <= i
    &&& i + needle.len() <= hay.len()
    &&& forall|k: int| 0 <= k < needle.len() ==> #[trigger] hay[i + k] == needle[k]
}

/// The first byte at which `needle` occurs in `hay`.
pub open spec fn first_byte_match(hay: Seq<u8>, needle: Seq<u8>) -> Option<int> {
    if exists|i: int| #[trigger] bytes_at(hay, needle, i) {
        Some(choose|i: int| #[trigger] bytes_at(hay, needle, i) && forall|j: int| 0 <= j < i ==> !bytes_at(hay, needle, j))
    } else {
        None
    }
}

/// Whether `needle` occurs in `hay` at byte `i`.
fn bytes_match_at(hay: &[u8], needle: &[u8], i: usize) -> (r: bool)
    requires
        i + needle@.len() <= hay@.len(),
    ensures
        r == bytes_at(hay@, needle@, i as int),
{
    let n = needle.len();
    let h = hay.len();
    let mut k: usize = 0;
    while k < n
        invariant
            k <= n,
            n == needle@.len(),
            h == hay@.len(),
            i + n <= h,
            forall|j: int| 0 <= j < k ==> #[trigger] hay@[i + j] == needle@[j],
        decreases n - k,
    {
        if hay[i + k] != needle[k] {
            return false;
        }
        k += 1;
    }
    true
}

proof fn lemma_first_byte_match(hay: Seq<u8>, needle: Seq<u8>, i: int)
    requires
        bytes_at(hay, needle, i),
        forall|j: int| 0 <= j < i ==> !#[trigger] bytes_at(hay, needle, j),
    ensures
        first_byte_match(hay, needle) == Some(i),
{
    let c = choose|c: int| #[trigger] bytes_at(hay, needle, c) && forall|j: int| 0 <= j < c ==> !bytes_at(hay, needle, j);
    assert(bytes_at(hay, needle, c));
    if c < i {
        assert(!bytes_at(hay, needle, c));
    } else if c > i {
        assert(!bytes_at(hay, needle, i));
    }
}

/// The first byte at which `needle` occurs in `hay`, if it does.
pub fn find_bytes(hay: &[u8], needle: &[u8]) -> (r: Option<usize>)
    ensures
        match r {
            Some(i) => first_byte_match(hay@, needle@) == Some(i as int) && i + needle@.len() <= hay@.len(),
            None => first_byte_match(hay@, needle@) is None,
        },
{
    let n = needle.len();
    let h = hay.len();
    if n > h {
        proof {
            assert forall|i: int| !#[trigger] bytes_at(hay@, needle@, i) by {}
        }
        return None;
    }
    let last = h - n;
    let mut i: usize = 0;
    loop
        invariant_except_break
            i <= last,
            last + n == h,
            n == needle@.len(),
            h == hay@.len(),
            forall|j: int| 0 <= j < i ==> !#[trigger] bytes_at(hay@, needle@, j),
        ensures
            forall|j: int| 0 <= j <= last ==> !#[trigger] bytes_at(hay@, needle@, j),
            n == needle@.len(),
            h == hay@.len(),
            last + n == h,
        decreases last - i,
    {
        if bytes_match_at(hay, needle, i) {
            proof {
                lemma_first_byte_match(hay@, needle@, i as int);
            }
            return Some(i);
        }
        if i == last {
            break;
        }
        i += 1;
    }
    proof {
        assert forall|j: int| !#[trigger] bytes_at(hay@, needle@, j) by {
            if 0 <= j && j + n <= h {
                assert(j <= last);
            }
        }
    }
    None
}

/// Where a parameter lies in a signature's label, in bytes from its start
/// to one past its end: given as a range, or where its text first occurs
/// (none if it does not).
pub open spec fn parameter_range(label: Seq<char>, p: ParameterLabel) -> Option<(usize, usize)> {
    match p {
        ParameterLabel::Offsets(a, b) => Some((a as usize, b as usize)),
        ParameterLabel::Simple(t) => match first_byte_match(encode_utf8(label), encode_utf8(t@)) {
            Some(i) => Some((i as usize, (i + encode_utf8(t@).len()) as usize)),
            None => None,
        },
    }
}

/// The ranges of the first `n` parameters that have one, in order.
pub open spec fn parameter_ranges_of(label: Seq<char>, ps: Seq<ParameterLabel>, n: int) -> Seq<(usize, usize)>
    decreases n,
{
    if n <= 0 {
        Seq::empty()
    } else {
        let rest = parameter_ranges_of(label, ps, n - 1);
        match parameter_range(label, ps[n - 1]) {
            Some(r) => rest.push(r),
            None => rest,
        }
    }
}

fn find_parameter(hay: &[u8], label: &String, p: &ParameterLabel) -> (r: Option<(usize, usize)>)
    requires
        hay@ == encode_utf8(label@),
    ensures
        r == parameter_range(label@, *p),
{
    let h = hay.len();
    match p {
        ParameterLabel::Offsets(a, b) => {
            let r = (*a as usize, *b as usize);
            assert(*p == ParameterLabel::Offsets(*a, *b));
            assert(parameter_range(label@, *p) == Some(r));
            Some(r)
        },
        ParameterLabel::Simple(t) => {
            let needle = t.as_str().as_bytes();
            match find_bytes(hay, needle) {
                Some(start) => Some((start, start + needle.len())),
                None => None,
            }
        },
    }
}

/// Where the signature's parameters lie in its label (see
/// `parameter_range`), those that cannot be found left out.
pub fn parameter_ranges(sig: &SignatureInfo) -> (r: Vec<(usize, usize)>)
    ensures
        r@ == parameter_ranges_of(sig.label@, sig.parameters@, sig.parameters@.len() as int),
{
    let hay = sig.label.as_str().as_bytes();
    let mut out: Vec<(usize, usize)> = Vec::new();
    let mut i: usize = 0;
    while i < sig.parameters.len()
        invariant
            i <= sig.parameters@.len(),
            hay@ == encode_utf8(sig.label@),
            out@ == parameter_ranges_of(sig.label@, sig.parameters@, i as int),
        decreases sig.parameters@.len() - i,
    {
        match find_parameter(hay, &sig.label, &sig.parameters[i]) {
            Some(r) => out.push(r),
            None => {},
        }
        i += 1;
    }
    out
}

} // verus!
