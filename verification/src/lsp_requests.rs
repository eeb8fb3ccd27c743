//! When the editor asks the language server something: requests wait out a
//! debounce, highlights and inlay hints are asked for only when the view
//! calls for them, and the editor's request events are turned into
//! messages.

use vstd::prelude::*;
use ropey::Rope;
use crate::text::{breaks_before, lemma_line_of, line_count, line_start, rope_char_to_line, rope_chars, rope_len_chars, rope_len_lines, rope_line_to_char};
use crate::lsp_edits::LspPosition;
use crate::lsp_state::{InlayHintState, LspRange, ServerCapabilitiesCache};
use crate::lsp_responses::{CodeActionOrCommand, DocumentHighlightState, LspCommand};
use crate::completion::{CompletionState, LspSyncState};
use crate::lsp_state::RenameState;
use crate::lsp_responses::SignatureHelpState;
use crate::completion::{CompletionEntry, LspRequest};
use crate::text::rope_slice_string;
use crate::text::{rope_insert, rope_remove, TextViewState};
use crate::types::CursorState;
use crate::editor::word_run_left;
use crate::actions::find_word_start;
use crate::events::{
    ApplyCompletionEvent, DismissCompletionEvent, RequestCompletionEvent, RequestHoverEvent, RequestRenameEvent,
    RequestSignatureHelpEvent,
};
use crate::timer::{after_tick, finishes_on_tick, fresh_timer, DelayTimer};

verus! {

/// The protocol position of char `p` (clamped to the text): its line and
/// its place in the line.
pub open spec fn lsp_position_of(s: Seq<char>, p: int) -> LspPosition {
    let q = if p <= s.len() { p } else { s.len() as int };
    let l = breaks_before(s, q) as int;
    LspPosition { line: l as u32, character: (q - line_start(s, l)) as u32 }
}

/// The protocol position of char `char_pos` (clamped to the text).
pub fn lsp_position_at(rope: &Rope, char_pos: usize) -> (r: LspPosition)
    ensures
        r == lsp_position_of(rope_chars(*rope), char_pos as int),
{
    let len = rope_len_chars(rope);
    let p = if char_pos <= len {
        char_pos
    } else {
        len
    };
    proof {
        lemma_line_of(rope_chars(*rope), p as int);
    }
    let line = rope_char_to_line(rope, p);
    let line_start_char = rope_line_to_char(rope, line);
    LspPosition {
        line: #[verifier::truncate] (line as u32),
        character: #[verifier::truncate] ((p - line_start_char) as u32),
    }
}

/// How long the cursor rests before the symbol under it is highlighted.
pub const HIGHLIGHT_DEBOUNCE_MS: u64 = 150;

/// What a frame of `delta_ms` does to the highlights of the symbol under the
/// cursor: nothing while the server cannot take the request, the document is
/// not known to it, or the cursor stays on shown highlights. Otherwise the
/// debounce starts when none runs; a running one counts on, and once it has
/// finished the request goes out for the cursor's position.
pub open spec fn highlights_requested(
    client_ready: bool,
    caps: ServerCapabilitiesCache,
    sync: LspSyncState,
    s: Seq<char>,
    cursor_pos: usize,
    delta_ms: u64,
    od: DocumentHighlightState,
    nd: DocumentHighlightState,
    request: Option<LspPosition>,
) -> bool {
    let able = client_ready && (caps.inner matches Some(c) && crate::lsp_state::provided(c.document_highlight_provider))
        && sync.document_uri is Some;
    if !able || (cursor_pos == od.cursor_position && od.visible) {
        nd == od && request is None
    } else {
        &&& nd.highlights == od.highlights
        &&& nd.visible == od.visible
        &&& match od.debounce_timer {
            Some(t) => if !after_tick(t, delta_ms).finished {
                &&& nd.debounce_timer == Some(after_tick(t, delta_ms))
                &&& nd.cursor_position == od.cursor_position
                &&& request is None
            } else {
                &&& nd.debounce_timer is None
                &&& nd.cursor_position == cursor_pos
                &&& request == Some(lsp_position_of(s, cursor_pos as int))
            },
            None => {
                &&& nd.debounce_timer == Some(fresh_timer(HIGHLIGHT_DEBOUNCE_MS))
                &&& nd.cursor_position == cursor_pos
                &&& request is None
            },
        }
    }
}

/// Decide whether to ask for the highlights of the symbol under the cursor
/// on this frame (see `highlights_requested`); the position to ask about
/// comes back when the request is due.
pub fn request_document_highlights(
    client_ready: bool,
    caps: &ServerCapabilitiesCache,
    sync: &LspSyncState,
    rope: &Rope,
    cursor_pos: usize,
    delta_ms: u64,
    highlight_state: &mut DocumentHighlightState,
) -> (request: Option<LspPosition>)
    ensures
        highlights_requested(
            client_ready,
            *caps,
            *sync,
            rope_chars(*rope),
            cursor_pos,
            delta_ms,
            *old(highlight_state),
            *final(highlight_state),
            request,
        ),
{
    if !client_ready || !caps.supports_document_highlight() {
        return None;
    }
    if sync.document_uri.is_none() {
        return None;
    }
    if cursor_pos == highlight_state.cursor_position && highlight_state.visible {
        return None;
    }
    match highlight_state.debounce_timer.take() {
        Some(mut t) => {
            t.tick(delta_ms);
            if !t.is_finished() {
                highlight_state.debounce_timer = Some(t);
                return None;
            }
        },
        None => {
            highlight_state.debounce_timer = Some(DelayTimer::new(HIGHLIGHT_DEBOUNCE_MS));
            highlight_state.cursor_position = cursor_pos;
            return None;
        },
    }
    highlight_state.debounce_timer = None;
    highlight_state.cursor_position = cursor_pos;
    Some(lsp_position_at(rope, cursor_pos))
}

/// Lines asked for beyond those the viewport shows.
pub const INLAY_HINT_EXTRA_LINES: u32 = 10;

/// The lines to ask inlay hints for: from the first visible line, as many as
/// show plus a margin, ending at the last line of the text.
pub open spec fn inlay_hint_range(s: Seq<char>, visible_start_line: u32, visible_rows: u32) -> LspRange {
    let end = visible_start_line + visible_rows + INLAY_HINT_EXTRA_LINES;
    let lines = line_count(s) as u32;
    LspRange {
        start: LspPosition { line: visible_start_line, character: 0 },
        end: LspPosition { line: (if end <= lines { end } else { lines as int }) as u32, character: 0 },
    }
}

/// What a frame does to the inlay hints: nothing while the server cannot
/// take the request, nothing changed and no refresh is due, or the document
/// is not known to it; nothing either when the lines are already cached and
/// no refresh is due. Otherwise the hints for those lines are asked for, and
/// they become the cached range.
pub open spec fn inlay_hints_requested(
    client_ready: bool,
    caps: ServerCapabilitiesCache,
    sync: LspSyncState,
    s: Seq<char>,
    text_changed: bool,
    viewport_changed: bool,
    visible_start_line: u32,
    visible_rows: u32,
    oi: InlayHintState,
    ni: InlayHintState,
    request: Option<LspRange>,
) -> bool {
    let able = client_ready && (caps.inner matches Some(c) && crate::lsp_state::provided(c.inlay_hint_provider));
    let range = inlay_hint_range(s, visible_start_line, visible_rows);
    let cached = oi.cached_range matches Some(c) && c.start.line <= range.start.line && c.end.line >= range.end.line;
    if !able || (!oi.needs_refresh && !text_changed && !viewport_changed) || sync.document_uri is None || (cached
        && !oi.needs_refresh) {
        ni == oi && request is None
    } else {
        &&& request == Some(range)
        &&& ni.cached_range == Some(range)
        &&& !ni.needs_refresh
        &&& ni.hints == oi.hints
    }
}

/// Decide whether to ask for the inlay hints of the visible lines (see
/// `inlay_hints_requested`); the range to ask about comes back when the
/// request is due. `visible_rows` is how many lines the viewport shows.
pub fn request_inlay_hints(
    client_ready: bool,
    caps: &ServerCapabilitiesCache,
    sync: &LspSyncState,
    rope: &Rope,
    text_changed: bool,
    viewport_changed: bool,
    visible_start_line: u32,
    visible_rows: u32,
    hint_state: &mut InlayHintState,
) -> (request: Option<LspRange>)
    requires
        visible_start_line + visible_rows + INLAY_HINT_EXTRA_LINES <= u32::MAX,
    ensures
        inlay_hints_requested(
            client_ready,
            *caps,
            *sync,
            rope_chars(*rope),
            text_changed,
            viewport_changed,
            visible_start_line,
            visible_rows,
            *old(hint_state),
            *final(hint_state),
            request,
        ),
{
    if !client_ready || !caps.supports_inlay_hints() {
        return None;
    }
    if !hint_state.needs_refresh && !text_changed && !viewport_changed {
        return None;
    }
    if sync.document_uri.is_none() {
        return None;
    }
    let visible_lines = visible_rows + INLAY_HINT_EXTRA_LINES;
    let end = visible_start_line + visible_lines;
    let lines: u32 = #[verifier::truncate] (rope_len_lines(rope) as u32);
    let range = LspRange {
        start: LspPosition { line: visible_start_line, character: 0 },
        end: LspPosition { line: if end <= lines { end } else { lines }, character: 0 },
    };
    if hint_state.is_range_cached(&range) && !hint_state.needs_refresh {
        return None;
    }
    hint_state.cached_range = Some(range);
    hint_state.needs_refresh = false;
    Some(range)
}

/// The command that running a code action executes: a bare command is
/// itself; an action runs its command, if it has one.
pub fn command_to_execute(action: &CodeActionOrCommand) -> (r: Option<&LspCommand>)
    ensures
        match action {
            CodeActionOrCommand::Action { command, .. } => match command {
                Some(c) => r == Some(c),
                None => r is None,
            },
            CodeActionOrCommand::Command(c) => r == Some(c),
        },
{
    match action {
        CodeActionOrCommand::Action { command, .. } => match command {
            Some(c) => Some(c),
            None => None,
        },
        CodeActionOrCommand::Command(c) => Some(c),
    }
}

/// A request waiting out its debounce: the document and a position in it.
pub struct PendingLspRequest {
    pub uri: String,
    pub line: u32,
    pub character: u32,
}

/// A code action request waiting out its debounce.
pub struct PendingCodeAction {
    pub uri: String,
    pub range: LspRange,
}

/// The requests waiting out their debounce, each kind with its own delay;
/// a new request of a kind replaces the waiting one and starts its delay
/// over.
pub struct LspDebounceTimers {
    pub pending_completion: Option<PendingLspRequest>,
    pub completion_timer: DelayTimer,
    pub pending_hover: Option<PendingLspRequest>,
    pub hover_timer: DelayTimer,
    pub pending_highlight: Option<PendingLspRequest>,
    pub highlight_timer: DelayTimer,
    pub pending_code_action: Option<PendingCodeAction>,
    pub code_action_timer: DelayTimer,
}

impl LspDebounceTimers {
    /// Nothing waiting; the delays of each kind are as given.
    pub fn new(completion_ms: u64, hover_ms: u64, highlight_ms: u64, code_action_ms: u64) -> (r: Self)
        ensures
            r.pending_completion is None,
            r.pending_hover is None,
            r.pending_highlight is None,
            r.pending_code_action is None,
            r.completion_timer == fresh_timer(completion_ms),
            r.hover_timer == fresh_timer(hover_ms),
            r.highlight_timer == fresh_timer(highlight_ms),
            r.code_action_timer == fresh_timer(code_action_ms),
    {
        LspDebounceTimers {
            pending_completion: None,
            completion_timer: DelayTimer::new(completion_ms),
            pending_hover: None,
            hover_timer: DelayTimer::new(hover_ms),
            pending_highlight: None,
            highlight_timer: DelayTimer::new(highlight_ms),
            pending_code_action: None,
            code_action_timer: DelayTimer::new(code_action_ms),
        }
    }
}

/// A request whose debounce has run out, to be sent now.
pub enum DebouncedRequest {
    Completion(PendingLspRequest),
    Hover(PendingLspRequest),
    DocumentHighlight(PendingLspRequest),
    CodeAction(PendingCodeAction),
}

/// A waiting request whose delay runs out on a tick of `delta_ms`.
pub open spec fn fires<T>(pending: Option<T>, t: DelayTimer, delta_ms: u64) -> bool {
    pending is Some && finishes_on_tick(t, delta_ms)
}

/// A delay after a tick: only the delay of a waiting request counts.
pub open spec fn debounce_ticked<T>(pending: Option<T>, t: DelayTimer, delta_ms: u64) -> DelayTimer {
    if pending is Some { after_tick(t, delta_ms) } else { t }
}

/// The requests whose delays run out on a tick of `delta_ms`, in the order
/// completion, hover, highlight, code action.
pub open spec fn fired_requests(o: LspDebounceTimers, delta_ms: u64) -> Seq<DebouncedRequest> {
    (if fires(o.pending_completion, o.completion_timer, delta_ms) {
        seq![DebouncedRequest::Completion(o.pending_completion->0)]
    } else {
        Seq::empty()
    }) + (if fires(o.pending_hover, o.hover_timer, delta_ms) {
        seq![DebouncedRequest::Hover(o.pending_hover->0)]
    } else {
        Seq::empty()
    }) + (if fires(o.pending_highlight, o.highlight_timer, delta_ms) {
        seq![DebouncedRequest::DocumentHighlight(o.pending_highlight->0)]
    } else {
        Seq::empty()
    }) + (if fires(o.pending_code_action, o.code_action_timer, delta_ms) {
        seq![DebouncedRequest::CodeAction(o.pending_code_action->0)]
    } else {
        Seq::empty()
    })
}

/// Count a frame of `delta_ms` on the delays of the waiting requests; those
/// whose delay runs out stop waiting and come back, to be sent.
pub fn tick_lsp_debounce_timers(delta_ms: u64, debounce: &mut LspDebounceTimers) -> (requests: Vec<DebouncedRequest>)
    ensures
        requests@ == fired_requests(*old(debounce), delta_ms),
        final(debounce).completion_timer == debounce_ticked(old(debounce).pending_completion, old(debounce).completion_timer, delta_ms),
        final(debounce).hover_timer == debounce_ticked(old(debounce).pending_hover, old(debounce).hover_timer, delta_ms),
        final(debounce).highlight_timer == debounce_ticked(old(debounce).pending_highlight, old(debounce).highlight_timer, delta_ms),
        final(debounce).code_action_timer == debounce_ticked(old(debounce).pending_code_action, old(debounce).code_action_timer, delta_ms),
        final(debounce).pending_completion == (if fires(old(debounce).pending_completion, old(debounce).completion_timer, delta_ms) { None } else { old(debounce).pending_completion }),
        final(debounce).pending_hover == (if fires(old(debounce).pending_hover, old(debounce).hover_timer, delta_ms) { None } else { old(debounce).pending_hover }),
        final(debounce).pending_highlight == (if fires(old(debounce).pending_highlight, old(debounce).highlight_timer, delta_ms) { None } else { old(debounce).pending_highlight }),
        final(debounce).pending_code_action == (if fires(old(debounce).pending_code_action, old(debounce).code_action_timer, delta_ms) { None } else { old(debounce).pending_code_action }),
{
    let ghost o = *debounce;
    let mut requests: Vec<DebouncedRequest> = Vec::new();
    if debounce.pending_completion.is_some() {
        if debounce.completion_timer.tick(delta_ms) {
            match debounce.pending_completion.take() {
                Some(req) => requests.push(DebouncedRequest::Completion(req)),
                None => {},
            }
        }
    }
    let ghost r1 = requests@;
    if debounce.pending_hover.is_some() {
        if debounce.hover_timer.tick(delta_ms) {
            match debounce.pending_hover.take() {
                Some(req) => requests.push(DebouncedRequest::Hover(req)),
                None => {},
            }
        }
    }
    let ghost r2 = requests@;
    if debounce.pending_highlight.is_some() {
        if debounce.highlight_timer.tick(delta_ms) {
            match debounce.pending_highlight.take() {
                Some(req) => requests.push(DebouncedRequest::DocumentHighlight(req)),
                None => {},
            }
        }
    }
    let ghost r3 = requests@;
    if debounce.pending_code_action.is_some() {
        if debounce.code_action_timer.tick(delta_ms) {
            match debounce.pending_code_action.take() {
                Some(req) => requests.push(DebouncedRequest::CodeAction(req)),
                None => {},
            }
        }
    }
    assert(requests@ =~= fired_requests(o, delta_ms));
    requests
}

/// A request for the document `uri` at an event's line and char.
pub open spec fn pending_at(uri: String, line: usize, character: usize) -> PendingLspRequest {
    PendingLspRequest { uri, line: line as u32, character: character as u32 }
}

/// The protocol position of an event's line and char.
pub open spec fn event_position(line: usize, character: usize) -> LspPosition {
    LspPosition { line: line as u32, character: character as u32 }
}

/// Take completion request events: while the document is known to the
/// server, the last of them waits out the completion delay, started over,
/// and the popup shows as pending; otherwise nothing happens.
pub fn listen_completion_requests(
    events: &Vec<RequestCompletionEvent>,
    sync: &LspSyncState,
    debounce: &mut LspDebounceTimers,
    completion: &mut CompletionState,
)
    ensures
        (sync.document_uri is Some && events@.len() > 0) ==> {
            &&& *final(debounce) == (LspDebounceTimers {
                pending_completion: Some(
                    pending_at(sync.document_uri->0, events@.last().line, events@.last().character),
                ),
                completion_timer: fresh_timer(old(debounce).completion_timer.duration_ms),
                ..*old(debounce)
            })
            &&& *final(completion) == (CompletionState { visible: true, ..*old(completion) })
        },
        !(sync.document_uri is Some && events@.len() > 0) ==> *final(debounce) == *old(debounce)
            && *final(completion) == *old(completion),
{
    let mut i: usize = 0;
    while i < events.len()
        invariant
            i <= events@.len(),
            (sync.document_uri is Some && i > 0) ==> {
                &&& *debounce == (LspDebounceTimers {
                    pending_completion: Some(
                        pending_at(sync.document_uri->0, events@[i - 1].line, events@[i - 1].character),
                    ),
                    completion_timer: fresh_timer(old(debounce).completion_timer.duration_ms),
                    ..*old(debounce)
                })
                &&& *completion == (CompletionState { visible: true, ..*old(completion) })
            },
            !(sync.document_uri is Some && i > 0) ==> *debounce == *old(debounce) && *completion == *old(completion),
        decreases events@.len() - i,
    {
        match &sync.document_uri {
            Some(uri) => {
                let e = &events[i];
                debounce.pending_completion = Some(
                    PendingLspRequest {
                        uri: uri.clone(),
                        line: #[verifier::truncate] (e.line as u32),
                        character: #[verifier::truncate] (e.character as u32),
                    },
                );
                debounce.completion_timer.reset();
                completion.visible = true;
            },
            None => {},
        }
        i += 1;
    }
}

/// Take hover request events: while the document is known to the server,
/// the last of them waits out the hover delay, started over; otherwise
/// nothing happens.
pub fn listen_hover_requests(events: &Vec<RequestHoverEvent>, sync: &LspSyncState, debounce: &mut LspDebounceTimers)
    ensures
        (sync.document_uri is Some && events@.len() > 0) ==> *final(debounce) == (LspDebounceTimers {
            pending_hover: Some(pending_at(sync.document_uri->0, events@.last().line, events@.last().character)),
            hover_timer: fresh_timer(old(debounce).hover_timer.duration_ms),
            ..*old(debounce)
        }),
        !(sync.document_uri is Some && events@.len() > 0) ==> *final(debounce) == *old(debounce),
{
    let mut i: usize = 0;
    while i < events.len()
        invariant
            i <= events@.len(),
            (sync.document_uri is Some && i > 0) ==> *debounce == (LspDebounceTimers {
                pending_hover: Some(pending_at(sync.document_uri->0, events@[i - 1].line, events@[i - 1].character)),
                hover_timer: fresh_timer(old(debounce).hover_timer.duration_ms),
                ..*old(debounce)
            }),
            !(sync.document_uri is Some && i > 0) ==> *debounce == *old(debounce),
        decreases events@.len() - i,
    {
        match &sync.document_uri {
            Some(uri) => {
                let e = &events[i];
                debounce.pending_hover = Some(
                    PendingLspRequest {
                        uri: uri.clone(),
                        line: #[verifier::truncate] (e.line as u32),
                        character: #[verifier::truncate] (e.character as u32),
                    },
                );
                debounce.hover_timer.reset();
            },
            None => {},
        }
        i += 1;
    }
}

/// The rename prompt waits for the server to say whether `position` can be
/// renamed.
pub open spec fn rename_preparing(r: RenameState, position: LspPosition) -> bool {
    &&& r.position == Some(position)
    &&& r.preparing
    &&& !r.visible
    &&& r.range is None
    &&& r.original_text@.len() == 0
    &&& r.new_name@.len() == 0
    &&& r.error is None
}

/// Take rename request events: while the document is known to the server,
/// each asks whether its position can be renamed (the positions to ask
/// about come back), and the prompt waits for the answer about the last;
/// otherwise nothing happens.
pub fn listen_rename_requests(events: &Vec<RequestRenameEvent>, sync: &LspSyncState, rename: &mut RenameState) -> (requests: Vec<LspPosition>)
    ensures
        sync.document_uri is Some ==> requests@ == events@.map_values(
            |e: RequestRenameEvent| event_position(e.line, e.character),
        ),
        sync.document_uri is None ==> requests@.len() == 0,
        (sync.document_uri is Some && events@.len() > 0) ==> rename_preparing(
            *final(rename),
            event_position(events@.last().line, events@.last().character),
        ),
        !(sync.document_uri is Some && events@.len() > 0) ==> *final(rename) == *old(rename),
{
    let mut requests: Vec<LspPosition> = Vec::new();
    let mut i: usize = 0;
    while i < events.len()
        invariant
            i <= events@.len(),
            sync.document_uri is Some ==> requests@ == events@.take(i as int).map_values(
                |e: RequestRenameEvent| event_position(e.line, e.character),
            ),
            sync.document_uri is None ==> requests@.len() == 0,
            (sync.document_uri is Some && i > 0) ==> rename_preparing(
                *rename,
                event_position(events@[i - 1].line, events@[i - 1].character),
            ),
            !(sync.document_uri is Some && i > 0) ==> *rename == *old(rename),
        decreases events@.len() - i,
    {
        if sync.document_uri.is_some() {
            let e = &events[i];
            let position = LspPosition {
                line: #[verifier::truncate] (e.line as u32),
                character: #[verifier::truncate] (e.character as u32),
            };
            rename.start_prepare(position);
            requests.push(position);
            proof {
                assert(events@.take(i + 1) =~= events@.take(i as int).push(events@[i as int]));
            }
        }
        i += 1;
    }
    proof {
        assert(events@.take(events@.len() as int) =~= events@);
    }
    requests
}

/// Take signature help request events: while the document is known to the
/// server, each clears the popup and asks about its position (the positions
/// come back); otherwise nothing happens.
pub fn listen_signature_help_requests(
    events: &Vec<RequestSignatureHelpEvent>,
    sync: &LspSyncState,
    signature_help: &mut SignatureHelpState,
) -> (requests: Vec<LspPosition>)
    ensures
        sync.document_uri is Some ==> requests@ == events@.map_values(
            |e: RequestSignatureHelpEvent| event_position(e.line, e.character),
        ),
        sync.document_uri is None ==> requests@.len() == 0,
        (sync.document_uri is Some && events@.len() > 0) ==> {
            &&& !final(signature_help).visible
            &&& final(signature_help).signatures@.len() == 0
            &&& final(signature_help).active_signature == 0
            &&& final(signature_help).active_parameter == 0
            &&& final(signature_help).trigger_position == old(signature_help).trigger_position
        },
        !(sync.document_uri is Some && events@.len() > 0) ==> *final(signature_help) == *old(signature_help),
{
    let mut requests: Vec<LspPosition> = Vec::new();
    let mut i: usize = 0;
    while i < events.len()
        invariant
            i <= events@.len(),
            sync.document_uri is Some ==> requests@ == events@.take(i as int).map_values(
                |e: RequestSignatureHelpEvent| event_position(e.line, e.character),
            ),
            sync.document_uri is None ==> requests@.len() == 0,
            (sync.document_uri is Some && i > 0) ==> {
                &&& !signature_help.visible
                &&& signature_help.signatures@.len() == 0
                &&& signature_help.active_signature == 0
                &&& signature_help.active_parameter == 0
                &&& signature_help.trigger_position == old(signature_help).trigger_position
            },
            !(sync.document_uri is Some && i > 0) ==> *signature_help == *old(signature_help),
        decreases events@.len() - i,
    {
        if sync.document_uri.is_some() {
            let e = &events[i];
            signature_help.reset();
            requests.push(
                LspPosition {
                    line: #[verifier::truncate] (e.line as u32),
                    character: #[verifier::truncate] (e.character as u32),
                },
            );
            proof {
                assert(events@.take(i + 1) =~= events@.take(i as int).push(events@[i as int]));
            }
        }
        i += 1;
    }
    proof {
        assert(events@.take(events@.len() as int) =~= events@);
    }
    requests
}

/// Take dismiss events: any of them closes the completion popup and drops
/// its items.
pub fn listen_dismiss_completion(events: &Vec<DismissCompletionEvent>, completion: &mut CompletionState)
    ensures
        events@.len() > 0 ==> {
            &&& !final(completion).visible
            &&& final(completion).items@.len() == 0
            &&& final(completion).selected_index == 0
            &&& final(completion).word_items == old(completion).word_items
            &&& final(completion).scroll_offset == old(completion).scroll_offset
            &&& final(completion).start_char_index == old(completion).start_char_index
            &&& final(completion).filter == old(completion).filter
            &&& final(completion).is_incomplete == old(completion).is_incomplete
        },
        events@.len() == 0 ==> *final(completion) == *old(completion),
{
    if events.len() > 0 {
        completion.visible = false;
        completion.items.clear();
        completion.selected_index = 0;
    }
}

/// The text an item inserts: its insert text, or else its label.
pub open spec fn entry_text(e: CompletionEntry) -> Seq<char> {
    match e.insert_text {
        Some(t) => t@,
        None => e.label@,
    }
}

/// Index of the first event that names an item among `n`.
pub open spec fn first_applicable(events: Seq<ApplyCompletionEvent>, n: nat) -> Option<int>
    decreases events.len(),
{
    if events.len() == 0 {
        None
    } else if events[0].item_index < n {
        Some(0)
    } else {
        match first_applicable(events.drop_first(), n) {
            Some(i) => Some(i + 1),
            None => None,
        }
    }
}

/// Where inserting an item applies: the identifier before the cursor
/// (clamped to the text) gives way to the item's text.
pub open spec fn completion_inserted(s: Seq<char>, cursor_pos: usize, t: Seq<char>) -> (Seq<char>, int) {
    let p = if cursor_pos <= s.len() { cursor_pos as int } else { s.len() as int };
    let ws = word_run_left(s, p);
    (s.take(ws) + t + s.skip(p), ws + t.len())
}

/// Inserting can be done: the cursor lies in the text, or an identifier
/// before the end of the text gives way (so that the insertion lands in
/// the text).
pub open spec fn insertion_fits(s: Seq<char>, cursor_pos: usize) -> bool {
    cursor_pos <= s.len() || word_run_left(s, s.len() as int) < s.len()
}

/// What completion-apply events do: the first that names one of the items
/// inserts it (its text replaces the identifier before the cursor, and the
/// cursor moves past it), the display is due for a refresh and the popup
/// closes and drops its items, so that the events after it do nothing.
pub open spec fn completion_events_applied(
    events: Seq<ApplyCompletionEvent>,
    oc: CursorState,
    nc: CursorState,
    ot: TextViewState,
    nt: TextViewState,
    ocs: CompletionState,
    ncs: CompletionState,
) -> bool {
    match first_applicable(events, ocs.items@.len()) {
        Some(i) => {
            let t = entry_text(ocs.items@[events[i].item_index as int]);
            let (ns, np) = completion_inserted(rope_chars(ot.rope), oc.cursor_pos, t);
            &&& rope_chars(nt.rope) == ns
            &&& nc.cursor_pos == np
            &&& nc.cursors == oc.cursors
            &&& nt.pending_update
            &&& nt.content_version == ot.content_version.wrapping_add(1)
            &&& nt.needs_update == ot.needs_update
            &&& nt.dirty_lines == ot.dirty_lines
            &&& nt.previous_line_count == ot.previous_line_count
            &&& ncs == (CompletionState { visible: false, items: ncs.items, ..ocs })
            &&& ncs.items@.len() == 0
        },
        None => nc == oc && nt == ot && ncs == ocs,
    }
}

proof fn lemma_first_applicable_step(events: Seq<ApplyCompletionEvent>, n: nat, i: int)
    requires
        0 <= i < events.len(),
        forall|k: int| 0 <= k < i ==> events[k].item_index >= n,
    ensures
        events[i].item_index < n ==> first_applicable(events, n) == Some(i),
        events[i].item_index >= n ==> (first_applicable(events, n) is None <==> first_applicable(events.skip(i + 1), n) is None),
        events[i].item_index >= n ==> (first_applicable(events, n) matches Some(j) ==> first_applicable(events.skip(i + 1), n) == Some(j - i - 1)),
    decreases i,
{
    if i > 0 {
        let d = events.drop_first();
        lemma_first_applicable_step(d, n, i - 1);
        assert(d.skip(i) =~= events.skip(i + 1));
    } else {
        assert(events.skip(1) =~= events.drop_first());
    }
}

proof fn lemma_first_applicable_none(events: Seq<ApplyCompletionEvent>, n: nat)
    requires
        forall|k: int| 0 <= k < events.len() ==> events[k].item_index >= n,
    ensures
        first_applicable(events, n) is None,
    decreases events.len(),
{
    if events.len() > 0 {
        lemma_first_applicable_none(events.drop_first(), n);
    }
}

/// Take completion-apply events (see `completion_events_applied`).
pub fn listen_apply_completion(
    events: &Vec<ApplyCompletionEvent>,
    cursor: &mut CursorState,
    tv: &mut TextViewState,
    completion: &mut CompletionState,
)
    requires
        first_applicable(events@, old(completion).items@.len()) is Some ==> insertion_fits(
            rope_chars(old(tv).rope),
            old(cursor).cursor_pos,
        ),
    ensures
        completion_events_applied(events@, *old(cursor), *final(cursor), *old(tv), *final(tv), *old(completion), *final(completion)),
{
    let ghost n = completion.items@.len();
    let mut i: usize = 0;
    while i < events.len()
        invariant
            i <= events@.len(),
            n == old(completion).items@.len(),
            first_applicable(events@, n) is Some ==> insertion_fits(rope_chars(old(tv).rope), old(cursor).cursor_pos),
            (forall|k: int| 0 <= k < i ==> events@[k].item_index >= n) ==> (*cursor == *old(cursor) && *tv == *old(tv)
                && *completion == *old(completion)),
            !(forall|k: int| 0 <= k < i ==> events@[k].item_index >= n) ==> completion.items@.len() == 0,
            !(forall|k: int| 0 <= k < i ==> events@[k].item_index >= n) ==> completion_events_applied(
                events@,
                *old(cursor),
                *cursor,
                *old(tv),
                *tv,
                *old(completion),
                *completion,
            ),
        decreases events@.len() - i,
    {
        let idx = events[i].item_index;
        if idx < completion.items.len() {
            proof {
                lemma_first_applicable_step(events@, n, i as int);
            }
            let ghost s = rope_chars(tv.rope);
            let text = match &completion.items[idx].insert_text {
                Some(t) => t.clone(),
                None => completion.items[idx].label.clone(),
            };
            let len = rope_len_chars(&tv.rope);
            let p = if cursor.cursor_pos <= len {
                cursor.cursor_pos
            } else {
                len
            };
            let ws = find_word_start(&tv.rope, p);
            let at = if ws < p {
                rope_remove(&mut tv.rope, ws, p);
                ws
            } else {
                cursor.cursor_pos
            };
            rope_insert(&mut tv.rope, at, text.as_str());
            proof {
                assert(rope_chars(tv.rope) =~= completion_inserted(s, old(cursor).cursor_pos, text@).0);
            }
            let t_len = text.unicode_len();
            let total = rope_len_chars(&tv.rope);
            assert(at + t_len <= total);
            cursor.cursor_pos = at + t_len;
            tv.pending_update = true;
            tv.content_version = tv.content_version.wrapping_add(1);
            completion.visible = false;
            completion.items.clear();
            proof {
                assert(!(forall|k: int| 0 <= k < i + 1 ==> events@[k].item_index >= n)) by {
                    assert(events@[i as int].item_index < n);
                }
            }
        } else {
            proof {
                if forall|k: int| 0 <= k < i ==> events@[k].item_index >= n {
                    assert(forall|k: int| 0 <= k < i + 1 ==> events@[k].item_index >= n);
                }
            }
        }
        i += 1;
    }
    proof {
        if forall|k: int| 0 <= k < events@.len() ==> events@[k].item_index >= n {
            lemma_first_applicable_none(events@, n);
        }
    }
}

/// What a frame of `delta_ms` does to the sync of a changed text: nothing
/// while the text is unchanged; otherwise the debounce counts on, and once it
/// has finished the whole text goes out (when the server knows the document)
/// with the current version, and the debounce starts over.
pub open spec fn document_synced(
    delta_ms: u64,
    s: Seq<char>,
    os: LspSyncState,
    ns: LspSyncState,
    request: Option<LspRequest>,
) -> bool {
    let t = after_tick(os.timer, delta_ms);
    if !os.dirty {
        ns == os && request is None
    } else if !t.finished {
        ns == (LspSyncState { timer: t, ..os }) && request is None
    } else {
        &&& ns == (LspSyncState { dirty: false, timer: fresh_timer(os.timer.duration_ms), ..os })
        &&& match os.document_uri {
            Some(_) => request matches Some(LspRequest::DidChange { version, text }) && version
                == os.document_version && text@ == s,
            None => request is None,
        }
    }
}

/// Send a changed text once it has rested (see `document_synced`).
pub fn sync_lsp_document(delta_ms: u64, sync: &mut LspSyncState, rope: &Rope) -> (request: Option<LspRequest>)
    ensures
        document_synced(delta_ms, rope_chars(*rope), *old(sync), *final(sync), request),
{
    if !sync.dirty {
        return None;
    }
    sync.timer.tick(delta_ms);
    if !sync.timer.is_finished() {
        return None;
    }
    let request = if sync.document_uri.is_some() {
        let len = rope_len_chars(rope);
        let text = rope_slice_string(rope, 0, len);
        proof {
            assert(rope_chars(*rope).subrange(0, len as int) =~= rope_chars(*rope));
        }
        Some(LspRequest::DidChange { version: sync.document_version, text })
    } else {
        None
    };
    sync.dirty = false;
    sync.timer.reset();
    request
}

} // verus!
