//! Keyboard input: typed chars with auto-closed brackets and quotes and
//! completion triggers, and the repetition of held actions.

use vstd::prelude::*;
use crate::text::{rope_char, rope_chars, rope_len_chars, rope_slice_string, TextViewState};
use crate::types::CursorState;
use crate::selection::{min_usize, SelectionState};
use crate::history::EditHistoryState;
use crate::editor::{marked_line_dirty, CodeEditorState};
use crate::cursor::{char_is_alphanumeric, is_alphanumeric, is_word_char, word_char};
use crate::actions::{
    lemma_typed_cursor,
    closing_bracket, completion_requested, did_change_sent, filter_followed, find_word_start,
    get_closing_bracket, get_closing_quote, insert_char, insert_closing_char, request_completion,
    selection_fits, send_did_change, should_skip_auto_close, typed, update_completion_filter,
};
use crate::completion::{CompletionState, LspRequest, LspSyncState};
use crate::editor::word_run_left;
use crate::keybindings::{repeatable, EditorAction};
use crate::settings::{BracketSettings, LspSettings};
use vstd::utf8::encode_utf8;
use crate::lsp_edits::LspPosition;
use crate::lsp_state::{rename_cleared, RenameProvider, RenameState, ServerCapabilitiesCache};
use crate::lsp_requests::{lsp_position_at, lsp_position_of, rename_preparing};
use ropey::Rope;

verus! {

/// Whether `c` is a control char: its code point lies in U+0000 to U+001F
/// or in U+007F to U+009F (the general category Cc, as `char::is_control`
/// documents).
pub open spec fn char_is_control(c: char) -> bool {
    (c as u32) <= 0x1F || (0x7F <= (c as u32) && (c as u32) <= 0x9F)
}

/// Whether `c` is a control char.
fn is_control(c: char) -> (r: bool)
    ensures
        r == char_is_control(c),
{
    let v: u32 = c as u32;
    v <= 0x1F || (0x7F <= v && v <= 0x9F)
}

/// `c` closes one of the bracket pairs.
pub open spec fn is_closing_bracket(c: char, pairs: Seq<(char, char)>) -> bool {
    exists|i: int| 0 <= i < pairs.len() && #[trigger] pairs[i].1 == c
}

/// `c` is a quote that closes itself.
pub open spec fn is_quote(c: char) -> bool {
    c == '"' || c == '\'' || c == '`'
}

/// Typing `c` steps over the same char at the cursor instead of inserting.
pub open spec fn steps_over(brackets: BracketSettings, c: char, s: Seq<char>, p: int) -> bool {
    let next_is_c = p < s.len() && s[p] == c;
    ((brackets.auto_close_quotes && is_quote(c)) || (brackets.auto_close && is_closing_bracket(c, brackets.pairs@)))
        && next_is_c
}

/// A closing quote goes in after typing `c` with the cursor at `p`: a
/// single quote right after an alphanumeric (as in "don't") does not close.
pub open spec fn quote_closes(c: char, s: Seq<char>, p: int) -> bool {
    c != '\'' || p < 2 || !char_is_alphanumeric(s[p - 2])
}

/// UTF-8 length of `t` in bytes.
pub open spec fn byte_len(t: Seq<char>) -> int {
    (encode_utf8(t).len() as usize) as int
}

/// Typing `c` with the cursor ending at `p` in text `s` matches trigger
/// `t`: a one-byte trigger equal to `c`, or a longer one equal to the text
/// of its byte length just before the cursor.
pub open spec fn trigger_matches(t: Seq<char>, c: char, s: Seq<char>, p: int) -> bool {
    if byte_len(t) == 1 {
        t == seq![c]
    } else {
        p >= byte_len(t) && s.subrange(p - byte_len(t), p) == t
    }
}

pub open spec fn any_trigger(ts: Seq<String>, c: char, s: Seq<char>, p: int) -> bool {
    exists|i: int| 0 <= i < ts.len() && trigger_matches(#[trigger] ts[i]@, c, s, p)
}

/// Whether typing `c`, with the cursor now at `cursor_pos`, matches a
/// completion trigger.
fn trigger_typed(triggers: &Vec<String>, c: char, tv: &TextViewState, cursor_pos: usize) -> (r: bool)
    requires
        cursor_pos <= rope_chars(tv.rope).len(),
    ensures
        r == any_trigger(triggers@, c, rope_chars(tv.rope), cursor_pos as int),
{
    let ghost s = rope_chars(tv.rope);
    let mut i: usize = 0;
    while i < triggers.len()
        invariant
            0 <= i <= triggers@.len(),
            s == rope_chars(tv.rope),
            cursor_pos <= s.len(),
            forall|j: int| 0 <= j < i ==> !trigger_matches(#[trigger] triggers@[j]@, c, s, cursor_pos as int),
        decreases triggers@.len() - i,
    {
        let t = &triggers[i];
        let bl = t.as_str().len();
        let matched = if bl == 1 {
            t.unicode_len() == 1 && t.get_char(0) == c
        } else if cursor_pos >= bl {
            let start = cursor_pos - bl;
            let recent = rope_slice_string(&tv.rope, start, cursor_pos);
            recent == *t
        } else {
            false
        };
        proof {
            if bl == 1 {
                if t@.len() == 1 && t@[0] == c {
                    assert(t@ =~= seq![c]);
                } else if t@ == seq![c] {
                    assert(t@.len() == 1 && t@[0] == c);
                }
            }
        }
        if matched {
            assert(trigger_matches(triggers@[i as int]@, c, s, cursor_pos as int));
            return true;
        }
        i += 1;
    }
    false
}

/// The text view after a closing char `cl` went in at `p` (clamped to the
/// text) without moving the cursor.
pub open spec fn closing_inserted(ot: TextViewState, nt: TextViewState, p: usize, cl: char) -> bool {
    let s = rope_chars(ot.rope);
    let q = min_usize(p, s.len() as usize) as int;
    rope_chars(nt.rope) == s.insert(q, cl) && marked_line_dirty(nt, ot, q)
}

/// What completion does after `c` was typed with the cursor ending at `p`:
/// a trigger (re)opens it; an identifier char refines its filter while it
/// shows, or opens it once the identifier before the cursor is long enough;
/// any other char hides it.
pub open spec fn completion_after_typing(
    lsp: LspSettings,
    c: char,
    s: Seq<char>,
    p: usize,
    ocs: CompletionState,
    ncs: CompletionState,
    uri_known: bool,
    asked: bool,
) -> bool {
    if !lsp.completion.enabled {
        ncs == ocs && !asked
    } else if any_trigger(lsp.completion.trigger_characters@, c, s, p as int) {
        &&& completion_requested(CompletionState { visible: false, ..ocs }, ncs, s, p)
        &&& asked == uri_known
    } else if is_word_char(c) {
        if ocs.visible {
            filter_followed(p, s, ocs, ncs) && !asked
        } else if p - word_run_left(s, p as int) >= lsp.completion.min_word_length {
            &&& completion_requested(ocs, ncs, s, p)
            &&& asked == uri_known
        } else {
            ncs == ocs && !asked
        }
    } else if ocs.visible {
        &&& !ncs.visible
        &&& ncs.filter@.len() == 0
        &&& ncs.items == ocs.items
        &&& ncs.word_items == ocs.word_items
        &&& ncs.selected_index == ocs.selected_index
        &&& ncs.scroll_offset == ocs.scroll_offset
        &&& ncs.start_char_index == ocs.start_char_index
        &&& ncs.is_incomplete == ocs.is_incomplete
        &&& !asked
    } else {
        ncs == ocs && !asked
    }
}

/// The request asking for completions at `p` (clamped) in text `s`: its
/// line, and its char in the line.
pub open spec fn completion_request_at(req: LspRequest, s: Seq<char>, p: usize) -> bool {
    let q = min_usize(p, s.len() as usize) as int;
    let l = crate::text::breaks_before(s, q) as int;
    req matches LspRequest::Completion { line, character } && line == l as u32 && character == (q
        - crate::text::line_start(s, l)) as u32
}

/// The char `c` is typed (giving text view `t1`), an opening bracket's
/// closing one goes in after the cursor (giving `t2`), and a quote's closing
/// one too (giving `nt`).
pub open spec fn typed_and_closed(
    os: SelectionState,
    ns: SelectionState,
    oh: EditHistoryState,
    nh: EditHistoryState,
    oc: CursorState,
    nc: CursorState,
    ot: TextViewState,
    t1: TextViewState,
    t2: TextViewState,
    nt: TextViewState,
    brackets: BracketSettings,
    c: char,
) -> bool {
    let p = nc.cursor_pos;
    &&& typed(os, ns, oh, nh, oc, nc, ot, t1, c)
    &&& match (if brackets.auto_close { closing_bracket(c, brackets.pairs@) } else { None }) {
        Some(cl) => closing_inserted(t1, t2, p, cl),
        None => t2 == t1,
    }
    &&& if brackets.auto_close_quotes && is_quote(c) && quote_closes(c, rope_chars(t2.rope), p as int) {
        closing_inserted(t2, nt, p, c)
    } else {
        nt == t2
    }
}

/// The steps of typing `c`: the char is typed (giving text view `t1`), an
/// opening bracket's closing one goes in after the cursor (giving `t2`), a
/// quote's closing one too (giving `nt`); the server is told of the change
/// and completion follows, `asked` telling whether the server is asked for
/// completions.
pub open spec fn typing_trace(
    os: SelectionState,
    ns: SelectionState,
    oh: EditHistoryState,
    nh: EditHistoryState,
    oc: CursorState,
    nc: CursorState,
    ot: TextViewState,
    t1: TextViewState,
    t2: TextViewState,
    nt: TextViewState,
    brackets: BracketSettings,
    lsp: LspSettings,
    ocs: CompletionState,
    ncs: CompletionState,
    osync: LspSyncState,
    nsync: LspSyncState,
    reqs: Seq<LspRequest>,
    c: char,
    asked: bool,
) -> bool {
    let p = nc.cursor_pos;
    let s = rope_chars(nt.rope);
    let k: int = if osync.document_uri is Some { 1 } else { 0 };
    &&& typed_and_closed(os, ns, oh, nh, oc, nc, ot, t1, t2, nt, brackets, c)
    &&& reqs.len() == k + (if asked { 1int } else { 0 })
    &&& did_change_sent(osync, nsync, s, reqs.take(k))
    &&& completion_after_typing(lsp, c, s, p, ocs, ncs, osync.document_uri is Some, asked)
    &&& asked ==> completion_request_at(reqs[k], s, p)
}

/// Type `c`, then the closing bracket or quote it calls for. The text views
/// after typing and after the closing bracket come back.
fn type_and_close(
    state: &mut CodeEditorState,
    sel: &mut SelectionState,
    hist: &mut EditHistoryState,
    cursor: &mut CursorState,
    tv: &mut TextViewState,
    brackets: &BracketSettings,
    c: char,
) -> (views: Ghost<(TextViewState, TextViewState)>)
    requires
        selection_fits(*old(sel), rope_chars(old(tv).rope).len() as int),
    ensures
        *final(state) == *old(state),
        typed_and_closed(*old(sel), *final(sel), *old(hist), *final(hist), *old(cursor), *final(cursor), *old(tv), views@.0, views@.1, *final(tv), *brackets, c),
        1 <= final(cursor).cursor_pos <= rope_chars(final(tv).rope).len(),
{
    insert_char(state, sel, hist, cursor, tv, c);
    let ghost t1 = *tv;
    proof {
        lemma_typed_cursor(*old(sel), *sel, *old(hist), *hist, *old(cursor), *cursor, *old(tv), *tv, c);
    }
    if brackets.auto_close {
        match get_closing_bracket(c, brackets.pairs.as_slice()) {
            Some(closing) => insert_closing_char(state, cursor, tv, closing),
            None => {},
        }
    }
    let ghost t2 = *tv;
    if brackets.auto_close_quotes && get_closing_quote(c).is_some() {
        let cur_pos = cursor.cursor_pos;
        let should_close = if c == '\'' {
            if cur_pos >= 2 {
                !is_alphanumeric(rope_char(&tv.rope, cur_pos - 2))
            } else {
                true
            }
        } else {
            true
        };
        if should_close {
            insert_closing_char(state, cursor, tv, c);
        }
    }
    Ghost((t1, t2))
}

/// Let completion follow the char `c` just typed; a request for the server
/// comes back when completion opens and the server knows the document.
fn completion_after_char(
    cursor: &CursorState,
    tv: &TextViewState,
    lsp: &LspSettings,
    completion_state: &mut CompletionState,
    lsp_sync: &LspSyncState,
    c: char,
) -> (r: Option<LspRequest>)
    requires
        cursor.cursor_pos <= rope_chars(tv.rope).len(),
    ensures
        completion_after_typing(
            *lsp,
            c,
            rope_chars(tv.rope),
            cursor.cursor_pos,
            *old(completion_state),
            *final(completion_state),
            lsp_sync.document_uri is Some,
            r is Some,
        ),
        r matches Some(req) ==> completion_request_at(req, rope_chars(tv.rope), cursor.cursor_pos),
{
    if !lsp.completion.enabled {
        return None;
    }
    let cursor_pos = cursor.cursor_pos;
    if trigger_typed(&lsp.completion.trigger_characters, c, tv, cursor_pos) {
        completion_state.visible = false;
        request_completion(cursor, &tv.rope, completion_state, lsp_sync)
    } else if word_char(c) {
        if completion_state.visible {
            update_completion_filter(cursor, &tv.rope, completion_state);
            None
        } else {
            let word_start = find_word_start(&tv.rope, cursor_pos);
            let word_len = cursor_pos - word_start;
            if word_len >= lsp.completion.min_word_length {
                completion_state.start_char_index = word_start;
                request_completion(cursor, &tv.rope, completion_state, lsp_sync)
            } else {
                None
            }
        }
    } else {
        if completion_state.visible {
            completion_state.visible = false;
            completion_state.filter = String::new();
        }
        None
    }
}

/// Handle a char typed on the keyboard. Control chars are ignored. A quote
/// or closing bracket about to be typed over the same char steps over it.
/// Otherwise the char replaces the selection; an opening bracket or a quote
/// gets its closing char after the cursor; the server is told of the change;
/// and completion follows what was typed. The messages for the server come
/// back, in order.
pub fn handle_typed_char(
    state: &mut CodeEditorState,
    sel: &mut SelectionState,
    hist: &mut EditHistoryState,
    cursor: &mut CursorState,
    tv: &mut TextViewState,
    brackets: &BracketSettings,
    lsp: &LspSettings,
    completion_state: &mut CompletionState,
    lsp_sync: &mut LspSyncState,
    c: char,
) -> (requests: Vec<LspRequest>)
    requires
        selection_fits(*old(sel), rope_chars(old(tv).rope).len() as int),
    ensures
        *final(state) == *old(state),
        ({
            let s = rope_chars(old(tv).rope);
            let p = old(cursor).cursor_pos as int;
            if char_is_control(c) {
                &&& *final(sel) == *old(sel) && *final(hist) == *old(hist) && *final(cursor) == *old(cursor)
                &&& *final(tv) == *old(tv) && *final(completion_state) == *old(completion_state)
                &&& *final(lsp_sync) == *old(lsp_sync) && requests@.len() == 0
            } else if steps_over(*brackets, c, s, p) {
                &&& final(cursor).cursor_pos == p + 1
                &&& final(cursor).cursors == old(cursor).cursors
                &&& *final(tv) == (TextViewState { pending_update: true, ..*old(tv) })
                &&& *final(sel) == *old(sel) && *final(hist) == *old(hist)
                &&& *final(completion_state) == *old(completion_state)
                &&& *final(lsp_sync) == *old(lsp_sync) && requests@.len() == 0
            } else {
                exists|t1: TextViewState, t2: TextViewState, asked: bool|
                    #![trigger typing_trace(*old(sel), *final(sel), *old(hist), *final(hist), *old(cursor), *final(cursor), *old(tv), t1, t2, *final(tv), *brackets, *lsp, *old(completion_state), *final(completion_state), *old(lsp_sync), *final(lsp_sync), requests@, c, asked)]
                    typing_trace(*old(sel), *final(sel), *old(hist), *final(hist), *old(cursor), *final(cursor), *old(tv), t1, t2, *final(tv), *brackets, *lsp, *old(completion_state), *final(completion_state), *old(lsp_sync), *final(lsp_sync), requests@, c, asked)
            }
        }),
{
    let mut requests: Vec<LspRequest> = Vec::new();
    if is_control(c) {
        return requests;
    }
    let ghost s = rope_chars(tv.rope);
    let is_quote_char = get_closing_quote(c).is_some();
    let mut is_closing = false;
    let mut i: usize = 0;
    while i < brackets.pairs.len()
        invariant
            0 <= i <= brackets.pairs@.len(),
            is_closing == exists|j: int| 0 <= j < i && #[trigger] brackets.pairs@[j].1 == c,
        decreases brackets.pairs@.len() - i,
    {
        if brackets.pairs[i].1 == c {
            is_closing = true;
        }
        i += 1;
    }
    if ((brackets.auto_close_quotes && is_quote_char) || (brackets.auto_close && is_closing))
        && should_skip_auto_close(cursor, &tv.rope, c) {
        state.move_cursor(cursor, &tv.rope, 1);
        tv.pending_update = true;
        return requests;
    }
    let views = type_and_close(state, sel, hist, cursor, tv, brackets, c);
    let ghost t1 = views@.0;
    let ghost t2 = views@.1;
    match send_did_change(&tv.rope, lsp_sync) {
        Some(req) => requests.push(req),
        None => {},
    }
    let asked = match completion_after_char(cursor, tv, lsp, completion_state, lsp_sync, c) {
        Some(req) => {
            requests.push(req);
            true
        },
        None => false,
    };
    proof {
        assert(requests@.take(if old(lsp_sync).document_uri is Some { 1int } else { 0 }) =~= requests@.take(
            if old(lsp_sync).document_uri is Some { 1int } else { 0 },
        ));
        assert(typing_trace(*old(sel), *sel, *old(hist), *hist, *old(cursor), *cursor, *old(tv), t1, t2, *tv, *brackets, *lsp, *old(completion_state), *completion_state, *old(lsp_sync), *lsp_sync, requests@, c, asked));
    }
    requests
}

/// The action being repeated while its key is held, with times in
/// milliseconds on a clock that never goes back.
#[derive(Clone, Copy, Debug, PartialEq, Eq, Structural)]
pub struct KeyRepeatState {
    pub current_action: Option<EditorAction>,
    /// When its key went down.
    pub press_start_ms: Option<u64>,
    /// When it last repeated.
    pub last_repeat_ms: Option<u64>,
}

impl KeyRepeatState {
    /// Nothing held.
    pub fn new() -> (r: Self)
        ensures
            r == (KeyRepeatState { current_action: None, press_start_ms: None, last_repeat_ms: None }),
    {
        KeyRepeatState { current_action: None, press_start_ms: None, last_repeat_ms: None }
    }

    /// `action` was just pressed at `now_ms`: a repeatable one starts to be
    /// held; others leave the state alone.
    pub fn on_pressed(&mut self, action: EditorAction, now_ms: u64)
        ensures
            *final(self) == (if repeatable(action) {
                KeyRepeatState { current_action: Some(action), press_start_ms: Some(now_ms), last_repeat_ms: None }
            } else {
                *old(self)
            }),
    {
        if action.is_repeatable() {
            self.current_action = Some(action);
            self.press_start_ms = Some(now_ms);
            self.last_repeat_ms = None;
        }
    }

    /// At `now_ms`, with the held action's key still down or not (`held`):
    /// once the initial delay has passed since the press, the action repeats
    /// every `repeat_delay_ms`; a released key ends the repetition. The
    /// action to run now, if any, comes back.
    pub fn poll(&mut self, held: bool, now_ms: u64, initial_delay_ms: u64, repeat_delay_ms: u64) -> (r: Option<EditorAction>)
        ensures
            match old(self).current_action {
                None => r is None && *final(self) == *old(self),
                Some(a) => if !held {
                    r is None && *final(self) == KeyRepeatState::new_spec()
                } else {
                    match old(self).press_start_ms {
                        None => r is None && *final(self) == *old(self),
                        Some(start) => {
                            let due = sat_elapsed(now_ms, start) >= initial_delay_ms && match old(self).last_repeat_ms {
                                Some(last) => sat_elapsed(now_ms, last) >= repeat_delay_ms,
                                None => true,
                            };
                            if due {
                                r == Some(a) && *final(self) == (KeyRepeatState { last_repeat_ms: Some(now_ms), ..*old(self) })
                            } else {
                                r is None && *final(self) == *old(self)
                            }
                        },
                    }
                },
            },
    {
        match self.current_action {
            None => None,
            Some(a) => {
                if !held {
                    self.current_action = None;
                    self.press_start_ms = None;
                    self.last_repeat_ms = None;
                    return None;
                }
                match self.press_start_ms {
                    None => None,
                    Some(start) => {
                        if now_ms.saturating_sub(start) >= initial_delay_ms {
                            let should_repeat = match self.last_repeat_ms {
                                Some(last) => now_ms.saturating_sub(last) >= repeat_delay_ms,
                                None => true,
                            };
                            if should_repeat {
                                self.last_repeat_ms = Some(now_ms);
                                return Some(a);
                            }
                        }
                        None
                    },
                }
            },
        }
    }

    pub open spec fn new_spec() -> KeyRepeatState {
        KeyRepeatState { current_action: None, press_start_ms: None, last_repeat_ms: None }
    }
}

/// Milliseconds from `then` to `now`, 0 when `now` is earlier.
pub open spec fn sat_elapsed(now: u64, then: u64) -> u64 {
    if now >= then { (now - then) as u64 } else { 0 }
}

/// `String::push`: appends `c`.
#[verifier::external_body]
fn string_push(s: &mut String, c: char)
    ensures
        final(s)@ == old(s)@.push(c),
{
    s.push(c)
}

/// `String::pop`: removes and returns the last char, if any.
#[verifier::external_body]
fn string_pop(s: &mut String) -> (r: Option<char>)
    ensures
        old(s)@.len() == 0 ==> r is None && final(s)@ == old(s)@,
        old(s)@.len() > 0 ==> r == Some(old(s)@.last()) && final(s)@ == old(s)@.drop_last(),
{
    s.pop()
}

/// A key press while the rename prompt shows.
#[derive(Clone, Copy, Debug, PartialEq, Eq, Structural)]
pub enum RenameKey {
    /// A typed char.
    Char(char),
    Space,
    Backspace,
    Enter,
    Escape,
    /// Any other key.
    Other,
}

/// A rename to ask the server for: at `position`, to `new_name`.
pub struct RenameRequest {
    pub position: LspPosition,
    pub new_name: String,
}

/// Handle a key while the rename prompt shows: typed chars (but control
/// chars) and spaces extend the new name, Backspace shortens it, Escape
/// closes the prompt, and Enter closes it after asking for the rename when
/// the name can be submitted, the position is known and the server knows
/// the document. The rename to ask for comes back.
pub fn handle_rename_key(rename_state: &mut RenameState, key: RenameKey, document_known: bool) -> (r: Option<RenameRequest>)
    ensures
        match key {
            RenameKey::Char(c) => r is None && if char_is_control(c) {
                *final(rename_state) == *old(rename_state)
            } else {
                final(rename_state).new_name@ == old(rename_state).new_name@.push(c) && same_but_name(
                    *old(rename_state),
                    *final(rename_state),
                )
            },
            RenameKey::Space => r is None && final(rename_state).new_name@ == old(rename_state).new_name@.push(' ')
                && same_but_name(*old(rename_state), *final(rename_state)),
            RenameKey::Backspace => r is None && final(rename_state).new_name@ == (if old(rename_state).new_name@.len() == 0 {
                old(rename_state).new_name@
            } else {
                old(rename_state).new_name@.drop_last()
            }) && same_but_name(*old(rename_state), *final(rename_state)),
            RenameKey::Enter => {
                &&& rename_cleared(*final(rename_state))
                &&& if old(rename_state).visible && old(rename_state).new_name@.len() > 0 && old(rename_state).new_name@
                    != old(rename_state).original_text@ && old(rename_state).position is Some && document_known {
                    r matches Some(req) && req.position == old(rename_state).position->0 && req.new_name@ == old(
                        rename_state,
                    ).new_name@
                } else {
                    r is None
                }
            },
            RenameKey::Escape => r is None && rename_cleared(*final(rename_state)),
            RenameKey::Other => r is None && *final(rename_state) == *old(rename_state),
        },
{
    match key {
        RenameKey::Char(c) => {
            if !is_control(c) {
                string_push(&mut rename_state.new_name, c);
            }
            None
        },
        RenameKey::Space => {
            string_push(&mut rename_state.new_name, ' ');
            None
        },
        RenameKey::Backspace => {
            let _ = string_pop(&mut rename_state.new_name);
            None
        },
        RenameKey::Enter => {
            let mut request = None;
            if rename_state.can_submit() && document_known {
                match rename_state.position {
                    Some(position) => {
                        request = Some(RenameRequest { position, new_name: rename_state.new_name.clone() });
                    },
                    None => {},
                }
            }
            rename_state.reset();
            request
        },
        RenameKey::Escape => {
            rename_state.reset();
            None
        },
        RenameKey::Other => None,
    }
}

/// The rename prompt is the same but for the new name.
pub open spec fn same_but_name(a: RenameState, b: RenameState) -> bool {
    &&& b.visible == a.visible
    &&& b.range == a.range
    &&& b.original_text == a.original_text
    &&& b.position == a.position
    &&& b.preparing == a.preparing
    &&& b.error == a.error
}

/// Handle the space bar: a space is typed (replacing the selection), the
/// server is told of the change, and completion hides.
pub fn handle_space(
    state: &mut CodeEditorState,
    sel: &mut SelectionState,
    hist: &mut EditHistoryState,
    cursor: &mut CursorState,
    tv: &mut TextViewState,
    completion_state: &mut CompletionState,
    lsp_sync: &mut LspSyncState,
) -> (requests: Vec<LspRequest>)
    requires
        selection_fits(*old(sel), rope_chars(old(tv).rope).len() as int),
    ensures
        *final(state) == *old(state),
        typed(*old(sel), *final(sel), *old(hist), *final(hist), *old(cursor), *final(cursor), *old(tv), *final(tv), ' '),
        did_change_sent(*old(lsp_sync), *final(lsp_sync), rope_chars(final(tv).rope), requests@),
        *final(completion_state) == (CompletionState { visible: false, ..*old(completion_state) }),
{
    let mut requests: Vec<LspRequest> = Vec::new();
    insert_char(state, sel, hist, cursor, tv, ' ');
    match send_did_change(&tv.rope, lsp_sync) {
        Some(req) => requests.push(req),
        None => {},
    }
    completion_state.visible = false;
    requests
}

/// What a key action that the editor does not run on the text itself asks
/// for.
pub enum SpecialAction {
    /// Save the buffer: the host gets the whole text.
    Save { content: String },
    /// Open a file: the host is told.
    Open,
    /// Renaming started at the cursor; the position to ask the server
    /// whether rename is possible there comes with it when the server offers
    /// that question.
    Rename { prepare_at: Option<LspPosition> },
    /// Renaming was asked for where the server cannot rename, or does not
    /// know the document: nothing happens.
    Ignored,
}

/// The server can rename symbols.
pub open spec fn rename_supported(caps: ServerCapabilitiesCache) -> bool {
    caps.inner matches Some(c) && match c.rename_provider {
        Some(RenameProvider::Simple(b)) => b,
        Some(RenameProvider::Options { .. }) => true,
        None => false,
    }
}

/// The server offers to say beforehand whether rename is possible.
pub open spec fn prepare_rename_supported(caps: ServerCapabilitiesCache) -> bool {
    caps.inner matches Some(c) && c.rename_provider == Some(RenameProvider::Options { prepare_provider: Some(true) })
}

/// Handle the key actions that are not run on the text: saving hands the
/// text to the host, opening tells the host, and renaming starts a rename
/// at the cursor when the server can rename and knows the document. Any
/// other action comes back as none, to be run on the text.
pub fn handle_special_action(
    action: EditorAction,
    caps: &ServerCapabilitiesCache,
    sync: &LspSyncState,
    cursor: &CursorState,
    rope: &Rope,
    rename: &mut RenameState,
) -> (r: Option<SpecialAction>)
    ensures
        match action {
            EditorAction::Save => r matches Some(SpecialAction::Save { content }) && content@ == rope_chars(*rope)
                && *final(rename) == *old(rename),
            EditorAction::Open => r matches Some(SpecialAction::Open) && *final(rename) == *old(rename),
            EditorAction::RenameSymbol => if rename_supported(*caps) && sync.document_uri is Some {
                let pos = lsp_position_of(rope_chars(*rope), cursor.cursor_pos as int);
                &&& rename_preparing(*final(rename), pos)
                &&& r matches Some(SpecialAction::Rename { prepare_at })
                &&& prepare_at == (if prepare_rename_supported(*caps) { Some(pos) } else { None })
            } else {
                r matches Some(SpecialAction::Ignored) && *final(rename) == *old(rename)
            },
            _ => r is None && *final(rename) == *old(rename),
        },
{
    match action {
        EditorAction::Save => {
            let len = rope_len_chars(rope);
            let content = rope_slice_string(rope, 0, len);
            proof {
                assert(rope_chars(*rope).subrange(0, len as int) =~= rope_chars(*rope));
            }
            Some(SpecialAction::Save { content })
        },
        EditorAction::Open => Some(SpecialAction::Open),
        EditorAction::RenameSymbol => {
            if caps.supports_rename() && sync.document_uri.is_some() {
                let position = lsp_position_at(rope, cursor.cursor_pos);
                rename.start_prepare(position);
                let prepare_at = if caps.supports_prepare_rename() {
                    Some(position)
                } else {
                    None
                };
                Some(SpecialAction::Rename { prepare_at })
            } else {
                Some(SpecialAction::Ignored)
            }
        },
        _ => None,
    }
}

} // verus!
