//! What the editor keeps of the language server: the capabilities it
//! announced, and the state of the rename prompt and of inlay hints.

use vstd::prelude::*;
use crate::lsp_edits::LspPosition;

verus! {

/// A range of the protocol.
#[derive(Clone, Copy, Debug, PartialEq, Eq, Structural)]
pub struct LspRange {
    pub start: LspPosition,
    pub end: LspPosition,
}

/// A capability announced either as a plain flag or with options (which
/// means it is there).
#[derive(Clone, Copy, Debug, PartialEq, Eq, Structural)]
pub enum Provider {
    Simple(bool),
    Options,
}

/// The rename capability: a flag, or options that may offer prepare-rename.
#[derive(Clone, Copy, Debug, PartialEq, Eq, Structural)]
pub enum RenameProvider {
    Simple(bool),
    Options { prepare_provider: Option<bool> },
}

/// Options of a capability that has trigger characters.
#[derive(Clone, Debug)]
pub struct TriggerOptions {
    pub trigger_characters: Option<Vec<String>>,
}

/// The server capabilities the editor checks.
#[derive(Clone, Debug)]
pub struct ServerCaps {
    pub completion_provider: Option<TriggerOptions>,
    pub hover_provider: Option<Provider>,
    pub definition_provider: Option<Provider>,
    pub references_provider: Option<Provider>,
    pub document_formatting_provider: Option<Provider>,
    pub signature_help_provider: Option<TriggerOptions>,
    pub code_action_provider: Option<Provider>,
    pub inlay_hint_provider: Option<Provider>,
    pub document_highlight_provider: Option<Provider>,
    pub rename_provider: Option<RenameProvider>,
}

/// A capability is there: announced with options or as a true flag.
pub open spec fn provided(p: Option<Provider>) -> bool {
    match p {
        Some(Provider::Simple(b)) => b,
        Some(Provider::Options) => true,
        None => false,
    }
}

fn provided_exec(p: Option<Provider>) -> (r: bool)
    ensures
        r == provided(p),
{
    match p {
        Some(Provider::Simple(b)) => b,
        Some(Provider::Options) => true,
        None => false,
    }
}

/// The trigger characters of a capability, if it announced any.
pub open spec fn triggers_of(o: Option<TriggerOptions>) -> Seq<Seq<char>> {
    match o {
        Some(opts) => match opts.trigger_characters {
            Some(v) => v@.map_values(|s: String| s@),
            None => Seq::empty(),
        },
        None => Seq::empty(),
    }
}

fn copy_strings(v: &Vec<String>) -> (r: Vec<String>)
    ensures
        r@.map_values(|s: String| s@) == v@.map_values(|s: String| s@),
{
    let mut r: Vec<String> = Vec::new();
    let mut i: usize = 0;
    while i < v.len()
        invariant
            0 <= i <= v@.len(),
            r@.len() == i,
            forall|k: int| 0 <= k < i ==> #[trigger] r@[k]@ == v@[k]@,
        decreases v@.len() - i,
    {
        let c = v[i].clone();
        r.push(c);
        i += 1;
    }
    assert(r@.map_values(|s: String| s@) =~= v@.map_values(|s: String| s@));
    r
}

fn triggers_exec(o: &Option<TriggerOptions>) -> (r: Vec<String>)
    ensures
        r@.map_values(|s: String| s@) == triggers_of(*o),
{
    match o {
        Some(opts) => match &opts.trigger_characters {
            Some(v) => copy_strings(v),
            None => {
                let r: Vec<String> = Vec::new();
                assert(r@.map_values(|s: String| s@) =~= Seq::<Seq<char>>::empty());
                r
            },
        },
        None => {
            let r: Vec<String> = Vec::new();
            assert(r@.map_values(|s: String| s@) =~= Seq::<Seq<char>>::empty());
            r
        },
    }
}

/// The capabilities of the server, once it announced them.
#[derive(Clone, Debug)]
pub struct ServerCapabilitiesCache {
    pub inner: Option<ServerCaps>,
}

/// The kinds of message the editor sends to the server.
#[derive(Clone, Copy, Debug, PartialEq, Eq, Structural)]
pub enum LspMessageKind {
    Initialize,
    Initialized,
    DidOpen,
    DidChange,
    ExecuteCommand,
    Completion,
    Hover,
    GotoDefinition,
    References,
    Format,
    SignatureHelp,
    CodeAction,
    InlayHint,
    DocumentHighlight,
    PrepareRename,
    Rename,
}

impl ServerCapabilitiesCache {
    /// No capabilities known yet.
    pub fn new() -> (r: Self)
        ensures
            r.inner is None,
    {
        ServerCapabilitiesCache { inner: None }
    }

    /// Keep the capabilities the server announced.
    pub fn set(&mut self, capabilities: ServerCaps)
        ensures
            final(self).inner == Some(capabilities),
    {
        self.inner = Some(capabilities);
    }

    pub fn supports_completion(&self) -> (r: bool)
        ensures
            r == (self.inner matches Some(c) && c.completion_provider is Some),
    {
        match &self.inner {
            Some(c) => c.completion_provider.is_some(),
            None => false,
        }
    }

    pub fn supports_hover(&self) -> (r: bool)
        ensures
            r == (self.inner matches Some(c) && provided(c.hover_provider)),
    {
        match &self.inner {
            Some(c) => provided_exec(c.hover_provider),
            None => false,
        }
    }

    pub fn supports_definition(&self) -> (r: bool)
        ensures
            r == (self.inner matches Some(c) && provided(c.definition_provider)),
    {
        match &self.inner {
            Some(c) => provided_exec(c.definition_provider),
            None => false,
        }
    }

    pub fn supports_references(&self) -> (r: bool)
        ensures
            r == (self.inner matches Some(c) && provided(c.references_provider)),
    {
        match &self.inner {
            Some(c) => provided_exec(c.references_provider),
            None => false,
        }
    }

    pub fn supports_formatting(&self) -> (r: bool)
        ensures
            r == (self.inner matches Some(c) && provided(c.document_formatting_provider)),
    {
        match &self.inner {
            Some(c) => provided_exec(c.document_formatting_provider),
            None => false,
        }
    }

    pub fn supports_signature_help(&self) -> (r: bool)
        ensures
            r == (self.inner matches Some(c) && c.signature_help_provider is Some),
    {
        match &self.inner {
            Some(c) => c.signature_help_provider.is_some(),
            None => false,
        }
    }

    pub fn supports_code_actions(&self) -> (r: bool)
        ensures
            r == (self.inner matches Some(c) && provided(c.code_action_provider)),
    {
        match &self.inner {
            Some(c) => provided_exec(c.code_action_provider),
            None => false,
        }
    }

    pub fn supports_inlay_hints(&self) -> (r: bool)
        ensures
            r == (self.inner matches Some(c) && provided(c.inlay_hint_provider)),
    {
        match &self.inner {
            Some(c) => provided_exec(c.inlay_hint_provider),
            None => false,
        }
    }

    /// Trigger characters of signature help (none without it).
    pub fn signature_help_triggers(&self) -> (r: Vec<String>)
        ensures
            r@.map_values(|s: String| s@) == (match self.inner {
                Some(c) => triggers_of(c.signature_help_provider),
                None => Seq::empty(),
            }),
    {
        match &self.inner {
            Some(c) => triggers_exec(&c.signature_help_provider),
            None => {
                let r: Vec<String> = Vec::new();
                assert(r@.map_values(|s: String| s@) =~= Seq::<Seq<char>>::empty());
                r
            },
        }
    }

    /// Trigger characters of completion (none without it).
    pub fn completion_triggers(&self) -> (r: Vec<String>)
        ensures
            r@.map_values(|s: String| s@) == (match self.inner {
                Some(c) => triggers_of(c.completion_provider),
                None => Seq::empty(),
            }),
    {
        match &self.inner {
            Some(c) => triggers_exec(&c.completion_provider),
            None => {
                let r: Vec<String> = Vec::new();
                assert(r@.map_values(|s: String| s@) =~= Seq::<Seq<char>>::empty());
                r
            },
        }
    }

    pub fn supports_document_highlight(&self) -> (r: bool)
        ensures
            r == (self.inner matches Some(c) && provided(c.document_highlight_provider)),
    {
        match &self.inner {
            Some(c) => provided_exec(c.document_highlight_provider),
            None => false,
        }
    }

    pub fn supports_rename(&self) -> (r: bool)
        ensures
            r == (self.inner matches Some(c) && match c.rename_provider {
                Some(RenameProvider::Simple(b)) => b,
                Some(RenameProvider::Options { .. }) => true,
                None => false,
            }),
    {
        match &self.inner {
            Some(c) => match c.rename_provider {
                Some(RenameProvider::Simple(b)) => b,
                Some(RenameProvider::Options { .. }) => true,
                None => false,
            },
            None => false,
        }
    }

    /// Whether the server offers prepare-rename: only rename options can say so.
    pub fn supports_prepare_rename(&self) -> (r: bool)
        ensures
            r == (self.inner matches Some(c) && c.rename_provider == Some(
                RenameProvider::Options { prepare_provider: Some(true) },
            )),
    {
        match &self.inner {
            Some(c) => match c.rename_provider {
                Some(RenameProvider::Options { prepare_provider }) => match prepare_provider {
                    Some(b) => b,
                    None => false,
                },
                _ => false,
            },
            None => false,
        }
    }
}

/// Whether a message may go to the server: set-up messages and document
/// notifications always, requests only when the server announced the
/// capability.
pub open spec fn may_send(caps: ServerCapabilitiesCache, kind: LspMessageKind) -> bool {
    match caps.inner {
        None => kind is Initialize || kind is Initialized || kind is DidOpen || kind is DidChange
            || kind is ExecuteCommand,
        Some(c) => match kind {
            LspMessageKind::Completion => c.completion_provider is Some,
            LspMessageKind::Hover => provided(c.hover_provider),
            LspMessageKind::GotoDefinition => provided(c.definition_provider),
            LspMessageKind::References => provided(c.references_provider),
            LspMessageKind::Format => provided(c.document_formatting_provider),
            LspMessageKind::SignatureHelp => c.signature_help_provider is Some,
            LspMessageKind::CodeAction => provided(c.code_action_provider),
            LspMessageKind::InlayHint => provided(c.inlay_hint_provider),
            LspMessageKind::DocumentHighlight => provided(c.document_highlight_provider),
            LspMessageKind::PrepareRename => c.rename_provider == Some(
                RenameProvider::Options { prepare_provider: Some(true) },
            ),
            LspMessageKind::Rename => match c.rename_provider {
                Some(RenameProvider::Simple(b)) => b,
                Some(RenameProvider::Options { .. }) => true,
                None => false,
            },
            _ => true,
        },
    }
}

/// Whether a message of kind `message` may go to the server, given its
/// capabilities.
pub fn should_send(capabilities: &ServerCapabilitiesCache, message: LspMessageKind) -> (r: bool)
    ensures
        r == may_send(*capabilities, message),
{
    match message {
        LspMessageKind::Initialize | LspMessageKind::Initialized | LspMessageKind::DidOpen
        | LspMessageKind::DidChange | LspMessageKind::ExecuteCommand => true,
        LspMessageKind::Completion => capabilities.supports_completion(),
        LspMessageKind::Hover => capabilities.supports_hover(),
        LspMessageKind::GotoDefinition => capabilities.supports_definition(),
        LspMessageKind::References => capabilities.supports_references(),
        LspMessageKind::Format => capabilities.supports_formatting(),
        LspMessageKind::SignatureHelp => capabilities.supports_signature_help(),
        LspMessageKind::CodeAction => capabilities.supports_code_actions(),
        LspMessageKind::InlayHint => capabilities.supports_inlay_hints(),
        LspMessageKind::DocumentHighlight => capabilities.supports_document_highlight(),
        LspMessageKind::PrepareRename => capabilities.supports_prepare_rename(),
        LspMessageKind::Rename => capabilities.supports_rename(),
    }
}

/// State of the rename prompt.
pub struct RenameState {
    pub visible: bool,
    /// The range being renamed.
    pub range: Option<LspRange>,
    /// The name as it was.
    pub original_text: String,
    /// The name being typed.
    pub new_name: String,
    /// Where rename started.
    pub position: Option<LspPosition>,
    /// Whether the server is being asked whether rename is possible there.
    pub preparing: bool,
    pub error: Option<String>,
}

/// The prompt is closed and empty.
pub open spec fn rename_cleared(r: RenameState) -> bool {
    &&& !r.visible
    &&& r.range is None
    &&& r.original_text@.len() == 0
    &&& r.new_name@.len() == 0
    &&& r.position is None
    &&& !r.preparing
    &&& r.error is None
}

impl RenameState {
    /// A closed, empty prompt.
    pub fn new() -> (r: Self)
        ensures
            rename_cleared(r),
    {
        RenameState {
            visible: false,
            range: None,
            original_text: String::new(),
            new_name: String::new(),
            position: None,
            preparing: false,
            error: None,
        }
    }

    /// Close the prompt and forget everything.
    pub fn reset(&mut self)
        ensures
            rename_cleared(*final(self)),
    {
        self.visible = false;
        self.range = None;
        self.original_text = String::new();
        self.new_name = String::new();
        self.position = None;
        self.preparing = false;
        self.error = None;
    }

    /// Start asking the server whether rename is possible at `position`.
    pub fn start_prepare(&mut self, position: LspPosition)
        ensures
            final(self).position == Some(position),
            final(self).preparing,
            !final(self).visible,
            final(self).range is None,
            final(self).original_text@.len() == 0,
            final(self).new_name@.len() == 0,
            final(self).error is None,
    {
        self.reset();
        self.position = Some(position);
        self.preparing = true;
    }

    /// The server answered: the prompt shows the range's name to edit.
    pub fn on_prepare_response(&mut self, range: LspRange, placeholder: Option<String>)
        ensures
            !final(self).preparing,
            final(self).range == Some(range),
            final(self).visible,
            final(self).original_text@ == (match placeholder {
                Some(p) => p@,
                None => Seq::<char>::empty(),
            }),
            final(self).new_name@ == final(self).original_text@,
            final(self).position == old(self).position,
            final(self).error == old(self).error,
    {
        self.preparing = false;
        self.range = Some(range);
        match placeholder {
            Some(p) => {
                self.original_text = p.clone();
                self.new_name = p;
            },
            None => {
                self.original_text = String::new();
                self.new_name = String::new();
            },
        }
        self.visible = true;
    }

    /// Whether the typed name can go to the server: the prompt shows, and
    /// the name is neither empty nor unchanged.
    pub fn can_submit(&self) -> (r: bool)
        ensures
            r == (self.visible && self.new_name@.len() > 0 && self.new_name@ != self.original_text@),
    {
        self.visible && self.new_name.unicode_len() > 0 && !(self.new_name == self.original_text)
    }
}

/// An inlay hint the server gave: a label at a position.
pub struct InlayHintEntry {
    pub position: LspPosition,
    pub label: String,
}

/// The cached inlay hints.
pub struct InlayHintState {
    pub hints: Vec<InlayHintEntry>,
    /// The range the hints were asked for.
    pub cached_range: Option<LspRange>,
    /// Whether the hints must be asked for again.
    pub needs_refresh: bool,
}

impl InlayHintState {
    /// Whether the lines of `range` lie within the cached range.
    pub fn is_range_cached(&self, range: &LspRange) -> (r: bool)
        ensures
            r == (self.cached_range matches Some(c) && c.start.line <= range.start.line && c.end.line
                >= range.end.line),
    {
        match &self.cached_range {
            Some(cached) => cached.start.line <= range.start.line && cached.end.line >= range.end.line,
            None => false,
        }
    }

    /// Drop the cache and ask for a refresh.
    pub fn invalidate(&mut self)
        ensures
            final(self).hints@.len() == 0,
            final(self).cached_range is None,
            final(self).needs_refresh,
    {
        self.hints.clear();
        self.cached_range = None;
        self.needs_refresh = true;
    }
}

} // verus!
