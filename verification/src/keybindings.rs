//! The actions that key bindings trigger, and the bindings from keys with
//! modifiers to actions.

use vstd::prelude::*;

verus! {

/// An action of the editor that a key binding can trigger.
#[derive(Debug, Clone, Copy, PartialEq, Eq, Hash, Structural)]
pub enum EditorAction {
    DeleteBackward,
    DeleteForward,
    DeleteWordBackward,
    DeleteWordForward,
    DeleteLine,
    InsertNewline,
    InsertTab,
    MoveCursorLeft,
    MoveCursorRight,
    MoveCursorUp,
    MoveCursorDown,
    MoveCursorWordLeft,
    MoveCursorWordRight,
    MoveCursorLineStart,
    MoveCursorLineEnd,
    MoveCursorDocumentStart,
    MoveCursorDocumentEnd,
    MoveCursorPageUp,
    MoveCursorPageDown,
    SelectLeft,
    SelectRight,
    SelectUp,
    SelectDown,
    SelectWordLeft,
    SelectWordRight,
    SelectLineStart,
    SelectLineEnd,
    SelectAll,
    ClearSelection,
    Copy,
    Cut,
    Paste,
    Undo,
    Redo,
    Find,
    FindNext,
    FindPrevious,
    Replace,
    GotoLine,
    RequestCompletion,
    GotoDefinition,
    /// Rename the symbol at the cursor.
    RenameSymbol,
    /// Add a cursor at the next occurrence of the selection.
    AddCursorAtNextOccurrence,
    /// Add a cursor on the line above.
    AddCursorAbove,
    /// Add a cursor on the line below.
    AddCursorBelow,
    /// Keep only the primary cursor.
    ClearSecondaryCursors,
    /// Fold or unfold the region at the cursor's line.
    ToggleFold,
    /// Fold the region at the cursor's line.
    Fold,
    /// Unfold the region at the cursor's line.
    Unfold,
    /// Fold every region.
    FoldAll,
    /// Unfold every region.
    UnfoldAll,
    /// Save the buffer: the host application is told.
    Save,
    /// Open a file: the host application is told.
    Open,
}

/// The actions that repeat while their key is held: deletion, cursor and
/// selection movement by chars, lines and words, undo and redo.
pub open spec fn repeatable(a: EditorAction) -> bool {
    match a {
        EditorAction::DeleteBackward | EditorAction::DeleteForward | EditorAction::DeleteWordBackward
        | EditorAction::DeleteWordForward | EditorAction::MoveCursorLeft | EditorAction::MoveCursorRight
        | EditorAction::MoveCursorUp | EditorAction::MoveCursorDown | EditorAction::MoveCursorWordLeft
        | EditorAction::MoveCursorWordRight | EditorAction::SelectLeft | EditorAction::SelectRight
        | EditorAction::SelectUp | EditorAction::SelectDown | EditorAction::SelectWordLeft
        | EditorAction::SelectWordRight | EditorAction::Undo | EditorAction::Redo => true,
        _ => false,
    }
}

impl EditorAction {
    /// Whether this action repeats while its key is held down.
    pub fn is_repeatable(&self) -> (r: bool)
        ensures
            r == repeatable(*self),
    {
        match self {
            EditorAction::DeleteBackward | EditorAction::DeleteForward | EditorAction::DeleteWordBackward
            | EditorAction::DeleteWordForward | EditorAction::MoveCursorLeft | EditorAction::MoveCursorRight
            | EditorAction::MoveCursorUp | EditorAction::MoveCursorDown | EditorAction::MoveCursorWordLeft
            | EditorAction::MoveCursorWordRight | EditorAction::SelectLeft | EditorAction::SelectRight
            | EditorAction::SelectUp | EditorAction::SelectDown | EditorAction::SelectWordLeft
            | EditorAction::SelectWordRight | EditorAction::Undo | EditorAction::Redo => true,
            _ => false,
        }
    }
}

/// A key of the keyboard, as far as bindings tell keys apart.
#[derive(Clone, Copy, Debug, PartialEq, Eq, Hash, Structural)]
pub enum KeyCode {
    Backspace,
    Delete,
    Enter,
    Tab,
    Escape,
    Space,
    ArrowLeft,
    ArrowRight,
    ArrowUp,
    ArrowDown,
    Home,
    End,
    PageUp,
    PageDown,
    /// A function key, by its number.
    F(u8),
    /// A letter key, by its upper-case letter.
    Letter(char),
    /// Any other key, by a code of the host's.
    Other(u32),
}

/// The modifier keys held down (either of each pair).
#[derive(Clone, Copy, Debug, PartialEq, Eq, Hash, Structural)]
pub struct Modifiers {
    pub ctrl: bool,
    pub shift: bool,
    pub alt: bool,
    pub meta: bool,
}

/// A key together with the modifiers that must be held, and only those.
#[derive(Clone, Copy, Debug, PartialEq, Eq, Hash, Structural)]
pub struct KeyBinding {
    pub key: KeyCode,
    pub ctrl: bool,
    pub shift: bool,
    pub alt: bool,
    pub meta: bool,
}

/// The binding a key press with `mods` held is.
pub open spec fn pressed_binding(key: KeyCode, mods: Modifiers) -> KeyBinding {
    KeyBinding { key, ctrl: mods.ctrl, shift: mods.shift, alt: mods.alt, meta: mods.meta }
}

impl KeyBinding {
    /// The key alone.
    pub fn key(key: KeyCode) -> (r: Self)
        ensures
            r == (KeyBinding { key, ctrl: false, shift: false, alt: false, meta: false }),
    {
        KeyBinding { key, ctrl: false, shift: false, alt: false, meta: false }
    }

    /// The key with Ctrl.
    pub fn ctrl(key: KeyCode) -> (r: Self)
        ensures
            r == (KeyBinding { key, ctrl: true, shift: false, alt: false, meta: false }),
    {
        KeyBinding { key, ctrl: true, shift: false, alt: false, meta: false }
    }

    /// The key with Shift.
    pub fn shift(key: KeyCode) -> (r: Self)
        ensures
            r == (KeyBinding { key, ctrl: false, shift: true, alt: false, meta: false }),
    {
        KeyBinding { key, ctrl: false, shift: true, alt: false, meta: false }
    }

    /// The key with Ctrl and Shift.
    pub fn ctrl_shift(key: KeyCode) -> (r: Self)
        ensures
            r == (KeyBinding { key, ctrl: true, shift: true, alt: false, meta: false }),
    {
        KeyBinding { key, ctrl: true, shift: true, alt: false, meta: false }
    }

    /// The key with Alt.
    pub fn alt(key: KeyCode) -> (r: Self)
        ensures
            r == (KeyBinding { key, ctrl: false, shift: false, alt: true, meta: false }),
    {
        KeyBinding { key, ctrl: false, shift: false, alt: true, meta: false }
    }

    /// Whether pressing `key` with `mods` held is this binding: the same key,
    /// and each modifier held exactly when the binding wants it.
    pub fn matches(&self, key: KeyCode, mods: Modifiers) -> (r: bool)
        ensures
            r == (*self == pressed_binding(key, mods)),
    {
        key == self.key && mods.ctrl == self.ctrl && mods.shift == self.shift && mods.alt == self.alt
            && mods.meta == self.meta
    }
}

/// The map of a list of bindings: later entries win.
pub open spec fn binding_map(s: Seq<(KeyBinding, EditorAction)>) -> Map<KeyBinding, EditorAction>
    decreases s.len(),
{
    if s.len() == 0 {
        Map::empty()
    } else {
        binding_map(s.drop_last()).insert(s.last().0, s.last().1)
    }
}

/// No binding occurs twice in the list.
pub open spec fn distinct_bindings(s: Seq<(KeyBinding, EditorAction)>) -> bool {
    forall|i: int, j: int| 0 <= i < j < s.len() ==> #[trigger] s[i].0 != #[trigger] s[j].0
}

proof fn lemma_binding_map_at(s: Seq<(KeyBinding, EditorAction)>, i: int)
    requires
        distinct_bindings(s),
        0 <= i < s.len(),
    ensures
        binding_map(s).contains_key(s[i].0),
        binding_map(s)[s[i].0] == s[i].1,
    decreases s.len(),
{
    if i < s.len() - 1 {
        let d = s.drop_last();
        assert(d[i] == s[i]);
        lemma_binding_map_at(d, i);
        assert(s[i].0 != s[s.len() - 1].0);
    }
}

proof fn lemma_binding_map_absent(s: Seq<(KeyBinding, EditorAction)>, k: KeyBinding)
    requires
        forall|i: int| 0 <= i < s.len() ==> #[trigger] s[i].0 != k,
    ensures
        !binding_map(s).contains_key(k),
    decreases s.len(),
{
    if s.len() > 0 {
        let d = s.drop_last();
        assert forall|i: int| 0 <= i < d.len() implies #[trigger] d[i].0 != k by {
            assert(d[i] == s[i]);
        }
        lemma_binding_map_absent(d, k);
        assert(s[s.len() - 1].0 != k);
    }
}

proof fn lemma_binding_map_keys(s: Seq<(KeyBinding, EditorAction)>, k: KeyBinding)
    requires
        binding_map(s).contains_key(k),
    ensures
        exists|i: int| 0 <= i < s.len() && #[trigger] s[i].0 == k,
    decreases s.len(),
{
    if s.len() > 0 && s.last().0 != k {
        let d = s.drop_last();
        lemma_binding_map_keys(d, k);
        let i = choose|i: int| 0 <= i < d.len() && #[trigger] d[i].0 == k;
        assert(s[i].0 == k);
    } else if s.len() > 0 {
        assert(s[s.len() - 1].0 == k);
    }
}

/// Two distinct lists with the same entries for every binding have the
/// same map.
proof fn lemma_binding_map_ext(s: Seq<(KeyBinding, EditorAction)>, t: Seq<(KeyBinding, EditorAction)>, m: Map<KeyBinding, EditorAction>)
    requires
        distinct_bindings(s),
        forall|k: KeyBinding| #[trigger] m.contains_key(k) <==> exists|i: int| 0 <= i < s.len() && s[i].0 == k,
        forall|i: int| 0 <= i < s.len() ==> m.contains_key(#[trigger] s[i].0) && m[s[i].0] == s[i].1,
    ensures
        binding_map(s) == m,
{
    assert forall|k: KeyBinding| #[trigger] binding_map(s).contains_key(k) <==> m.contains_key(k) by {
        if binding_map(s).contains_key(k) {
            lemma_binding_map_keys(s, k);
        }
        if m.contains_key(k) {
            let i = choose|i: int| 0 <= i < s.len() && s[i].0 == k;
            lemma_binding_map_at(s, i);
        }
    }
    assert forall|k: KeyBinding| #[trigger] binding_map(s).contains_key(k) implies binding_map(s)[k] == m[k] by {
        lemma_binding_map_keys(s, k);
        let i = choose|i: int| 0 <= i < s.len() && #[trigger] s[i].0 == k;
        lemma_binding_map_at(s, i);
    }
    assert(binding_map(s) =~= m);
}

/// The key alone, as a binding.
pub open spec fn plain_binding(key: KeyCode) -> KeyBinding {
    KeyBinding { key, ctrl: false, shift: false, alt: false, meta: false }
}

/// The key with Ctrl, as a binding.
pub open spec fn ctrl_binding(key: KeyCode) -> KeyBinding {
    KeyBinding { key, ctrl: true, shift: false, alt: false, meta: false }
}

/// The key with Shift, as a binding.
pub open spec fn shift_binding(key: KeyCode) -> KeyBinding {
    KeyBinding { key, ctrl: false, shift: true, alt: false, meta: false }
}

/// The key with Ctrl and Shift, as a binding.
pub open spec fn ctrl_shift_binding(key: KeyCode) -> KeyBinding {
    KeyBinding { key, ctrl: true, shift: true, alt: false, meta: false }
}

/// The default bindings, in the manner of common code editors.
pub open spec fn default_binding_map() -> Map<KeyBinding, EditorAction> {
    Map::<KeyBinding, EditorAction>::empty()
        .insert(plain_binding(KeyCode::Backspace), EditorAction::DeleteBackward)
        .insert(plain_binding(KeyCode::Delete), EditorAction::DeleteForward)
        .insert(ctrl_binding(KeyCode::Backspace), EditorAction::DeleteWordBackward)
        .insert(ctrl_binding(KeyCode::Delete), EditorAction::DeleteWordForward)
        .insert(ctrl_binding(KeyCode::Letter('K')), EditorAction::DeleteLine)
        .insert(plain_binding(KeyCode::Enter), EditorAction::InsertNewline)
        .insert(plain_binding(KeyCode::Tab), EditorAction::InsertTab)
        .insert(plain_binding(KeyCode::ArrowLeft), EditorAction::MoveCursorLeft)
        .insert(plain_binding(KeyCode::ArrowRight), EditorAction::MoveCursorRight)
        .insert(plain_binding(KeyCode::ArrowUp), EditorAction::MoveCursorUp)
        .insert(plain_binding(KeyCode::ArrowDown), EditorAction::MoveCursorDown)
        .insert(ctrl_binding(KeyCode::ArrowLeft), EditorAction::MoveCursorWordLeft)
        .insert(ctrl_binding(KeyCode::ArrowRight), EditorAction::MoveCursorWordRight)
        .insert(plain_binding(KeyCode::Home), EditorAction::MoveCursorLineStart)
        .insert(plain_binding(KeyCode::End), EditorAction::MoveCursorLineEnd)
        .insert(ctrl_binding(KeyCode::Home), EditorAction::MoveCursorDocumentStart)
        .insert(ctrl_binding(KeyCode::End), EditorAction::MoveCursorDocumentEnd)
        .insert(plain_binding(KeyCode::PageUp), EditorAction::MoveCursorPageUp)
        .insert(plain_binding(KeyCode::PageDown), EditorAction::MoveCursorPageDown)
        .insert(shift_binding(KeyCode::ArrowLeft), EditorAction::SelectLeft)
        .insert(shift_binding(KeyCode::ArrowRight), EditorAction::SelectRight)
        .insert(shift_binding(KeyCode::ArrowUp), EditorAction::SelectUp)
        .insert(shift_binding(KeyCode::ArrowDown), EditorAction::SelectDown)
        .insert(ctrl_shift_binding(KeyCode::ArrowLeft), EditorAction::SelectWordLeft)
        .insert(ctrl_shift_binding(KeyCode::ArrowRight), EditorAction::SelectWordRight)
        .insert(shift_binding(KeyCode::Home), EditorAction::SelectLineStart)
        .insert(shift_binding(KeyCode::End), EditorAction::SelectLineEnd)
        .insert(ctrl_binding(KeyCode::Letter('A')), EditorAction::SelectAll)
        .insert(plain_binding(KeyCode::Escape), EditorAction::ClearSelection)
        .insert(ctrl_binding(KeyCode::Letter('C')), EditorAction::Copy)
        .insert(ctrl_binding(KeyCode::Letter('X')), EditorAction::Cut)
        .insert(ctrl_binding(KeyCode::Letter('V')), EditorAction::Paste)
        .insert(ctrl_binding(KeyCode::Letter('Z')), EditorAction::Undo)
        .insert(ctrl_binding(KeyCode::Letter('Y')), EditorAction::Redo)
        .insert(ctrl_shift_binding(KeyCode::Letter('Z')), EditorAction::Redo)
        .insert(ctrl_binding(KeyCode::Letter('F')), EditorAction::Find)
        .insert(plain_binding(KeyCode::F(3)), EditorAction::FindNext)
        .insert(shift_binding(KeyCode::F(3)), EditorAction::FindPrevious)
        .insert(ctrl_binding(KeyCode::Letter('H')), EditorAction::Replace)
        .insert(ctrl_binding(KeyCode::Space), EditorAction::RequestCompletion)
}

/// Which action each key binding triggers.
///
/// The bindings are a list in which no key binding occurs twice, read as a
/// map. A `HashMap` keyed by `KeyBinding` would hash a struct through a
/// derived `Hash`, and Verus's specification of `HashMap` proves nothing of
/// lookups for such keys; the list lets `get_action`, `bind` and `unbind`
/// carry exact contracts.
pub struct Keybindings {
    bindings: Vec<(KeyBinding, EditorAction)>,
}

impl View for Keybindings {
    type V = Map<KeyBinding, EditorAction>;

    closed spec fn view(&self) -> Map<KeyBinding, EditorAction> {
        binding_map(self.bindings@)
    }
}

impl Keybindings {
    /// No binding occurs twice.
    pub closed spec fn wf(&self) -> bool {
        distinct_bindings(self.bindings@)
    }

    /// No bindings.
    pub fn new() -> (r: Self)
        ensures
            r.wf(),
            r@ == Map::<KeyBinding, EditorAction>::empty(),
    {
        Keybindings { bindings: Vec::new() }
    }

    /// Index of the entry for `key`, if any.
    fn find(&self, key: &KeyBinding) -> (r: Option<usize>)
        requires
            self.wf(),
        ensures
            match r {
                Some(i) => i < self.bindings@.len() && self.bindings@[i as int].0 == *key,
                None => forall|i: int| 0 <= i < self.bindings@.len() ==> #[trigger] self.bindings@[i].0 != *key,
            },
    {
        let mut i: usize = 0;
        while i < self.bindings.len()
            invariant
                i <= self.bindings@.len(),
                forall|j: int| 0 <= j < i ==> #[trigger] self.bindings@[j].0 != *key,
            decreases self.bindings@.len() - i,
        {
            if self.bindings[i].0 == *key {
                return Some(i);
            }
            i += 1;
        }
        None
    }

    /// Bind `key` to `action`, replacing what it was bound to.
    pub fn bind(&mut self, key: KeyBinding, action: EditorAction)
        requires
            old(self).wf(),
        ensures
            final(self).wf(),
            final(self)@ == old(self)@.insert(key, action),
    {
        let ghost s = self.bindings@;
        match self.find(&key) {
            Some(i) => {
                self.bindings.set(i, (key, action));
                proof {
                    let t = self.bindings@;
                    let m = binding_map(s).insert(key, action);
                    assert forall|a: int, b: int| 0 <= a < b < t.len() implies #[trigger] t[a].0 != #[trigger] t[b].0 by {
                        assert(s[a].0 != s[b].0);
                    }
                    assert forall|k: KeyBinding| #[trigger] m.contains_key(k) <==> exists|j: int| 0 <= j < t.len() && t[j].0 == k by {
                        if k == key {
                            assert(t[i as int].0 == k);
                        } else if m.contains_key(k) {
                            lemma_binding_map_keys(s, k);
                            let j = choose|j: int| 0 <= j < s.len() && #[trigger] s[j].0 == k;
                            assert(t[j].0 == k);
                        } else if exists|j: int| 0 <= j < t.len() && t[j].0 == k {
                            let j = choose|j: int| 0 <= j < t.len() && t[j].0 == k;
                            assert(s[j].0 == k);
                            lemma_binding_map_at(s, j);
                        }
                    }
                    assert forall|j: int| 0 <= j < t.len() implies m.contains_key(#[trigger] t[j].0) && m[t[j].0] == t[j].1 by {
                        if j != i {
                            lemma_binding_map_at(s, j);
                            assert(s[j].0 != s[i as int].0);
                        }
                    }
                    lemma_binding_map_ext(t, t, m);
                }
            },
            None => {
                self.bindings.push((key, action));
                proof {
                    assert(self.bindings@.drop_last() =~= s);
                }
            },
        }
    }

    /// Drop the binding of `key`, if any.
    pub fn unbind(&mut self, key: &KeyBinding)
        requires
            old(self).wf(),
        ensures
            final(self).wf(),
            final(self)@ == old(self)@.remove(*key),
    {
        let ghost s = self.bindings@;
        match self.find(key) {
            Some(i) => {
                self.bindings.remove(i);
                proof {
                    let t = self.bindings@;
                    let m = binding_map(s).remove(*key);
                    assert forall|a: int, b: int| 0 <= a < b < t.len() implies #[trigger] t[a].0 != #[trigger] t[b].0 by {
                        let a2 = if a < i { a } else { a + 1 };
                        let b2 = if b < i { b } else { b + 1 };
                        assert(t[a] == s[a2] && t[b] == s[b2]);
                    }
                    assert forall|k: KeyBinding| #[trigger] m.contains_key(k) <==> exists|j: int| 0 <= j < t.len() && t[j].0 == k by {
                        if m.contains_key(k) {
                            lemma_binding_map_keys(s, k);
                            let j = choose|j: int| 0 <= j < s.len() && #[trigger] s[j].0 == k;
                            assert(j != i);
                            let j2 = if j < i { j } else { j - 1 };
                            assert(t[j2].0 == k);
                        }
                        if exists|j: int| 0 <= j < t.len() && t[j].0 == k {
                            let j = choose|j: int| 0 <= j < t.len() && t[j].0 == k;
                            let j2 = if j < i { j } else { j + 1 };
                            assert(s[j2].0 == k);
                            assert(s[j2].0 != s[i as int].0);
                            lemma_binding_map_at(s, j2);
                        }
                    }
                    assert forall|j: int| 0 <= j < t.len() implies m.contains_key(#[trigger] t[j].0) && m[t[j].0] == t[j].1 by {
                        let j2 = if j < i { j } else { j + 1 };
                        assert(t[j] == s[j2]);
                        lemma_binding_map_at(s, j2);
                        assert(s[j2].0 != s[i as int].0);
                    }
                    lemma_binding_map_ext(t, t, m);
                }
            },
            None => {
                proof {
                    lemma_binding_map_absent(s, *key);
                    assert(binding_map(s).remove(*key) =~= binding_map(s));
                }
            },
        }
    }

    /// The action that pressing `key` with `mods` held triggers, if any.
    pub fn get_action(&self, key: KeyCode, mods: Modifiers) -> (r: Option<EditorAction>)
        requires
            self.wf(),
        ensures
            r == (if self@.contains_key(pressed_binding(key, mods)) {
                Some(self@[pressed_binding(key, mods)])
            } else {
                None
            }),
    {
        let mut i: usize = 0;
        while i < self.bindings.len()
            invariant
                self.wf(),
                i <= self.bindings@.len(),
                forall|j: int| 0 <= j < i ==> #[trigger] self.bindings@[j].0 != pressed_binding(key, mods),
            decreases self.bindings@.len() - i,
        {
            if self.bindings[i].0.matches(key, mods) {
                proof {
                    lemma_binding_map_at(self.bindings@, i as int);
                }
                return Some(self.bindings[i].1);
            }
            i += 1;
        }
        proof {
            lemma_binding_map_absent(self.bindings@, pressed_binding(key, mods));
        }
        None
    }

    /// The default bindings, in the manner of common code editors.
    pub fn default_bindings() -> (r: Self)
        ensures
            r.wf(),
            r@ == default_binding_map(),
    {
        let mut kb = Keybindings::new();
        kb.bind(KeyBinding::key(KeyCode::Backspace), EditorAction::DeleteBackward);
        kb.bind(KeyBinding::key(KeyCode::Delete), EditorAction::DeleteForward);
        kb.bind(KeyBinding::ctrl(KeyCode::Backspace), EditorAction::DeleteWordBackward);
        kb.bind(KeyBinding::ctrl(KeyCode::Delete), EditorAction::DeleteWordForward);
        kb.bind(KeyBinding::ctrl(KeyCode::Letter('K')), EditorAction::DeleteLine);
        kb.bind(KeyBinding::key(KeyCode::Enter), EditorAction::InsertNewline);
        kb.bind(KeyBinding::key(KeyCode::Tab), EditorAction::InsertTab);
        kb.bind(KeyBinding::key(KeyCode::ArrowLeft), EditorAction::MoveCursorLeft);
        kb.bind(KeyBinding::key(KeyCode::ArrowRight), EditorAction::MoveCursorRight);
        kb.bind(KeyBinding::key(KeyCode::ArrowUp), EditorAction::MoveCursorUp);
        kb.bind(KeyBinding::key(KeyCode::ArrowDown), EditorAction::MoveCursorDown);
        kb.bind(KeyBinding::ctrl(KeyCode::ArrowLeft), EditorAction::MoveCursorWordLeft);
        kb.bind(KeyBinding::ctrl(KeyCode::ArrowRight), EditorAction::MoveCursorWordRight);
        kb.bind(KeyBinding::key(KeyCode::Home), EditorAction::MoveCursorLineStart);
        kb.bind(KeyBinding::key(KeyCode::End), EditorAction::MoveCursorLineEnd);
        kb.bind(KeyBinding::ctrl(KeyCode::Home), EditorAction::MoveCursorDocumentStart);
        kb.bind(KeyBinding::ctrl(KeyCode::End), EditorAction::MoveCursorDocumentEnd);
        kb.bind(KeyBinding::key(KeyCode::PageUp), EditorAction::MoveCursorPageUp);
        kb.bind(KeyBinding::key(KeyCode::PageDown), EditorAction::MoveCursorPageDown);
        kb.bind(KeyBinding::shift(KeyCode::ArrowLeft), EditorAction::SelectLeft);
        kb.bind(KeyBinding::shift(KeyCode::ArrowRight), EditorAction::SelectRight);
        kb.bind(KeyBinding::shift(KeyCode::ArrowUp), EditorAction::SelectUp);
        kb.bind(KeyBinding::shift(KeyCode::ArrowDown), EditorAction::SelectDown);
        kb.bind(KeyBinding::ctrl_shift(KeyCode::ArrowLeft), EditorAction::SelectWordLeft);
        kb.bind(KeyBinding::ctrl_shift(KeyCode::ArrowRight), EditorAction::SelectWordRight);
        kb.bind(KeyBinding::shift(KeyCode::Home), EditorAction::SelectLineStart);
        kb.bind(KeyBinding::shift(KeyCode::End), EditorAction::SelectLineEnd);
        kb.bind(KeyBinding::ctrl(KeyCode::Letter('A')), EditorAction::SelectAll);
        kb.bind(KeyBinding::key(KeyCode::Escape), EditorAction::ClearSelection);
        kb.bind(KeyBinding::ctrl(KeyCode::Letter('C')), EditorAction::Copy);
        kb.bind(KeyBinding::ctrl(KeyCode::Letter('X')), EditorAction::Cut);
        kb.bind(KeyBinding::ctrl(KeyCode::Letter('V')), EditorAction::Paste);
        kb.bind(KeyBinding::ctrl(KeyCode::Letter('Z')), EditorAction::Undo);
        kb.bind(KeyBinding::ctrl(KeyCode::Letter('Y')), EditorAction::Redo);
        kb.bind(KeyBinding::ctrl_shift(KeyCode::Letter('Z')), EditorAction::Redo);
        kb.bind(KeyBinding::ctrl(KeyCode::Letter('F')), EditorAction::Find);
        kb.bind(KeyBinding::key(KeyCode::F(3)), EditorAction::FindNext);
        kb.bind(KeyBinding::shift(KeyCode::F(3)), EditorAction::FindPrevious);
        kb.bind(KeyBinding::ctrl(KeyCode::Letter('H')), EditorAction::Replace);
        kb.bind(KeyBinding::ctrl(KeyCode::Space), EditorAction::RequestCompletion);
        kb
    }

    /// Bindings for vim users: for now the default ones.
    pub fn vim_bindings() -> (r: Self)
        ensures
            r.wf(),
            r@ == default_binding_map(),
    {
        Keybindings::default_bindings()
    }
}

impl Default for Keybindings {
    /// The default bindings.
    fn default() -> (r: Self)
        ensures
            r.wf(),
            r@ == default_binding_map(),
    {
        Keybindings::default_bindings()
    }
}

/// Binding a key makes pressing it (with exactly its modifiers) trigger the
/// action bound, and leaves every other binding as it was; unbinding it makes
/// pressing it trigger nothing.
pub proof fn law_bind_and_unbind(m: Map<KeyBinding, EditorAction>, b: KeyBinding, a: EditorAction, other: KeyBinding)
    requires
        other != b,
    ensures
        m.insert(b, a).contains_key(b) && m.insert(b, a)[b] == a,
        m.insert(b, a).contains_key(other) == m.contains_key(other),
        m.contains_key(other) ==> m.insert(b, a)[other] == m[other],
        !m.remove(b).contains_key(b),
        m.remove(b).contains_key(other) == m.contains_key(other),
        m.contains_key(other) ==> m.remove(b)[other] == m[other],
{
}

} // verus!
