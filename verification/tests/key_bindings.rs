use bevscode::keybindings::{EditorAction, KeyBinding, KeyCode, Keybindings, Modifiers};

fn mods(ctrl: bool, shift: bool, alt: bool, meta: bool) -> Modifiers {
    Modifiers { ctrl, shift, alt, meta }
}

#[test]
fn default_bindings_resolve_keys() {
    let kb = Keybindings::default_bindings();
    let none = mods(false, false, false, false);
    let ctrl = mods(true, false, false, false);
    let ctrl_shift = mods(true, true, false, false);
    assert_eq!(kb.get_action(KeyCode::Backspace, none), Some(EditorAction::DeleteBackward));
    assert_eq!(kb.get_action(KeyCode::Backspace, ctrl), Some(EditorAction::DeleteWordBackward));
    assert_eq!(kb.get_action(KeyCode::Letter('Z'), ctrl), Some(EditorAction::Undo));
    assert_eq!(kb.get_action(KeyCode::Letter('Z'), ctrl_shift), Some(EditorAction::Redo));
    assert_eq!(kb.get_action(KeyCode::Letter('Y'), ctrl), Some(EditorAction::Redo));
    assert_eq!(kb.get_action(KeyCode::F(3), mods(false, true, false, false)), Some(EditorAction::FindPrevious));
    assert_eq!(kb.get_action(KeyCode::Space, ctrl), Some(EditorAction::RequestCompletion));
    // Extra modifiers make another binding.
    assert_eq!(kb.get_action(KeyCode::Backspace, mods(false, false, true, false)), None);
    assert_eq!(kb.get_action(KeyCode::Letter('Z'), mods(true, false, false, true)), None);
    let d: Keybindings = Default::default();
    assert_eq!(d.get_action(KeyCode::Enter, none), Some(EditorAction::InsertNewline));
    let v = Keybindings::vim_bindings();
    assert_eq!(v.get_action(KeyCode::Tab, none), Some(EditorAction::InsertTab));
}

#[test]
fn bind_overrides_and_unbind_removes() {
    let mut kb = Keybindings::new();
    let ctrl = mods(true, false, false, false);
    assert_eq!(kb.get_action(KeyCode::Letter('S'), ctrl), None);
    kb.bind(KeyBinding::ctrl(KeyCode::Letter('S')), EditorAction::Save);
    kb.bind(KeyBinding::alt(KeyCode::ArrowUp), EditorAction::AddCursorAbove);
    assert_eq!(kb.get_action(KeyCode::Letter('S'), ctrl), Some(EditorAction::Save));
    kb.bind(KeyBinding::ctrl(KeyCode::Letter('S')), EditorAction::Open);
    assert_eq!(kb.get_action(KeyCode::Letter('S'), ctrl), Some(EditorAction::Open));
    kb.unbind(&KeyBinding::ctrl(KeyCode::Letter('S')));
    assert_eq!(kb.get_action(KeyCode::Letter('S'), ctrl), None);
    assert_eq!(kb.get_action(KeyCode::ArrowUp, mods(false, false, true, false)), Some(EditorAction::AddCursorAbove));
    kb.unbind(&KeyBinding::key(KeyCode::Other(7)));
    assert_eq!(kb.get_action(KeyCode::ArrowUp, mods(false, false, true, false)), Some(EditorAction::AddCursorAbove));
}

#[test]
fn binding_matches_exact_modifiers() {
    let b = KeyBinding::ctrl_shift(KeyCode::ArrowLeft);
    assert!(b.matches(KeyCode::ArrowLeft, mods(true, true, false, false)));
    assert!(!b.matches(KeyCode::ArrowLeft, mods(true, false, false, false)));
    assert!(!b.matches(KeyCode::ArrowRight, mods(true, true, false, false)));
    let s = KeyBinding::shift(KeyCode::Home);
    assert!(s.matches(KeyCode::Home, mods(false, true, false, false)));
    assert!(KeyBinding::key(KeyCode::End).matches(KeyCode::End, mods(false, false, false, false)));
}
