//! Requests the editor raises for the language-server side to act on.

use vstd::prelude::*;

verus! {

/// The text changed: bytes `start_byte..old_end_byte` became
/// `start_byte..new_end_byte`, giving content version `content_version`.
#[derive(Clone, Copy, Debug, PartialEq, Eq, Structural)]
pub struct TextEditEvent {
    pub start_byte: usize,
    pub old_end_byte: usize,
    pub new_end_byte: usize,
    pub content_version: u64,
}

impl TextEditEvent {
    pub fn new(start_byte: usize, old_end_byte: usize, new_end_byte: usize, content_version: u64) -> (r: Self)
        ensures
            r == (TextEditEvent { start_byte, old_end_byte, new_end_byte, content_version }),
    {
        TextEditEvent { start_byte, old_end_byte, new_end_byte, content_version }
    }
}

/// Completion is wanted at a line and a char in it.
#[derive(Clone, Copy, Debug, PartialEq, Eq, Structural)]
pub struct RequestCompletionEvent {
    pub line: usize,
    pub character: usize,
}

impl RequestCompletionEvent {
    pub fn new(line: usize, character: usize) -> (r: Self)
        ensures
            r == (RequestCompletionEvent { line, character }),
    {
        RequestCompletionEvent { line, character }
    }
}

/// Hover information is wanted at a line and a char in it.
#[derive(Clone, Copy, Debug, PartialEq, Eq, Structural)]
pub struct RequestHoverEvent {
    pub line: usize,
    pub character: usize,
}

impl RequestHoverEvent {
    pub fn new(line: usize, character: usize) -> (r: Self)
        ensures
            r == (RequestHoverEvent { line, character }),
    {
        RequestHoverEvent { line, character }
    }
}

/// Renaming the symbol at a line and a char in it is wanted.
#[derive(Clone, Copy, Debug, PartialEq, Eq, Structural)]
pub struct RequestRenameEvent {
    pub line: usize,
    pub character: usize,
}

impl RequestRenameEvent {
    pub fn new(line: usize, character: usize) -> (r: Self)
        ensures
            r == (RequestRenameEvent { line, character }),
    {
        RequestRenameEvent { line, character }
    }
}

/// Signature help is wanted at a line and a char in it.
#[derive(Clone, Copy, Debug, PartialEq, Eq, Structural)]
pub struct RequestSignatureHelpEvent {
    pub line: usize,
    pub character: usize,
}

impl RequestSignatureHelpEvent {
    pub fn new(line: usize, character: usize) -> (r: Self)
        ensures
            r == (RequestSignatureHelpEvent { line, character }),
    {
        RequestSignatureHelpEvent { line, character }
    }
}

/// The completion popup is to close.
#[derive(Clone, Copy, Debug, PartialEq, Eq, Structural)]
pub struct DismissCompletionEvent;

/// The completion item at `item_index` is to be inserted.
#[derive(Clone, Copy, Debug, PartialEq, Eq, Structural)]
pub struct ApplyCompletionEvent {
    pub item_index: usize,
}

impl ApplyCompletionEvent {
    pub fn new(item_index: usize) -> (r: Self)
        ensures
            r == (ApplyCompletionEvent { item_index }),
    {
        ApplyCompletionEvent { item_index }
    }
}

} // verus!
