//! Editor settings that the editing logic reads.

use vstd::prelude::*;

verus! {

/// How indentation is typed.
#[derive(Clone, Copy, Debug, PartialEq, Eq, Structural)]
pub struct IndentationSettings {
    /// Spaces a Tab key press inserts.
    pub tab_width: usize,
}

/// Which brackets and quotes close themselves.
#[derive(Clone, Debug)]
pub struct BracketSettings {
    /// Whether typing an opening bracket inserts its closing one.
    pub auto_close: bool,
    /// Whether typing a quote inserts its closing one.
    pub auto_close_quotes: bool,
    /// Opening and closing bracket pairs.
    pub pairs: Vec<(char, char)>,
}

/// When completion pops up and how much of it shows.
#[derive(Clone, Debug)]
pub struct CompletionSettings {
    /// Whether typing asks for completion at all.
    pub enabled: bool,
    /// Strings whose typing asks for completion at once.
    pub trigger_characters: Vec<String>,
    /// Length of the identifier typed before completion is asked for.
    pub min_word_length: usize,
    /// Rows the completion list shows.
    pub max_visible_items: usize,
}

/// When hovering shows the server's information.
#[derive(Clone, Copy, Debug, PartialEq, Eq, Structural)]
pub struct HoverSettings {
    /// Whether hovering asks the server at all.
    pub enabled: bool,
    /// How long the pointer rests on a char before the server is asked.
    pub delay_ms: u64,
}

/// Language-server settings.
#[derive(Clone, Debug)]
pub struct LspSettings {
    pub completion: CompletionSettings,
}

} // verus!
