//! Coordinate mapping, cursor and selection logic of a code editor, with
//! the text buffer held in a `ropey::Rope`.

pub mod text;
pub mod types;
pub mod selection;
pub mod history;
pub mod editor;
pub mod cursor;
pub mod completion;
pub mod search;
pub mod settings;
pub mod keybindings;
pub mod actions;
pub mod keyboard;
pub mod lsp_edits;
pub mod lsp_state;
pub mod lsp_responses;
pub mod timer;
pub mod events;
pub mod lsp_requests;
pub mod highlight;
pub mod mouse;
pub mod display_map;
pub mod line_width;
pub mod lsp_parse;
