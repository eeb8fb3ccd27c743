# bevscode

The editing core of an embeddable code editor, written in Verus. The
functions under `src/` carry contracts that Verus proves, except the small
`#[verifier::external_body]` wrappers around ropey, fuzzy-matcher,
serde_json with lsp-types, and a few `std` calls: their contracts are
believed, and each one's doc comment says what it claims of the call.

- `text`, `types`, `selection`, `history`, `editor`, `cursor`: the text (a
  rope), cursors and selections, typing and deleting, word motions, the
  undo and redo stacks.
- `actions`, `keyboard`, `keybindings`, `mouse`: what key actions, typed
  chars, key bindings, clicks, drags and hovering do to the editor.
- `search`, `completion`, `highlight`: find, completion ranking and popups,
  the parts of lines a selection or horizontal scroll shows.
- `display_map`: folding, soft wrap and tab expansion as composable
  coordinate maps, and the rows of the viewport.
- `lsp_edits`, `lsp_state`, `lsp_requests`, `lsp_parse`, `lsp_responses`,
  `events`, `timer`: the language-server side: positions and edits of the
  protocol, capabilities, debounced requests, which reading of an answer's
  JSON each request takes, and what each answer does.

`tests/` runs the library on concrete values. `app/` is the host side that
Verus does not see: the system clipboard, the language server process and
its JSON-RPC messages, and conversions from the protocol's types.
