//! Undo history: every edit of the text is recorded as the chars it removed
//! and inserted at one position, so that it can be undone and redone.

use vstd::prelude::*;

verus! {

/// What kind of edit an operation was.
#[derive(Clone, Copy, Debug, PartialEq, Eq, Structural)]
pub enum EditKind {
    Insert,
    DeleteBackward,
    DeleteForward,
    Paste,
    Other,
}

/// One recorded edit: at `position`, `removed_text` was replaced by
/// `inserted_text`; the cursor stood at `cursor_before` and then at
/// `cursor_after`.
#[derive(Clone, Debug)]
pub struct EditOperation {
    pub removed_text: String,
    pub inserted_text: String,
    pub position: usize,
    pub cursor_before: usize,
    pub cursor_after: usize,
    pub kind: EditKind,
}

/// The text after `op` is applied to `text`.
pub open spec fn apply_op(text: Seq<char>, op: EditOperation) -> Seq<char> {
    text.take(op.position as int) + op.inserted_text@ + text.skip(op.position + op.removed_text@.len())
}

/// The text after `op` is undone on `text`.
pub open spec fn revert_op(text: Seq<char>, op: EditOperation) -> Seq<char> {
    text.take(op.position as int) + op.removed_text@ + text.skip(op.position + op.inserted_text@.len())
}

/// `op` was recorded on `text`: the chars it removed are those of `text` at
/// its position.
pub open spec fn recorded_on(text: Seq<char>, op: EditOperation) -> bool {
    &&& op.position + op.removed_text@.len() <= text.len()
    &&& text.subrange(op.position as int, op.position + op.removed_text@.len()) == op.removed_text@
}

/// `op` can be undone on `text`: its inserted chars are there.
pub open spec fn undoable_on(text: Seq<char>, op: EditOperation) -> bool {
    op.position + op.inserted_text@.len() <= text.len()
}

/// `op` can be redone on `text`: its removed chars fit there.
pub open spec fn redoable_on(text: Seq<char>, op: EditOperation) -> bool {
    op.position + op.removed_text@.len() <= text.len()
}

/// The undo and redo stacks; the last operation of each is the next to go.
#[derive(Clone, Debug)]
pub struct EditHistory {
    pub undo_stack: Vec<EditOperation>,
    pub redo_stack: Vec<EditOperation>,
}

impl EditHistory {
    /// An empty history.
    pub fn new() -> (r: Self)
        ensures
            r.undo_stack@.len() == 0,
            r.redo_stack@.len() == 0,
    {
        EditHistory { undo_stack: Vec::new(), redo_stack: Vec::new() }
    }

    /// Record a new edit: it becomes the next to undo, and nothing can be
    /// redone any more.
    pub fn record(&mut self, op: EditOperation)
        ensures
            final(self).undo_stack@ == old(self).undo_stack@.push(op),
            final(self).redo_stack@.len() == 0,
    {
        self.undo_stack.push(op);
        self.redo_stack.clear();
    }

    /// Whether there is an edit to undo.
    pub fn can_undo(&self) -> (r: bool)
        ensures
            r == (self.undo_stack@.len() > 0),
    {
        self.undo_stack.len() > 0
    }

    /// Whether there is an edit to redo.
    pub fn can_redo(&self) -> (r: bool)
        ensures
            r == (self.redo_stack@.len() > 0),
    {
        self.redo_stack.len() > 0
    }
}

/// `op` is in effect on `text`: the chars it inserted stand at its position.
pub open spec fn in_effect_on(text: Seq<char>, op: EditOperation) -> bool {
    &&& op.position + op.inserted_text@.len() <= text.len()
    &&& text.subrange(op.position as int, op.position + op.inserted_text@.len()) == op.inserted_text@
}

/// The edit history of an editor.
#[derive(Clone, Debug)]
pub struct EditHistoryState {
    pub history: EditHistory,
}

impl EditHistoryState {
    /// An empty history.
    pub fn new() -> (r: Self)
        ensures
            r.history.undo_stack@.len() == 0,
            r.history.redo_stack@.len() == 0,
    {
        EditHistoryState { history: EditHistory::new() }
    }
}

/// Undoing an edit restores the text it was recorded on.
pub proof fn law_undo_restores(text: Seq<char>, op: EditOperation)
    requires
        recorded_on(text, op),
    ensures
        undoable_on(apply_op(text, op), op),
        revert_op(apply_op(text, op), op) == text,
{
    let p = op.position as int;
    let after = apply_op(text, op);
    let n = op.removed_text@.len();
    let m = op.inserted_text@.len();
    assert(after.take(p) =~= text.take(p));
    assert(after.skip(p + m) =~= text.skip(p + n));
    assert(revert_op(after, op) =~= text.take(p) + text.subrange(p, p + n) + text.skip(p + n));
    assert(text.take(p) + text.subrange(p, p + n) + text.skip(p + n) =~= text);
}

/// Redoing an undone edit gives back the text the edit had made.
pub proof fn law_redo_reapplies(text: Seq<char>, op: EditOperation)
    requires
        recorded_on(text, op),
    ensures
        redoable_on(revert_op(apply_op(text, op), op), op),
        apply_op(revert_op(apply_op(text, op), op), op) == apply_op(text, op),
{
    law_undo_restores(text, op);
}

/// Redoing an edit right after undoing it gives back the text it was undone
/// on, wherever that edit is still in effect.
pub proof fn law_undo_then_redo(text: Seq<char>, op: EditOperation)
    requires
        in_effect_on(text, op),
    ensures
        redoable_on(revert_op(text, op), op),
        apply_op(revert_op(text, op), op) == text,
{
    let p = op.position as int;
    let n = op.removed_text@.len();
    let m = op.inserted_text@.len();
    let before = revert_op(text, op);
    assert(before.take(p) =~= text.take(p));
    assert(before.skip(p + n) =~= text.skip(p + m));
    assert(text.take(p) + text.subrange(p, p + m) + text.skip(p + m) =~= text);
}

} // verus!
