//! Shared editor data types: fold regions and their state, cursors and
//! selections.

use vstd::prelude::*;

verus! {

/// What kind of syntax a fold region covers.
#[derive(Clone, Copy, Debug, PartialEq, Eq, Structural)]
pub enum FoldKind {
    Block,
    Comment,
    Region,
}

/// A foldable range of buffer lines: the start line stays visible when
/// folded, the lines after it up to `end_line` are hidden.
#[derive(Clone, Copy, Debug, PartialEq, Eq, Structural)]
pub struct FoldRegion {
    pub start_line: usize,
    pub end_line: usize,
    pub is_folded: bool,
    pub kind: FoldKind,
}

/// Lines a folded region hides: those after its start line up to its end line.
pub open spec fn region_hidden_lines(r: FoldRegion) -> int {
    if r.end_line >= r.start_line {
        r.end_line - r.start_line
    } else {
        0
    }
}

impl FoldRegion {
    /// A new, unfolded region.
    pub fn new(start_line: usize, end_line: usize, kind: FoldKind) -> (r: Self)
        ensures
            r == (FoldRegion { start_line, end_line, is_folded: false, kind }),
    {
        FoldRegion { start_line, end_line, is_folded: false, kind }
    }

    /// Number of lines hidden when this region is folded.
    pub fn hidden_line_count(&self) -> (r: usize)
        ensures
            r == region_hidden_lines(*self),
    {
        if self.end_line >= self.start_line {
            self.end_line - self.start_line
        } else {
            0
        }
    }
}

/// A cursor: its position, and the anchor of its selection if it has one.
#[derive(Clone, Copy, Debug, PartialEq, Eq, Structural)]
pub struct Cursor {
    pub position: usize,
    pub anchor: Option<usize>,
}

/// Start of the span between a cursor and its anchor.
pub open spec fn cursor_start(c: Cursor) -> usize {
    match c.anchor {
        Some(a) => if a < c.position { a } else { c.position },
        None => c.position,
    }
}

/// End of the span between a cursor and its anchor.
pub open spec fn cursor_end(c: Cursor) -> usize {
    match c.anchor {
        Some(a) => if a > c.position { a } else { c.position },
        None => c.position,
    }
}

impl Cursor {
    /// A cursor without a selection.
    pub fn new(position: usize) -> (r: Self)
        ensures
            r == (Cursor { position, anchor: None }),
    {
        Cursor { position, anchor: None }
    }

    /// A cursor selecting from `anchor` to `position`.
    pub fn with_selection(position: usize, anchor: usize) -> (r: Self)
        ensures
            r == (Cursor { position, anchor: Some(anchor) }),
    {
        Cursor { position, anchor: Some(anchor) }
    }

    /// Whether the cursor selects a non-empty span.
    pub fn has_selection(&self) -> (r: bool)
        ensures
            r == (self.anchor is Some && self.anchor->0 != self.position),
    {
        match self.anchor {
            Some(a) => a != self.position,
            None => false,
        }
    }

    pub fn selection_start(&self) -> (r: usize)
        ensures
            r == cursor_start(*self),
    {
        match self.anchor {
            Some(a) => if a < self.position { a } else { self.position },
            None => self.position,
        }
    }

    pub fn selection_end(&self) -> (r: usize)
        ensures
            r == cursor_end(*self),
    {
        match self.anchor {
            Some(a) => if a > self.position { a } else { self.position },
            None => self.position,
        }
    }
}

/// The primary cursor position and every cursor (the first is the primary).
#[derive(Clone, Debug)]
pub struct CursorState {
    pub cursor_pos: usize,
    pub cursors: Vec<Cursor>,
}

impl CursorState {
    /// A single cursor at the start.
    pub fn new() -> (r: Self)
        ensures
            r.cursor_pos == 0,
            r.cursors@ == seq![Cursor { position: 0, anchor: None }],
    {
        let mut cursors = Vec::new();
        cursors.push(Cursor::new(0));
        CursorState { cursor_pos: 0, cursors }
    }
}

/// A selection of the selection collection: from `anchor` to `head`.
#[derive(Clone, Copy, Debug, PartialEq, Eq, Structural)]
pub struct Selection {
    pub anchor: usize,
    pub head: usize,
}

impl Selection {
    pub fn head_offset(&self) -> (r: usize)
        ensures
            r == self.head,
    {
        self.head
    }

    pub fn anchor_offset(&self) -> (r: usize)
        ensures
            r == self.anchor,
    {
        self.anchor
    }

    /// Whether the selection spans at least one char.
    pub fn has_selection(&self) -> (r: bool)
        ensures
            r == (self.anchor != self.head),
    {
        self.anchor != self.head
    }

    /// The selected span, start first.
    pub fn range(&self) -> (r: (usize, usize))
        ensures
            r == (if self.anchor <= self.head {
                (self.anchor, self.head)
            } else {
                (self.head, self.anchor)
            }),
    {
        if self.anchor <= self.head {
            (self.anchor, self.head)
        } else {
            (self.head, self.anchor)
        }
    }
}

/// An edit waiting to be applied to the selections: `deleted` chars removed at
/// `position` and `inserted` chars put there.
#[derive(Clone, Copy, Debug, PartialEq, Eq, Structural)]
pub struct PendingEdit {
    pub position: usize,
    pub deleted: usize,
    pub inserted: usize,
}

/// Offset `o` after edit `e`: unchanged before the edit, moved past the
/// inserted text inside the deleted span, shifted by the change in length
/// after it (saturating at `usize::MAX`).
pub open spec fn shift_offset(o: usize, e: PendingEdit) -> usize {
    if o <= e.position {
        o
    } else if o >= e.position + e.deleted {
        if (o - e.deleted) + e.inserted > usize::MAX {
            usize::MAX
        } else {
            ((o - e.deleted) + e.inserted) as usize
        }
    } else if e.position + e.inserted > usize::MAX {
        usize::MAX
    } else {
        (e.position + e.inserted) as usize
    }
}

/// Selection `s` after edit `e`.
pub open spec fn shift_selection(s: Selection, e: PendingEdit) -> Selection {
    Selection { anchor: shift_offset(s.anchor, e), head: shift_offset(s.head, e) }
}

/// Selections after the edits `edits`, applied in order.
pub open spec fn apply_edits(sels: Seq<Selection>, edits: Seq<PendingEdit>) -> Seq<Selection>
    decreases edits.len(),
{
    if edits.len() == 0 {
        sels
    } else {
        apply_edits(sels, edits.drop_last()).map_values(|s: Selection| shift_selection(s, edits.last()))
    }
}

/// Cursor for a selection: its head, with its anchor when it spans chars.
pub open spec fn selection_cursor(s: Selection) -> Cursor {
    Cursor { position: s.head, anchor: if s.anchor != s.head { Some(s.anchor) } else { None } }
}

/// Span of a selection, start first.
pub open spec fn selection_range(s: Selection) -> (usize, usize) {
    if s.anchor <= s.head {
        (s.anchor, s.head)
    } else {
        (s.head, s.anchor)
    }
}

/// The selections of the editor; the first is the primary one. Edits to the
/// text can be queued and applied to all selections at once.
#[derive(Clone, Debug)]
pub struct SelectionCollection {
    primary: Selection,
    others: Vec<Selection>,
    pending: Vec<PendingEdit>,
}

/// `sels` with edit `e` applied to each.
fn shift_all(sels: &mut Vec<Selection>, e: PendingEdit)
    ensures
        final(sels)@ == old(sels)@.map_values(|s: Selection| shift_selection(s, e)),
{
    let ghost before = sels@;
    let mut i: usize = 0;
    while i < sels.len()
        invariant
            0 <= i <= sels@.len(),
            sels@.len() == before.len(),
            forall|j: int| 0 <= j < i ==> sels@[j] == shift_selection(before[j], e),
            forall|j: int| i <= j < sels@.len() ==> sels@[j] == before[j],
        decreases sels@.len() - i,
    {
        let s = sels[i];
        sels.set(i, Selection { anchor: shift(s.anchor, e), head: shift(s.head, e) });
        i += 1;
    }
    assert(sels@ =~= before.map_values(|s: Selection| shift_selection(s, e)));
}

impl SelectionCollection {
    /// All selections, the primary first.
    pub closed spec fn sels(&self) -> Seq<Selection> {
        seq![self.primary] + self.others@
    }

    pub closed spec fn pending_edits(&self) -> Seq<PendingEdit> {
        self.pending@
    }

    /// One cursor at the start, no pending edits.
    pub fn new() -> (r: Self)
        ensures
            r.sels() == seq![Selection { anchor: 0, head: 0 }],
            r.pending_edits() == Seq::<PendingEdit>::empty(),
    {
        let r = SelectionCollection {
            primary: Selection { anchor: 0, head: 0 },
            others: Vec::new(),
            pending: Vec::new(),
        };
        assert(r.sels() =~= seq![Selection { anchor: 0, head: 0 }]);
        r
    }

    /// The primary selection.
    pub fn primary(&self) -> (r: &Selection)
        ensures
            self.sels().len() >= 1,
            *r == self.sels()[0],
    {
        &self.primary
    }

    /// Every selection's span, start first.
    pub fn ranges(&self) -> (r: Vec<(usize, usize)>)
        ensures
            r@ == self.sels().map_values(|s: Selection| selection_range(s)),
    {
        let mut r: Vec<(usize, usize)> = Vec::new();
        r.push(self.primary.range());
        let mut i: usize = 0;
        while i < self.others.len()
            invariant
                0 <= i <= self.others@.len(),
                r@ == self.sels().take(i + 1).map_values(|s: Selection| selection_range(s)),
            decreases self.others@.len() - i,
        {
            r.push(self.others[i].range());
            i += 1;
            assert(r@ =~= self.sels().take(i + 1).map_values(|s: Selection| selection_range(s)));
        }
        assert(self.sels().take(i + 1) =~= self.sels());
        r
    }

    /// Whether there is more than one selection.
    pub fn is_multiple(&self) -> (r: bool)
        ensures
            r == (self.sels().len() > 1),
    {
        self.others.len() > 0
    }

    /// Add a cursor (an empty selection) at `offset`.
    pub fn add_cursor(&mut self, offset: usize)
        ensures
            final(self).sels() == old(self).sels().push(Selection { anchor: offset, head: offset }),
            final(self).pending_edits() == old(self).pending_edits(),
    {
        self.others.push(Selection { anchor: offset, head: offset });
        assert(self.sels() =~= old(self).sels().push(Selection { anchor: offset, head: offset }));
    }

    /// Add a selection from `anchor` to `head`.
    pub fn add_selection_range(&mut self, head: usize, anchor: usize)
        ensures
            final(self).sels() == old(self).sels().push(Selection { anchor, head }),
            final(self).pending_edits() == old(self).pending_edits(),
    {
        self.others.push(Selection { anchor, head });
        assert(self.sels() =~= old(self).sels().push(Selection { anchor, head }));
    }

    /// Keep only the primary selection.
    pub fn clear_secondary(&mut self)
        ensures
            final(self).sels() == old(self).sels().take(1),
            final(self).pending_edits() == old(self).pending_edits(),
    {
        self.others.clear();
        assert(self.sels() =~= old(self).sels().take(1));
    }

    /// Move the primary selection's head to `head`; its anchor stays when
    /// extending, and joins the head otherwise.
    pub fn move_primary(&mut self, head: usize, extend: bool)
        ensures
            final(self).sels() == old(self).sels().update(
                0,
                if extend {
                    Selection { anchor: old(self).sels()[0].anchor, head }
                } else {
                    Selection { anchor: head, head }
                },
            ),
            final(self).pending_edits() == old(self).pending_edits(),
    {
        let anchor = if extend {
            self.primary.anchor
        } else {
            head
        };
        self.primary = Selection { anchor, head };
        assert(self.sels() =~= old(self).sels().update(0, Selection { anchor, head }));
    }

    /// Make the primary selection span from `anchor` to `head`.
    pub fn set_selection(&mut self, head: usize, anchor: usize)
        ensures
            final(self).sels() == old(self).sels().update(0, Selection { anchor, head }),
            final(self).pending_edits() == old(self).pending_edits(),
    {
        self.primary = Selection { anchor, head };
        assert(self.sels() =~= old(self).sels().update(0, Selection { anchor, head }));
    }

    /// Make the primary selection an empty one at `offset`.
    pub fn set_cursor(&mut self, offset: usize)
        ensures
            final(self).sels() == old(self).sels().update(0, Selection { anchor: offset, head: offset }),
            final(self).pending_edits() == old(self).pending_edits(),
    {
        self.primary = Selection { anchor: offset, head: offset };
        assert(self.sels() =~= old(self).sels().update(0, Selection { anchor: offset, head: offset }));
    }

    /// Queue an edit of the text for the selections.
    pub fn push_edit(&mut self, edit: PendingEdit)
        ensures
            final(self).sels() == old(self).sels(),
            final(self).pending_edits() == old(self).pending_edits().push(edit),
    {
        self.pending.push(edit);
    }

    /// Apply the queued edits, in order, to every selection.
    pub fn apply_pending_edits(&mut self)
        ensures
            final(self).sels() == apply_edits(old(self).sels(), old(self).pending_edits()),
            final(self).pending_edits() == Seq::<PendingEdit>::empty(),
    {
        let mut k: usize = 0;
        let ghost start = self.sels();
        let ghost edits = self.pending@;
        assert(edits.take(0) =~= Seq::<PendingEdit>::empty());
        while k < self.pending.len()
            invariant
                edits == self.pending@,
                0 <= k <= edits.len(),
                self.sels() == apply_edits(start, edits.take(k as int)),
            decreases edits.len() - k,
        {
            let e = self.pending[k];
            let ghost before = self.sels();
            self.primary = Selection { anchor: shift(self.primary.anchor, e), head: shift(self.primary.head, e) };
            shift_all(&mut self.others, e);
            proof {
                assert(edits.take(k + 1).drop_last() =~= edits.take(k as int));
                assert(self.sels() =~= before.map_values(|s: Selection| shift_selection(s, e)));
            }
            k += 1;
        }
        assert(edits.take(k as int) =~= edits);
        self.pending.clear();
    }

    /// The selections as cursors.
    pub fn to_cursors(&self) -> (r: Vec<Cursor>)
        ensures
            r@ == self.sels().map_values(|s: Selection| selection_cursor(s)),
    {
        let mut r: Vec<Cursor> = Vec::new();
        r.push(cursor_of(self.primary));
        let mut i: usize = 0;
        while i < self.others.len()
            invariant
                0 <= i <= self.others@.len(),
                r@ == self.sels().take(i + 1).map_values(|s: Selection| selection_cursor(s)),
            decreases self.others@.len() - i,
        {
            r.push(cursor_of(self.others[i]));
            i += 1;
            assert(r@ =~= self.sels().take(i + 1).map_values(|s: Selection| selection_cursor(s)));
        }
        assert(self.sels().take(i + 1) =~= self.sels());
        r
    }
}

/// Cursor for a selection.
fn cursor_of(s: Selection) -> (r: Cursor)
    ensures
        r == selection_cursor(s),
{
    Cursor {
        position: s.head,
        anchor: if s.anchor != s.head {
            Some(s.anchor)
        } else {
            None
        },
    }
}

/// Offset `o` after edit `e`.
fn shift(o: usize, e: PendingEdit) -> (r: usize)
    ensures
        r == shift_offset(o, e),
{
    if o <= e.position {
        o
    } else if o - e.position >= e.deleted {
        (o - e.deleted).saturating_add(e.inserted)
    } else {
        e.position.saturating_add(e.inserted)
    }
}

/// Index of the first region that starts on `line`.
pub open spec fn region_at(regs: Seq<FoldRegion>, line: usize) -> Option<int> {
    if exists|i: int| 0 <= i < regs.len() && regs[i].start_line == line {
        Some(choose|i: int| 0 <= i < regs.len() && regs[i].start_line == line && forall|j: int| 0 <= j < i ==> regs[j].start_line != line)
    } else {
        None
    }
}

/// `r` folded or not as `folded` says.
pub open spec fn with_folded(r: FoldRegion, folded: bool) -> FoldRegion {
    FoldRegion { is_folded: folded, ..r }
}

/// `regs` with the first region starting on `line`, if any, folded or not
/// as `folded` says.
pub open spec fn set_fold_at(regs: Seq<FoldRegion>, line: usize, folded: bool) -> Seq<FoldRegion> {
    match region_at(regs, line) {
        Some(i) => regs.update(i, with_folded(regs[i], folded)),
        None => regs,
    }
}

/// `regs` with the first region starting on `line`, if any, switched
/// between folded and open.
pub open spec fn toggle_fold_at(regs: Seq<FoldRegion>, line: usize) -> Seq<FoldRegion> {
    match region_at(regs, line) {
        Some(i) => regs.update(i, with_folded(regs[i], !regs[i].is_folded)),
        None => regs,
    }
}

/// Whether a folded region among `regs` hides `line`: it lies after the
/// region's start line, up to its end line.
pub open spec fn hidden_by_folds(regs: Seq<FoldRegion>, line: int) -> bool {
    exists|i: int| 0 <= i < regs.len() && #[trigger] regs[i].is_folded && regs[i].start_line < line <= regs[i].end_line
}

/// The foldable regions of the text.
#[derive(Clone, Debug)]
pub struct FoldState {
    pub regions: Vec<FoldRegion>,
}

impl FoldState {
    /// No regions.
    pub fn new() -> (r: Self)
        ensures
            r.regions@.len() == 0,
    {
        FoldState { regions: Vec::new() }
    }

    /// Index of the first region starting on `line`.
    fn find_region(&self, line: usize) -> (r: Option<usize>)
        ensures
            match region_at(self.regions@, line) {
                Some(i) => r == Some(i as usize),
                None => r is None,
            },
            r matches Some(i) ==> i < self.regions@.len() && region_at(self.regions@, line) == Some(i as int),
    {
        let mut i: usize = 0;
        while i < self.regions.len()
            invariant
                0 <= i <= self.regions@.len(),
                forall|j: int| 0 <= j < i ==> self.regions@[j].start_line != line,
            decreases self.regions@.len() - i,
        {
            if self.regions[i].start_line == line {
                proof {
                    let regs = self.regions@;
                    let c = choose|k: int| 0 <= k < regs.len() && regs[k].start_line == line && forall|j: int| 0 <= j < k ==> regs[j].start_line != line;
                    if c > i {
                        assert(regs[i as int].start_line != line);
                    }
                }
                return Some(i);
            }
            i += 1;
        }
        None
    }

    /// Whether a folded region hides `line`.
    pub fn is_line_hidden(&self, line: usize) -> (r: bool)
        ensures
            r == hidden_by_folds(self.regions@, line as int),
    {
        let mut i: usize = 0;
        while i < self.regions.len()
            invariant
                0 <= i <= self.regions@.len(),
                forall|j: int| 0 <= j < i ==> !(#[trigger] self.regions@[j].is_folded && self.regions@[j].start_line < line
                    <= self.regions@[j].end_line),
            decreases self.regions@.len() - i,
        {
            let r = self.regions[i];
            if r.is_folded && r.start_line < line && line <= r.end_line {
                return true;
            }
            i += 1;
        }
        false
    }

    /// Whether a region starts on `line`.
    pub fn is_foldable_line(&self, line: usize) -> (r: bool)
        ensures
            r == (region_at(self.regions@, line) is Some),
    {
        self.find_region(line).is_some()
    }

    /// Fold the region starting on `line` if it is open, open it if folded.
    pub fn toggle_fold_at_line(&mut self, line: usize)
        ensures
            final(self).regions@ == toggle_fold_at(old(self).regions@, line),
    {
        match self.find_region(line) {
            Some(i) => {
                let r = self.regions[i];
                self.regions.set(i, FoldRegion { is_folded: !r.is_folded, ..r });
                proof {
                    let k = region_at(old(self).regions@, line)->0;
                    assert(k == i);
                    assert(self.regions@ =~= toggle_fold_at(old(self).regions@, line));
                }
            },
            None => {
                assert(self.regions@ =~= toggle_fold_at(old(self).regions@, line));
            },
        }
    }

    /// Fold the region starting on `line`.
    pub fn fold_at_line(&mut self, line: usize)
        ensures
            final(self).regions@ == set_fold_at(old(self).regions@, line, true),
    {
        match self.find_region(line) {
            Some(i) => {
                let r = self.regions[i];
                self.regions.set(i, FoldRegion { is_folded: true, ..r });
                proof {
                    let k = region_at(old(self).regions@, line)->0;
                    assert(k == i);
                    assert(self.regions@ =~= set_fold_at(old(self).regions@, line, true));
                }
            },
            None => {
                assert(self.regions@ =~= set_fold_at(old(self).regions@, line, true));
            },
        }
    }

    /// Open the region starting on `line`.
    pub fn unfold_at_line(&mut self, line: usize)
        ensures
            final(self).regions@ == set_fold_at(old(self).regions@, line, false),
    {
        match self.find_region(line) {
            Some(i) => {
                let r = self.regions[i];
                self.regions.set(i, FoldRegion { is_folded: false, ..r });
                proof {
                    let k = region_at(old(self).regions@, line)->0;
                    assert(k == i);
                    assert(self.regions@ =~= set_fold_at(old(self).regions@, line, false));
                }
            },
            None => {
                assert(self.regions@ =~= set_fold_at(old(self).regions@, line, false));
            },
        }
    }

    /// Fold every region, or open every region.
    fn set_all(&mut self, folded: bool)
        ensures
            final(self).regions@.len() == old(self).regions@.len(),
            forall|i: int| 0 <= i < old(self).regions@.len() ==> #[trigger] final(self).regions@[i] == with_folded(old(self).regions@[i], folded),
    {
        let mut i: usize = 0;
        while i < self.regions.len()
            invariant
                0 <= i <= self.regions@.len(),
                self.regions@.len() == old(self).regions@.len(),
                forall|j: int| 0 <= j < i ==> #[trigger] self.regions@[j] == with_folded(old(self).regions@[j], folded),
                forall|j: int| i <= j < self.regions@.len() ==> #[trigger] self.regions@[j] == old(self).regions@[j],
            decreases self.regions@.len() - i,
        {
            let r = self.regions[i];
            self.regions.set(i, FoldRegion { is_folded: folded, ..r });
            i += 1;
        }
    }

    /// Fold every region.
    pub fn fold_all(&mut self)
        ensures
            final(self).regions@ == old(self).regions@.map_values(|r: FoldRegion| with_folded(r, true)),
    {
        self.set_all(true);
        assert(self.regions@ =~= old(self).regions@.map_values(|r: FoldRegion| with_folded(r, true)));
    }

    /// Open every region.
    pub fn unfold_all(&mut self)
        ensures
            final(self).regions@ == old(self).regions@.map_values(|r: FoldRegion| with_folded(r, false)),
    {
        self.set_all(false);
        assert(self.regions@ =~= old(self).regions@.map_values(|r: FoldRegion| with_folded(r, false)));
    }
}

} // verus!
