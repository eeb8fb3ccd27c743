//! Multi-cursor and selection state: the primary cursor's selection, the
//! selection collection, and the operations that keep them and the cursor
//! list in step.

use vstd::prelude::*;
use crate::text::{rope_chars, rope_len_chars, TextViewState};
use crate::types::{
    cursor_end, cursor_start, selection_cursor, selection_range, apply_edits, Cursor, CursorState,
    Selection, SelectionCollection,
};

verus! {

/// Selection of the primary cursor, and the selection collection.
#[derive(Clone, Debug)]
pub struct SelectionState {
    /// Anchor of the primary cursor's selection.
    pub selection_start: Option<usize>,
    /// Head of the primary cursor's selection.
    pub selection_end: Option<usize>,
    pub selections: SelectionCollection,
}

/// Cursors sorted by where their spans start: no cursor comes after one
/// whose span starts later.
pub open spec fn sorted_by_span_start(cs: Seq<Cursor>) -> bool {
    forall|a: int, b: int| 0 <= a <= b < cs.len() ==> cursor_start(#[trigger] cs[a]) <= cursor_start(#[trigger] cs[b])
}

/// Positions strictly increase along the cursors: no two share a position.
pub open spec fn strictly_increasing(cs: Seq<Cursor>) -> bool {
    forall|a: int, b: int| 0 <= a < b < cs.len() ==> #[trigger] cs[a].position < #[trigger] cs[b].position
}

/// The spans of the cursors lie apart, in order: each ends before the next
/// one starts, so no two overlap or touch.
pub open spec fn spans_apart(cs: Seq<Cursor>) -> bool {
    forall|a: int, b: int| 0 <= a < b < cs.len() ==> cursor_end(#[trigger] cs[a]) < cursor_start(#[trigger] cs[b])
}

/// Some cursor's span (its start to its end, both included) holds `x`.
pub open spec fn covered(cs: Seq<Cursor>, x: int) -> bool {
    exists|i: int| 0 <= i < cs.len() && cursor_start(#[trigger] cs[i]) <= x <= cursor_end(cs[i])
}

/// `c` put into the sorted `cs` after every cursor whose span does not start
/// later.
pub open spec fn insert_by_span_start(cs: Seq<Cursor>, c: Cursor) -> Seq<Cursor>
    decreases cs.len(),
{
    if cs.len() == 0 {
        seq![c]
    } else if cursor_start(cs.last()) <= cursor_start(c) {
        cs.push(c)
    } else {
        insert_by_span_start(cs.drop_last(), c).push(cs.last())
    }
}

/// The stable sort of `cs` by where their spans start.
pub open spec fn sort_by_span_start(cs: Seq<Cursor>) -> Seq<Cursor>
    decreases cs.len(),
{
    if cs.len() == 0 {
        cs
    } else {
        insert_by_span_start(sort_by_span_start(cs.drop_last()), cs.last())
    }
}

pub open spec fn min_usize(a: usize, b: usize) -> usize {
    if a <= b { a } else { b }
}

pub open spec fn max_usize(a: usize, b: usize) -> usize {
    if a >= b { a } else { b }
}

/// `c` merged into the merged cursors `acc`: when its span starts no later than
/// the end of the last one, the last one grows to cover it (keeping an anchor
/// if either had one); otherwise `c` is appended.
pub open spec fn merge_into(acc: Seq<Cursor>, c: Cursor) -> Seq<Cursor> {
    if acc.len() == 0 {
        seq![c]
    } else {
        let last = acc.last();
        if cursor_start(c) <= cursor_end(last) {
            let new_end = max_usize(cursor_end(c), cursor_end(last));
            let merged = if last.anchor is Some || c.anchor is Some {
                Cursor {
                    position: new_end,
                    anchor: Some(min_usize(cursor_start(last), cursor_start(c))),
                }
            } else {
                Cursor { position: new_end, anchor: last.anchor }
            };
            acc.drop_last().push(merged)
        } else {
            acc.push(c)
        }
    }
}

/// The cursors `cs` merged in order.
pub open spec fn merge_cursors(cs: Seq<Cursor>) -> Seq<Cursor>
    decreases cs.len(),
{
    if cs.len() == 0 {
        cs
    } else {
        merge_into(merge_cursors(cs.drop_last()), cs.last())
    }
}

/// What sorting and merging makes of a cursor list: unchanged with at most
/// one cursor, else sorted by where the spans start and merged.
pub open spec fn sorted_and_merged(cs: Seq<Cursor>) -> Seq<Cursor> {
    if cs.len() <= 1 {
        cs
    } else {
        merge_cursors(sort_by_span_start(cs))
    }
}

/// Selection fields after syncing them with primary cursor `p`.
pub open spec fn synced_start(p: Cursor) -> Option<usize> {
    p.anchor
}

pub open spec fn synced_end(p: Cursor) -> Option<usize> {
    if p.anchor is Some {
        Some(p.position)
    } else {
        None
    }
}

/// The primary-cursor fields follow the first cursor, when there is one.
pub open spec fn primary_synced(
    sel: SelectionState,
    old_sel: SelectionState,
    cur: CursorState,
    old_pos: usize,
) -> bool {
    if cur.cursors@.len() > 0 {
        &&& cur.cursor_pos == cur.cursors@[0].position
        &&& sel.selection_start == synced_start(cur.cursors@[0])
        &&& sel.selection_end == synced_end(cur.cursors@[0])
    } else {
        &&& cur.cursor_pos == old_pos
        &&& sel.selection_start == old_sel.selection_start
        &&& sel.selection_end == old_sel.selection_end
    }
}

/// The cursor list with `c` added, sorted and merged, and the primary cursor
/// synced when there is more than one cursor.
pub open spec fn cursors_merged_with(os: SelectionState, ns: SelectionState, oc: CursorState, nc: CursorState, c: Cursor) -> bool {
    let cs = oc.cursors@.push(c);
    &&& nc.cursors@ == sorted_and_merged(cs)
    &&& ns.selections == os.selections
    &&& if cs.len() > 1 {
        primary_synced(ns, os, nc, oc.cursor_pos)
    } else {
        ns == os && nc.cursor_pos == oc.cursor_pos
    }
}

/// What adding a cursor at `position` (clamped to a text of `len` chars)
/// does: nothing when a cursor is there already, else it joins the cursors.
pub open spec fn cursor_added(os: SelectionState, ns: SelectionState, oc: CursorState, nc: CursorState, len: int, position: usize) -> bool {
    let p = min_usize(position, len as usize);
    if exists|i: int| 0 <= i < oc.cursors@.len() && #[trigger] oc.cursors@[i].position == p {
        nc == oc && ns == os
    } else {
        cursors_merged_with(os, ns, oc, nc, Cursor { position: p, anchor: None })
    }
}

/// What keeping only the first cursor does: the others go, and the primary
/// cursor follows the first.
pub open spec fn secondary_cleared(os: SelectionState, ns: SelectionState, oc: CursorState, nc: CursorState) -> bool {
    &&& ns.selections == os.selections
    &&& nc.cursors@ == oc.cursors@.take(if oc.cursors@.len() == 0 { 0 } else { 1 })
    &&& primary_synced(ns, os, nc, oc.cursor_pos)
}

/// The cursor list after the first cursor is set from the primary cursor
/// fields (and added if missing).
pub open spec fn synced_cursor_seq(sel: SelectionState, cursor: CursorState) -> Seq<Cursor> {
    let c = Cursor { position: cursor.cursor_pos, anchor: sel.selection_start };
    if cursor.cursors@.len() == 0 {
        seq![c]
    } else {
        cursor.cursors@.update(0, c)
    }
}

pub proof fn lemma_insert_by_span_start(cs: Seq<Cursor>, c: Cursor, j: int)
    requires
        sorted_by_span_start(cs),
        0 <= j <= cs.len(),
        forall|i: int| 0 <= i < j ==> cursor_start(cs[i]) <= cursor_start(c),
        forall|i: int| j <= i < cs.len() ==> cursor_start(cs[i]) > cursor_start(c),
    ensures
        insert_by_span_start(cs, c) == cs.insert(j, c),
        sorted_by_span_start(cs.insert(j, c)),
    decreases cs.len(),
{
    if cs.len() == 0 {
        assert(cs.insert(j, c) =~= seq![c]);
    } else if cursor_start(cs.last()) <= cursor_start(c) {
        assert(j == cs.len());
        assert(cs.insert(j, c) =~= cs.push(c));
    } else {
        let d = cs.drop_last();
        lemma_insert_by_span_start(d, c, j);
        assert(d.insert(j, c).push(cs.last()) =~= cs.insert(j, c));
    }
    let s = cs.insert(j, c);
    assert forall|a: int, b: int| 0 <= a <= b < s.len() implies cursor_start(#[trigger] s[a])
        <= cursor_start(#[trigger] s[b]) by {
        if a < j && b > j {
            assert(s[b] == cs[b - 1]);
        } else if a == j && b > j {
            assert(s[b] == cs[b - 1]);
        } else if a > j {
            assert(s[a] == cs[a - 1]);
            assert(s[b] == cs[b - 1]);
        }
    }
}

/// Inserting keeps every cursor and adds `c`.
pub proof fn lemma_insert_elems(cs: Seq<Cursor>, c: Cursor)
    ensures
        insert_by_span_start(cs, c).len() == cs.len() + 1,
        forall|y: Cursor|
            #![trigger insert_by_span_start(cs, c).contains(y)]
            #![trigger cs.contains(y)]
            insert_by_span_start(cs, c).contains(y) <==> (cs.contains(y) || y == c),
    decreases cs.len(),
{
    let r = insert_by_span_start(cs, c);
    if cs.len() == 0 {
        assert(r[0] == c);
    } else if cursor_start(cs.last()) <= cursor_start(c) {
        assert forall|y: Cursor| r.contains(y) <==> (cs.contains(y) || y == c) by {
            if cs.contains(y) {
                let k = choose|k: int| 0 <= k < cs.len() && cs[k] == y;
                assert(r[k] == y);
            }
            if y == c {
                assert(r[cs.len() as int] == c);
            }
            if r.contains(y) {
                let k = choose|k: int| 0 <= k < r.len() && r[k] == y;
                if k < cs.len() {
                    assert(cs[k] == y);
                }
            }
        }
    } else {
        let d = cs.drop_last();
        lemma_insert_elems(d, c);
        let rd = insert_by_span_start(d, c);
        assert forall|y: Cursor| r.contains(y) <==> (cs.contains(y) || y == c) by {
            if cs.contains(y) {
                let k = choose|k: int| 0 <= k < cs.len() && cs[k] == y;
                if k == cs.len() - 1 {
                    assert(r[r.len() - 1] == y);
                } else {
                    assert(d[k] == y);
                    assert(d.contains(y));
                    assert(rd.contains(y));
                    let m = choose|m: int| 0 <= m < rd.len() && rd[m] == y;
                    assert(r[m] == y);
                }
            }
            if y == c {
                assert(insert_by_span_start(d, c).contains(c));
                let m = choose|m: int| 0 <= m < rd.len() && rd[m] == c;
                assert(r[m] == c);
            }
            if r.contains(y) {
                let k = choose|k: int| 0 <= k < r.len() && r[k] == y;
                if k == r.len() - 1 {
                    assert(cs[cs.len() - 1] == y);
                } else {
                    assert(rd[k] == y);
                    assert(rd.contains(y));
                    if y != c {
                        assert(d.contains(y));
                        let m = choose|m: int| 0 <= m < d.len() && d[m] == y;
                        assert(cs[m] == y);
                    }
                }
            }
        }
    }
}

/// The sort keeps exactly the cursors it was given, sorted by span start.
pub proof fn lemma_sort_elems(cs: Seq<Cursor>)
    ensures
        sort_by_span_start(cs).len() == cs.len(),
        forall|y: Cursor| sort_by_span_start(cs).contains(y) <==> cs.contains(y),
        sorted_by_span_start(sort_by_span_start(cs)),
    decreases cs.len(),
{
    if cs.len() > 0 {
        let d = cs.drop_last();
        lemma_sort_elems(d);
        let sd = sort_by_span_start(d);
        let c = cs.last();
        lemma_insert_elems(sd, c);
        assert forall|y: Cursor| sort_by_span_start(cs).contains(y) <==> cs.contains(y) by {
            if cs.contains(y) && y != c {
                let k = choose|k: int| 0 <= k < cs.len() && cs[k] == y;
                assert(d[k] == y);
            }
            if d.contains(y) {
                let k = choose|k: int| 0 <= k < d.len() && d[k] == y;
                assert(cs[k] == y);
            }
            if y == c {
                assert(cs[cs.len() - 1] == c);
            }
        }
        lemma_insert_sorted(sd, c);
    }
}

/// Inserting into a sorted list keeps it sorted.
pub proof fn lemma_insert_sorted(cs: Seq<Cursor>, c: Cursor)
    requires
        sorted_by_span_start(cs),
    ensures
        sorted_by_span_start(insert_by_span_start(cs, c)),
    decreases cs.len(),
{
    let r = insert_by_span_start(cs, c);
    if cs.len() > 0 && cursor_start(cs.last()) > cursor_start(c) {
        let d = cs.drop_last();
        assert(sorted_by_span_start(d));
        lemma_insert_sorted(d, c);
        lemma_insert_elems(d, c);
        let rd = insert_by_span_start(d, c);
        assert forall|a: int, b: int| 0 <= a <= b < r.len() implies cursor_start(#[trigger] r[a])
            <= cursor_start(#[trigger] r[b]) by {
            if b == r.len() - 1 && a < b {
                let e = rd[a];
                assert(r[a] == e);
                assert(rd.contains(e));
                if e != c {
                    assert(d.contains(e));
                    let k = choose|k: int| 0 <= k < d.len() && d[k] == e;
                    assert(cs[k] == e);
                    assert(cursor_start(cs[k]) <= cursor_start(cs[cs.len() - 1]));
                }
            } else if b < r.len() - 1 {
                assert(r[a] == rd[a] && r[b] == rd[b]);
            }
        }
    } else if cs.len() > 0 {
        assert forall|a: int, b: int| 0 <= a <= b < r.len() implies cursor_start(#[trigger] r[a])
            <= cursor_start(#[trigger] r[b]) by {
            if b == r.len() - 1 && a < b {
                assert(r[a] == cs[a]);
                assert(cursor_start(cs[a]) <= cursor_start(cs[cs.len() - 1]));
            } else if b < r.len() - 1 {
                assert(r[a] == cs[a] && r[b] == cs[b]);
            }
        }
    }
}

/// Two lists holding the same cursors cover the same points.
pub proof fn lemma_covered_same_elems(a: Seq<Cursor>, b: Seq<Cursor>, x: int)
    requires
        forall|y: Cursor| a.contains(y) <==> b.contains(y),
    ensures
        covered(a, x) <==> covered(b, x),
{
    if covered(a, x) {
        let i = choose|i: int| 0 <= i < a.len() && cursor_start(#[trigger] a[i]) <= x <= cursor_end(a[i]);
        assert(a.contains(a[i]));
        let k = choose|k: int| 0 <= k < b.len() && b[k] == a[i];
        assert(cursor_start(b[k]) <= x <= cursor_end(b[k]));
    }
    if covered(b, x) {
        let i = choose|i: int| 0 <= i < b.len() && cursor_start(#[trigger] b[i]) <= x <= cursor_end(b[i]);
        assert(b.contains(b[i]));
        let k = choose|k: int| 0 <= k < a.len() && a[k] == b[i];
        assert(cursor_start(a[k]) <= x <= cursor_end(a[k]));
    }
}

/// Merging cursors sorted by span start leaves spans apart, covering the
/// same points, the last one starting no later than the last input.
pub proof fn lemma_merge_apart(cs: Seq<Cursor>)
    requires
        sorted_by_span_start(cs),
    ensures
        spans_apart(merge_cursors(cs)),
        forall|x: int| covered(merge_cursors(cs), x) <==> covered(cs, x),
        cs.len() > 0 ==> merge_cursors(cs).len() > 0 && cursor_start(merge_cursors(cs).last()) <= cursor_start(
            cs.last(),
        ),
        merge_cursors(cs).len() <= cs.len(),
    decreases cs.len(),
{
    if cs.len() > 0 {
        let d = cs.drop_last();
        assert(sorted_by_span_start(d));
        lemma_merge_apart(d);
        let acc = merge_cursors(d);
        let c = cs.last();
        let r = merge_cursors(cs);
        assert(r == merge_into(acc, c));
        if acc.len() == 0 {
            assert(r == seq![c]);
            assert forall|x: int| covered(r, x) <==> covered(cs, x) by {
                assert(!covered(d, x));
                if covered(cs, x) {
                    let i = choose|i: int| 0 <= i < cs.len() && cursor_start(#[trigger] cs[i]) <= x <= cursor_end(cs[i]);
                    if i < d.len() {
                        assert(d[i] == cs[i]);
                    }
                }
                if covered(r, x) {
                    assert(cs[cs.len() - 1] == c);
                }
            }
        } else {
            let last = acc.last();
            assert(cursor_start(d[d.len() - 1]) <= cursor_start(c));
            assert(cursor_start(last) <= cursor_start(c));
            if cursor_start(c) <= cursor_end(last) {
                let nl = r.last();
                assert(cursor_start(nl) == cursor_start(last));
                assert(cursor_end(nl) == max_usize(cursor_end(c), cursor_end(last)));
                assert forall|a: int, b: int| 0 <= a < b < r.len() implies cursor_end(#[trigger] r[a]) < cursor_start(
                    #[trigger] r[b],
                ) by {
                    assert(r[a] == acc[a]);
                    if b < r.len() - 1 {
                        assert(r[b] == acc[b]);
                    } else {
                        assert(cursor_end(acc[a]) < cursor_start(acc[acc.len() - 1]));
                    }
                }
                assert forall|x: int| covered(r, x) <==> covered(cs, x) by {
                    if covered(r, x) {
                        let i = choose|i: int| 0 <= i < r.len() && cursor_start(#[trigger] r[i]) <= x <= cursor_end(r[i]);
                        if i < r.len() - 1 {
                            assert(r[i] == acc[i]);
                            assert(covered(acc, x));
                        } else if x <= cursor_end(last) {
                            assert(cursor_start(acc[acc.len() - 1]) <= x <= cursor_end(acc[acc.len() - 1]));
                            assert(covered(acc, x));
                        } else {
                            assert(cursor_start(cs[cs.len() - 1]) <= x <= cursor_end(cs[cs.len() - 1]));
                        }
                        if covered(acc, x) {
                            assert(covered(d, x));
                            let k = choose|k: int| 0 <= k < d.len() && cursor_start(#[trigger] d[k]) <= x <= cursor_end(d[k]);
                            assert(cs[k] == d[k]);
                        }
                    }
                    if covered(cs, x) {
                        let i = choose|i: int| 0 <= i < cs.len() && cursor_start(#[trigger] cs[i]) <= x <= cursor_end(cs[i]);
                        if i < cs.len() - 1 {
                            assert(d[i] == cs[i]);
                            assert(covered(d, x));
                            assert(covered(acc, x));
                            let k = choose|k: int| 0 <= k < acc.len() && cursor_start(#[trigger] acc[k]) <= x <= cursor_end(acc[k]);
                            if k < acc.len() - 1 {
                                assert(r[k] == acc[k]);
                            } else {
                                assert(cursor_start(r[r.len() - 1]) <= x <= cursor_end(r[r.len() - 1]));
                            }
                        } else {
                            assert(cursor_start(r[r.len() - 1]) <= x <= cursor_end(r[r.len() - 1]));
                        }
                    }
                }
            } else {
                assert(r == acc.push(c));
                assert forall|a: int, b: int| 0 <= a < b < r.len() implies cursor_end(#[trigger] r[a]) < cursor_start(
                    #[trigger] r[b],
                ) by {
                    assert(r[a] == acc[a]);
                    if b < r.len() - 1 {
                        assert(r[b] == acc[b]);
                    } else if a < acc.len() - 1 {
                        assert(cursor_end(acc[a]) < cursor_start(acc[acc.len() - 1]));
                    }
                }
                assert forall|x: int| covered(r, x) <==> covered(cs, x) by {
                    if covered(r, x) {
                        let i = choose|i: int| 0 <= i < r.len() && cursor_start(#[trigger] r[i]) <= x <= cursor_end(r[i]);
                        if i < r.len() - 1 {
                            assert(r[i] == acc[i]);
                            assert(covered(acc, x));
                            assert(covered(d, x));
                            let k = choose|k: int| 0 <= k < d.len() && cursor_start(#[trigger] d[k]) <= x <= cursor_end(d[k]);
                            assert(cs[k] == d[k]);
                        } else {
                            assert(cursor_start(cs[cs.len() - 1]) <= x <= cursor_end(cs[cs.len() - 1]));
                        }
                    }
                    if covered(cs, x) {
                        let i = choose|i: int| 0 <= i < cs.len() && cursor_start(#[trigger] cs[i]) <= x <= cursor_end(cs[i]);
                        if i < cs.len() - 1 {
                            assert(d[i] == cs[i]);
                            assert(covered(d, x));
                            assert(covered(acc, x));
                            let k = choose|k: int| 0 <= k < acc.len() && cursor_start(#[trigger] acc[k]) <= x <= cursor_end(acc[k]);
                            assert(r[k] == acc[k]);
                        } else {
                            assert(cursor_start(r[r.len() - 1]) <= x <= cursor_end(r[r.len() - 1]));
                        }
                    }
                }
            }
        }
    }
}

/// Spans apart give strictly increasing positions.
pub proof fn lemma_apart_increasing(cs: Seq<Cursor>)
    requires
        spans_apart(cs),
    ensures
        strictly_increasing(cs),
{
    assert forall|a: int, b: int| 0 <= a < b < cs.len() implies #[trigger] cs[a].position < #[trigger] cs[b].position by {
        assert(cursor_end(cs[a]) < cursor_start(cs[b]));
    }
}

impl SelectionState {
    /// No selection, and one cursor at the start in the collection.
    pub fn new() -> (r: Self)
        ensures
            r.selection_start is None,
            r.selection_end is None,
            r.selections.sels() == seq![Selection { anchor: 0, head: 0 }],
            r.selections.pending_edits() == Seq::<crate::types::PendingEdit>::empty(),
    {
        SelectionState { selection_start: None, selection_end: None, selections: SelectionCollection::new() }
    }

    /// Sync the primary cursor (`cursor_pos` and the selection fields) with the
    /// first cursor.
    pub fn sync_primary_cursor(&mut self, cursor: &mut CursorState)
        ensures
            final(cursor).cursors == old(cursor).cursors,
            final(self).selections == old(self).selections,
            primary_synced(*final(self), *old(self), *final(cursor), old(cursor).cursor_pos),
    {
        if cursor.cursors.len() > 0 {
            let primary = cursor.cursors[0];
            cursor.cursor_pos = primary.position;
            self.selection_start = primary.anchor;
            self.selection_end = if primary.anchor.is_some() {
                Some(primary.position)
            } else {
                None
            };
        }
    }

    /// Sync the first cursor from the primary cursor fields, adding it when
    /// there is none.
    pub fn sync_cursors_from_primary(&mut self, cursor: &mut CursorState)
        ensures
            *final(self) == *old(self),
            final(cursor).cursor_pos == old(cursor).cursor_pos,
            final(cursor).cursors@ == synced_cursor_seq(*old(self), *old(cursor)),
    {
        if cursor.cursors.len() == 0 {
            cursor.cursors.push(Cursor::new(cursor.cursor_pos));
        }
        let c = Cursor { position: cursor.cursor_pos, anchor: self.selection_start };
        cursor.cursors.set(0, c);
    }

    /// Sort the cursors and merge every two whose spans touch or overlap,
    /// then sync the primary cursor; a single cursor is left alone. The
    /// spans come out apart, in order, and cover the same points.
    pub fn sort_and_merge_cursors(&mut self, cursor: &mut CursorState)
        ensures
            final(cursor).cursors@ == sorted_and_merged(old(cursor).cursors@),
            spans_apart(final(cursor).cursors@),
            forall|x: int| covered(final(cursor).cursors@, x) <==> covered(old(cursor).cursors@, x),
            final(self).selections == old(self).selections,
            old(cursor).cursors@.len() <= 1 ==> *final(self) == *old(self) && final(cursor).cursor_pos
                == old(cursor).cursor_pos,
            old(cursor).cursors@.len() > 1 ==> primary_synced(
                *final(self),
                *old(self),
                *final(cursor),
                old(cursor).cursor_pos,
            ),
            strictly_increasing(final(cursor).cursors@),
    {
        if cursor.cursors.len() <= 1 {
            return;
        }
        let ghost input = cursor.cursors@;
        // Stable insertion sort by where the spans start.
        let mut sorted: Vec<Cursor> = Vec::new();
        let mut i: usize = 0;
        assert(input.take(0) =~= Seq::<Cursor>::empty());
        while i < cursor.cursors.len()
            invariant
                input == cursor.cursors@,
                0 <= i <= input.len(),
                sorted@ == sort_by_span_start(input.take(i as int)),
                sorted_by_span_start(sorted@),
            decreases input.len() - i,
        {
            let c = cursor.cursors[i];
            let c_start = c.selection_start();
            let mut j: usize = sorted.len();
            while j > 0 && sorted[j - 1].selection_start() > c_start
                invariant
                    0 <= j <= sorted@.len(),
                    c_start == cursor_start(c),
                    sorted_by_span_start(sorted@),
                    forall|k: int| j <= k < sorted@.len() ==> cursor_start(sorted@[k]) > cursor_start(c),
                decreases j,
            {
                j -= 1;
            }
            proof {
                assert forall|k: int| 0 <= k < j implies cursor_start(sorted@[k]) <= cursor_start(c) by {
                    assert(cursor_start(sorted@[k]) <= cursor_start(sorted@[j - 1]));
                }
                lemma_insert_by_span_start(sorted@, c, j as int);
                assert(input.take(i + 1).drop_last() =~= input.take(i as int));
            }
            sorted.insert(j, c);
            i += 1;
        }
        assert(input.take(input.len() as int) =~= input);

        // Merge in order.
        let ghost ordered = sorted@;
        let mut merged: Vec<Cursor> = Vec::new();
        let mut k: usize = 0;
        assert(ordered.take(0) =~= Seq::<Cursor>::empty());
        while k < sorted.len()
            invariant
                ordered == sorted@,
                0 <= k <= ordered.len(),
                merged@ == merge_cursors(ordered.take(k as int)),
            decreases ordered.len() - k,
        {
            let c = sorted[k];
            proof {
                assert(ordered.take(k + 1).drop_last() =~= ordered.take(k as int));
            }
            let n = merged.len();
            if n > 0 {
                let last = merged[n - 1];
                let last_end = last.selection_end();
                let cursor_start = c.selection_start();
                if cursor_start <= last_end {
                    let c_end = c.selection_end();
                    let new_end = if c_end >= last_end {
                        c_end
                    } else {
                        last_end
                    };
                    let updated = if last.anchor.is_some() || c.anchor.is_some() {
                        let last_start = last.selection_start();
                        let new_start = if last_start <= cursor_start {
                            last_start
                        } else {
                            cursor_start
                        };
                        Cursor { position: new_end, anchor: Some(new_start) }
                    } else {
                        Cursor { position: new_end, anchor: last.anchor }
                    };
                    merged.set(n - 1, updated);
                    proof {
                        assert(merged@ =~= merge_into(merge_cursors(ordered.take(k as int)), c));
                    }
                } else {
                    merged.push(c);
                }
            } else {
                merged.push(c);
                assert(merged@ =~= seq![c]);
            }
            k += 1;
        }
        assert(ordered.take(ordered.len() as int) =~= ordered);
        proof {
            lemma_merge_apart(ordered);
            lemma_apart_increasing(merged@);
            lemma_sort_elems(input);
            assert forall|x: int| covered(merged@, x) <==> covered(input, x) by {
                lemma_covered_same_elems(ordered, input, x);
            }
        }
        cursor.cursors = merged;
        self.sync_primary_cursor(cursor);
    }

    /// Add a cursor at `position` (clamped to the text) unless one is there
    /// already, then sort and merge.
    pub fn add_cursor(&mut self, cursor: &mut CursorState, tv: &mut TextViewState, position: usize)
        ensures
            *final(tv) == *old(tv),
            cursor_added(*old(self), *final(self), *old(cursor), *final(cursor), rope_chars(old(tv).rope).len() as int, position),
    {
        let len = rope_len_chars(&tv.rope);
        let position = if position <= len {
            position
        } else {
            len
        };
        let mut found = false;
        let mut i: usize = 0;
        while i < cursor.cursors.len()
            invariant
                0 <= i <= cursor.cursors@.len(),
                found ==> exists|j: int| 0 <= j < i && #[trigger] cursor.cursors@[j].position == position,
                !found ==> forall|k: int| 0 <= k < i ==> cursor.cursors@[k].position != position,
            decreases cursor.cursors@.len() - i,
        {
            if cursor.cursors[i].position == position {
                found = true;
            }
            i += 1;
        }
        if found {
            return;
        }
        cursor.cursors.push(Cursor::new(position));
        self.sort_and_merge_cursors(cursor);
    }

    /// Add a cursor at `position` selecting from `anchor` (both clamped to the
    /// text), then sort and merge.
    pub fn add_cursor_with_selection(
        &mut self,
        cursor: &mut CursorState,
        tv: &mut TextViewState,
        position: usize,
        anchor: usize,
    )
        ensures
            *final(tv) == *old(tv),
            cursors_merged_with(
                *old(self),
                *final(self),
                *old(cursor),
                *final(cursor),
                Cursor {
                    position: min_usize(position, rope_chars(old(tv).rope).len() as usize),
                    anchor: Some(min_usize(anchor, rope_chars(old(tv).rope).len() as usize)),
                },
            ),
    {
        let len = rope_len_chars(&tv.rope);
        let position = if position <= len {
            position
        } else {
            len
        };
        let anchor = if anchor <= len {
            anchor
        } else {
            len
        };
        cursor.cursors.push(Cursor::with_selection(position, anchor));
        self.sort_and_merge_cursors(cursor);
    }

    /// Keep only the first cursor, then sync the primary cursor.
    pub fn clear_secondary_cursors(&mut self, cursor: &mut CursorState, _tv: &mut TextViewState)
        ensures
            *final(_tv) == *old(_tv),
            secondary_cleared(*old(self), *final(self), *old(cursor), *final(cursor)),
    {
        if cursor.cursors.len() > 0 {
            cursor.cursors.truncate(1);
        }
        proof {
            if old(cursor).cursors@.len() == 0 {
                assert(cursor.cursors@ =~= old(cursor).cursors@.take(0));
            }
        }
        self.sync_primary_cursor(cursor);
    }

    /// Whether there is more than one cursor.
    pub fn has_multiple_cursors(&self, cursor: &CursorState) -> (r: bool)
        ensures
            r == (cursor.cursors@.len() > 1),
    {
        cursor.cursors.len() > 1
    }

    /// Number of cursors.
    pub fn cursor_count(&self, cursor: &CursorState) -> (r: usize)
        ensures
            r == cursor.cursors@.len(),
    {
        cursor.cursors.len()
    }

    /// Apply the queued edits to the selection collection.
    pub fn apply_selection_edits(&mut self)
        ensures
            final(self).selections.sels() == apply_edits(
                old(self).selections.sels(),
                old(self).selections.pending_edits(),
            ),
            final(self).selections.pending_edits() == Seq::<crate::types::PendingEdit>::empty(),
            final(self).selection_start == old(self).selection_start,
            final(self).selection_end == old(self).selection_end,
    {
        self.selections.apply_pending_edits();
    }

    /// Set the primary cursor fields and the cursor list from the selection
    /// collection.
    pub fn sync_from_selections(&mut self, cursor: &mut CursorState)
        ensures
            final(self).selections == old(self).selections,
            ({
                let p = old(self).selections.sels()[0];
                &&& final(cursor).cursor_pos == p.head
                &&& final(self).selection_start == (if p.anchor != p.head {
                    Some(p.anchor)
                } else {
                    None::<usize>
                })
                &&& final(self).selection_end == (if p.anchor != p.head {
                    Some(p.head)
                } else {
                    None::<usize>
                })
            }),
            final(cursor).cursors@ == old(self).selections.sels().map_values(
                |s: Selection| selection_cursor(s),
            ),
    {
        let primary = *self.selections.primary();
        cursor.cursor_pos = primary.head_offset();
        if primary.has_selection() {
            self.selection_start = Some(primary.anchor_offset());
            self.selection_end = Some(primary.head_offset());
        } else {
            self.selection_start = None;
            self.selection_end = None;
        }
        cursor.cursors = self.selections.to_cursors();
    }

    /// Set the primary selection from the primary cursor fields.
    pub fn sync_to_selections(&mut self, cursor: &CursorState)
        ensures
            final(self).selection_start == old(self).selection_start,
            final(self).selection_end == old(self).selection_end,
            final(self).selections.pending_edits() == old(self).selections.pending_edits(),
            final(self).selections.sels() == old(self).selections.sels().update(
                0,
                match old(self).selection_start {
                    Some(a) => Selection { anchor: a, head: cursor.cursor_pos },
                    None => Selection { anchor: cursor.cursor_pos, head: cursor.cursor_pos },
                },
            ),
    {
        if let Some(anchor) = self.selection_start {
            self.selections.set_selection(cursor.cursor_pos, anchor);
        } else {
            self.selections.set_cursor(cursor.cursor_pos);
        }
    }

    /// The primary selection.
    pub fn primary_selection(&self) -> (r: &Selection)
        ensures
            *r == self.selections.sels()[0],
    {
        self.selections.primary()
    }

    /// Every selection's span, start first.
    pub fn selection_ranges(&self) -> (r: Vec<(usize, usize)>)
        ensures
            r@ == self.selections.sels().map_values(|s: Selection| selection_range(s)),
    {
        self.selections.ranges()
    }

    /// Whether there is more than one selection.
    pub fn has_multiple_selections(&self) -> (r: bool)
        ensures
            r == (self.selections.sels().len() > 1),
    {
        self.selections.is_multiple()
    }

    /// Add an empty selection at `offset` (clamped to the text), then sync the
    /// cursors from the collection.
    pub fn add_selection(&mut self, cursor: &mut CursorState, tv: &mut TextViewState, offset: usize)
        ensures
            *final(tv) == *old(tv),
            ({
                let o = min_usize(offset, rope_chars(old(tv).rope).len() as usize);
                final(self).selections.sels() == old(self).selections.sels().push(
                    Selection { anchor: o, head: o },
                )
            }),
            final(self).selections.pending_edits() == old(self).selections.pending_edits(),
            final(cursor).cursors@ == final(self).selections.sels().map_values(
                |s: Selection| selection_cursor(s),
            ),
            final(cursor).cursor_pos == final(self).selections.sels()[0].head,
    {
        let len = rope_len_chars(&tv.rope);
        let offset = if offset <= len {
            offset
        } else {
            len
        };
        self.selections.add_cursor(offset);
        self.sync_from_selections(cursor);
    }

    /// Add a selection from `anchor` to `head` (both clamped to the text), then
    /// sync the cursors from the collection.
    pub fn add_selection_range(
        &mut self,
        cursor: &mut CursorState,
        tv: &mut TextViewState,
        head: usize,
        anchor: usize,
    )
        ensures
            *final(tv) == *old(tv),
            final(self).selections.sels() == old(self).selections.sels().push(
                Selection {
                    anchor: min_usize(anchor, rope_chars(old(tv).rope).len() as usize),
                    head: min_usize(head, rope_chars(old(tv).rope).len() as usize),
                },
            ),
            final(self).selections.pending_edits() == old(self).selections.pending_edits(),
            final(cursor).cursors@ == final(self).selections.sels().map_values(
                |s: Selection| selection_cursor(s),
            ),
            final(cursor).cursor_pos == final(self).selections.sels()[0].head,
    {
        let len = rope_len_chars(&tv.rope);
        let head = if head <= len {
            head
        } else {
            len
        };
        let anchor = if anchor <= len {
            anchor
        } else {
            len
        };
        self.selections.add_selection_range(head, anchor);
        self.sync_from_selections(cursor);
    }

    /// Keep only the primary selection, then sync the cursors from the
    /// collection.
    pub fn clear_secondary_selections_sel(&mut self, cursor: &mut CursorState, _tv: &mut TextViewState)
        ensures
            *final(_tv) == *old(_tv),
            final(self).selections.sels() == old(self).selections.sels().take(1),
            final(self).selections.pending_edits() == old(self).selections.pending_edits(),
            final(cursor).cursors@ == final(self).selections.sels().map_values(
                |s: Selection| selection_cursor(s),
            ),
            final(cursor).cursor_pos == final(self).selections.sels()[0].head,
    {
        self.selections.clear_secondary();
        self.sync_from_selections(cursor);
    }

    /// Move the primary selection's head to `head` (clamped to the text),
    /// extending the selection or not, then sync the cursors.
    pub fn set_primary_selection(
        &mut self,
        cursor: &mut CursorState,
        tv: &mut TextViewState,
        head: usize,
        extend: bool,
    )
        ensures
            *final(tv) == *old(tv),
            ({
                let h = min_usize(head, rope_chars(old(tv).rope).len() as usize);
                final(self).selections.sels() == old(self).selections.sels().update(
                    0,
                    if extend {
                        Selection { anchor: old(self).selections.sels()[0].anchor, head: h }
                    } else {
                        Selection { anchor: h, head: h }
                    },
                )
            }),
            final(self).selections.pending_edits() == old(self).selections.pending_edits(),
            final(cursor).cursors@ == final(self).selections.sels().map_values(
                |s: Selection| selection_cursor(s),
            ),
            final(cursor).cursor_pos == final(self).selections.sels()[0].head,
    {
        let len = rope_len_chars(&tv.rope);
        let head = if head <= len {
            head
        } else {
            len
        };
        self.selections.move_primary(head, extend);
        self.sync_from_selections(cursor);
    }
}

/// After sorting and merging, the spans of the cursors lie apart in order
/// (none overlaps or touches the next), positions strictly increase, and
/// the spans cover exactly the points the given cursors covered.
pub proof fn law_merged_cursors_distinct(cs: Seq<Cursor>)
    requires
        cs.len() > 1,
    ensures
        spans_apart(sorted_and_merged(cs)),
        strictly_increasing(sorted_and_merged(cs)),
        forall|x: int| covered(sorted_and_merged(cs), x) <==> covered(cs, x),
        sorted_and_merged(cs).len() >= 1,
{
    lemma_sort_elems(cs);
    lemma_merge_apart(sort_by_span_start(cs));
    lemma_apart_increasing(sorted_and_merged(cs));
    assert forall|x: int| covered(sorted_and_merged(cs), x) <==> covered(cs, x) by {
        lemma_covered_same_elems(sort_by_span_start(cs), cs, x);
    }
}

} // verus!
