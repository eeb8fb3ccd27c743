//! Which buffer lines show on which display rows of the viewport, folded
//! lines left out.

use vstd::prelude::*;
use crate::types::{hidden_by_folds, FoldRegion, FoldState};

verus! {

/// The buffer line and display row reached by walking down from the top,
/// counting the lines folds leave visible, until `first_row` rows are
/// passed or the text ends.
pub open spec fn walk_to_row(regs: Seq<FoldRegion>, total: int, first_row: int, line: int, row: int) -> (int, int)
    decreases total - line,
{
    if line < total && row < first_row {
        walk_to_row(regs, total, first_row, line + 1, if hidden_by_folds(regs, line) { row } else { row + 1 })
    } else {
        (line, row)
    }
}

/// The rows shown from buffer line `line` on, the first visible line going
/// on display row `row`: each visible line takes the next row, until the
/// rows pass `last_row` or the text ends. Each entry is a display row and
/// its buffer line.
pub open spec fn rows_from(regs: Seq<FoldRegion>, total: int, last_row: int, line: int, row: int) -> Seq<(u32, usize)>
    decreases total - line,
{
    if line >= total {
        Seq::empty()
    } else if hidden_by_folds(regs, line) {
        rows_from(regs, total, last_row, line + 1, row)
    } else if row > last_row {
        Seq::empty()
    } else {
        seq![(row as u32, line as usize)] + rows_from(regs, total, last_row, line + 1, row + 1)
    }
}

/// The display row after the last one `rows_from` fills.
pub open spec fn end_row_from(regs: Seq<FoldRegion>, total: int, last_row: int, line: int, row: int) -> int
    decreases total - line,
{
    if line >= total {
        row
    } else if hidden_by_folds(regs, line) {
        end_row_from(regs, total, last_row, line + 1, row)
    } else if row > last_row {
        row
    } else {
        end_row_from(regs, total, last_row, line + 1, row + 1)
    }
}

/// Number of the first `n` buffer lines that folds leave visible.
pub open spec fn visible_line_count(regs: Seq<FoldRegion>, n: int) -> int
    decreases n,
{
    if n <= 0 {
        0
    } else {
        visible_line_count(regs, n - 1) + if hidden_by_folds(regs, n - 1) { 0int } else { 1int }
    }
}

/// Where the rows of the viewport start: without folds, at buffer line
/// `first_row` (the end of the text at most) and row `first_row`; with
/// folds, where walking down reaches row `first_row`.
pub open spec fn layout_start(regs: Seq<FoldRegion>, total: int, first_row: int) -> (int, int) {
    if regs.len() == 0 {
        (if first_row <= total { first_row } else { total }, first_row)
    } else {
        walk_to_row(regs, total, first_row, 0, 0)
    }
}

/// The rows of the viewport: which buffer line each display row shows, the
/// display rows shown, and how many rows the whole text takes.
pub struct LayoutRows {
    pub lines: Vec<(u32, usize)>,
    pub visible_start: u32,
    pub visible_end: u32,
    pub total_display_rows: u32,
}

/// Lay out the display rows from `first_visible_row` to
/// `last_visible_row` (one past it at most) over `total_buffer_lines`
/// lines, folded lines left out.
pub fn layout_rows(
    fold_state: &FoldState,
    total_buffer_lines: usize,
    first_visible_row: u32,
    last_visible_row: u32,
) -> (r: LayoutRows)
    requires
        last_visible_row < u32::MAX,
    ensures
        ({
            let regs = fold_state.regions@;
            let total = total_buffer_lines as int;
            let (l0, r0) = layout_start(regs, total, first_visible_row as int);
            &&& r.lines@ == rows_from(regs, total, last_visible_row as int, l0, r0)
            &&& r.visible_start == r0
            &&& r.visible_end == end_row_from(regs, total, last_visible_row as int, l0, r0)
            &&& r.total_display_rows == (if regs.len() == 0 {
                total_buffer_lines as u32
            } else {
                visible_line_count(regs, total) as u32
            })
        }),
{
    let ghost regs = fold_state.regions@;
    let ghost total = total_buffer_lines as int;
    let ghost last = last_visible_row as int;
    let has_folding = fold_state.regions.len() > 0;
    let mut line: usize;
    let mut row: u32;
    if has_folding {
        line = 0;
        row = 0;
        while line < total_buffer_lines && row < first_visible_row
            invariant
                line <= total_buffer_lines,
                row <= first_visible_row,
                regs == fold_state.regions@,
                total == total_buffer_lines as int,
                walk_to_row(regs, total, first_visible_row as int, line as int, row as int) == walk_to_row(
                    regs,
                    total,
                    first_visible_row as int,
                    0,
                    0,
                ),
            decreases total_buffer_lines - line,
        {
            let hidden = fold_state.is_line_hidden(line);
            proof {
                let next_row = if hidden { row as int } else { row + 1 };
                assert(walk_to_row(regs, total, first_visible_row as int, line as int, row as int) == walk_to_row(
                    regs,
                    total,
                    first_visible_row as int,
                    line + 1,
                    next_row,
                ));
            }
            if !hidden {
                row += 1;
            }
            line += 1;
        }
    } else {
        line = if (first_visible_row as usize) <= total_buffer_lines {
            first_visible_row as usize
        } else {
            total_buffer_lines
        };
        row = first_visible_row;
    }
    let ghost l0 = line as int;
    let ghost r0 = row as int;
    assert((l0, r0) == layout_start(regs, total, first_visible_row as int));
    let visible_start = row;
    let mut lines: Vec<(u32, usize)> = Vec::new();
    loop
        invariant_except_break
            regs == fold_state.regions@,
            total == total_buffer_lines as int,
            last == last_visible_row as int,
            line <= total_buffer_lines,
            last_visible_row < u32::MAX,
            lines@ + rows_from(regs, total, last, line as int, row as int) == rows_from(regs, total, last, l0, r0),
            end_row_from(regs, total, last, line as int, row as int) == end_row_from(regs, total, last, l0, r0),
        ensures
            lines@ == rows_from(regs, total, last, l0, r0),
            row == end_row_from(regs, total, last, l0, r0),
        decreases total_buffer_lines - line,
    {
        if line >= total_buffer_lines {
            proof {
                assert(lines@ + Seq::<(u32, usize)>::empty() =~= lines@);
            }
            break;
        }
        let hidden = fold_state.is_line_hidden(line);
        if hidden {
            proof {
                assert(rows_from(regs, total, last, line as int, row as int) == rows_from(regs, total, last, line + 1, row as int));
                assert(end_row_from(regs, total, last, line as int, row as int) == end_row_from(regs, total, last, line + 1, row as int));
            }
            line += 1;
            continue;
        }
        if row > last_visible_row {
            proof {
                assert(rows_from(regs, total, last, line as int, row as int) == Seq::<(u32, usize)>::empty());
                assert(end_row_from(regs, total, last, line as int, row as int) == row);
            }
            proof {
                assert(lines@ + Seq::<(u32, usize)>::empty() =~= lines@);
            }
            break;
        }
        proof {
            assert(rows_from(regs, total, last, line as int, row as int) == seq![(row, line)] + rows_from(regs, total, last, line + 1, row + 1));
            assert(end_row_from(regs, total, last, line as int, row as int) == end_row_from(regs, total, last, line + 1, row + 1));
        }
        lines.push((row, line));
        proof {
            let rest = rows_from(regs, total, last, line + 1, row + 1);
            assert(lines@.drop_last() + (seq![(row, line)] + rest) =~= lines@ + rest);
        }
        row += 1;
        line += 1;
    }
    let total_display_rows: u32 = if has_folding {
        let mut count: usize = 0;
        let mut l: usize = 0;
        while l < total_buffer_lines
            invariant
                l <= total_buffer_lines,
                count <= l,
                regs == fold_state.regions@,
                total == total_buffer_lines as int,
                count == visible_line_count(regs, l as int),
            decreases total_buffer_lines - l,
        {
            if !fold_state.is_line_hidden(l) {
                count += 1;
            }
            l += 1;
        }
        #[verifier::truncate] (count as u32)
    } else {
        #[verifier::truncate] (total_buffer_lines as u32)
    };
    LayoutRows { lines, visible_start, visible_end: row, total_display_rows }
}

/// The rows of a layout are consecutive display rows from the first one,
/// each showing a line that folds leave visible, the lines in increasing
/// order from where the layout starts; at most the rows up to `last_row`
/// are filled.
pub proof fn law_layout_rows_consecutive(regs: Seq<FoldRegion>, total: int, last_row: int, line: int, row: int)
    requires
        0 <= line,
        0 <= row,
        last_row < u32::MAX,
        total <= usize::MAX,
    ensures
        forall|k: int| 0 <= k < rows_from(regs, total, last_row, line, row).len() ==> {
            let e = #[trigger] rows_from(regs, total, last_row, line, row)[k];
            &&& e.0 == row + k
            &&& e.0 <= last_row
            &&& line <= e.1 < total
            &&& !hidden_by_folds(regs, e.1 as int)
        },
        forall|a: int, b: int| 0 <= a < b < rows_from(regs, total, last_row, line, row).len() ==>
            #[trigger] rows_from(regs, total, last_row, line, row)[a].1 < #[trigger] rows_from(regs, total, last_row, line, row)[b].1,
        end_row_from(regs, total, last_row, line, row) == row + rows_from(regs, total, last_row, line, row).len(),
    decreases total - line,
{
    if line < total {
        law_layout_rows_consecutive(regs, total, last_row, line + 1, row);
        law_layout_rows_consecutive(regs, total, last_row, line + 1, row + 1);
        if !hidden_by_folds(regs, line) && row <= last_row {
            let rest = rows_from(regs, total, last_row, line + 1, row + 1);
            let all = rows_from(regs, total, last_row, line, row);
            assert(all == seq![(row as u32, line as usize)] + rest);
            assert forall|k: int| 0 <= k < all.len() implies {
                let e = #[trigger] all[k];
                &&& e.0 == row + k
                &&& e.0 <= last_row
                &&& line <= e.1 < total
                &&& !hidden_by_folds(regs, e.1 as int)
            } by {
                if k > 0 {
                    assert(all[k] == rest[k - 1]);
                }
            }
            assert forall|a: int, b: int| 0 <= a < b < all.len() implies #[trigger] all[a].1 < #[trigger] all[b].1 by {
                assert(all[b] == rest[b - 1]);
                if a > 0 {
                    assert(all[a] == rest[a - 1]);
                }
            }
        }
    }
}

} // verus!
