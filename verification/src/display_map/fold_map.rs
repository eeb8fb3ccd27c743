//! Fold Map: maps buffer rows to fold rows, where each folded region
//! collapses to its start line.

use vstd::prelude::*;
use ropey::Rope;
use crate::types::{FoldRegion, region_hidden_lines};
use crate::text::{rope_chars, line_count, rope_len_lines};

verus! {

/// `a - b`, or 0 when `b > a`.
pub open spec fn sat_sub(a: int, b: int) -> int {
    if a >= b {
        a - b
    } else {
        0
    }
}

/// Lines a folded region hides, as a row count of the map (32 bits).
pub open spec fn fold_hidden(r: FoldRegion) -> int {
    (region_hidden_lines(r) as u32) as int
}

/// Lines hidden by the first `k` regions.
pub open spec fn hidden_before(regs: Seq<FoldRegion>, k: int) -> int
    decreases k,
{
    if k <= 0 {
        0
    } else {
        hidden_before(regs, k - 1) + fold_hidden(regs[k - 1])
    }
}

/// Lines hidden by all the regions.
pub open spec fn total_hidden(regs: Seq<FoldRegion>) -> int {
    hidden_before(regs, regs.len() as int)
}

/// Number of regions that start before `line`.
pub open spec fn starts_before(regs: Seq<FoldRegion>, line: int) -> int
    decreases regs.len(),
{
    if regs.len() == 0 {
        0
    } else {
        starts_before(regs.drop_last(), line) + if regs.last().start_line < line {
            1int
        } else {
            0int
        }
    }
}

pub open spec fn sorted_by_start(regs: Seq<FoldRegion>) -> bool {
    forall|i: int, j: int|
        0 <= i <= j < regs.len() ==> #[trigger] regs[i].start_line <= #[trigger] regs[j].start_line
}

/// `regs` with `r` placed after every region that starts no later than `r`.
pub open spec fn insert_by_start(regs: Seq<FoldRegion>, r: FoldRegion) -> Seq<FoldRegion>
    decreases regs.len(),
{
    if regs.len() == 0 {
        seq![r]
    } else if regs.last().start_line <= r.start_line {
        regs.push(r)
    } else {
        insert_by_start(regs.drop_last(), r).push(regs.last())
    }
}

/// `regs` stably sorted by start line.
pub open spec fn sort_by_start(regs: Seq<FoldRegion>) -> Seq<FoldRegion>
    decreases regs.len(),
{
    if regs.len() == 0 {
        regs
    } else {
        insert_by_start(sort_by_start(regs.drop_last()), regs.last())
    }
}

/// The regions of `regs` that are folded, in order.
pub open spec fn folded_only(regs: Seq<FoldRegion>) -> Seq<FoldRegion>
    decreases regs.len(),
{
    if regs.len() == 0 {
        regs
    } else if regs.last().is_folded {
        folded_only(regs.drop_last()).push(regs.last())
    } else {
        folded_only(regs.drop_last())
    }
}

/// What a fold map holds after an update from `regions`: the folded ones,
/// stably sorted by start line.
pub open spec fn fold_layout(regions: Seq<FoldRegion>) -> Seq<FoldRegion> {
    sort_by_start(folded_only(regions))
}

/// Whether the fold map reports `line` as hidden: the last region starting
/// before `line` covers it.
pub open spec fn line_hidden(regs: Seq<FoldRegion>, line: int) -> bool {
    let k = starts_before(regs, line);
    0 < k && regs[k - 1].start_line < line <= regs[k - 1].end_line
}

/// Fold row of buffer row `row`: a hidden row maps to the row of its fold's
/// start line, any other row moves up by the lines hidden before it.
pub open spec fn buffer_to_fold(regs: Seq<FoldRegion>, row: int) -> int {
    let k = starts_before(regs, row);
    if k > 0 {
        if regs[k - 1].start_line < row <= regs[k - 1].end_line {
            sat_sub((regs[k - 1].start_line as u32) as int, hidden_before(regs, k - 1))
        } else {
            sat_sub(row, hidden_before(regs, k))
        }
    } else {
        row
    }
}

/// Fold row of the start line of region `i`.
pub open spec fn fold_start(regs: Seq<FoldRegion>, i: int) -> int {
    sat_sub((regs[i].start_line as u32) as int, hidden_before(regs, i))
}

/// `k` splits the regions into those whose fold start is at most `row` and
/// those whose fold start is after it.
pub open spec fn is_fold_boundary(regs: Seq<FoldRegion>, row: int, k: int) -> bool {
    &&& 0 <= k <= regs.len()
    &&& k == 0 || fold_start(regs, k - 1) <= row
    &&& k == regs.len() || fold_start(regs, k) > row
}

/// Binary search over `lo..hi` for the regions whose fold start is at most
/// `row`; when fold starts are sorted it finds the boundary between the two.
pub open spec fn fold_search(regs: Seq<FoldRegion>, row: int, lo: int, hi: int) -> int
    decreases hi - lo,
{
    if lo >= hi {
        lo
    } else {
        let mid = lo + (hi - lo) / 2;
        if fold_start(regs, mid) <= row {
            fold_search(regs, row, mid + 1, hi)
        } else {
            fold_search(regs, row, lo, mid)
        }
    }
}

/// Number of folds a fold row is past, as the map's binary search finds it.
pub open spec fn fold_row_index(regs: Seq<FoldRegion>, row: int) -> int {
    fold_search(regs, row, 0, regs.len() as int)
}

/// Buffer row of fold row `row`, given the boundary `k` of `row`.
pub open spec fn fold_to_buffer_at(regs: Seq<FoldRegion>, row: int, k: int) -> int {
    if k == 0 {
        row
    } else if row == fold_start(regs, k - 1) {
        (regs[k - 1].start_line as u32) as int
    } else {
        row + hidden_before(regs, k)
    }
}

/// Buffer row of fold row `row`.
pub open spec fn fold_to_buffer(regs: Seq<FoldRegion>, row: int) -> int {
    fold_to_buffer_at(regs, row, fold_row_index(regs, row))
}

/// Started from bounds that are on either side of `row`, the search ends on a
/// boundary of `row`.
pub proof fn lemma_fold_search(regs: Seq<FoldRegion>, row: int, lo: int, hi: int)
    requires
        0 <= lo <= hi <= regs.len(),
        lo == 0 || fold_start(regs, lo - 1) <= row,
        hi == regs.len() || fold_start(regs, hi) > row,
    ensures
        is_fold_boundary(regs, row, fold_search(regs, row, lo, hi)),
        lo <= fold_search(regs, row, lo, hi) <= hi,
    decreases hi - lo,
{
    if lo < hi {
        let mid = lo + (hi - lo) / 2;
        if fold_start(regs, mid) <= row {
            lemma_fold_search(regs, row, mid + 1, hi);
        } else {
            lemma_fold_search(regs, row, lo, mid);
        }
    }
}

/// Visible buffer rows below `n`, in order.
pub open spec fn visible_rows(regs: Seq<FoldRegion>, n: int) -> Seq<u32>
    decreases n,
{
    if n <= 0 {
        Seq::empty()
    } else if line_hidden(regs, n - 1) {
        visible_rows(regs, n - 1)
    } else {
        visible_rows(regs, n - 1).push((n - 1) as u32)
    }
}

pub proof fn lemma_starts_before(regs: Seq<FoldRegion>, line: int)
    requires
        sorted_by_start(regs),
    ensures
        0 <= starts_before(regs, line) <= regs.len(),
        forall|i: int| 0 <= i < starts_before(regs, line) ==> regs[i].start_line < line,
        forall|i: int| starts_before(regs, line) <= i < regs.len() ==> regs[i].start_line >= line,
    decreases regs.len(),
{
    if regs.len() > 0 {
        let d = regs.drop_last();
        assert(sorted_by_start(d));
        lemma_starts_before(d, line);
        let kd = starts_before(d, line);
        assert(forall|i: int| 0 <= i < d.len() ==> d[i] == regs[i]);
        if regs.last().start_line < line {
            assert forall|i: int| 0 <= i < regs.len() implies regs[i].start_line < line by {
                assert(regs[i].start_line <= regs[regs.len() - 1].start_line);
            }
            if kd < d.len() {
                assert(d[kd].start_line >= line);
                assert(regs[kd].start_line < line);
            }
        }
    }
}

pub proof fn lemma_hidden_before_nonneg(regs: Seq<FoldRegion>, a: int)
    ensures
        0 <= hidden_before(regs, a),
    decreases a,
{
    if a > 0 {
        lemma_hidden_before_nonneg(regs, a - 1);
    }
}

pub proof fn lemma_hidden_before_mono(regs: Seq<FoldRegion>, a: int, b: int)
    requires
        0 <= a <= b,
    ensures
        0 <= hidden_before(regs, a) <= hidden_before(regs, b),
    decreases b - a,
{
    lemma_hidden_before_nonneg(regs, a);
    if a < b {
        lemma_hidden_before_mono(regs, a, b - 1);
    }
}

pub proof fn lemma_hidden_before_prefix(regs: Seq<FoldRegion>, other: Seq<FoldRegion>, k: int)
    requires
        0 <= k <= regs.len(),
        k <= other.len(),
        forall|i: int| 0 <= i < k ==> regs[i] == other[i],
    ensures
        hidden_before(regs, k) == hidden_before(other, k),
    decreases k,
{
    if k > 0 {
        lemma_hidden_before_prefix(regs, other, k - 1);
    }
}

/// Insertion at the position after the last region that starts no later than
/// `r` is the spec insertion.
pub proof fn lemma_insert_by_start(regs: Seq<FoldRegion>, r: FoldRegion, j: int)
    requires
        sorted_by_start(regs),
        0 <= j <= regs.len(),
        forall|i: int| 0 <= i < j ==> regs[i].start_line <= r.start_line,
        forall|i: int| j <= i < regs.len() ==> regs[i].start_line > r.start_line,
    ensures
        insert_by_start(regs, r) == regs.insert(j, r),
        sorted_by_start(regs.insert(j, r)),
    decreases regs.len(),
{
    if regs.len() == 0 {
        assert(regs.insert(j, r) =~= seq![r]);
    } else if regs.last().start_line <= r.start_line {
        assert(j == regs.len());
        assert(regs.insert(j, r) =~= regs.push(r));
    } else {
        let d = regs.drop_last();
        assert(sorted_by_start(d));
        lemma_insert_by_start(d, r, j);
        assert(d.insert(j, r).push(regs.last()) =~= regs.insert(j, r));
    }
    let s = regs.insert(j, r);
    assert forall|a: int, b: int| 0 <= a <= b < s.len() implies #[trigger] s[a].start_line
        <= #[trigger] s[b].start_line by {
        if a < j && b > j {
            assert(s[a] == regs[a]);
            assert(s[b] == regs[b - 1]);
        } else if a < j && b == j {
        } else if a == j && b > j {
            assert(s[b] == regs[b - 1]);
        } else if a > j {
            assert(s[a] == regs[a - 1]);
            assert(s[b] == regs[b - 1]);
        }
    }
}

pub proof fn lemma_folded_only(regs: Seq<FoldRegion>)
    ensures
        forall|i: int| 0 <= i < folded_only(regs).len() ==> (#[trigger] folded_only(regs)[i]).is_folded,
    decreases regs.len(),
{
    if regs.len() > 0 {
        lemma_folded_only(regs.drop_last());
    }
}

pub proof fn lemma_sort_by_start(regs: Seq<FoldRegion>)
    ensures
        sorted_by_start(sort_by_start(regs)),
        sort_by_start(regs).len() == regs.len(),
        forall|i: int|
            0 <= i < sort_by_start(regs).len() ==> regs.contains(#[trigger] sort_by_start(regs)[i]),
    decreases regs.len(),
{
    if regs.len() > 0 {
        let d = regs.drop_last();
        let sd = sort_by_start(d);
        let r = regs.last();
        lemma_sort_by_start(d);
        let j = starts_before(sd, r.start_line + 1);
        lemma_starts_before(sd, r.start_line + 1);
        lemma_insert_by_start(sd, r, j);
        assert forall|i: int| 0 <= i < sort_by_start(regs).len() implies regs.contains(
            #[trigger] sort_by_start(regs)[i],
        ) by {
            let s = sd.insert(j, r);
            if i < j {
                assert(s[i] == sd[i]);
                let w = choose|w: int| 0 <= w < d.len() && d[w] == sd[i];
                assert(regs[w] == d[w]);
            } else if i == j {
                assert(regs[regs.len() - 1] == r);
            } else {
                assert(s[i] == sd[i - 1]);
                let w = choose|w: int| 0 <= w < d.len() && d[w] == sd[i - 1];
                assert(regs[w] == d[w]);
            }
        }
    }
}

/// The regions of a fold layout are sorted by start line and all folded.
pub proof fn lemma_fold_layout_folded(regions: Seq<FoldRegion>)
    ensures
        sorted_by_start(fold_layout(regions)),
        forall|i: int|
            0 <= i < fold_layout(regions).len() ==> (#[trigger] fold_layout(regions)[i]).is_folded,
{
    lemma_folded_only(regions);
    lemma_sort_by_start(folded_only(regions));
    let f = folded_only(regions);
    assert forall|i: int| 0 <= i < fold_layout(regions).len() implies (
    #[trigger] fold_layout(regions)[i]).is_folded by {
        assert(f.contains(fold_layout(regions)[i]));
    }
}

/// Region `i` is well placed: it ends no earlier than it starts, its end
/// line fits in 32 bits, and it ends before the next region starts.
pub open spec fn fold_well_placed(regs: Seq<FoldRegion>, i: int) -> bool {
    &&& regs[i].start_line <= regs[i].end_line
    &&& regs[i].end_line < u32::MAX
    &&& i + 1 < regs.len() ==> regs[i].end_line < regs[i + 1].start_line
}

/// Folded regions that are sorted, do not overlap or touch each other, and
/// whose lines fit in 32 bits.
pub open spec fn folds_disjoint(regs: Seq<FoldRegion>) -> bool {
    forall|i: int| 0 <= i < regs.len() ==> #[trigger] fold_well_placed(regs, i)
}

proof fn lemma_disjoint_sorted(regs: Seq<FoldRegion>)
    requires
        folds_disjoint(regs),
    ensures
        sorted_by_start(regs),
{
    assert forall|i: int, j: int| 0 <= i <= j < regs.len() implies #[trigger] regs[i].start_line
        <= #[trigger] regs[j].start_line by {
        if i < j {
            lemma_disjoint_gap(regs, i, j);
            assert(fold_well_placed(regs, i));
        }
    }
}

proof fn lemma_disjoint_gap(regs: Seq<FoldRegion>, i: int, j: int)
    requires
        folds_disjoint(regs),
        0 <= i < j < regs.len(),
    ensures
        regs[i].end_line < regs[j].start_line,
    decreases j - i,
{
    assert(fold_well_placed(regs, i));
    if j > i + 1 {
        lemma_disjoint_gap(regs, i, j - 1);
        assert(fold_well_placed(regs, j - 1));
    }
}

/// Lines hidden before a disjoint fold are no more than its start line.
proof fn lemma_hidden_bound(regs: Seq<FoldRegion>, i: int)
    requires
        folds_disjoint(regs),
        0 <= i < regs.len(),
    ensures
        hidden_before(regs, i) <= regs[i].start_line,
        hidden_before(regs, i + 1) == hidden_before(regs, i) + regs[i].end_line - regs[i].start_line,
        hidden_before(regs, i + 1) <= regs[i].end_line,
    decreases i,
{
    assert(fold_well_placed(regs, i));
    assert(fold_hidden(regs[i]) == regs[i].end_line - regs[i].start_line);
    if i > 0 {
        lemma_hidden_bound(regs, i - 1);
        assert(fold_well_placed(regs, i - 1));
    }
}

/// For disjoint folds, the fold row of a fold's start line is its start line
/// less the lines hidden before it, and these rows increase strictly.
proof fn lemma_fold_start_exact(regs: Seq<FoldRegion>, i: int)
    requires
        folds_disjoint(regs),
        0 <= i < regs.len(),
    ensures
        fold_start(regs, i) == regs[i].start_line - hidden_before(regs, i),
        i + 1 < regs.len() ==> fold_start(regs, i) < fold_start(regs, i + 1),
        i + 1 < regs.len() ==> fold_start(regs, i + 1) == fold_start(regs, i) + (regs[i
            + 1].start_line - regs[i].end_line),
{
    lemma_hidden_bound(regs, i);
    assert(fold_well_placed(regs, i));
    if i + 1 < regs.len() {
        lemma_hidden_bound(regs, i + 1);
        assert(fold_well_placed(regs, i + 1));
    }
}

proof fn lemma_fold_start_increasing(regs: Seq<FoldRegion>, i: int, j: int)
    requires
        folds_disjoint(regs),
        0 <= i < j < regs.len(),
    ensures
        fold_start(regs, i) < fold_start(regs, j),
    decreases j - i,
{
    lemma_fold_start_exact(regs, j - 1);
    if j > i + 1 {
        lemma_fold_start_increasing(regs, i, j - 1);
    }
}

/// For disjoint folds the search finds the only boundary.
proof fn lemma_fold_row_index_unique(regs: Seq<FoldRegion>, row: int, k: int)
    requires
        folds_disjoint(regs),
        is_fold_boundary(regs, row, k),
    ensures
        fold_row_index(regs, row) == k,
{
    lemma_fold_search(regs, row, 0, regs.len() as int);
    let m = fold_row_index(regs, row);
    if m < k {
        if m < k - 1 {
            lemma_fold_start_increasing(regs, m, k - 1);
        }
    }
    if k < m {
        if k < m - 1 {
            lemma_fold_start_increasing(regs, k, m - 1);
        }
    }
}

/// For disjoint folds, a line is reported hidden exactly when some fold
/// covers it (it lies after the fold's start line, up to its end line).
pub proof fn law_hidden_iff_covered(regs: Seq<FoldRegion>, line: int)
    requires
        folds_disjoint(regs),
    ensures
        line_hidden(regs, line) <==> exists|i: int|
            0 <= i < regs.len() && (#[trigger] regs[i]).start_line < line <= regs[i].end_line,
{
    lemma_disjoint_sorted(regs);
    lemma_starts_before(regs, line);
    let k = starts_before(regs, line);
    if exists|i: int| 0 <= i < regs.len() && (#[trigger] regs[i]).start_line < line <= regs[i].end_line {
        let i = choose|i: int| 0 <= i < regs.len() && (#[trigger] regs[i]).start_line < line <= regs[i].end_line;
        assert(i < k);
        if i < k - 1 {
            lemma_disjoint_gap(regs, i, k - 1);
        }
    }
}

/// For disjoint folds, a visible buffer line maps to a fold row that maps back
/// to it.
pub proof fn law_visible_row_round_trip(regs: Seq<FoldRegion>, row: int)
    requires
        folds_disjoint(regs),
        0 <= row,
        !line_hidden(regs, row),
    ensures
        fold_to_buffer(regs, buffer_to_fold(regs, row)) == row,
{
    lemma_disjoint_sorted(regs);
    lemma_starts_before(regs, row);
    let n = regs.len() as int;
    let k = starts_before(regs, row);
    let f = buffer_to_fold(regs, row);
    if k == 0 {
        assert(f == row);
        if n > 0 {
            lemma_hidden_before_nonneg(regs, 0);
            assert(fold_well_placed(regs, 0));
            lemma_fold_start_exact(regs, 0);
            if regs[0].start_line == row {
                lemma_fold_start_exact(regs, 0);
                if n > 1 {
                    assert(is_fold_boundary(regs, f, 1));
                    lemma_fold_row_index_unique(regs, f, 1);
                } else {
                    assert(is_fold_boundary(regs, f, 1));
                    lemma_fold_row_index_unique(regs, f, 1);
                }
            } else {
                assert(is_fold_boundary(regs, f, 0));
                lemma_fold_row_index_unique(regs, f, 0);
            }
        } else {
            assert(is_fold_boundary(regs, f, 0));
            lemma_fold_row_index_unique(regs, f, 0);
        }
    } else {
        lemma_hidden_bound(regs, k - 1);
        lemma_fold_start_exact(regs, k - 1);
        assert(row > regs[k - 1].end_line);
        assert(f == row - hidden_before(regs, k));
        if k < n && regs[k].start_line == row {
            lemma_fold_start_exact(regs, k);
            lemma_hidden_bound(regs, k);
            assert(fold_start(regs, k) == f);
            if k + 1 < n {
                lemma_fold_start_exact(regs, k);
            }
            assert(is_fold_boundary(regs, f, k + 1));
            lemma_fold_row_index_unique(regs, f, k + 1);
        } else {
            if k < n {
                lemma_hidden_bound(regs, k);
                lemma_fold_start_exact(regs, k);
                assert(regs[k].start_line > row);
            }
            assert(is_fold_boundary(regs, f, k));
            lemma_fold_row_index_unique(regs, f, k);
        }
    }
}

/// For disjoint folds, every fold row maps to a visible buffer row that maps
/// back to it, and lies no further down than the row plus all the hidden
/// lines.
pub proof fn law_fold_row_round_trip(regs: Seq<FoldRegion>, row: int)
    requires
        folds_disjoint(regs),
        0 <= row,
    ensures
        buffer_to_fold(regs, fold_to_buffer(regs, row)) == row,
        !line_hidden(regs, fold_to_buffer(regs, row)),
        fold_to_buffer(regs, row) <= row + total_hidden(regs),
{
    lemma_fold_round_trip_core(regs, row);
    let n = regs.len() as int;
    let k = fold_row_index(regs, row);
    lemma_fold_search(regs, row, 0, n);
    lemma_hidden_before_mono(regs, k, n);
    if k > 0 {
        lemma_fold_start_exact(regs, k - 1);
        lemma_hidden_before_mono(regs, k - 1, n);
    }
}

proof fn lemma_fold_round_trip_core(regs: Seq<FoldRegion>, row: int)
    requires
        folds_disjoint(regs),
        0 <= row,
    ensures
        buffer_to_fold(regs, fold_to_buffer(regs, row)) == row,
        !line_hidden(regs, fold_to_buffer(regs, row)),
{
    lemma_disjoint_sorted(regs);
    let n = regs.len() as int;
    lemma_fold_search(regs, row, 0, n);
    let k = fold_row_index(regs, row);
    let b = fold_to_buffer(regs, row);
    lemma_starts_before(regs, b);
    let kb = starts_before(regs, b);
    if k == 0 {
        assert(b == row);
        if n > 0 {
            lemma_fold_start_exact(regs, 0);
            lemma_hidden_before_nonneg(regs, 0);
            assert(regs[0].start_line > row);
            assert(kb == 0);
        }
    } else {
        lemma_fold_start_exact(regs, k - 1);
        lemma_hidden_bound(regs, k - 1);
        assert(fold_well_placed(regs, k - 1));
        if row == fold_start(regs, k - 1) {
            assert(b == regs[k - 1].start_line);
            assert(kb == k - 1) by {
                if kb > k - 1 {
                    assert(regs[k - 1].start_line < b);
                }
                if kb < k - 1 {
                    assert(regs[kb].start_line >= b);
                    assert(fold_well_placed(regs, kb));
                    lemma_disjoint_gap(regs, kb, k - 1);
                }
            }
            if kb > 0 {
                lemma_disjoint_gap(regs, kb - 1, k - 1);
                lemma_hidden_bound(regs, kb - 1);
            }
        } else {
            assert(b == row + hidden_before(regs, k));
            assert(b > regs[k - 1].end_line);
            if k < n {
                lemma_fold_start_exact(regs, k);
                lemma_hidden_bound(regs, k);
                assert(b < regs[k].start_line);
            }
            assert(kb == k) by {
                if kb < k {
                    assert(regs[kb].start_line >= b);
                    if kb < k - 1 {
                        lemma_disjoint_gap(regs, kb, k - 1);
                    }
                    assert(fold_well_placed(regs, kb));
                }
                if kb > k {
                    assert(regs[k].start_line < b);
                }
            }
        }
    }
}

/// Hidden lines below line `n`: those of the folds that start before `n`,
/// the last of them counted only up to line `n - 1`.
pub open spec fn hidden_below(regs: Seq<FoldRegion>, n: int) -> int {
    let k = starts_before(regs, n);
    if k == 0 {
        0
    } else {
        let last = if regs[k - 1].end_line < n - 1 { regs[k - 1].end_line as int } else { n - 1 };
        hidden_before(regs, k - 1) + last - regs[k - 1].start_line
    }
}

/// For disjoint folds, moving from line `n` to `n + 1` adds the fold that
/// starts at `n`, if there is one, to those starting before.
proof fn lemma_starts_before_next(regs: Seq<FoldRegion>, n: int)
    requires
        folds_disjoint(regs),
    ensures
        ({
            let k = starts_before(regs, n);
            let at_n = k < regs.len() && regs[k].start_line == n;
            &&& at_n ==> starts_before(regs, n + 1) == k + 1
            &&& !at_n ==> starts_before(regs, n + 1) == k
        }),
{
    lemma_disjoint_sorted(regs);
    lemma_starts_before(regs, n);
    lemma_starts_before(regs, n + 1);
    let k = starts_before(regs, n);
    let k2 = starts_before(regs, n + 1);
    if k2 > k + 1 {
        assert(fold_well_placed(regs, k));
    }
    if k2 < k {
        assert(regs[k2].start_line < n);
    }
}

/// For disjoint folds, the visible lines below `n` are `n` less the hidden
/// ones.
proof fn lemma_visible_count(regs: Seq<FoldRegion>, n: int)
    requires
        folds_disjoint(regs),
        0 <= n,
    ensures
        visible_rows(regs, n).len() == n - hidden_below(regs, n),
    decreases n,
{
    if n > 0 {
        let m = n - 1;
        lemma_visible_count(regs, m);
        lemma_disjoint_sorted(regs);
        lemma_starts_before(regs, m);
        lemma_starts_before_next(regs, m);
        let k = starts_before(regs, m);
        if k > 0 {
            lemma_hidden_bound(regs, k - 1);
            assert(fold_well_placed(regs, k - 1));
        }
        if line_hidden(regs, m) {
            assert(visible_rows(regs, n) == visible_rows(regs, m));
        } else {
            assert(visible_rows(regs, n).len() == visible_rows(regs, m).len() + 1);
        }
        if k < regs.len() && regs[k].start_line == m {
            lemma_hidden_bound(regs, k);
            assert(fold_well_placed(regs, k));
            assert(starts_before(regs, n) == k + 1);
            assert(hidden_below(regs, n) == hidden_before(regs, k));
            assert(!line_hidden(regs, m));
            if k > 0 {
                assert(regs[k - 1].end_line < m);
                assert(hidden_below(regs, m) == hidden_before(regs, k));
            } else {
                assert(hidden_below(regs, m) == 0);
            }
        } else {
            assert(starts_before(regs, n) == k);
            if k > 0 {
                assert(regs[k - 1].start_line < m);
                assert(line_hidden(regs, m) <==> m <= regs[k - 1].end_line);
            }
        }
    } else {
        lemma_disjoint_sorted(regs);
        lemma_starts_before(regs, 0);
    }
}

/// The number of visible lines below `n` does not shrink as `n` grows.
pub proof fn lemma_visible_rows_grow(regs: Seq<FoldRegion>, m: int, n: int)
    requires
        0 <= m <= n,
    ensures
        visible_rows(regs, m).len() <= visible_rows(regs, n).len(),
    decreases n - m,
{
    if m < n {
        lemma_visible_rows_grow(regs, m, n - 1);
    }
}

/// For disjoint folds the fold row of `row` is the number of visible lines up
/// to and including it, less one.
proof fn lemma_fold_row_counts(regs: Seq<FoldRegion>, row: int)
    requires
        folds_disjoint(regs),
        0 <= row,
    ensures
        buffer_to_fold(regs, row) == visible_rows(regs, row + 1).len() - 1,
        buffer_to_fold(regs, row) == row - hidden_below(regs, row + 1),
{
    lemma_visible_count(regs, row + 1);
    lemma_disjoint_sorted(regs);
    lemma_starts_before(regs, row);
    lemma_starts_before_next(regs, row);
    let k = starts_before(regs, row);
    if k > 0 {
        lemma_hidden_bound(regs, k - 1);
        assert(fold_well_placed(regs, k - 1));
    }
    if k < regs.len() && regs[k].start_line == row {
        lemma_hidden_bound(regs, k);
        assert(fold_well_placed(regs, k));
    }
}

/// For disjoint folds, the fold row of a buffer row counts the visible lines
/// before it: a visible row maps to the number of visible lines above it, a
/// row hidden in a fold maps to the row of the fold's start line, and what
/// the row comes to never decreases as the row grows.
pub proof fn law_buffer_row_counts_visible(regs: Seq<FoldRegion>, row: int, other: int)
    requires
        folds_disjoint(regs),
        0 <= row,
    ensures
        !line_hidden(regs, row) ==> buffer_to_fold(regs, row) == visible_rows(regs, row).len(),
        forall|i: int|
            0 <= i < regs.len() && (#[trigger] regs[i]).start_line < row <= regs[i].end_line
                ==> buffer_to_fold(regs, row) == buffer_to_fold(regs, regs[i].start_line as int),
        row <= other ==> buffer_to_fold(regs, row) <= buffer_to_fold(regs, other),
{
    lemma_fold_row_counts(regs, row);
    if row <= other {
        lemma_fold_row_counts(regs, other);
        lemma_visible_rows_grow(regs, row + 1, other + 1);
    }
    assert forall|i: int|
        0 <= i < regs.len() && (#[trigger] regs[i]).start_line < row <= regs[i].end_line
            implies buffer_to_fold(regs, row) == buffer_to_fold(regs, regs[i].start_line as int) by {
        let s = regs[i].start_line as int;
        lemma_fold_row_counts(regs, s);
        lemma_disjoint_sorted(regs);
        lemma_starts_before(regs, s + 1);
        lemma_starts_before(regs, row + 1);
        assert(fold_well_placed(regs, i));
        assert(starts_before(regs, s + 1) == i + 1) by {
            let k = starts_before(regs, s + 1);
            if k > i + 1 {
                assert(fold_well_placed(regs, i));
            }
        }
        assert(starts_before(regs, row + 1) == i + 1) by {
            let k = starts_before(regs, row + 1);
            if k > i + 1 {
                assert(fold_well_placed(regs, i));
            }
        }
    }
    if !line_hidden(regs, row) {
        assert(visible_rows(regs, row + 1) == visible_rows(regs, row).push(row as u32));
    }
}

/// With no folds, every row maps to itself both ways and no line is hidden.
pub proof fn law_no_folds_identity(regs: Seq<FoldRegion>, row: int)
    requires
        regs.len() == 0,
        0 <= row,
    ensures
        buffer_to_fold(regs, row) == row,
        fold_to_buffer(regs, row) == row,
        !line_hidden(regs, row),
{
}

/// For disjoint folds, the visible lines below `n` are, in increasing
/// order, exactly the lines below `n` that are not hidden; there are `n`
/// less the hidden lines below `n` of them, which is `n` less all the
/// hidden lines when every fold ends below `n`.
pub proof fn law_visible_rows_exact(regs: Seq<FoldRegion>, n: int)
    requires
        folds_disjoint(regs),
        0 <= n <= u32::MAX,
    ensures
        forall|i: int|
            0 <= i < visible_rows(regs, n).len() ==> (#[trigger] visible_rows(regs, n)[i] as int) < n
                && !line_hidden(regs, visible_rows(regs, n)[i] as int),
        forall|i: int, j: int|
            0 <= i < j < visible_rows(regs, n).len() ==> #[trigger] visible_rows(regs, n)[i]
                < #[trigger] visible_rows(regs, n)[j],
        forall|l: int| 0 <= l < n && !line_hidden(regs, l) ==> visible_rows(regs, n).contains(l as u32),
        visible_rows(regs, n).len() == n - hidden_below(regs, n),
        (forall|i: int| 0 <= i < regs.len() ==> (#[trigger] regs[i]).end_line < n) ==> visible_rows(
            regs,
            n,
        ).len() == n - total_hidden(regs),
    decreases n,
{
    lemma_visible_count(regs, n);
    if n > 0 {
        law_visible_rows_exact(regs, n - 1);
        let v = visible_rows(regs, n);
        let w = visible_rows(regs, n - 1);
        assert forall|l: int| 0 <= l < n && !line_hidden(regs, l) implies v.contains(l as u32) by {
            if l < n - 1 {
                assert(w.contains(l as u32));
                let j = choose|j: int| 0 <= j < w.len() && w[j] == l as u32;
                assert(v[j] == w[j]);
            } else {
                assert(v[v.len() - 1] == l as u32);
            }
        }
    }
    if forall|i: int| 0 <= i < regs.len() ==> (#[trigger] regs[i]).end_line < n {
        lemma_disjoint_sorted(regs);
        lemma_starts_before(regs, n);
        if regs.len() > 0 {
            let m = regs.len() - 1;
            assert(regs[m].start_line <= regs[m].end_line) by {
                assert(fold_well_placed(regs, m));
            }
            assert(starts_before(regs, n) == regs.len());
            lemma_hidden_bound(regs, m);
        }
    }
}

/// The folded regions of `regs`, in order, are those `filter` keeps.
proof fn lemma_folded_only_filter(regs: Seq<FoldRegion>)
    ensures
        folded_only(regs) == regs.filter(|r: FoldRegion| r.is_folded),
    decreases regs.len(),
{
    reveal_with_fuel(Seq::filter, 1);
    if regs.len() > 0 {
        lemma_folded_only_filter(regs.drop_last());
    }
}

proof fn lemma_insert_by_start_multiset(regs: Seq<FoldRegion>, r: FoldRegion)
    ensures
        insert_by_start(regs, r).to_multiset() == regs.to_multiset().insert(r),
    decreases regs.len(),
{
    broadcast use vstd::seq_lib::group_to_multiset_ensures;

    if regs.len() > 0 && regs.last().start_line > r.start_line {
        let d = regs.drop_last();
        lemma_insert_by_start_multiset(d, r);
        assert(d.push(regs.last()) =~= regs);
        assert(insert_by_start(regs, r).to_multiset() =~= regs.to_multiset().insert(r));
    }
}

proof fn lemma_sort_by_start_multiset(regs: Seq<FoldRegion>)
    ensures
        sort_by_start(regs).to_multiset() == regs.to_multiset(),
    decreases regs.len(),
{
    broadcast use vstd::seq_lib::group_to_multiset_ensures;

    if regs.len() > 0 {
        let d = regs.drop_last();
        lemma_sort_by_start_multiset(d);
        lemma_insert_by_start_multiset(sort_by_start(d), regs.last());
        assert(d.push(regs.last()) =~= regs);
    }
}

/// What a fold map keeps of the regions it is updated from: exactly the
/// folded ones, each as often as it occurs, sorted by start line.
pub proof fn law_fold_layout_keeps_folded(regions: Seq<FoldRegion>)
    ensures
        fold_layout(regions).to_multiset() == regions.filter(|r: FoldRegion| r.is_folded).to_multiset(),
        fold_layout(regions).len() == regions.filter(|r: FoldRegion| r.is_folded).len(),
        sorted_by_start(fold_layout(regions)),
{
    lemma_folded_only_filter(regions);
    lemma_sort_by_start_multiset(folded_only(regions));
    lemma_sort_by_start(folded_only(regions));
}

/// No two regions of `s` (at different places) overlap: one ends before
/// the other starts.
pub open spec fn regions_apart(s: Seq<FoldRegion>) -> bool {
    forall|i: int, j: int|
        0 <= i < s.len() && 0 <= j < s.len() && i != j ==> (#[trigger] s[i]).end_line < (#[trigger] s[j]).start_line
            || s[j].end_line < s[i].start_line
}

/// No two folded regions of `regions` overlap.
pub open spec fn folded_apart(regions: Seq<FoldRegion>) -> bool {
    forall|i: int, j: int|
        0 <= i < regions.len() && 0 <= j < regions.len() && i != j && (#[trigger] regions[i]).is_folded
            && (#[trigger] regions[j]).is_folded ==> regions[i].end_line < regions[j].start_line
            || regions[j].end_line < regions[i].start_line
}

/// Every folded region of `regions` starts no later than it ends, and ends
/// before line `n`.
pub open spec fn folded_inside(regions: Seq<FoldRegion>, n: int) -> bool {
    forall|i: int|
        0 <= i < regions.len() && (#[trigger] regions[i]).is_folded ==> regions[i].start_line <= regions[i].end_line
            < n
}

/// Where the `a`-th folded region of `regs` stands in `regs`.
proof fn lemma_folded_only_index(regs: Seq<FoldRegion>, a: int) -> (k: int)
    requires
        0 <= a < folded_only(regs).len(),
    ensures
        0 <= k < regs.len(),
        regs[k] == folded_only(regs)[a],
        regs[k].is_folded,
    decreases regs.len(),
{
    let d = regs.drop_last();
    let fd = folded_only(d);
    if regs.last().is_folded {
        assert(folded_only(regs) == fd.push(regs.last()));
    } else {
        assert(folded_only(regs) == fd);
    }
    if a < fd.len() {
        let k = lemma_folded_only_index(d, a);
        assert(regs[k] == d[k]);
        k
    } else {
        regs.len() - 1
    }
}

proof fn lemma_folded_only_apart(regs: Seq<FoldRegion>)
    requires
        folded_apart(regs),
    ensures
        regions_apart(folded_only(regs)),
    decreases regs.len(),
{
    if regs.len() > 0 {
        let d = regs.drop_last();
        assert(folded_apart(d)) by {
            assert forall|i: int, j: int|
                0 <= i < d.len() && 0 <= j < d.len() && i != j && (#[trigger] d[i]).is_folded
                    && (#[trigger] d[j]).is_folded implies d[i].end_line < d[j].start_line
                    || d[j].end_line < d[i].start_line by {
                assert(d[i] == regs[i] && d[j] == regs[j]);
            }
        }
        lemma_folded_only_apart(d);
        let fd = folded_only(d);
        let f = folded_only(regs);
        let last = regs.len() - 1;
        if regs[last].is_folded {
            assert forall|i: int, j: int|
                0 <= i < f.len() && 0 <= j < f.len() && i != j implies (#[trigger] f[i]).end_line < (
                #[trigger] f[j]).start_line || f[j].end_line < f[i].start_line by {
                if i < fd.len() && j < fd.len() {
                    assert(f[i] == fd[i] && f[j] == fd[j]);
                } else if i < fd.len() {
                    assert(f[i] == fd[i]);
                    let k = lemma_folded_only_index(d, i);
                    assert(regs[k] == d[k]);
                    assert(f[j] == regs[last]);
                } else {
                    assert(f[j] == fd[j]);
                    let k = lemma_folded_only_index(d, j);
                    assert(regs[k] == d[k]);
                    assert(f[i] == regs[last]);
                }
            }
        }
    }
}

proof fn lemma_sort_apart(regs: Seq<FoldRegion>)
    requires
        regions_apart(regs),
    ensures
        regions_apart(sort_by_start(regs)),
    decreases regs.len(),
{
    if regs.len() > 0 {
        let d = regs.drop_last();
        let c = regs.last();
        assert(regions_apart(d)) by {
            assert forall|i: int, j: int| 0 <= i < d.len() && 0 <= j < d.len() && i != j implies (
            #[trigger] d[i]).end_line < (#[trigger] d[j]).start_line || d[j].end_line < d[i].start_line by {
                assert(d[i] == regs[i] && d[j] == regs[j]);
            }
        }
        lemma_sort_apart(d);
        lemma_sort_by_start(d);
        let sd = sort_by_start(d);
        let j = starts_before(sd, c.start_line + 1);
        lemma_starts_before(sd, c.start_line + 1);
        lemma_insert_by_start(sd, c, j);
        let s = sd.insert(j, c);
        assert forall|a: int| 0 <= a < sd.len() implies (#[trigger] sd[a]).end_line < c.start_line
            || c.end_line < sd[a].start_line by {
            assert(d.contains(sd[a]));
            let k = choose|k: int| 0 <= k < d.len() && d[k] == sd[a];
            assert(regs[k] == d[k]);
            assert(regs[regs.len() - 1] == c);
        }
        assert forall|x: int, y: int| 0 <= x < s.len() && 0 <= y < s.len() && x != y implies (
        #[trigger] s[x]).end_line < (#[trigger] s[y]).start_line || s[y].end_line < s[x].start_line by {
            if x != j && y != j {
                let xi = if x < j { x } else { x - 1 };
                let yi = if y < j { y } else { y - 1 };
                assert(s[x] == sd[xi] && s[y] == sd[yi]);
            } else if x == j {
                let yi = if y < j { y } else { y - 1 };
                assert(s[y] == sd[yi]);
            } else {
                let xi = if x < j { x } else { x - 1 };
                assert(s[x] == sd[xi]);
            }
        }
    }
}

/// What the original promises of folds that do not overlap: when the
/// folded regions an update is given lie apart and inside `n` lines, the
/// regions the map keeps are disjoint in the sense the fold laws take
/// (sorted, each ending before the next starts) and end before line `n`.
/// The fold laws above then hold of the updated map.
pub proof fn law_update_keeps_folds_apart(regions: Seq<FoldRegion>, n: int)
    requires
        folded_apart(regions),
        folded_inside(regions, n),
        n <= u32::MAX,
    ensures
        folds_disjoint(fold_layout(regions)),
        forall|i: int| 0 <= i < fold_layout(regions).len() ==> (#[trigger] fold_layout(regions)[i]).end_line < n,
{
    let f = folded_only(regions);
    let l = fold_layout(regions);
    lemma_folded_only_apart(regions);
    lemma_sort_apart(f);
    lemma_sort_by_start(f);
    assert forall|i: int| 0 <= i < l.len() implies (#[trigger] l[i]).start_line <= l[i].end_line < n by {
        assert(f.contains(l[i]));
        let a = choose|a: int| 0 <= a < f.len() && f[a] == l[i];
        let k = lemma_folded_only_index(regions, a);
        assert(regions[k].start_line <= regions[k].end_line < n);
    }
    assert forall|i: int| 0 <= i < l.len() implies #[trigger] fold_well_placed(l, i) by {
        if i + 1 < l.len() {
            assert(l[i].start_line <= l[i + 1].start_line);
            assert(l[i + 1].start_line <= l[i + 1].end_line);
        }
    }
}

/// The fold map's promises after `fm.update(&rope, regions)` with folded
/// regions that lie apart and inside the rope's `fm.buffer_lines()` lines:
/// a visible line maps to the count of visible lines above it and back to
/// itself; a fold row below the visible line count maps to a visible line
/// inside the rope that maps back to it; the visible lines are exactly the
/// lines that are not hidden, as many as the visible line count.
pub proof fn law_fold_map_after_update(fm: FoldMap, regions: Seq<FoldRegion>, l: int, f: int)
    requires
        fm.regions() == fold_layout(regions),
        folded_apart(regions),
        folded_inside(regions, fm.buffer_lines() as int),
        0 <= l,
        0 <= f,
    ensures
        !line_hidden(fm.regions(), l) ==> buffer_to_fold(fm.regions(), l) == visible_rows(fm.regions(), l).len()
            && fold_to_buffer(fm.regions(), buffer_to_fold(fm.regions(), l)) == l,
        f < fm.spec_visible() ==> fold_to_buffer(fm.regions(), f) < fm.buffer_lines() && !line_hidden(
            fm.regions(),
            fold_to_buffer(fm.regions(), f),
        ) && buffer_to_fold(fm.regions(), fold_to_buffer(fm.regions(), f)) == f,
        visible_rows(fm.regions(), fm.buffer_lines() as int).len() == fm.spec_visible(),
        forall|k: int|
            0 <= k < fm.buffer_lines() && !line_hidden(fm.regions(), k) ==> visible_rows(
                fm.regions(),
                fm.buffer_lines() as int,
            ).contains(k as u32),
{
    let r = fm.regions();
    let n = fm.buffer_lines() as int;
    law_update_keeps_folds_apart(regions, n);
    law_buffer_row_counts_visible(r, l, l);
    if !line_hidden(r, l) {
        law_visible_row_round_trip(r, l);
    }
    law_fold_row_round_trip(r, f);
    law_visible_rows_exact(r, n);
    lemma_hidden_before_nonneg(r, r.len() as int);
}

#[derive(Clone, Copy, Debug)]
struct FoldSummary {
    region: FoldRegion,
    hidden_before: u32,
    hidden_through: u32,
}

/// Tracks which buffer lines map to which fold lines.
#[derive(Debug)]
pub struct FoldMap {
    /// Folded regions sorted by start line, with cumulative hidden counts.
    fold_summaries: Vec<FoldSummary>,
    visible_line_count: u32,
    buffer_line_count: u32,
}

impl FoldMap {
    /// The folded regions the map holds, sorted by start line.
    pub closed spec fn regions(&self) -> Seq<FoldRegion> {
        self.fold_summaries@.map_values(|s: FoldSummary| s.region)
    }

    /// Number of visible lines: buffer lines less hidden ones.
    pub open spec fn spec_visible(&self) -> int {
        sat_sub(self.buffer_lines() as int, total_hidden(self.regions()))
    }

    /// Number of buffer lines at the last update.
    pub closed spec fn buffer_lines(&self) -> u32 {
        self.buffer_line_count
    }

    #[verifier::type_invariant]
    closed spec fn inv(&self) -> bool {
        let regs = self.regions();
        &&& sorted_by_start(regs)
        &&& forall|i: int| 0 <= i < regs.len() ==> (#[trigger] regs[i]).is_folded
        &&& forall|i: int|
            0 <= i < self.fold_summaries@.len() ==> (#[trigger] self.fold_summaries@[i]).hidden_before
                == hidden_before(regs, i) && self.fold_summaries@[i].hidden_through
                == hidden_before(regs, i + 1)
        &&& total_hidden(regs) <= u32::MAX
        &&& self.visible_line_count == sat_sub(self.buffer_line_count as int, total_hidden(regs))
    }

    /// Create a new empty fold map.
    pub fn new() -> (r: Self)
        ensures
            r.regions() == Seq::<FoldRegion>::empty(),
            r.buffer_lines() == 0,
    {
        let r = FoldMap { fold_summaries: Vec::new(), visible_line_count: 0, buffer_line_count: 0 };
        assert(r.regions() =~= Seq::<FoldRegion>::empty());
        r
    }

    /// Rebuild the map from the buffer and its fold regions: keep the folded
    /// regions, stably sorted by start line, with their cumulative hidden counts.
    pub fn update(&mut self, rope: &Rope, fold_regions: &[FoldRegion])
        requires
            total_hidden(fold_layout(fold_regions@)) <= u32::MAX,
        ensures
            final(self).regions() == fold_layout(fold_regions@),
            final(self).buffer_lines() == #[verifier::truncate] (line_count(rope_chars(*rope)) as u32),
    {
        let buffer_line_count = #[verifier::truncate] (rope_len_lines(rope) as u32);

        // Keep the folded regions.
        let mut folded: Vec<FoldRegion> = Vec::new();
        let mut i: usize = 0;
        assert(fold_regions@.take(0) =~= Seq::<FoldRegion>::empty());
        while i < fold_regions.len()
            invariant
                0 <= i <= fold_regions@.len(),
                folded@ == folded_only(fold_regions@.take(i as int)),
            decreases fold_regions@.len() - i,
        {
            assert(fold_regions@.take(i + 1).drop_last() =~= fold_regions@.take(i as int));
            let r = fold_regions[i];
            if r.is_folded {
                folded.push(r);
            }
            i += 1;
        }
        assert(fold_regions@.take(fold_regions@.len() as int) =~= fold_regions@);

        // Stable insertion sort by start line.
        let mut sorted: Vec<FoldRegion> = Vec::new();
        let mut i: usize = 0;
        assert(folded@.take(0) =~= Seq::<FoldRegion>::empty());
        while i < folded.len()
            invariant
                0 <= i <= folded@.len(),
                sorted@ == sort_by_start(folded@.take(i as int)),
                sorted_by_start(sorted@),
            decreases folded@.len() - i,
        {
            let r = folded[i];
            let mut j: usize = sorted.len();
            while j > 0 && sorted[j - 1].start_line > r.start_line
                invariant
                    0 <= j <= sorted@.len(),
                    sorted_by_start(sorted@),
                    forall|k: int| j <= k < sorted@.len() ==> sorted@[k].start_line > r.start_line,
                decreases j,
            {
                j -= 1;
            }
            proof {
                assert forall|k: int| 0 <= k < j implies sorted@[k].start_line <= r.start_line by {
                    assert(sorted@[k].start_line <= sorted@[j - 1].start_line);
                }
                lemma_insert_by_start(sorted@, r, j as int);
                assert(folded@.take(i + 1).drop_last() =~= folded@.take(i as int));
            }
            sorted.insert(j, r);
            i += 1;
        }
        assert(folded@.take(folded@.len() as int) =~= folded@);
        let ghost regs = sorted@;
        assert(regs == fold_layout(fold_regions@));

        // Cumulative hidden line counts.
        let mut summaries: Vec<FoldSummary> = Vec::new();
        let mut cumulative_hidden: u32 = 0;
        let mut i: usize = 0;
        while i < sorted.len()
            invariant
                regs == sorted@,
                0 <= i <= regs.len(),
                total_hidden(regs) <= u32::MAX,
                summaries@.len() == i,
                cumulative_hidden == hidden_before(regs, i as int),
                forall|k: int| 0 <= k < i ==> (#[trigger] summaries@[k]).region == regs[k],
                forall|k: int|
                    0 <= k < i ==> (#[trigger] summaries@[k]).hidden_before == hidden_before(regs, k)
                        && summaries@[k].hidden_through == hidden_before(regs, k + 1),
            decreases regs.len() - i,
        {
            let region = sorted[i];
            let hidden = #[verifier::truncate] (region.hidden_line_count() as u32);
            proof {
                lemma_hidden_before_mono(regs, i + 1, regs.len() as int);
            }
            summaries.push(
                FoldSummary {
                    region,
                    hidden_before: cumulative_hidden,
                    hidden_through: cumulative_hidden + hidden,
                },
            );
            cumulative_hidden = cumulative_hidden + hidden;
            i += 1;
        }
        let visible_line_count = buffer_line_count.saturating_sub(cumulative_hidden);
        proof {
            lemma_fold_layout_folded(fold_regions@);
            assert(summaries@.map_values(|s: FoldSummary| s.region) =~= regs);
        }
        *self = FoldMap { fold_summaries: summaries, visible_line_count, buffer_line_count };
    }

    /// Index of the first region that does not start before `line`.
    fn partition_by_start(&self, line: usize) -> (k: usize)
        ensures
            k == starts_before(self.regions(), line as int),
            0 <= k <= self.regions().len(),
    {
        proof {
            use_type_invariant(self);
            lemma_starts_before(self.regions(), line as int);
        }
        let ghost regs = self.regions();
        let mut lo: usize = 0;
        let mut hi: usize = self.fold_summaries.len();
        while lo < hi
            invariant
                regs == self.regions(),
                regs.len() == self.fold_summaries@.len(),
                sorted_by_start(regs),
                0 <= lo <= hi <= regs.len(),
                forall|i: int| 0 <= i < lo ==> regs[i].start_line < line,
                forall|i: int| hi <= i < regs.len() ==> regs[i].start_line >= line,
            decreases hi - lo,
        {
            let mid = lo + (hi - lo) / 2;
            if self.fold_summaries[mid].region.start_line < line {
                proof {
                    assert forall|i: int| 0 <= i <= mid implies regs[i].start_line < line by {
                        assert(regs[i].start_line <= regs[mid as int].start_line);
                    }
                }
                lo = mid + 1;
            } else {
                proof {
                    assert forall|i: int| mid <= i < regs.len() implies regs[i].start_line >= line by {
                        assert(regs[mid as int].start_line <= regs[i].start_line);
                    }
                }
                hi = mid;
            }
        }
        proof {
            let k = starts_before(regs, line as int);
            if k < lo {
                assert(regs[k].start_line >= line);
            }
            if k > lo {
                assert(regs[lo as int].start_line < line);
            }
        }
        lo
    }

    /// Whether a buffer line is hidden: the last fold starting before it
    /// covers it.
    #[verifier::spinoff_prover]
    pub fn is_line_hidden(&self, buffer_line: u32) -> (r: bool)
        ensures
            r == line_hidden(self.regions(), buffer_line as int),
    {
        let buffer_line = buffer_line as usize;
        let idx = self.partition_by_start(buffer_line);
        proof {
            use_type_invariant(self);
            lemma_starts_before(self.regions(), buffer_line as int);
        }
        if idx > 0 {
            let summary = &self.fold_summaries[idx - 1];
            if buffer_line > summary.region.start_line && buffer_line <= summary.region.end_line {
                return true;
            }
        }
        if idx < self.fold_summaries.len() {
            let summary = &self.fold_summaries[idx];
            if buffer_line > summary.region.start_line && buffer_line <= summary.region.end_line {
                return true;
            }
        }
        false
    }

    /// The fold region that starts at `buffer_line`, if any (the first such one).
    pub fn fold_at_line(&self, buffer_line: u32) -> (r: Option<&FoldRegion>)
        ensures
            r is Some <==> exists|i: int|
                0 <= i < self.regions().len() && (#[trigger] self.regions()[i]).start_line
                    == buffer_line,
            r matches Some(region) ==> region.start_line == buffer_line && self.regions().contains(
                *region,
            ),
    {
        let line = buffer_line as usize;
        let idx = self.partition_by_start(line);
        proof {
            use_type_invariant(self);
            lemma_starts_before(self.regions(), line as int);
        }
        if idx < self.fold_summaries.len() && self.fold_summaries[idx].region.start_line == line {
            assert(self.regions()[idx as int].start_line == buffer_line);
            Some(&self.fold_summaries[idx].region)
        } else {
            proof {
                assert forall|i: int| 0 <= i < self.regions().len() implies (
                #[trigger] self.regions()[i]).start_line != buffer_line by {
                    if i >= idx && i != idx {
                        assert(self.regions()[idx as int].start_line <= self.regions()[i].start_line);
                    }
                }
            }
            None
        }
    }

    /// Fold row of a buffer row.
    pub fn buffer_to_fold_row(&self, buffer_row: u32) -> (r: u32)
        ensures
            r == buffer_to_fold(self.regions(), buffer_row as int),
    {
        let buffer_row_usize = buffer_row as usize;
        proof {
            use_type_invariant(self);
        }
        if self.fold_summaries.len() == 0 {
            return buffer_row;
        }
        let idx = self.partition_by_start(buffer_row_usize);
        if idx > 0 {
            let prev = &self.fold_summaries[idx - 1];
            if buffer_row_usize > prev.region.start_line && buffer_row_usize
                <= prev.region.end_line {
                return (#[verifier::truncate] (prev.region.start_line as u32)).saturating_sub(
                    prev.hidden_before,
                );
            }
            return buffer_row.saturating_sub(prev.hidden_through);
        }
        buffer_row
    }

    /// Binary search for the folds whose fold start is at most `fold_row`.
    fn partition_by_fold_start(&self, fold_row: u32) -> (k: usize)
        ensures
            k == fold_row_index(self.regions(), fold_row as int),
            is_fold_boundary(self.regions(), fold_row as int, k as int),
    {
        proof {
            use_type_invariant(self);
        }
        let ghost regs = self.regions();
        let mut lo: usize = 0;
        let mut hi: usize = self.fold_summaries.len();
        proof {
            lemma_fold_search(regs, fold_row as int, 0, regs.len() as int);
        }
        while lo < hi
            invariant
                regs == self.regions(),
                regs.len() == self.fold_summaries@.len(),
                forall|i: int|
                    0 <= i < self.fold_summaries@.len() ==> (#[trigger] self.fold_summaries@[i]).hidden_before
                        == hidden_before(regs, i),
                0 <= lo <= hi <= regs.len(),
                lo == 0 || fold_start(regs, lo - 1) <= fold_row,
                hi == regs.len() || fold_start(regs, hi as int) > fold_row,
                fold_search(regs, fold_row as int, lo as int, hi as int) == fold_row_index(
                    regs,
                    fold_row as int,
                ),
            decreases hi - lo,
        {
            let mid = lo + (hi - lo) / 2;
            let s = &self.fold_summaries[mid];
            let fold_start_mid = (#[verifier::truncate] (s.region.start_line as u32)).saturating_sub(
                s.hidden_before,
            );
            if fold_start_mid <= fold_row {
                lo = mid + 1;
            } else {
                hi = mid;
            }
        }
        lo
    }

    /// Buffer row of a fold row: the start line of a fold for its own row, the
    /// row moved down by the lines hidden before it otherwise.
    pub fn fold_to_buffer_row(&self, fold_row: u32) -> (r: u32)
        requires
            fold_to_buffer(self.regions(), fold_row as int) <= u32::MAX,
        ensures
            r == fold_to_buffer(self.regions(), fold_row as int),
    {
        proof {
            use_type_invariant(self);
        }
        if self.fold_summaries.len() == 0 {
            return fold_row;
        }
        let idx = self.partition_by_fold_start(fold_row);
        if idx == 0 {
            return fold_row;
        }
        let summary = &self.fold_summaries[idx - 1];
        let fold_start = (#[verifier::truncate] (summary.region.start_line as u32)).saturating_sub(
            summary.hidden_before,
        );
        if fold_row == fold_start {
            return #[verifier::truncate] (summary.region.start_line as u32);
        }
        fold_row + summary.hidden_through
    }

    /// Number of visible lines: buffer lines minus hidden ones.
    pub fn visible_line_count(&self) -> (r: u32)
        ensures
            r == self.spec_visible(),
    {
        proof {
            use_type_invariant(self);
        }
        self.visible_line_count
    }

    /// The folded regions, sorted by start line.
    pub fn folded_regions(&self) -> (r: Vec<FoldRegion>)
        ensures
            r@ == self.regions(),
    {
        let mut r: Vec<FoldRegion> = Vec::new();
        let mut i: usize = 0;
        while i < self.fold_summaries.len()
            invariant
                0 <= i <= self.fold_summaries@.len(),
                r@ == self.regions().take(i as int),
            decreases self.fold_summaries@.len() - i,
        {
            r.push(self.fold_summaries[i].region);
            i += 1;
            assert(r@ =~= self.regions().take(i as int));
        }
        assert(self.regions().take(i as int) =~= self.regions());
        r
    }

    /// Number of folded regions.
    pub fn fold_count(&self) -> (r: usize)
        ensures
            r == self.regions().len(),
    {
        self.fold_summaries.len()
    }

    /// The visible buffer lines, in order.
    pub fn visible_lines(&self) -> (r: Vec<u32>)
        ensures
            r@ == visible_rows(self.regions(), self.buffer_lines() as int),
    {
        let mut r: Vec<u32> = Vec::new();
        let mut line: u32 = 0;
        while line < self.buffer_line_count
            invariant
                0 <= line <= self.buffer_line_count,
                r@ == visible_rows(self.regions(), line as int),
            decreases self.buffer_line_count - line,
        {
            if !self.is_line_hidden(line) {
                r.push(line);
            }
            line += 1;
        }
        r
    }
}

impl Clone for FoldMap {
    fn clone(&self) -> (r: Self)
        ensures
            r.regions() == self.regions(),
            r.buffer_lines() == self.buffer_lines(),
    {
        proof {
            use_type_invariant(self);
        }
        let mut summaries: Vec<FoldSummary> = Vec::new();
        let mut i: usize = 0;
        while i < self.fold_summaries.len()
            invariant
                0 <= i <= self.fold_summaries@.len(),
                summaries@ == self.fold_summaries@.take(i as int),
            decreases self.fold_summaries@.len() - i,
        {
            summaries.push(self.fold_summaries[i]);
            i += 1;
            assert(summaries@ =~= self.fold_summaries@.take(i as int));
        }
        assert(self.fold_summaries@.take(i as int) =~= self.fold_summaries@);
        FoldMap {
            fold_summaries: summaries,
            visible_line_count: self.visible_line_count,
            buffer_line_count: self.buffer_line_count,
        }
    }
}

impl Default for FoldMap {
    fn default() -> (r: Self)
        ensures
            r.regions() == Seq::<FoldRegion>::empty(),
            r.buffer_lines() == 0,
    {
        Self::new()
    }
}

} // verus!
