//! Wrap Map: soft-wraps fold lines, so that one fold line may take several
//! display rows.

use vstd::prelude::*;
use ropey::Rope;
use crate::text::{rope_chars, line_text_len, rope_len_lines, line_width_without_newline};
use super::point::{FoldPoint, WrapPoint};
use super::fold_map::{FoldMap, fold_to_buffer, sat_sub};
use crate::types::FoldRegion;

verus! {

/// Display rows a line of `len` chars takes at wrap width `w`: one for an
/// empty line, `ceil(len / w)` otherwise.
pub open spec fn wrap_rows(len: int, w: int) -> int {
    if len == 0 {
        1
    } else {
        len / w + if len % w == 0 {
            0int
        } else {
            1int
        }
    }
}

pub proof fn lemma_wrap_rows(len: int, w: int)
    requires
        0 <= len,
        1 <= w,
    ensures
        1 <= wrap_rows(len, w),
        len > 0 ==> wrap_rows(len, w) <= len,
        len > 0 && len % w != 0 ==> len / w + 1 <= len,
{
    if len > 0 {
        let q = len / w;
        let r = len % w;
        assert(q * w + r == len && 0 <= r < w && q >= 0) by (nonlinear_arith)
            requires
                len > 0,
                w >= 1,
                q == len / w,
                r == len % w,
        ;
        assert(q <= q * w) by (nonlinear_arith)
            requires
                q >= 0,
                w >= 1,
        ;
        if r == 0 {
            assert(q >= 1) by (nonlinear_arith)
                requires
                    q * w == len,
                    len > 0,
                    w >= 1,
            ;
        }
    }
}

/// First display row of fold row `i`: the rows taken by the fold rows before it.
pub open spec fn row_start(counts: Seq<u32>, i: int) -> int
    decreases i,
{
    if i <= 0 {
        0
    } else {
        row_start(counts, i - 1) + counts[i - 1]
    }
}

/// Total number of display rows.
pub open spec fn total_rows(counts: Seq<u32>) -> int {
    row_start(counts, counts.len() as int)
}

/// Rows each fold row takes after an update: one each when wrapping is off,
/// otherwise the rows its buffer line needs (its width taken as 32 bits).
pub open spec fn wrap_layout(
    text: Seq<char>,
    regs: Seq<FoldRegion>,
    visible: int,
    w: int,
    enabled: bool,
) -> Seq<u32> {
    Seq::new(
        visible as nat,
        |f: int|
            if enabled {
                wrap_rows(
                    (#[verifier::truncate] (line_text_len(text, fold_to_buffer(regs, f)) as u32)) as int,
                    w,
                ) as u32
            } else {
                1u32
            },
    )
}

/// Fold row holding display row `row`: the first fold row whose rows reach
/// past `row`, or the number of fold rows when `row` is past the last one.
pub open spec fn fold_row_of(counts: Seq<u32>, row: int) -> int
    decreases counts.len(),
{
    if counts.len() == 0 {
        0
    } else if total_rows(counts) <= row {
        counts.len() as int
    } else {
        fold_row_of(counts.drop_last(), row)
    }
}

pub proof fn lemma_row_start_prefix(counts: Seq<u32>, other: Seq<u32>, i: int)
    requires
        0 <= i <= counts.len(),
        i <= other.len(),
        forall|j: int| 0 <= j < i ==> counts[j] == other[j],
    ensures
        row_start(counts, i) == row_start(other, i),
    decreases i,
{
    if i > 0 {
        lemma_row_start_prefix(counts, other, i - 1);
    }
}

pub proof fn lemma_row_start_mono(counts: Seq<u32>, i: int, j: int)
    requires
        0 <= i <= j <= counts.len(),
        forall|k: int| 0 <= k < counts.len() ==> counts[k] >= 1,
    ensures
        row_start(counts, i) + (j - i) <= row_start(counts, j),
        0 <= row_start(counts, i),
    decreases j - i,
{
    lemma_row_start_nonneg(counts, i);
    if i < j {
        lemma_row_start_mono(counts, i, j - 1);
    }
}

pub proof fn lemma_row_start_nonneg(counts: Seq<u32>, i: int)
    ensures
        0 <= row_start(counts, i),
    decreases i,
{
    if i > 0 {
        lemma_row_start_nonneg(counts, i - 1);
    }
}

/// The fold row of a display row below the total is the one whose rows hold it.
pub proof fn lemma_fold_row_of(counts: Seq<u32>, row: int)
    requires
        forall|k: int| 0 <= k < counts.len() ==> counts[k] >= 1,
        0 <= row,
    ensures
        0 <= fold_row_of(counts, row) <= counts.len(),
        row < total_rows(counts) ==> fold_row_of(counts, row) < counts.len() && row_start(
            counts,
            fold_row_of(counts, row),
        ) <= row < row_start(counts, fold_row_of(counts, row) + 1),
        row >= total_rows(counts) ==> fold_row_of(counts, row) == counts.len(),
    decreases counts.len(),
{
    if counts.len() > 0 {
        let d = counts.drop_last();
        lemma_fold_row_of(d, row);
        let n = counts.len() as int;
        lemma_row_start_prefix(counts, d, n - 1);
        if row < total_rows(counts) {
            if row >= total_rows(d) {
                assert(fold_row_of(d, row) == n - 1);
            } else {
                let f = fold_row_of(d, row);
                lemma_row_start_prefix(counts, d, f);
                lemma_row_start_prefix(counts, d, f + 1);
            }
        }
    }
}

/// Every fold row takes at least one display row.
pub proof fn lemma_layout_positive(
    layout: Seq<u32>,
    text: Seq<char>,
    regs: Seq<FoldRegion>,
    visible: int,
    w: int,
    enabled: bool,
)
    requires
        layout == wrap_layout(text, regs, visible, w, enabled),
        w >= 1,
        visible >= 0,
    ensures
        forall|k: int| 0 <= k < layout.len() ==> layout[k] >= 1,
{
    assert forall|k: int| 0 <= k < layout.len() implies layout[k] >= 1 by {
        if enabled {
            let len = (#[verifier::truncate] (line_text_len(text, fold_to_buffer(regs, k)) as u32)) as int;
            lemma_wrap_rows(len, w);
        }
    }
}

/// Wrap point of fold point `p`: with wrapping on, the column picks the wrap
/// row (the last one for columns past the line) and the column within it; past
/// the last fold row, the row after the last display row.
pub open spec fn fold_to_wrap_point(counts: Seq<u32>, w: int, enabled: bool, p: FoldPoint) -> WrapPoint {
    let f = p.row as int;
    if f < counts.len() {
        if !enabled {
            WrapPoint { row: row_start(counts, f) as u32, column: p.column }
        } else {
            let wrap_line = p.column as int / w;
            let last = counts[f] - 1;
            let row = row_start(counts, f) + if wrap_line < last {
                wrap_line
            } else {
                last
            };
            WrapPoint { row: row as u32, column: (p.column as int % w) as u32 }
        }
    } else {
        WrapPoint { row: total_rows(counts) as u32, column: p.column }
    }
}

/// Fold row of display row `row`, the last fold row for rows past the end.
pub open spec fn wrap_fold_row(counts: Seq<u32>, row: int) -> int {
    if fold_row_of(counts, row) < counts.len() {
        fold_row_of(counts, row)
    } else {
        counts.len() - 1
    }
}

/// Column in the fold line of wrap point `p`.
pub open spec fn wrap_fold_column(counts: Seq<u32>, w: int, enabled: bool, p: WrapPoint) -> int {
    if enabled {
        sat_sub(p.row as int, row_start(counts, wrap_fold_row(counts, p.row as int))) * w
            + p.column
    } else {
        p.column as int
    }
}

/// Fold point of wrap point `p`: the fold row whose rows hold it, with the
/// rows above it in that fold row added back to the column; the origin when
/// there are no rows.
pub open spec fn wrap_to_fold_point(counts: Seq<u32>, w: int, enabled: bool, p: WrapPoint) -> FoldPoint {
    if counts.len() == 0 {
        FoldPoint { row: 0, column: 0 }
    } else {
        FoldPoint {
            row: wrap_fold_row(counts, p.row as int) as u32,
            column: wrap_fold_column(counts, w, enabled, p) as u32,
        }
    }
}

/// Display row `row` lies in the rows of fold row `f` only when `f` is its
/// fold row.
proof fn lemma_fold_row_of_unique(counts: Seq<u32>, row: int, f: int)
    requires
        forall|k: int| 0 <= k < counts.len() ==> counts[k] >= 1,
        0 <= f < counts.len(),
        row_start(counts, f) <= row < row_start(counts, f + 1),
    ensures
        fold_row_of(counts, row) == f,
{
    lemma_row_start_nonneg(counts, f);
    lemma_row_start_mono(counts, f + 1, counts.len() as int);
    lemma_fold_row_of(counts, row);
    let g = fold_row_of(counts, row);
    if g < f {
        lemma_row_start_mono(counts, g + 1, f);
    }
    if f < g {
        lemma_row_start_mono(counts, f + 1, g);
    }
}

/// A fold point whose column falls within its line's wrap rows (any column
/// when wrapping is off) maps to a wrap point that maps back to it.
pub proof fn law_wrap_round_trip(counts: Seq<u32>, w: int, enabled: bool, p: FoldPoint)
    requires
        forall|k: int| 0 <= k < counts.len() ==> counts[k] >= 1,
        w >= 1,
        w <= u32::MAX,
        total_rows(counts) <= u32::MAX,
        p.row < counts.len(),
        enabled ==> p.column as int / w < counts[p.row as int],
    ensures
        wrap_fold_column(counts, w, enabled, fold_to_wrap_point(counts, w, enabled, p)) == p.column,
        wrap_to_fold_point(counts, w, enabled, fold_to_wrap_point(counts, w, enabled, p)) == p,
{
    let f = p.row as int;
    lemma_row_start_mono(counts, f + 1, counts.len() as int);
    lemma_row_start_mono(counts, f, f + 1);
    let q = fold_to_wrap_point(counts, w, enabled, p);
    if enabled {
        let wl = p.column as int / w;
        let c = p.column as int;
        assert(wl * w + c % w == c && 0 <= c % w < w) by (nonlinear_arith)
            requires
                wl == c / w,
                c >= 0,
                w >= 1,
        ;
        lemma_fold_row_of_unique(counts, q.row as int, f);
    } else {
        lemma_fold_row_of_unique(counts, q.row as int, f);
    }
}

/// With wrapping on, a display row below the total and a column below the
/// wrap width map to a fold point that maps back to them.
pub proof fn law_wrap_point_round_trip(counts: Seq<u32>, w: int, q: WrapPoint)
    requires
        forall|k: int| 0 <= k < counts.len() ==> counts[k] >= 1,
        1 <= w <= u32::MAX,
        total_rows(counts) <= u32::MAX,
        q.row < total_rows(counts),
        q.column < w,
        wrap_fold_column(counts, w, true, q) <= u32::MAX,
    ensures
        fold_to_wrap_point(counts, w, true, wrap_to_fold_point(counts, w, true, q)) == q,
{
    lemma_fold_row_of(counts, q.row as int);
    let f = fold_row_of(counts, q.row as int);
    let off = q.row - row_start(counts, f);
    let c = off * w + q.column;
    assert(c / w == off && c % w == q.column) by (nonlinear_arith)
        requires
            c == off * w + q.column,
            off >= 0,
            0 <= q.column < w,
    ;
    lemma_row_start_mono(counts, f + 1, counts.len() as int);
    assert(off < counts[f]);
    lemma_row_start_mono(counts, 0, counts.len() as int);
    let p = wrap_to_fold_point(counts, w, true, q);
    assert(p.row == f);
    assert(p.column == c);
    let r = fold_to_wrap_point(counts, w, true, p);
    assert(r.row == row_start(counts, f) + off);
    assert(r.column == q.column);
}

/// The first display rows of the fold rows are the running sums of their
/// row counts: the first starts at row 0, each next one right after the rows
/// of the one before, and the last ends at the total.
pub proof fn law_row_starts_prefix_sums(counts: Seq<u32>, i: int)
    requires
        0 <= i < counts.len(),
    ensures
        row_start(counts, 0) == 0,
        row_start(counts, i + 1) == row_start(counts, i) + counts[i],
        total_rows(counts) == row_start(counts, counts.len() - 1) + counts[counts.len() - 1],
{
}

/// Every display row of fold row `f` (from its first row, for as many rows
/// as it has) maps back to fold row `f`.
pub proof fn law_rows_of_fold_row(counts: Seq<u32>, w: int, enabled: bool, f: int, d: u32)
    requires
        forall|k: int| 0 <= k < counts.len() ==> #[trigger] counts[k] >= 1,
        counts.len() <= u32::MAX,
        0 <= f < counts.len(),
        row_start(counts, f) <= d < row_start(counts, f + 1),
    ensures
        wrap_fold_row(counts, d as int) == f,
        wrap_to_fold_point(counts, w, enabled, WrapPoint { row: d, column: 0 }).row == f,
{
    lemma_fold_row_of_unique(counts, d as int, f);
}

#[derive(Clone, Copy, Debug)]
struct WrapInfo {
    fold_row: u32,
    wrap_count: u32,
    display_row_start: u32,
}

/// Tracks soft wrapping of fold lines into display rows.
#[derive(Debug)]
pub struct WrapMap {
    wrap_width: u32,
    wrap_info: Vec<WrapInfo>,
    total_display_rows: u32,
    enabled: bool,
}

impl WrapMap {
    /// Display rows each fold row takes.
    pub closed spec fn counts(&self) -> Seq<u32> {
        self.wrap_info@.map_values(|w: WrapInfo| w.wrap_count)
    }

    /// Wrap width in chars (at least 1).
    pub closed spec fn spec_wrap_width(&self) -> u32 {
        self.wrap_width
    }

    pub closed spec fn spec_enabled(&self) -> bool {
        self.enabled
    }

    #[verifier::type_invariant]
    closed spec fn inv(&self) -> bool {
        &&& self.wrap_width >= 1
        &&& forall|i: int|
            0 <= i < self.wrap_info@.len() ==> (#[trigger] self.wrap_info@[i]).fold_row == i
                && self.wrap_info@[i].wrap_count >= 1 && self.wrap_info@[i].display_row_start
                == row_start(self.counts(), i)
        &&& self.total_display_rows == total_rows(self.counts())
    }

    /// Create a new wrap map with no rows; a width of 0 is taken as 1.
    pub fn new(wrap_width: u32) -> (r: Self)
        ensures
            r.spec_wrap_width() == if wrap_width == 0 { 1 } else { wrap_width },
            r.spec_enabled(),
            r.counts() == Seq::<u32>::empty(),
    {
        let r = WrapMap {
            wrap_width: if wrap_width == 0 { 1 } else { wrap_width },
            wrap_info: Vec::new(),
            total_display_rows: 0,
            enabled: true,
        };
        assert(r.counts() =~= Seq::<u32>::empty());
        r
    }

    /// Rebuild the rows of every fold row from the buffer and the fold map.
    pub fn update(&mut self, rope: &Rope, fold_map: &FoldMap)
        requires
            old(self).spec_enabled() ==> forall|f: int|
                0 <= f < fold_map.spec_visible() ==> fold_to_buffer(fold_map.regions(), f)
                    <= u32::MAX,
            total_rows(
                wrap_layout(
                    rope_chars(*rope),
                    fold_map.regions(),
                    fold_map.spec_visible(),
                    old(self).spec_wrap_width() as int,
                    old(self).spec_enabled(),
                ),
            ) <= u32::MAX,
        ensures
            final(self).spec_wrap_width() == old(self).spec_wrap_width(),
            final(self).spec_enabled() == old(self).spec_enabled(),
            final(self).counts() == wrap_layout(
                rope_chars(*rope),
                fold_map.regions(),
                fold_map.spec_visible(),
                old(self).spec_wrap_width() as int,
                old(self).spec_enabled(),
            ),
    {
        proof {
            use_type_invariant(&*self);
        }
        let ghost text = rope_chars(*rope);
        let count = fold_map.visible_line_count();
        let ghost layout = wrap_layout(
            text,
            fold_map.regions(),
            count as int,
            self.wrap_width as int,
            self.enabled,
        );
        let mut infos: Vec<WrapInfo> = Vec::new();
        let mut display_row: u32 = 0;
        let mut fold_row: u32 = 0;
        while fold_row < count
            invariant
                self.wrap_width >= 1,
                layout == wrap_layout(
                    text,
                    fold_map.regions(),
                    count as int,
                    self.wrap_width as int,
                    self.enabled,
                ),
                text == rope_chars(*rope),
                count == fold_map.spec_visible(),
                self.enabled ==> forall|f: int|
                    0 <= f < count ==> fold_to_buffer(fold_map.regions(), f) <= u32::MAX,
                total_rows(layout) <= u32::MAX,
                0 <= fold_row <= count,
                infos@.len() == fold_row,
                forall|i: int|
                    0 <= i < fold_row ==> (#[trigger] infos@[i]).fold_row == i
                        && infos@[i].wrap_count == layout[i] && infos@[i].display_row_start
                        == row_start(layout, i),
                display_row == row_start(layout, fold_row as int),
            decreases count - fold_row,
        {
            let wrap_count: u32 = if !self.enabled {
                1
            } else {
                let buffer_row = fold_map.fold_to_buffer_row(fold_row);
                let line_len: u32 = if (buffer_row as usize) < rope_len_lines(rope) {
                    #[verifier::truncate] (line_width_without_newline(rope, buffer_row as usize) as u32)
                } else {
                    0
                };
                proof {
                    lemma_wrap_rows(line_len as int, self.wrap_width as int);
                }
                if line_len == 0 {
                    1
                } else {
                    let q = line_len / self.wrap_width;
                    let ceil = if line_len % self.wrap_width == 0 {
                        q
                    } else {
                        q + 1
                    };
                    if ceil > 1 {
                        ceil
                    } else {
                        1
                    }
                }
            };
            assert(wrap_count == layout[fold_row as int]);
            proof {
                lemma_layout_positive(layout, text, fold_map.regions(), count as int, self.wrap_width as int, self.enabled);
                lemma_row_start_mono(layout, fold_row + 1, count as int);
            }
            infos.push(WrapInfo { fold_row, wrap_count, display_row_start: display_row });
            display_row = display_row + wrap_count;
            fold_row += 1;
        }
        proof {
            assert(infos@.map_values(|w: WrapInfo| w.wrap_count) =~= layout);
            lemma_layout_positive(layout, text, fold_map.regions(), count as int, self.wrap_width as int, self.enabled);
        }
        *self = WrapMap {
            wrap_width: self.wrap_width,
            wrap_info: infos,
            total_display_rows: display_row,
            enabled: self.enabled,
        };
    }

    /// Set the wrap width; 0 is taken as 1. The rows are not rebuilt.
    pub fn set_wrap_width(&mut self, width: u32)
        ensures
            final(self).spec_wrap_width() == if width == 0 { 1 } else { width },
            final(self).spec_enabled() == old(self).spec_enabled(),
            final(self).counts() == old(self).counts(),
    {
        proof {
            use_type_invariant(&*self);
        }
        *self = WrapMap {
            wrap_width: if width == 0 { 1 } else { width },
            wrap_info: self.wrap_info.clone(),
            total_display_rows: self.total_display_rows,
            enabled: self.enabled,
        };
    }

    /// Enable or disable wrapping. The rows are not rebuilt.
    pub fn set_enabled(&mut self, enabled: bool)
        ensures
            final(self).spec_wrap_width() == old(self).spec_wrap_width(),
            final(self).spec_enabled() == enabled,
            final(self).counts() == old(self).counts(),
    {
        proof {
            use_type_invariant(&*self);
        }
        *self = WrapMap {
            wrap_width: self.wrap_width,
            wrap_info: self.wrap_info.clone(),
            total_display_rows: self.total_display_rows,
            enabled,
        };
    }

    /// Get the wrap width.
    pub fn wrap_width(&self) -> (r: u32)
        ensures
            r == self.spec_wrap_width(),
    {
        self.wrap_width
    }

    /// Check if wrapping is enabled.
    pub fn is_enabled(&self) -> (r: bool)
        ensures
            r == self.spec_enabled(),
    {
        self.enabled
    }

    /// Total number of display rows.
    pub fn display_row_count(&self) -> (r: u32)
        ensures
            r == total_rows(self.counts()),
            forall|k: int| 0 <= k < self.counts().len() ==> #[trigger] self.counts()[k] >= 1,
    {
        proof {
            use_type_invariant(self);
        }
        self.total_display_rows
    }

    /// Convert a fold point to a wrap point.
    pub fn fold_to_wrap(&self, point: FoldPoint) -> (r: WrapPoint)
        ensures
            r == fold_to_wrap_point(self.counts(), self.spec_wrap_width() as int, self.spec_enabled(), point),
    {
        proof {
            use_type_invariant(self);
        }
        let fold_row = point.row();
        let column = point.column();
        if (fold_row as usize) < self.wrap_info.len() {
            let info = &self.wrap_info[fold_row as usize];
            if !self.enabled {
                return WrapPoint::new(info.display_row_start, column);
            }
            let wrap_line = column / self.wrap_width;
            let wrap_column = column % self.wrap_width;
            let last = info.wrap_count - 1;
            proof {
                lemma_row_start_mono(self.counts(), fold_row + 1, self.counts().len() as int);
            }
            let display_row = info.display_row_start + if wrap_line < last {
                wrap_line
            } else {
                last
            };
            WrapPoint::new(display_row, wrap_column)
        } else {
            WrapPoint::new(self.total_display_rows, column)
        }
    }

    /// Convert a wrap point to a fold point.
    pub fn wrap_to_fold(&self, point: WrapPoint) -> (r: FoldPoint)
        requires
            self.counts().len() > 0 ==> wrap_fold_column(
                self.counts(),
                self.spec_wrap_width() as int,
                self.spec_enabled(),
                point,
            ) <= u32::MAX,
        ensures
            r == wrap_to_fold_point(self.counts(), self.spec_wrap_width() as int, self.spec_enabled(), point),
    {
        proof {
            use_type_invariant(self);
        }
        let ghost counts = self.counts();
        let display_row = point.row();
        let column = point.column();
        let n = self.wrap_info.len();
        proof {
            lemma_fold_row_of(counts, display_row as int);
        }
        let mut lo: usize = 0;
        let mut hi: usize = n;
        let mut found: Option<usize> = None;
        while lo < hi
            invariant_except_break
                found is None,
            invariant
                counts == self.counts(),
                n == counts.len(),
                forall|k: int| 0 <= k < counts.len() ==> counts[k] >= 1,
                forall|i: int|
                    0 <= i < self.wrap_info@.len() ==> (#[trigger] self.wrap_info@[i]).display_row_start
                        == row_start(counts, i),
                self.total_display_rows == total_rows(counts),
                0 <= lo <= hi <= n,
                row_start(counts, lo as int) <= display_row,
                hi == n || row_start(counts, hi as int) > display_row,
            ensures
                found matches Some(m) ==> m < n && row_start(counts, m as int) <= display_row
                    < row_start(counts, m + 1),
                found is None ==> lo == hi && row_start(counts, lo as int) <= display_row && (hi
                    == n || row_start(counts, hi as int) > display_row),
            decreases hi - lo,
        {
            let mid = lo + (hi - lo) / 2;
            let info = &self.wrap_info[mid];
            proof {
                lemma_row_start_mono(counts, mid + 1, n as int);
            }
            if display_row < info.display_row_start {
                hi = mid;
            } else if display_row >= info.display_row_start + info.wrap_count {
                lo = mid + 1;
            } else {
                found = Some(mid);
                break;
            }
        }
        let idx = match found {
            Some(m) => m,
            None => lo,
        };
        proof {
            let f0 = fold_row_of(counts, display_row as int);
            if display_row < total_rows(counts) {
                if idx < f0 {
                    lemma_row_start_mono(counts, idx + 1, f0);
                }
                if f0 < idx {
                    lemma_row_start_mono(counts, f0 + 1, idx as int);
                }
                if found is None && idx < n {
                    lemma_row_start_mono(counts, idx as int, idx + 1);
                }
            } else {
                if idx < n {
                    lemma_row_start_mono(counts, idx + 1, n as int);
                }
            }
        }
        let fold_row = if idx < n {
            idx
        } else if n > 0 {
            n - 1
        } else {
            return FoldPoint::zero();
        };
        let info = &self.wrap_info[fold_row];
        let wrap_offset = display_row.saturating_sub(info.display_row_start);
        let fold_column = if self.enabled {
            wrap_offset * self.wrap_width + column
        } else {
            column
        };
        FoldPoint::new(fold_row as u32, fold_column)
    }

    /// Start row and row count of a fold row, if it has rows.
    pub fn wrap_info_for_fold_row(&self, fold_row: u32) -> (r: Option<(u32, u32)>)
        ensures
            r == if fold_row < self.counts().len() {
                Some((row_start(self.counts(), fold_row as int) as u32, self.counts()[fold_row as int]))
            } else {
                None::<(u32, u32)>
            },
    {
        proof {
            use_type_invariant(self);
        }
        if (fold_row as usize) < self.wrap_info.len() {
            let info = &self.wrap_info[fold_row as usize];
            Some((info.display_row_start, info.wrap_count))
        } else {
            None
        }
    }
}

} // verus!

verus! {

impl Clone for WrapMap {
    fn clone(&self) -> (r: Self)
        ensures
            r.counts() == self.counts(),
            r.spec_wrap_width() == self.spec_wrap_width(),
            r.spec_enabled() == self.spec_enabled(),
    {
        proof {
            use_type_invariant(self);
        }
        WrapMap {
            wrap_width: self.wrap_width,
            wrap_info: self.wrap_info.clone(),
            total_display_rows: self.total_display_rows,
            enabled: self.enabled,
        }
    }
}

impl Default for WrapMap {
    fn default() -> (r: Self)
        ensures
            r.spec_wrap_width() == 80,
            r.spec_enabled(),
            r.counts() == Seq::<u32>::empty(),
    {
        Self::new(80)
    }
}

} // verus!
