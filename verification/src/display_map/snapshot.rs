//! Display Snapshot: composes the fold, wrap and tab layers to convert
//! between buffer and display coordinates.

use vstd::prelude::*;
use super::point::{BufferPoint, FoldPoint, WrapPoint, DisplayPoint};
use super::fold_map::{
    FoldMap, buffer_to_fold, fold_to_buffer, line_hidden, folds_disjoint, law_visible_row_round_trip,
    law_buffer_row_counts_visible, law_fold_row_round_trip, law_visible_rows_exact, lemma_visible_rows_grow,
    visible_rows, total_hidden, lemma_hidden_before_nonneg, fold_row_index, fold_layout, folded_apart,
    folded_inside, law_update_keeps_folds_apart,
};
use crate::types::FoldRegion;
use super::wrap_map::{
    WrapMap, fold_to_wrap_point, wrap_to_fold_point, wrap_fold_column, row_start,
    total_rows, law_wrap_round_trip, lemma_row_start_mono, wrap_layout, lemma_layout_positive, lemma_wrap_rows,
    lemma_fold_row_of, fold_row_of, wrap_fold_row, wrap_rows,
};
use super::tab_map::TabMap;
use crate::text::line_text_len;

verus! {

/// How a buffer row is displayed.
#[derive(Clone, Copy, Debug, PartialEq, Eq, Structural)]
pub enum BufferRowDisplayInfo {
    /// The row is hidden (inside a fold).
    Hidden,
    /// The row is displayed on a single display row.
    Single { display_row: u32 },
    /// The row is wrapped across several display rows.
    Wrapped { display_row_start: u32, display_row_count: u32 },
}

/// A display row and the buffer row it shows.
#[derive(Clone, Copy, Debug, PartialEq, Eq, Structural)]
pub struct DisplayRowInfo {
    pub display_row: u32,
    pub buffer_row: u32,
    /// Whether this row continues the wrapped line of the row before it.
    pub is_wrap_continuation: bool,
}

/// A snapshot of the display map layers for consistent coordinate conversion.
#[derive(Debug)]
pub struct DisplaySnapshot {
    pub fold_map: FoldMap,
    pub wrap_map: WrapMap,
    pub tab_map: TabMap,
}

impl DisplaySnapshot {
    /// Fold point of a buffer point: the row goes through the fold map.
    pub open spec fn fold_point_of(&self, p: BufferPoint) -> FoldPoint {
        FoldPoint { row: buffer_to_fold(self.fold_map.regions(), p.row as int) as u32, column: p.column }
    }

    /// Wrap point of a fold point.
    pub open spec fn wrap_point_of(&self, p: FoldPoint) -> WrapPoint {
        fold_to_wrap_point(
            self.wrap_map.counts(),
            self.wrap_map.spec_wrap_width() as int,
            self.wrap_map.spec_enabled(),
            p,
        )
    }

    /// Display point of a buffer point, through all the layers.
    pub open spec fn display_point_of(&self, p: BufferPoint) -> DisplayPoint {
        let w = self.wrap_point_of(self.fold_point_of(p));
        DisplayPoint { row: w.row, column: w.column }
    }

    /// Fold point of a display point.
    pub open spec fn display_fold_point(&self, p: DisplayPoint) -> FoldPoint {
        wrap_to_fold_point(
            self.wrap_map.counts(),
            self.wrap_map.spec_wrap_width() as int,
            self.wrap_map.spec_enabled(),
            WrapPoint { row: p.row, column: p.column },
        )
    }

    /// Buffer point of a display point, through all the layers.
    pub open spec fn buffer_point_of(&self, p: DisplayPoint) -> BufferPoint {
        let f = self.display_fold_point(p);
        BufferPoint { row: fold_to_buffer(self.fold_map.regions(), f.row as int) as u32, column: f.column }
    }

    /// The conversion of display point `p` back to the buffer stays in 32 bits.
    pub open spec fn converts_back(&self, p: DisplayPoint) -> bool {
        &&& wrap_fold_column(
            self.wrap_map.counts(),
            self.wrap_map.spec_wrap_width() as int,
            self.wrap_map.spec_enabled(),
            WrapPoint { row: p.row, column: p.column },
        ) <= u32::MAX
        &&& fold_to_buffer(self.fold_map.regions(), self.display_fold_point(p).row as int)
            <= u32::MAX
    }

    /// How buffer row `row` is displayed.
    pub open spec fn row_display_info(&self, row: u32) -> BufferRowDisplayInfo {
        let counts = self.wrap_map.counts();
        if line_hidden(self.fold_map.regions(), row as int) {
            BufferRowDisplayInfo::Hidden
        } else {
            let f = buffer_to_fold(self.fold_map.regions(), row as int);
            if f < counts.len() {
                if counts[f] > 1 {
                    BufferRowDisplayInfo::Wrapped {
                        display_row_start: row_start(counts, f) as u32,
                        display_row_count: counts[f],
                    }
                } else {
                    BufferRowDisplayInfo::Single { display_row: row_start(counts, f) as u32 }
                }
            } else {
                BufferRowDisplayInfo::Single { display_row: f as u32 }
            }
        }
    }

    /// What `display_rows` yields for display row `d`.
    pub open spec fn row_info(&self, d: u32) -> DisplayRowInfo {
        let b = self.buffer_point_of(DisplayPoint { row: d, column: 0 });
        let first = self.wrap_point_of(FoldPoint { row: buffer_to_fold(self.fold_map.regions(), b.row as int) as u32, column: 0 });
        DisplayRowInfo { display_row: d, buffer_row: b.row, is_wrap_continuation: d > first.row }
    }

    /// Convert a buffer point to a display point through all layers.
    pub fn to_display_point(&self, buffer_point: BufferPoint) -> (r: DisplayPoint)
        ensures
            r == self.display_point_of(buffer_point),
    {
        let fold_point = self.to_fold_point(buffer_point);
        let wrap_point = self.wrap_map.fold_to_wrap(fold_point);
        DisplayPoint::new(wrap_point.row(), wrap_point.column())
    }

    /// Convert a display point back to a buffer point through all layers.
    pub fn to_buffer_point(&self, display_point: DisplayPoint) -> (r: BufferPoint)
        requires
            self.converts_back(display_point),
        ensures
            r == self.buffer_point_of(display_point),
    {
        let wrap_point = WrapPoint::new(display_point.row(), display_point.column());
        let fold_point = self.wrap_map.wrap_to_fold(wrap_point);
        let buffer_row = self.fold_map.fold_to_buffer_row(fold_point.row());
        BufferPoint::new(buffer_row, fold_point.column())
    }

    /// Convert a buffer point to a fold point.
    pub fn to_fold_point(&self, buffer_point: BufferPoint) -> (r: FoldPoint)
        ensures
            r == self.fold_point_of(buffer_point),
    {
        let fold_row = self.fold_map.buffer_to_fold_row(buffer_point.row());
        FoldPoint::new(fold_row, buffer_point.column())
    }

    /// Convert a fold point to a wrap point.
    pub fn to_wrap_point(&self, fold_point: FoldPoint) -> (r: WrapPoint)
        ensures
            r == self.wrap_point_of(fold_point),
    {
        self.wrap_map.fold_to_wrap(fold_point)
    }

    /// Total number of display rows.
    pub fn display_row_count(&self) -> (r: u32)
        ensures
            r == total_rows(self.wrap_map.counts()),
    {
        self.wrap_map.display_row_count()
    }

    /// Number of visible lines (after folding, before wrapping).
    pub fn visible_line_count(&self) -> (r: u32)
        ensures
            r == self.fold_map.spec_visible(),
    {
        self.fold_map.visible_line_count()
    }

    /// Whether a buffer line is hidden inside a fold.
    pub fn is_buffer_line_hidden(&self, buffer_line: u32) -> (r: bool)
        ensures
            r == line_hidden(self.fold_map.regions(), buffer_line as int),
    {
        self.fold_map.is_line_hidden(buffer_line)
    }

    /// Buffer row of a display row.
    pub fn display_row_to_buffer_row(&self, display_row: u32) -> (r: u32)
        requires
            self.converts_back(DisplayPoint { row: display_row, column: 0 }),
        ensures
            r == self.buffer_point_of(DisplayPoint { row: display_row, column: 0 }).row,
    {
        let display_point = DisplayPoint::new(display_row, 0);
        let buffer_point = self.to_buffer_point(display_point);
        buffer_point.row()
    }

    /// Display row of a buffer row.
    pub fn buffer_row_to_display_row(&self, buffer_row: u32) -> (r: u32)
        ensures
            r == self.display_point_of(BufferPoint { row: buffer_row, column: 0 }).row,
    {
        let buffer_point = BufferPoint::new(buffer_row, 0);
        let display_point = self.to_display_point(buffer_point);
        display_point.row()
    }

    /// How a buffer row is displayed: hidden, on one row, or wrapped.
    pub fn buffer_row_display_info(&self, buffer_row: u32) -> (r: BufferRowDisplayInfo)
        ensures
            r == self.row_display_info(buffer_row),
    {
        if self.fold_map.is_line_hidden(buffer_row) {
            return BufferRowDisplayInfo::Hidden;
        }
        let fold_row = self.fold_map.buffer_to_fold_row(buffer_row);
        match self.wrap_map.wrap_info_for_fold_row(fold_row) {
            Some((display_row_start, wrap_count)) => {
                if wrap_count > 1 {
                    BufferRowDisplayInfo::Wrapped { display_row_start, display_row_count: wrap_count }
                } else {
                    BufferRowDisplayInfo::Single { display_row: display_row_start }
                }
            },
            None => BufferRowDisplayInfo::Single { display_row: fold_row },
        }
    }

    /// Every display row, with its buffer row and whether it continues a
    /// wrapped line.
    pub fn display_rows(&self) -> (r: Vec<DisplayRowInfo>)
        requires
            forall|d: u32|
                d < total_rows(self.wrap_map.counts()) ==> #[trigger] self.converts_back(
                    DisplayPoint { row: d, column: 0 },
                ),
        ensures
            r@.len() == total_rows(self.wrap_map.counts()),
            forall|i: int| 0 <= i < r@.len() ==> #[trigger] r@[i] == self.row_info(i as u32),
    {
        let count = self.display_row_count();
        let mut rows: Vec<DisplayRowInfo> = Vec::new();
        let mut display_row: u32 = 0;
        while display_row < count
            invariant
                count == total_rows(self.wrap_map.counts()),
                forall|d: u32|
                    d < total_rows(self.wrap_map.counts()) ==> #[trigger] self.converts_back(
                        DisplayPoint { row: d, column: 0 },
                    ),
                0 <= display_row <= count,
                rows@.len() == display_row,
                forall|i: int| 0 <= i < rows@.len() ==> #[trigger] rows@[i] == self.row_info(i as u32),
            decreases count - display_row,
        {
            assert(self.converts_back(DisplayPoint { row: display_row, column: 0 }));
            let buffer_point = self.to_buffer_point(DisplayPoint::new(display_row, 0));
            let fold_point = FoldPoint::new(self.fold_map.buffer_to_fold_row(buffer_point.row()), 0);
            let first_display_row = self.wrap_map.fold_to_wrap(fold_point).row();
            rows.push(
                DisplayRowInfo {
                    display_row,
                    buffer_row: buffer_point.row(),
                    is_wrap_continuation: display_row > first_display_row,
                },
            );
            display_row += 1;
        }
        rows
    }

    /// The fold map.
    pub fn fold_map(&self) -> (r: &FoldMap)
        ensures
            r == &self.fold_map,
    {
        &self.fold_map
    }

    /// The wrap map.
    pub fn wrap_map(&self) -> (r: &WrapMap)
        ensures
            r == &self.wrap_map,
    {
        &self.wrap_map
    }

    /// The tab map.
    pub fn tab_map(&self) -> (r: &TabMap)
        ensures
            r == &self.tab_map,
    {
        &self.tab_map
    }
}

/// A visible buffer point (disjoint folds) whose fold row has display rows and
/// whose column falls within its line's wrap rows (any column when wrapping is
/// off) converts to a display point and back to itself.
pub proof fn law_display_round_trip(snap: DisplaySnapshot, p: BufferPoint)
    requires
        folds_disjoint(snap.fold_map.regions()),
        !line_hidden(snap.fold_map.regions(), p.row as int),
        snap.wrap_map.spec_wrap_width() >= 1,
        forall|k: int|
            0 <= k < snap.wrap_map.counts().len() ==> #[trigger] snap.wrap_map.counts()[k] >= 1,
        total_rows(snap.wrap_map.counts()) <= u32::MAX,
        buffer_to_fold(snap.fold_map.regions(), p.row as int) < snap.wrap_map.counts().len(),
        snap.wrap_map.spec_enabled() ==> (p.column as int) / (snap.wrap_map.spec_wrap_width() as int)
            < snap.wrap_map.counts()[buffer_to_fold(snap.fold_map.regions(), p.row as int)],
    ensures
        snap.converts_back(snap.display_point_of(p)),
        snap.buffer_point_of(snap.display_point_of(p)) == p,
{
    let regs = snap.fold_map.regions();
    let counts = snap.wrap_map.counts();
    let w = snap.wrap_map.spec_wrap_width() as int;
    let en = snap.wrap_map.spec_enabled();
    let f = buffer_to_fold(regs, p.row as int);
    lemma_row_start_mono(counts, 0, counts.len() as int);
    let fp = snap.fold_point_of(p);
    assert(fp.row == f);
    law_wrap_round_trip(counts, w, en, fp);
    law_visible_row_round_trip(regs, p.row as int);
    let dp = snap.display_point_of(p);
    assert(WrapPoint { row: dp.row, column: dp.column } == snap.wrap_point_of(fp));
}

/// The snapshot's layers fit together over a text: the fold map holds
/// disjoint folds that end inside its lines, and the wrap map was last
/// updated from that fold map and the text.
pub open spec fn layers_fit(snap: DisplaySnapshot, text: Seq<char>) -> bool {
    let regs = snap.fold_map.regions();
    &&& folds_disjoint(regs)
    &&& forall|i: int|
        0 <= i < regs.len() ==> (#[trigger] regs[i]).end_line < snap.fold_map.buffer_lines()
    &&& snap.wrap_map.counts() == wrap_layout(
        text,
        regs,
        snap.fold_map.spec_visible(),
        snap.wrap_map.spec_wrap_width() as int,
        snap.wrap_map.spec_enabled(),
    )
    &&& snap.wrap_map.spec_wrap_width() >= 1
    &&& total_rows(snap.wrap_map.counts()) <= u32::MAX
}

/// Over layers that fit, a fold row below the visible line count maps to a
/// visible buffer line inside the text that maps back to it.
proof fn lemma_fold_rows_fit(snap: DisplaySnapshot, text: Seq<char>, f: int)
    requires
        layers_fit(snap, text),
        0 <= f < snap.fold_map.spec_visible(),
    ensures
        snap.wrap_map.counts().len() == snap.fold_map.spec_visible(),
        forall|k: int| 0 <= k < snap.wrap_map.counts().len() ==> #[trigger] snap.wrap_map.counts()[k] >= 1,
        snap.fold_map.spec_visible() == snap.fold_map.buffer_lines() - total_hidden(snap.fold_map.regions()),
        0 <= total_hidden(snap.fold_map.regions()),
        0 <= fold_to_buffer(snap.fold_map.regions(), f) < snap.fold_map.buffer_lines(),
        !line_hidden(snap.fold_map.regions(), fold_to_buffer(snap.fold_map.regions(), f)),
        buffer_to_fold(snap.fold_map.regions(), fold_to_buffer(snap.fold_map.regions(), f)) == f,
{
    let regs = snap.fold_map.regions();
    let n = snap.fold_map.buffer_lines() as int;
    lemma_layout_positive(
        snap.wrap_map.counts(),
        text,
        regs,
        snap.fold_map.spec_visible(),
        snap.wrap_map.spec_wrap_width() as int,
        snap.wrap_map.spec_enabled(),
    );
    law_visible_rows_exact(regs, n);
    law_fold_row_round_trip(regs, f);
    lemma_hidden_before_nonneg(regs, fold_row_index(regs, f));
    lemma_hidden_before_nonneg(regs, regs.len() as int);
}

/// Over layers that fit, a visible buffer line inside the text maps to a
/// fold row that has display rows.
proof fn lemma_visible_line_has_rows(snap: DisplaySnapshot, text: Seq<char>, b: int)
    requires
        layers_fit(snap, text),
        0 <= b < snap.fold_map.buffer_lines(),
        !line_hidden(snap.fold_map.regions(), b),
    ensures
        buffer_to_fold(snap.fold_map.regions(), b) < snap.fold_map.spec_visible(),
        snap.wrap_map.counts().len() == snap.fold_map.spec_visible(),
        forall|k: int| 0 <= k < snap.wrap_map.counts().len() ==> #[trigger] snap.wrap_map.counts()[k] >= 1,
{
    let regs = snap.fold_map.regions();
    let n = snap.fold_map.buffer_lines() as int;
    lemma_layout_positive(
        snap.wrap_map.counts(),
        text,
        regs,
        snap.fold_map.spec_visible(),
        snap.wrap_map.spec_wrap_width() as int,
        snap.wrap_map.spec_enabled(),
    );
    law_buffer_row_counts_visible(regs, b, b);
    law_visible_rows_exact(regs, n);
    lemma_visible_rows_grow(regs, b + 1, n);
    assert(visible_rows(regs, b + 1) == visible_rows(regs, b).push(b as u32));
}

/// Over layers that fit, a visible buffer line inside the text goes to its
/// display row and comes back from it: `display_row_to_buffer_row` of
/// `buffer_row_to_display_row(b)` is `b`, whether wrapping is on or off.
pub proof fn law_buffer_row_display_round_trip(snap: DisplaySnapshot, text: Seq<char>, b: u32)
    requires
        layers_fit(snap, text),
        b < snap.fold_map.buffer_lines(),
        !line_hidden(snap.fold_map.regions(), b as int),
    ensures
        ({
            let d = snap.display_point_of(BufferPoint { row: b, column: 0 }).row;
            &&& snap.converts_back(DisplayPoint { row: d, column: 0 })
            &&& snap.buffer_point_of(DisplayPoint { row: d, column: 0 }).row == b
        }),
{
    lemma_visible_line_has_rows(snap, text, b as int);
    let p = BufferPoint { row: b, column: 0 };
    law_display_round_trip(snap, p);
    let dp = snap.display_point_of(p);
    assert(dp == DisplayPoint { row: dp.row, column: 0 });
}

/// The rows before the last wrap row of a line of `len` chars cover fewer
/// chars than the line has.
proof fn lemma_wrap_rows_cover(len: int, w: int, off: int)
    requires
        0 <= len,
        1 <= w,
        0 <= off < wrap_rows(len, w),
    ensures
        off * w <= len,
{
    if len > 0 {
        let q = len / w;
        let r = len % w;
        assert(q * w + r == len && 0 <= r < w) by (nonlinear_arith)
            requires
                q == len / w,
                r == len % w,
                w >= 1,
                len > 0,
        ;
        let last = wrap_rows(len, w) - 1;
        assert(last * w <= len) by (nonlinear_arith)
            requires
                q * w + r == len,
                0 <= r < w,
                last == q - 1 || (r > 0 && last == q),
        ;
        assert(off * w <= last * w) by (nonlinear_arith)
            requires
                0 <= off <= last,
                w >= 1,
        ;
    } else {
        assert(off * w == 0) by (nonlinear_arith)
            requires
                off == 0,
        ;
    }
}

/// Over layers that fit, every display row converts back, and shows a
/// visible buffer line inside the text, whose own display row is that row or
/// one above it (the first row of its wrapped line).
pub proof fn law_display_row_shows_visible_line(snap: DisplaySnapshot, text: Seq<char>, d: u32)
    requires
        layers_fit(snap, text),
        d < total_rows(snap.wrap_map.counts()),
    ensures
        snap.converts_back(DisplayPoint { row: d, column: 0 }),
        ({
            let b = snap.buffer_point_of(DisplayPoint { row: d, column: 0 }).row;
            &&& b < snap.fold_map.buffer_lines()
            &&& !line_hidden(snap.fold_map.regions(), b as int)
            &&& snap.display_point_of(BufferPoint { row: b, column: 0 }).row <= d
        }),
{
    let regs = snap.fold_map.regions();
    let counts = snap.wrap_map.counts();
    lemma_layout_positive(
        counts,
        text,
        regs,
        snap.fold_map.spec_visible(),
        snap.wrap_map.spec_wrap_width() as int,
        snap.wrap_map.spec_enabled(),
    );
    lemma_fold_row_of(counts, d as int);
    let f = fold_row_of(counts, d as int);
    lemma_fold_rows_fit(snap, text, f);
    lemma_row_start_mono(counts, f, counts.len() as int);
    assert(wrap_fold_row(counts, d as int) == f);
    assert(0 <= f < u32::MAX);
    assert(snap.display_fold_point(DisplayPoint { row: d, column: 0 }).row == f);
    if snap.wrap_map.spec_enabled() {
        let w = snap.wrap_map.spec_wrap_width() as int;
        let len = (#[verifier::truncate] (line_text_len(text, fold_to_buffer(regs, f)) as u32)) as int;
        lemma_wrap_rows(len, w);
        assert(counts[f] as int == wrap_rows(len, w));
        lemma_wrap_rows_cover(len, w, d - row_start(counts, f));
    }
}

/// Over layers that fit, every display row converts back, so `display_rows`
/// can list them all.
pub proof fn law_all_display_rows_convert_back(snap: DisplaySnapshot, text: Seq<char>)
    requires
        layers_fit(snap, text),
    ensures
        forall|d: u32|
            d < total_rows(snap.wrap_map.counts()) ==> #[trigger] snap.converts_back(
                DisplayPoint { row: d, column: 0 },
            ),
{
    assert forall|d: u32| d < total_rows(snap.wrap_map.counts()) implies #[trigger] snap.converts_back(
        DisplayPoint { row: d, column: 0 },
    ) by {
        law_display_row_shows_visible_line(snap, text, d);
    }
}

/// Over layers that fit, the buffer lines shown by the display rows never go
/// back up as the display row grows.
pub proof fn law_display_rows_in_order(snap: DisplaySnapshot, text: Seq<char>, d1: u32, d2: u32)
    requires
        layers_fit(snap, text),
        d1 <= d2 < total_rows(snap.wrap_map.counts()),
    ensures
        snap.row_info(d1).buffer_row <= snap.row_info(d2).buffer_row,
        snap.row_info(d2).display_row == d2,
        snap.row_info(d2).buffer_row == snap.buffer_point_of(DisplayPoint { row: d2, column: 0 }).row,
        snap.row_info(d2).is_wrap_continuation == (d2 > snap.display_point_of(
            BufferPoint { row: snap.row_info(d2).buffer_row, column: 0 },
        ).row),
{
    let regs = snap.fold_map.regions();
    let counts = snap.wrap_map.counts();
    lemma_layout_positive(
        counts,
        text,
        regs,
        snap.fold_map.spec_visible(),
        snap.wrap_map.spec_wrap_width() as int,
        snap.wrap_map.spec_enabled(),
    );
    lemma_fold_row_of(counts, d1 as int);
    lemma_fold_row_of(counts, d2 as int);
    let f1 = fold_row_of(counts, d1 as int);
    let f2 = fold_row_of(counts, d2 as int);
    if f1 > f2 {
        lemma_row_start_mono(counts, f2 + 1, f1);
    }
    lemma_fold_rows_fit(snap, text, f1);
    lemma_fold_rows_fit(snap, text, f2);
    assert(wrap_fold_row(counts, d1 as int) == f1);
    assert(wrap_fold_row(counts, d2 as int) == f2);
    assert(0 <= f1 < u32::MAX && 0 <= f2 < u32::MAX);
    assert(snap.display_fold_point(DisplayPoint { row: d1, column: 0 }).row == f1);
    assert(snap.display_fold_point(DisplayPoint { row: d2, column: 0 }).row == f2);
    let b1 = fold_to_buffer(regs, f1);
    let b2 = fold_to_buffer(regs, f2);
    if b1 > b2 {
        law_buffer_row_counts_visible(regs, b2, b1);
    }
}

/// Layers made by `fm.update(&rope, regions)` and then `wm.update(&rope,
/// &fm)`, with the folded regions apart and inside the rope's lines, fit
/// together, so the display laws above hold of them.
pub proof fn law_layers_fit_after_update(snap: DisplaySnapshot, text: Seq<char>, regions: Seq<FoldRegion>)
    requires
        snap.fold_map.regions() == fold_layout(regions),
        folded_apart(regions),
        folded_inside(regions, snap.fold_map.buffer_lines() as int),
        snap.wrap_map.counts() == wrap_layout(
            text,
            snap.fold_map.regions(),
            snap.fold_map.spec_visible(),
            snap.wrap_map.spec_wrap_width() as int,
            snap.wrap_map.spec_enabled(),
        ),
        snap.wrap_map.spec_wrap_width() >= 1,
        total_rows(snap.wrap_map.counts()) <= u32::MAX,
    ensures
        layers_fit(snap, text),
{
    law_update_keeps_folds_apart(regions, snap.fold_map.buffer_lines() as int);
}

/// Over layers that fit, how a buffer line inside the text is displayed:
/// hidden exactly when a fold hides it; otherwise its fold row has display
/// rows, from the first of which it is shown on one row, or wrapped over all
/// of them when there are several.
pub proof fn law_row_display_info(snap: DisplaySnapshot, text: Seq<char>, b: u32)
    requires
        layers_fit(snap, text),
        b < snap.fold_map.buffer_lines(),
    ensures
        (snap.row_display_info(b) is Hidden) == line_hidden(snap.fold_map.regions(), b as int),
        !line_hidden(snap.fold_map.regions(), b as int) ==> ({
            let counts = snap.wrap_map.counts();
            let f = buffer_to_fold(snap.fold_map.regions(), b as int);
            &&& f < counts.len()
            &&& snap.row_display_info(b) == if counts[f] > 1 {
                BufferRowDisplayInfo::Wrapped { display_row_start: row_start(counts, f) as u32, display_row_count: counts[f] }
            } else {
                BufferRowDisplayInfo::Single { display_row: row_start(counts, f) as u32 }
            }
        }),
{
    if !line_hidden(snap.fold_map.regions(), b as int) {
        lemma_visible_line_has_rows(snap, text, b as int);
    }
}

/// Over layers that fit, the list `display_rows` gives: every display row
/// converts back, and the `k`-th item is row `k`, with the buffer line it
/// shows and whether it continues that line's first row; the buffer lines
/// never go back up along the list.
pub proof fn law_display_rows_listed(snap: DisplaySnapshot, text: Seq<char>)
    requires
        layers_fit(snap, text),
    ensures
        forall|d: u32|
            d < total_rows(snap.wrap_map.counts()) ==> #[trigger] snap.converts_back(
                DisplayPoint { row: d, column: 0 },
            ),
        forall|k: u32|
            k < total_rows(snap.wrap_map.counts()) ==> {
                let info = #[trigger] snap.row_info(k);
                &&& info.display_row == k
                &&& info.buffer_row == snap.buffer_point_of(DisplayPoint { row: k, column: 0 }).row
                &&& !line_hidden(snap.fold_map.regions(), info.buffer_row as int)
                &&& info.is_wrap_continuation == (k > snap.display_point_of(
                    BufferPoint { row: info.buffer_row, column: 0 },
                ).row)
            },
        forall|k1: u32, k2: u32|
            k1 <= k2 < total_rows(snap.wrap_map.counts()) ==> (#[trigger] snap.row_info(k1)).buffer_row
                <= (#[trigger] snap.row_info(k2)).buffer_row,
{
    law_all_display_rows_convert_back(snap, text);
    assert forall|k: u32| k < total_rows(snap.wrap_map.counts()) implies {
        let info = #[trigger] snap.row_info(k);
        &&& info.display_row == k
        &&& info.buffer_row == snap.buffer_point_of(DisplayPoint { row: k, column: 0 }).row
        &&& !line_hidden(snap.fold_map.regions(), info.buffer_row as int)
        &&& info.is_wrap_continuation == (k > snap.display_point_of(BufferPoint { row: info.buffer_row, column: 0 }).row)
    } by {
        law_display_row_shows_visible_line(snap, text, k);
        law_display_rows_in_order(snap, text, k, k);
    }
    assert forall|k1: u32, k2: u32| k1 <= k2 < total_rows(snap.wrap_map.counts()) implies (
    #[trigger] snap.row_info(k1)).buffer_row <= (#[trigger] snap.row_info(k2)).buffer_row by {
        law_display_rows_in_order(snap, text, k1, k2);
    }
}

} // verus!
