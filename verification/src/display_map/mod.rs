//! Display map: composable coordinate transformation layers.
//!
//! - **FoldMap** hides folded regions, collapsing several buffer lines into one;
//! - **WrapMap** wraps long lines visually;
//! - **TabMap** expands tabs to tab stops.

pub mod point;
pub mod fold_map;
pub mod wrap_map;
pub mod tab_map;
pub mod snapshot;
pub mod layout;

use vstd::prelude::*;
use ropey::Rope;
use crate::types::{FoldRegion, FoldState};
use crate::text::{rope_chars, line_count};
use self::fold_map::{FoldMap, fold_layout, total_hidden, fold_to_buffer, sat_sub};
use self::wrap_map::{WrapMap, wrap_layout, total_rows};
use self::tab_map::TabMap;
use self::snapshot::DisplaySnapshot;

verus! {

/// Fold, wrap and tab layers kept together, with a version counter for change
/// detection.
#[derive(Debug)]
pub struct LayeredDisplayMap {
    pub fold_map: FoldMap,
    pub wrap_map: WrapMap,
    pub tab_map: TabMap,
    pub version: u64,
}

impl LayeredDisplayMap {
    /// A display map with no folds and the given wrap width and tab size.
    pub fn new(wrap_width: u32, tab_size: u32) -> (r: Self)
        ensures
            r.fold_map.regions() == Seq::<FoldRegion>::empty(),
            r.fold_map.buffer_lines() == 0,
            r.wrap_map.spec_wrap_width() == if wrap_width == 0 { 1 } else { wrap_width },
            r.wrap_map.spec_enabled(),
            r.wrap_map.counts() == Seq::<u32>::empty(),
            r.tab_map.wf(),
            r.tab_map.spec_tab_size() == if tab_size == 0 { 1 } else { tab_size },
            r.version == 0,
    {
        LayeredDisplayMap {
            fold_map: FoldMap::new(),
            wrap_map: WrapMap::new(wrap_width),
            tab_map: TabMap::new(tab_size),
            version: 0,
        }
    }

    /// Rebuild the layers from the buffer and its fold regions.
    pub fn update(&mut self, rope: &Rope, fold_regions: &[FoldRegion])
        requires
            old(self).version < u64::MAX,
            total_hidden(fold_layout(fold_regions@)) <= u32::MAX,
            old(self).wrap_map.spec_enabled() ==> forall|f: int|
                0 <= f < sat_sub(
                    (line_count(rope_chars(*rope)) as u32) as int,
                    total_hidden(fold_layout(fold_regions@)),
                ) ==> fold_to_buffer(fold_layout(fold_regions@), f) <= u32::MAX,
            total_rows(
                wrap_layout(
                    rope_chars(*rope),
                    fold_layout(fold_regions@),
                    sat_sub(
                        (line_count(rope_chars(*rope)) as u32) as int,
                        total_hidden(fold_layout(fold_regions@)),
                    ),
                    old(self).wrap_map.spec_wrap_width() as int,
                    old(self).wrap_map.spec_enabled(),
                ),
            ) <= u32::MAX,
        ensures
            final(self).fold_map.regions() == fold_layout(fold_regions@),
            final(self).fold_map.buffer_lines() == line_count(rope_chars(*rope)) as u32,
            final(self).wrap_map.spec_wrap_width() == old(self).wrap_map.spec_wrap_width(),
            final(self).wrap_map.spec_enabled() == old(self).wrap_map.spec_enabled(),
            final(self).wrap_map.counts() == wrap_layout(
                rope_chars(*rope),
                fold_layout(fold_regions@),
                sat_sub(
                    (line_count(rope_chars(*rope)) as u32) as int,
                    total_hidden(fold_layout(fold_regions@)),
                ),
                old(self).wrap_map.spec_wrap_width() as int,
                old(self).wrap_map.spec_enabled(),
            ),
            final(self).tab_map == old(self).tab_map,
            final(self).version == old(self).version + 1,
    {
        self.fold_map.update(rope, fold_regions);
        self.wrap_map.update(rope, &self.fold_map);
        self.tab_map.update(rope);
        self.version += 1;
    }

    /// Rebuild the layers from the buffer and the editor's fold state (see
    /// `update`).
    pub fn update_from_fold_state(&mut self, rope: &Rope, fold_state: &FoldState)
        requires
            old(self).version < u64::MAX,
            total_hidden(fold_layout(fold_state.regions@)) <= u32::MAX,
            old(self).wrap_map.spec_enabled() ==> forall|f: int|
                0 <= f < sat_sub(
                    (line_count(rope_chars(*rope)) as u32) as int,
                    total_hidden(fold_layout(fold_state.regions@)),
                ) ==> fold_to_buffer(fold_layout(fold_state.regions@), f) <= u32::MAX,
            total_rows(
                wrap_layout(
                    rope_chars(*rope),
                    fold_layout(fold_state.regions@),
                    sat_sub(
                        (line_count(rope_chars(*rope)) as u32) as int,
                        total_hidden(fold_layout(fold_state.regions@)),
                    ),
                    old(self).wrap_map.spec_wrap_width() as int,
                    old(self).wrap_map.spec_enabled(),
                ),
            ) <= u32::MAX,
        ensures
            final(self).fold_map.regions() == fold_layout(fold_state.regions@),
            final(self).fold_map.buffer_lines() == line_count(rope_chars(*rope)) as u32,
            final(self).wrap_map.spec_wrap_width() == old(self).wrap_map.spec_wrap_width(),
            final(self).wrap_map.spec_enabled() == old(self).wrap_map.spec_enabled(),
            final(self).wrap_map.counts() == wrap_layout(
                rope_chars(*rope),
                fold_layout(fold_state.regions@),
                sat_sub(
                    (line_count(rope_chars(*rope)) as u32) as int,
                    total_hidden(fold_layout(fold_state.regions@)),
                ),
                old(self).wrap_map.spec_wrap_width() as int,
                old(self).wrap_map.spec_enabled(),
            ),
            final(self).tab_map == old(self).tab_map,
            final(self).version == old(self).version + 1,
    {
        self.update(rope, fold_state.regions.as_slice());
    }

    /// A snapshot of the current layers.
    pub fn snapshot(&self) -> (r: DisplaySnapshot)
        ensures
            r.fold_map.regions() == self.fold_map.regions(),
            r.fold_map.buffer_lines() == self.fold_map.buffer_lines(),
            r.wrap_map.counts() == self.wrap_map.counts(),
            r.wrap_map.spec_wrap_width() == self.wrap_map.spec_wrap_width(),
            r.wrap_map.spec_enabled() == self.wrap_map.spec_enabled(),
            r.tab_map == self.tab_map,
    {
        DisplaySnapshot {
            fold_map: self.fold_map.clone(),
            wrap_map: self.wrap_map.clone(),
            tab_map: self.tab_map,
        }
    }

    /// Set the wrap width (in chars); 0 is taken as 1.
    pub fn set_wrap_width(&mut self, width: u32)
        ensures
            final(self).wrap_map.spec_wrap_width() == if width == 0 { 1 } else { width },
            final(self).wrap_map.spec_enabled() == old(self).wrap_map.spec_enabled(),
            final(self).wrap_map.counts() == old(self).wrap_map.counts(),
            final(self).fold_map == old(self).fold_map,
            final(self).tab_map == old(self).tab_map,
            final(self).version == old(self).version,
    {
        self.wrap_map.set_wrap_width(width);
    }

    /// Set the tab size (in spaces); 0 is taken as 1.
    pub fn set_tab_size(&mut self, size: u32)
        ensures
            final(self).tab_map.wf(),
            final(self).tab_map.spec_tab_size() == if size == 0 { 1 } else { size },
            final(self).fold_map == old(self).fold_map,
            final(self).wrap_map == old(self).wrap_map,
            final(self).version == old(self).version,
    {
        self.tab_map.set_tab_size(size);
    }
}

impl Default for LayeredDisplayMap {
    fn default() -> (r: Self)
        ensures
            r.fold_map.regions() == Seq::<FoldRegion>::empty(),
            r.wrap_map.spec_wrap_width() == 80,
            r.wrap_map.spec_enabled(),
            r.wrap_map.counts() == Seq::<u32>::empty(),
            r.tab_map.spec_tab_size() == 4,
            r.version == 0,
    {
        Self::new(80, 4)
    }
}

} // verus!
