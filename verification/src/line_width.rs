//! Line Width Tracker: the widest line seen so far, measured only on the
//! lines that are rendered (as they scroll into view).

use vstd::prelude::*;
use ropey::Rope;
use crate::text::{rope_chars, line_count, line_text_len, rope_len_lines, line_width_without_newline};

verus! {

/// Width of line `l` as the tracker measures it: its chars before a final
/// `'\n'`, as 32 bits.
pub open spec fn measured_width(text: Seq<char>, l: int) -> u32 {
    #[verifier::truncate] (line_text_len(text, l) as u32)
}

/// Largest of `m` and the measured widths of lines `start..end`.
pub open spec fn max_width_over(text: Seq<char>, start: int, end: int, m: u32) -> u32
    decreases end - start,
{
    if end <= start {
        m
    } else {
        let rest = max_width_over(text, start, end - 1, m);
        if measured_width(text, end - 1) > rest {
            measured_width(text, end - 1)
        } else {
            rest
        }
    }
}

proof fn lemma_max_width_step(text: Seq<char>, start: int, end: int, m: u32)
    requires
        start < end,
    ensures
        max_width_over(text, start, end, m) == if measured_width(text, end - 1) > max_width_over(
            text,
            start,
            end - 1,
            m,
        ) {
            measured_width(text, end - 1)
        } else {
            max_width_over(text, start, end - 1, m)
        },
{
}

/// Tracks the largest line width seen so far as the user scrolls.
#[derive(Clone, Copy, Debug)]
pub struct LineWidthTracker {
    cached_max: u32,
    line_count: usize,
    version: u64,
}

impl LineWidthTracker {
    pub closed spec fn spec_max(&self) -> u32 {
        self.cached_max
    }

    pub closed spec fn spec_line_count(&self) -> usize {
        self.line_count
    }

    pub closed spec fn spec_version(&self) -> u64 {
        self.version
    }

    /// An empty tracker.
    pub fn new() -> (r: Self)
        ensures
            r.spec_max() == 0,
            r.spec_line_count() == 0,
            r.spec_version() == 0,
    {
        LineWidthTracker { line_count: 0, cached_max: 0, version: 0 }
    }

    /// A tracker for `rope` that has measured nothing yet.
    pub fn from_rope(rope: &Rope) -> (r: Self)
        ensures
            r.spec_max() == 0,
            r.spec_line_count() == line_count(rope_chars(*rope)),
            r.spec_version() == 1,
    {
        LineWidthTracker { line_count: rope_len_lines(rope), cached_max: 0, version: 1 }
    }

    /// Forget the measured widths and take the line count of `rope`.
    pub fn rebuild(&mut self, rope: &Rope)
        requires
            old(self).spec_version() < u64::MAX,
        ensures
            final(self).spec_max() == 0,
            final(self).spec_line_count() == line_count(rope_chars(*rope)),
            final(self).spec_version() == old(self).spec_version() + 1,
    {
        self.line_count = rope_len_lines(rope);
        self.cached_max = 0;
        self.version += 1;
    }

    /// Largest width measured so far.
    pub fn max_width(&self) -> (r: u32)
        ensures
            r == self.spec_max(),
    {
        self.cached_max
    }

    /// Measure the lines `start_line..end_line` (those of them in the buffer).
    pub fn update_visible_range(&mut self, rope: &Rope, start_line: usize, end_line: usize)
        ensures
            final(self).spec_max() == max_width_over(
                rope_chars(*rope),
                start_line as int,
                vstd::math::min(end_line as int, line_count(rope_chars(*rope)) as int),
                old(self).spec_max(),
            ),
            final(self).spec_line_count() == old(self).spec_line_count(),
            final(self).spec_version() == old(self).spec_version(),
    {
        let len_lines = rope_len_lines(rope);
        let end = if end_line < len_lines {
            end_line
        } else {
            len_lines
        };
        let ghost m0 = self.cached_max;
        let mut line_idx = start_line;
        while line_idx < end
            invariant
                end as int == vstd::math::min(end_line as int, line_count(rope_chars(*rope)) as int),
                start_line <= line_idx,
                line_idx <= end || line_idx == start_line,
                self.cached_max == max_width_over(rope_chars(*rope), start_line as int, line_idx as int, m0),
                self.line_count == old(self).line_count,
                self.version == old(self).version,
            decreases end - line_idx,
        {
            let width = #[verifier::truncate] (line_width_without_newline(rope, line_idx) as u32);
            assert(width == measured_width(rope_chars(*rope), line_idx as int));
            proof {
                lemma_max_width_step(rope_chars(*rope), start_line as int, line_idx + 1, m0);
            }
            if width > self.cached_max {
                self.cached_max = width;
            }
            line_idx += 1;
            assert(self.cached_max == max_width_over(rope_chars(*rope), start_line as int, line_idx as int, m0));
        }
        proof {
            if end <= start_line {
                assert(max_width_over(rope_chars(*rope), start_line as int, end as int, m0) == m0);
            }
        }
    }

    /// Record a new width for a line: the maximum grows if it is larger.
    pub fn update_line(&mut self, _line_index: usize, new_width: u32)
        requires
            old(self).spec_version() < u64::MAX,
        ensures
            final(self).spec_max() == if new_width > old(self).spec_max() {
                new_width
            } else {
                old(self).spec_max()
            },
            final(self).spec_line_count() == old(self).spec_line_count(),
            final(self).spec_version() == old(self).spec_version() + 1,
    {
        if new_width > self.cached_max {
            self.cached_max = new_width;
        }
        self.version += 1;
    }

    /// Measure line `line_index` of `rope`, if it exists.
    pub fn update_line_from_rope(&mut self, rope: &Rope, line_index: usize)
        requires
            line_index < line_count(rope_chars(*rope)) ==> old(self).spec_version() < u64::MAX,
        ensures
            line_index < line_count(rope_chars(*rope)) ==> {
                &&& final(self).spec_max() == max_width_over(
                    rope_chars(*rope),
                    line_index as int,
                    line_index + 1,
                    old(self).spec_max(),
                )
                &&& final(self).spec_version() == old(self).spec_version() + 1
            },
            line_index >= line_count(rope_chars(*rope)) ==> *final(self) == *old(self),
            final(self).spec_line_count() == old(self).spec_line_count(),
    {
        if line_index < rope_len_lines(rope) {
            let width = #[verifier::truncate] (line_width_without_newline(rope, line_index) as u32);
            proof {
                lemma_max_width_step(rope_chars(*rope), line_index as int, line_index + 1, self.cached_max);
            }
            self.update_line(line_index, width);
        }
    }

    /// Take the line count of `rope` after a line was inserted.
    pub fn insert_line(&mut self, rope: &Rope)
        ensures
            final(self).spec_line_count() == line_count(rope_chars(*rope)),
            final(self).spec_max() == old(self).spec_max(),
            final(self).spec_version() == old(self).spec_version(),
    {
        self.line_count = rope_len_lines(rope);
    }

    /// Take the line count of `rope` after a line was deleted.
    pub fn delete_line(&mut self, rope: &Rope)
        ensures
            final(self).spec_line_count() == line_count(rope_chars(*rope)),
            final(self).spec_max() == old(self).spec_max(),
            final(self).spec_version() == old(self).spec_version(),
    {
        self.line_count = rope_len_lines(rope);
    }

    pub fn line_count(&self) -> (r: usize)
        ensures
            r == self.spec_line_count(),
    {
        self.line_count
    }

    pub fn is_empty(&self) -> (r: bool)
        ensures
            r == (self.spec_line_count() == 0),
    {
        self.line_count == 0
    }

    pub fn version(&self) -> (r: u64)
        ensures
            r == self.spec_version(),
    {
        self.version
    }
}

impl Default for LineWidthTracker {
    fn default() -> (r: Self)
        ensures
            r.spec_max() == 0,
            r.spec_line_count() == 0,
            r.spec_version() == 0,
    {
        Self::new()
    }
}

} // verus!
