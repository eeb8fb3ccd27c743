//! Tab Map: expands tabs to their tab stops for display columns.

use vstd::prelude::*;
use ropey::Rope;

verus! {

/// Visual column reached from column `v` by one char: a tab moves to the next
/// tab stop, any other char moves one column.
pub open spec fn advance_column(tab: int, v: int, c: char) -> int {
    if c == '\t' {
        (v / tab + 1) * tab
    } else {
        v + 1
    }
}

/// Visual width of a run of chars, with tabs expanded to tab stops of size `tab`.
pub open spec fn visual_width(tab: int, s: Seq<char>) -> int
    decreases s.len(),
{
    if s.len() == 0 {
        0
    } else {
        advance_column(tab, visual_width(tab, s.drop_last()), s.last())
    }
}

/// Index of the first `'\n'` of `s`, or its length when it has none.
pub open spec fn newline_pos(s: Seq<char>) -> int
    decreases s.len(),
{
    if s.len() == 0 {
        0
    } else if s[0] == '\n' {
        0
    } else {
        1 + newline_pos(s.drop_first())
    }
}

pub proof fn lemma_newline_pos(s: Seq<char>)
    ensures
        0 <= newline_pos(s) <= s.len(),
        forall|j: int| 0 <= j < newline_pos(s) ==> s[j] != '\n',
        newline_pos(s) < s.len() ==> s[newline_pos(s)] == '\n',
    decreases s.len(),
{
    if s.len() > 0 && s[0] != '\n' {
        lemma_newline_pos(s.drop_first());
        assert forall|j: int| 0 <= j < newline_pos(s) implies s[j] != '\n' by {
            if j > 0 {
                assert(s[j] == s.drop_first()[j - 1]);
            }
        }
    }
}

/// Widths of longer prefixes are larger: each char moves at least one column.
pub proof fn lemma_width_increasing(tab: int, s: Seq<char>, i: int, j: int)
    requires
        tab >= 1,
        0 <= i <= j <= s.len(),
    ensures
        visual_width(tab, s.take(i)) + (j - i) <= visual_width(tab, s.take(j)),
        visual_width(tab, s.take(i)) >= 0,
    decreases j - i,
{
    if i < j {
        lemma_width_increasing(tab, s, i, j - 1);
        assert(s.take(j).drop_last() =~= s.take(j - 1));
        let v = visual_width(tab, s.take(j - 1));
        assert(v / tab * tab <= v) by (nonlinear_arith)
            requires
                tab >= 1,
                v >= 0,
        ;
        assert((v / tab + 1) * tab > v) by (nonlinear_arith)
            requires
                tab >= 1,
                v >= 0,
        ;
    } else {
        lemma_width_nonneg(tab, s.take(i));
    }
}

pub proof fn lemma_width_nonneg(tab: int, s: Seq<char>)
    requires
        tab >= 1,
    ensures
        visual_width(tab, s) >= 0,
    decreases s.len(),
{
    if s.len() > 0 {
        lemma_width_nonneg(tab, s.drop_last());
        let v = visual_width(tab, s.drop_last());
        assert((v / tab + 1) * tab > v) by (nonlinear_arith)
            requires
                tab >= 1,
                v >= 0,
        ;
    }
}

/// What `contract_column` gives is the largest char column whose expanded
/// width does not pass the visual column: any char column (up to the first
/// `'\n'`) that fits is no further, so expanding a char column and
/// contracting the result gives the char column back.
pub proof fn law_contract_column_largest(tab: int, s: Seq<char>, v: int, r: int)
    requires
        tab >= 1,
        0 <= r <= newline_pos(s),
        visual_width(tab, s.take(r)) <= v,
        r < newline_pos(s) ==> visual_width(tab, s.take(r + 1)) > v,
    ensures
        forall|c: int| 0 <= c <= newline_pos(s) && #[trigger] visual_width(tab, s.take(c)) <= v ==> c <= r,
        forall|c: int| 0 <= c <= newline_pos(s) && v == #[trigger] visual_width(tab, s.take(c)) ==> r == c,
{
    lemma_newline_pos(s);
    assert forall|c: int| 0 <= c <= newline_pos(s) && #[trigger] visual_width(tab, s.take(c)) <= v implies c <= r by {
        if c > r {
            lemma_width_increasing(tab, s, r + 1, c);
        }
    }
    assert forall|c: int| 0 <= c <= newline_pos(s) && v == #[trigger] visual_width(tab, s.take(c)) implies r == c by {
        if c > r {
            lemma_width_increasing(tab, s, r + 1, c);
        }
        if c < r {
            lemma_width_increasing(tab, s, c, r);
        }
    }
}

/// Handles tab expansion for display.
#[derive(Clone, Copy, Debug)]
pub struct TabMap {
    tab_size: u32,
}

impl TabMap {
    /// The tab size in spaces (at least 1).
    pub closed spec fn spec_tab_size(&self) -> u32 {
        self.tab_size
    }

    pub closed spec fn wf(&self) -> bool {
        self.tab_size >= 1
    }

    /// Create a new tab map; a tab size of 0 is taken as 1.
    pub fn new(tab_size: u32) -> (r: Self)
        ensures
            r.wf(),
            r.spec_tab_size() == if tab_size == 0 { 1 } else { tab_size },
    {
        TabMap { tab_size: if tab_size == 0 { 1 } else { tab_size } }
    }

    /// Tab expansion is computed from line content on demand: nothing to update.
    pub fn update(&mut self, _rope: &Rope)
        ensures
            *final(self) == *old(self),
    {
    }

    /// Set the tab size; 0 is taken as 1.
    pub fn set_tab_size(&mut self, size: u32)
        ensures
            final(self).wf(),
            final(self).spec_tab_size() == if size == 0 { 1 } else { size },
    {
        self.tab_size = if size == 0 { 1 } else { size };
    }

    /// Get the tab size.
    pub fn tab_size(&self) -> (r: u32)
        ensures
            r == self.spec_tab_size(),
    {
        self.tab_size
    }

    /// Visual column of char column `char_column` of `line`: the width of the
    /// first `char_column` chars, tabs expanded, counting no further than the
    /// first `'\n'`.
    pub fn expand_column(&self, line: &str, char_column: u32) -> (r: u32)
        requires
            self.wf(),
            visual_width(
                self.spec_tab_size() as int,
                line@.take(vstd::math::min(char_column as int, newline_pos(line@))),
            ) <= u32::MAX,
        ensures
            r == visual_width(
                self.spec_tab_size() as int,
                line@.take(vstd::math::min(char_column as int, newline_pos(line@))),
            ),
    {
        let ghost s = line@;
        let ghost tab = self.tab_size as int;
        let ghost stop = vstd::math::min(char_column as int, newline_pos(s));
        let mut visual_col: u32 = 0;
        let mut char_col: u32 = 0;
        proof {
            lemma_newline_pos(s);
            assert(s.take(0) =~= Seq::<char>::empty());
        }
        for ch in it: line.chars()
            invariant_except_break
                char_col == it.index(),
            invariant
                s == line@,
                tab == self.tab_size,
                tab >= 1,
                stop == vstd::math::min(char_column as int, newline_pos(s)),
                0 <= newline_pos(s) <= s.len(),
                forall|j: int| 0 <= j < newline_pos(s) ==> s[j] != '\n',
                newline_pos(s) < s.len() ==> s[newline_pos(s)] == '\n',
                visual_width(tab, s.take(stop)) <= u32::MAX,
                it.seq() == s,
                char_col <= stop,
                visual_col == visual_width(tab, s.take(char_col as int)),
            ensures
                char_col == stop,
                visual_col == visual_width(tab, s.take(char_col as int)),
        {
            if char_col >= char_column {
                break;
            }
            if ch == '\n' {
                break;
            }
            assert(ch == s[char_col as int]);
            proof {
                lemma_width_increasing(tab, s, char_col + 1, stop);
                assert(s.take(char_col + 1).drop_last() =~= s.take(char_col as int));
            }
            assert(char_col + 1 <= stop);
            assert(visual_width(tab, s.take(char_col + 1)) == advance_column(tab, visual_col as int, ch));
            if ch == '\t' {
                assert(advance_column(tab, visual_col as int, ch) <= u32::MAX);
                let q = visual_col / self.tab_size;
                assert(q + 1 <= (q + 1) * self.tab_size) by (nonlinear_arith)
                    requires
                        self.tab_size >= 1,
                ;
                visual_col = (q + 1) * self.tab_size;
            } else {
                visual_col += 1;
            }
            char_col += 1;
        }
        visual_col
    }

    /// Char column of visual column `visual_column` of `line`: the largest
    /// number of chars (before the first `'\n'`) whose expanded width does not
    /// pass `visual_column`.
    pub fn contract_column(&self, line: &str, visual_column: u32) -> (r: u32)
        requires
            self.wf(),
            forall|k: int|
                0 <= k < newline_pos(line@) && visual_width(self.spec_tab_size() as int, #[trigger] line@.take(k))
                    < visual_column ==> visual_width(self.spec_tab_size() as int, line@.take(k + 1))
                    <= u32::MAX,
        ensures
            0 <= r <= newline_pos(line@),
            visual_width(self.spec_tab_size() as int, line@.take(r as int)) <= visual_column,
            r < newline_pos(line@) ==> visual_width(self.spec_tab_size() as int, line@.take(r + 1))
                > visual_column,
    {
        let ghost s = line@;
        let ghost tab = self.tab_size as int;
        let mut visual_col: u32 = 0;
        let mut char_col: u32 = 0;
        proof {
            lemma_newline_pos(s);
            assert(s.take(0) =~= Seq::<char>::empty());
        }
        for ch in it: line.chars()
            invariant_except_break
                char_col == it.index(),
            invariant
                s == line@,
                tab == self.tab_size,
                tab >= 1,
                char_col <= visual_col,
                0 <= newline_pos(s) <= s.len(),
                forall|j: int| 0 <= j < newline_pos(s) ==> s[j] != '\n',
                newline_pos(s) < s.len() ==> s[newline_pos(s)] == '\n',
                forall|k: int|
                    0 <= k < newline_pos(s) && visual_width(tab, #[trigger] s.take(k)) < visual_column
                        ==> visual_width(tab, s.take(k + 1)) <= u32::MAX,
                it.seq() == s,
                char_col <= newline_pos(s),
                visual_col == visual_width(tab, s.take(char_col as int)),
                visual_col <= visual_column,
            ensures
                char_col <= newline_pos(s),
                visual_col == visual_width(tab, s.take(char_col as int)),
                visual_col <= visual_column,
                char_col < newline_pos(s) ==> visual_width(tab, s.take(char_col + 1))
                    > visual_column,
        {
            assert(ch == s[char_col as int]);
            if visual_col >= visual_column {
                proof {
                    lemma_width_increasing(tab, s, char_col as int, char_col + 1);
                }
                break;
            }
            if ch == '\n' {
                break;
            }
            assert(char_col < newline_pos(s));
            assert(s.take(char_col + 1).drop_last() =~= s.take(char_col as int));
            assert(visual_width(tab, s.take(char_col + 1)) == advance_column(tab, visual_col as int, ch));
            let char_width = if ch == '\t' {
                let q = visual_col / self.tab_size;
                assert(q + 1 <= (q + 1) * self.tab_size) by (nonlinear_arith)
                    requires
                        self.tab_size >= 1,
                ;
                let next_stop = (q + 1) * self.tab_size;
                proof {
                    lemma_width_increasing(tab, s, char_col as int, char_col + 1);
                }
                next_stop - visual_col
            } else {
                1
            };
            if visual_col + char_width > visual_column {
                break;
            }
            visual_col += char_width;
            char_col += 1;
        }
        char_col
    }

    /// Visual width of `line` up to its first `'\n'`, tabs expanded.
    pub fn line_visual_width(&self, line: &str) -> (r: u32)
        requires
            self.wf(),
            visual_width(self.spec_tab_size() as int, line@.take(newline_pos(line@))) <= u32::MAX,
        ensures
            r == visual_width(self.spec_tab_size() as int, line@.take(newline_pos(line@))),
    {
        let ghost s = line@;
        let ghost tab = self.tab_size as int;
        let ghost stop = newline_pos(s);
        let mut visual_col: u32 = 0;
        let ghost mut count: int = 0;
        proof {
            lemma_newline_pos(s);
            assert(s.take(0) =~= Seq::<char>::empty());
        }
        for ch in it: line.chars()
            invariant_except_break
                count == it.index(),
            invariant
                s == line@,
                tab == self.tab_size,
                tab >= 1,
                stop == newline_pos(s),
                0 <= newline_pos(s) <= s.len(),
                forall|j: int| 0 <= j < newline_pos(s) ==> s[j] != '\n',
                newline_pos(s) < s.len() ==> s[newline_pos(s)] == '\n',
                visual_width(tab, s.take(stop)) <= u32::MAX,
                it.seq() == s,
                0 <= count <= stop,
                visual_col == visual_width(tab, s.take(count)),
            ensures
                count == stop,
                visual_col == visual_width(tab, s.take(count)),
        {
            assert(ch == s[count]);
            if ch == '\n' {
                break;
            }
            assert(count < stop);
            proof {
                lemma_width_increasing(tab, s, count + 1, stop);
            }
            assert(s.take(count + 1).drop_last() =~= s.take(count));
            assert(visual_width(tab, s.take(count + 1)) == advance_column(tab, visual_col as int, ch));
            if ch == '\t' {
                let q = visual_col / self.tab_size;
                assert(q + 1 <= (q + 1) * self.tab_size) by (nonlinear_arith)
                    requires
                        self.tab_size >= 1,
                ;
                visual_col = (q + 1) * self.tab_size;
            } else {
                visual_col += 1;
            }
            proof {
                count = count + 1;
            }
        }
        visual_col
    }
}

} // verus!

verus! {

impl Default for TabMap {
    fn default() -> (r: Self)
        ensures
            r.wf(),
            r.spec_tab_size() == 4,
    {
        Self::new(4)
    }
}

} // verus!
