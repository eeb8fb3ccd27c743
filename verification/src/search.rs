//! Find in the text, and the go-to-line prompt.

use vstd::prelude::*;
use ropey::Rope;
use crate::text::{rope_char, rope_chars, rope_len_chars};
use crate::editor::matches_at;

verus! {

/// An occurrence of the query: the chars from `start` to `end`.
#[derive(Clone, Copy, Debug, PartialEq, Eq, Structural)]
pub struct FindMatch {
    pub start: usize,
    pub end: usize,
}

/// The occurrences of `t` in `s` from `p` on, found left to right without
/// overlapping; none for an empty `t`.
pub open spec fn all_matches(s: Seq<char>, t: Seq<char>, p: int) -> Seq<FindMatch>
    decreases s.len() - p,
{
    if t.len() == 0 || p < 0 || p + t.len() > s.len() {
        Seq::empty()
    } else if matches_at(s, t, p) {
        seq![FindMatch { start: p as usize, end: (p + t.len()) as usize }] + all_matches(s, t, p + t.len())
    } else {
        all_matches(s, t, p + 1)
    }
}

/// Index of the first match starting after `pos`, wrapping to the first.
pub open spec fn next_match_index(ms: Seq<FindMatch>, pos: int) -> Option<usize> {
    if ms.len() == 0 {
        None
    } else if exists|i: int| 0 <= i < ms.len() && ms[i].start > pos {
        Some((choose|i: int| 0 <= i < ms.len() && ms[i].start > pos && forall|j: int| 0 <= j < i ==> ms[j].start <= pos) as usize)
    } else {
        Some(0)
    }
}

/// Index of the last match starting before `pos`, wrapping to the last.
pub open spec fn previous_match_index(ms: Seq<FindMatch>, pos: int) -> Option<usize> {
    if ms.len() == 0 {
        None
    } else if exists|i: int| 0 <= i < ms.len() && ms[i].start < pos {
        Some((choose|i: int| 0 <= i < ms.len() && ms[i].start < pos && forall|j: int| i < j < ms.len() ==> ms[j].start >= pos) as usize)
    } else {
        Some((ms.len() - 1) as usize)
    }
}

/// State of the find bar.
pub struct FindState {
    pub active: bool,
    pub query: String,
    pub matches: Vec<FindMatch>,
    pub current_match_index: Option<usize>,
}

impl FindState {
    /// An inactive find bar.
    pub fn new() -> (r: Self)
        ensures
            !r.active,
            r.query@.len() == 0,
            r.matches@.len() == 0,
            r.current_match_index is None,
    {
        FindState { active: false, query: String::new(), matches: Vec::new(), current_match_index: None }
    }

    /// Close the find bar and forget the query and its matches.
    pub fn clear(&mut self)
        ensures
            !final(self).active,
            final(self).query@.len() == 0,
            final(self).matches@.len() == 0,
            final(self).current_match_index is None,
    {
        self.active = false;
        self.query = String::new();
        self.matches = Vec::new();
        self.current_match_index = None;
    }

    /// Find every occurrence of the query in the text.
    pub fn search(&mut self, rope: &Rope)
        ensures
            final(self).matches@ == all_matches(rope_chars(*rope), old(self).query@, 0),
            final(self).current_match_index is None,
            final(self).active == old(self).active,
            final(self).query == old(self).query,
    {
        let ghost s = rope_chars(*rope);
        let ghost t = self.query@;
        let n = self.query.unicode_len();
        let len = rope_len_chars(rope);
        let mut found: Vec<FindMatch> = Vec::new();
        if n > 0 {
            let mut pos: usize = 0;
            while n <= len && pos <= len - n
                invariant
                    s == rope_chars(*rope),
                    t == self.query@,
                    n == t.len() > 0,
                    len == s.len(),
                    found@ + all_matches(s, t, pos as int) == all_matches(s, t, 0),
                decreases len - pos,
            {
                let mut same = true;
                let mut i: usize = 0;
                while i < n
                    invariant
                        s == rope_chars(*rope),
                        t == self.query@,
                        n == t.len(),
                        pos + n <= len == s.len(),
                        0 <= i <= n,
                        same == (forall|k: int| 0 <= k < i ==> s[pos + k] == t[k]),
                    decreases n - i,
                {
                    if rope_char(rope, pos + i) != self.query.get_char(i) {
                        same = false;
                    }
                    i += 1;
                }
                proof {
                    if same {
                        assert(s.subrange(pos as int, pos + t.len()) =~= t);
                    } else {
                        let k = choose|k: int| 0 <= k < n && s[pos + k] != t[k];
                        assert(s.subrange(pos as int, pos + t.len())[k] != t[k]);
                    }
                }
                if same {
                    let ghost before = found@;
                    found.push(FindMatch { start: pos, end: pos + n });
                    assert(found@ + all_matches(s, t, pos + n) =~= before + all_matches(s, t, pos as int));
                    pos = pos + n;
                } else {
                    pos = pos + 1;
                }
            }
            assert(found@ + all_matches(s, t, pos as int) =~= found@);
        } else {
            assert(found@ =~= all_matches(s, t, 0));
        }
        self.matches = found;
        self.current_match_index = None;
    }

    /// Make the first match after `cursor_pos` current, wrapping round.
    pub fn find_next(&mut self, cursor_pos: usize)
        ensures
            final(self).current_match_index == next_match_index(old(self).matches@, cursor_pos as int),
            final(self).matches == old(self).matches,
            final(self).active == old(self).active,
            final(self).query == old(self).query,
    {
        let n = self.matches.len();
        if n == 0 {
            self.current_match_index = None;
            return;
        }
        let mut i: usize = 0;
        while i < n && self.matches[i].start <= cursor_pos
            invariant
                n == self.matches@.len(),
                0 <= i <= n,
                forall|j: int| 0 <= j < i ==> self.matches@[j].start <= cursor_pos,
            decreases n - i,
        {
            i += 1;
        }
        if i < n {
            proof {
                let ms = self.matches@;
                assert(ms[i as int].start > cursor_pos);
                let c = choose|k: int| 0 <= k < ms.len() && ms[k].start > cursor_pos && forall|j: int| 0 <= j < k ==> ms[j].start <= cursor_pos;
                if c < i {
                } else if c > i {
                    assert(ms[i as int].start <= cursor_pos);
                }
            }
            self.current_match_index = Some(i);
        } else {
            self.current_match_index = Some(0);
        }
    }

    /// Make the last match before `cursor_pos` current, wrapping round.
    pub fn find_previous(&mut self, cursor_pos: usize)
        ensures
            final(self).current_match_index == previous_match_index(old(self).matches@, cursor_pos as int),
            final(self).matches == old(self).matches,
            final(self).active == old(self).active,
            final(self).query == old(self).query,
    {
        let n = self.matches.len();
        if n == 0 {
            self.current_match_index = None;
            return;
        }
        let mut i: usize = n;
        while i > 0 && self.matches[i - 1].start >= cursor_pos
            invariant
                n == self.matches@.len(),
                0 <= i <= n,
                forall|j: int| i <= j < n ==> self.matches@[j].start >= cursor_pos,
            decreases i,
        {
            i -= 1;
        }
        if i > 0 {
            proof {
                let ms = self.matches@;
                let w = i - 1;
                assert(ms[w].start < cursor_pos);
                let c = choose|k: int| 0 <= k < ms.len() && ms[k].start < cursor_pos && forall|j: int| k < j < ms.len() ==> ms[j].start >= cursor_pos;
                if c < w {
                    assert(ms[w].start >= cursor_pos);
                } else if c > w {
                }
            }
            self.current_match_index = Some(i - 1);
        } else {
            self.current_match_index = Some(n - 1);
        }
    }

    /// The current match, if any.
    pub fn current_match(&self) -> (r: Option<FindMatch>)
        ensures
            r == (match self.current_match_index {
                Some(i) => if i < self.matches@.len() {
                    Some(self.matches@[i as int])
                } else {
                    None
                },
                None => None,
            }),
    {
        match self.current_match_index {
            Some(i) => if i < self.matches.len() {
                Some(self.matches[i])
            } else {
                None
            },
            None => None,
        }
    }
}

/// State of the go-to-line prompt.
pub struct GotoLineState {
    pub active: bool,
    pub input: String,
}

impl GotoLineState {
    /// A closed prompt.
    pub fn new() -> (r: Self)
        ensures
            !r.active,
            r.input@.len() == 0,
    {
        GotoLineState { active: false, input: String::new() }
    }

    /// Close the prompt and forget its input.
    pub fn clear(&mut self)
        ensures
            !final(self).active,
            final(self).input@.len() == 0,
    {
        self.active = false;
        self.input = String::new();
    }
}

} // verus!
