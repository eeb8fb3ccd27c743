//! What of the text gets drawn: which parts of which lines a selection
//! covers, and which parts of a line's styled segments show past the
//! horizontal scroll.

use vstd::prelude::*;
use ropey::Rope;
use crate::text::{
    breaks_before, lemma_line_of, lemma_line_start_mono, line_count, line_len, line_start, rope_char_to_line,
    rope_chars, rope_line_len, rope_line_to_char,
};

verus! {

/// The columns of line `l` that the selection `start..end` covers, from the
/// first to one past the last; a line the selection runs through is covered
/// whole, its line break included.
pub open spec fn covered_columns(s: Seq<char>, start: int, end: int, l: int) -> (int, int) {
    let ls = line_start(s, l);
    let first_line = breaks_before(s, start) as int;
    let last_line = breaks_before(s, end) as int;
    let a = if l == first_line { start - ls } else { 0 };
    let b = if l == last_line { end - ls } else { line_len(s, l) };
    (a, b)
}

/// The covered spans of the lines before `l`, from the selection's first
/// line on, leaving out lines where it covers nothing: each is a line, the
/// first column and one past the last.
pub open spec fn spans_before(s: Seq<char>, start: int, end: int, l: int) -> Seq<(usize, usize, usize)>
    decreases l - breaks_before(s, start),
{
    let first_line = breaks_before(s, start) as int;
    if l <= first_line {
        Seq::empty()
    } else {
        let (a, b) = covered_columns(s, start, end, l - 1);
        let rest = spans_before(s, start, end, l - 1);
        if a < b {
            rest.push(((l - 1) as usize, a as usize, b as usize))
        } else {
            rest
        }
    }
}

/// The spans a selection between two positions covers (none when it is
/// missing or empty), its ends taken in either order.
pub open spec fn highlight_spans(s: Seq<char>, selection_start: Option<usize>, selection_end: Option<usize>) -> Seq<
    (usize, usize, usize),
> {
    match (selection_start, selection_end) {
        (Some(x), Some(y)) => {
            let start = if x <= y { x as int } else { y as int };
            let end = if x <= y { y as int } else { x as int };
            if start == end {
                Seq::empty()
            } else {
                spans_before(s, start, end, (breaks_before(s, end) + 1) as int)
            }
        },
        _ => Seq::empty(),
    }
}

/// The spans the selection covers, line by line (see `highlight_spans`).
pub fn selection_highlight_spans(rope: &Rope, selection_start: Option<usize>, selection_end: Option<usize>) -> (r: Vec<
    (usize, usize, usize),
>)
    requires
        selection_start matches Some(x) ==> x <= rope_chars(*rope).len(),
        selection_end matches Some(y) ==> y <= rope_chars(*rope).len(),
    ensures
        r@ == highlight_spans(rope_chars(*rope), selection_start, selection_end),
{
    let ghost s = rope_chars(*rope);
    let mut spans: Vec<(usize, usize, usize)> = Vec::new();
    let (x, y) = match (selection_start, selection_end) {
        (Some(x), Some(y)) => (x, y),
        _ => return spans,
    };
    let (start, end) = if x <= y {
        (x, y)
    } else {
        (y, x)
    };
    if start == end {
        return spans;
    }
    proof {
        lemma_line_of(s, start as int);
        lemma_line_of(s, end as int);
        crate::text::lemma_breaks_before_mono(s, start as int, end as int);
    }
    let start_line = rope_char_to_line(rope, start);
    let end_line = rope_char_to_line(rope, end);
    let mut line = start_line;
    loop
        invariant_except_break
            s == rope_chars(*rope),
            start < end <= s.len(),
            start_line == breaks_before(s, start as int),
            end_line == breaks_before(s, end as int),
            end_line < line_count(s),
            start_line <= line <= end_line,
            spans@ == spans_before(s, start as int, end as int, line as int),
        ensures
            spans@ == spans_before(s, start as int, end as int, end_line + 1),
        decreases end_line - line,
    {
        proof {
            lemma_line_start_mono(s, line as int);
            lemma_line_of(s, start as int);
            lemma_line_of(s, end as int);
        }
        let line_start_char = rope_line_to_char(rope, line);
        let line_chars = rope_line_len(rope, line);
        let sel_start_in_line = if line == start_line {
            start - line_start_char
        } else {
            0
        };
        let sel_end_in_line = if line == end_line {
            end - line_start_char
        } else {
            line_chars
        };
        if sel_start_in_line < sel_end_in_line {
            spans.push((line, sel_start_in_line, sel_end_in_line));
        }
        if line == end_line {
            break;
        }
        line += 1;
    }
    spans
}

/// Number of chars in the first `n` segments.
pub open spec fn chars_before(segs: Seq<Seq<char>>, n: int) -> int
    decreases n,
{
    if n <= 0 {
        0
    } else {
        chars_before(segs, n - 1) + segs[n - 1].len()
    }
}

/// What of segment `i` shows when the first `skip` chars of the line are
/// scrolled out: nothing when it lies wholly before them, all of it when
/// wholly after, else its chars from the first one shown. Each piece comes
/// with its segment's index.
pub open spec fn shown_piece(segs: Seq<Seq<char>>, skip: int, i: int) -> Seq<(usize, Seq<char>)> {
    let o = chars_before(segs, i);
    let e = o + segs[i].len();
    if e <= skip {
        Seq::empty()
    } else if o >= skip {
        seq![(i as usize, segs[i])]
    } else {
        seq![(i as usize, segs[i].skip(skip - o))]
    }
}

proof fn lemma_chars_before_mono(segs: Seq<Seq<char>>, a: int, b: int)
    requires
        0 <= a <= b,
    ensures
        chars_before(segs, a) <= chars_before(segs, b),
    decreases b - a,
{
    if a < b {
        lemma_chars_before_mono(segs, a, b - 1);
    }
}

/// The pieces of the first `n` segments that show.
pub open spec fn shown_pieces(segs: Seq<Seq<char>>, skip: int, n: int) -> Seq<(usize, Seq<char>)>
    decreases n,
{
    if n <= 0 {
        Seq::empty()
    } else {
        shown_pieces(segs, skip, n - 1) + shown_piece(segs, skip, n - 1)
    }
}

/// The views of strings.
pub open spec fn string_views(v: Seq<String>) -> Seq<Seq<char>> {
    v.map_values(|s: String| s@)
}

/// The views of the pieces' texts.
pub open spec fn piece_views(v: Seq<(usize, String)>) -> Seq<(usize, Seq<char>)> {
    v.map_values(|p: (usize, String)| (p.0, p.1@))
}

/// The pieces of a line's segments that show when its first
/// `chars_to_skip` chars are scrolled out of view (see `shown_piece`).
pub fn visible_segments(segments: &Vec<String>, chars_to_skip: usize) -> (r: Vec<(usize, String)>)
    requires
        chars_before(string_views(segments@), segments@.len() as int) <= usize::MAX,
    ensures
        piece_views(r@) == shown_pieces(string_views(segments@), chars_to_skip as int, segments@.len() as int),
{
    let ghost segs = string_views(segments@);
    let mut out: Vec<(usize, String)> = Vec::new();
    let mut seg_start: usize = 0;
    let mut i: usize = 0;
    while i < segments.len()
        invariant
            i <= segments@.len(),
            segs == string_views(segments@),
            seg_start == chars_before(segs, i as int),
            chars_before(segs, segments@.len() as int) <= usize::MAX,
            piece_views(out@) == shown_pieces(segs, chars_to_skip as int, i as int),
        decreases segments@.len() - i,
    {
        let seg = &segments[i];
        let n = seg.unicode_len();
        assert(segs[i as int] == seg@);
        proof {
            lemma_chars_before_mono(segs, i + 1, segments@.len() as int);
        }
        let segment_end = seg_start + n;
        let ghost before = piece_views(out@);
        if segment_end <= chars_to_skip {
        } else if seg_start >= chars_to_skip {
            out.push((i, seg.clone()));
        } else {
            let skip_in_segment = chars_to_skip - seg_start;
            let part = String::from_str(seg.substring_char(skip_in_segment, n));
            out.push((i, part));
        }
        proof {
            assert(piece_views(out@) =~= before + shown_piece(segs, chars_to_skip as int, i as int));
        }
        seg_start = segment_end;
        i += 1;
    }
    out
}

} // verus!
