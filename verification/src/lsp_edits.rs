//! Positions and text edits as the language server protocol gives them: a
//! line and a char in the line.

use vstd::prelude::*;
use ropey::Rope;
use vstd::utf8::encode_utf8;
use crate::text::{
    breaks_before, lemma_line_of, lemma_line_start_mono, line_count, line_start, rope_char_to_line,
    rope_chars, rope_insert, rope_len_chars, rope_len_lines, rope_line_to_char, rope_remove,
    TextViewState,
};
use crate::editor::{mark_for_refresh, marked_for_refresh};

verus! {

/// A text edit of the protocol: the chars from one position to another are
/// replaced by `new_text`.
pub struct TextEdit {
    pub start_line: u32,
    pub start_character: u32,
    pub end_line: u32,
    pub end_character: u32,
    pub new_text: String,
}

impl Clone for TextEdit {
    fn clone(&self) -> (r: Self)
        ensures
            r == *self,
    {
        TextEdit {
            start_line: self.start_line,
            start_character: self.start_character,
            end_line: self.end_line,
            end_character: self.end_character,
            new_text: self.new_text.clone(),
        }
    }
}

/// Edit `a` starts before edit `b`, by line and then char.
pub open spec fn starts_before(a: TextEdit, b: TextEdit) -> bool {
    a.start_line < b.start_line || (a.start_line == b.start_line && a.start_character < b.start_character)
}

/// Edits whose starts never increase along `s`.
pub open spec fn sorted_last_first(s: Seq<TextEdit>) -> bool {
    forall|a: int, b: int| 0 <= a <= b < s.len() ==> !starts_before(#[trigger] s[a], #[trigger] s[b])
}

/// `e` put into `s`, sorted last first, after every edit that starts no
/// earlier.
pub open spec fn insert_last_first(s: Seq<TextEdit>, e: TextEdit) -> Seq<TextEdit>
    decreases s.len(),
{
    if s.len() == 0 {
        seq![e]
    } else if !starts_before(s.last(), e) {
        s.push(e)
    } else {
        insert_last_first(s.drop_last(), e).push(s.last())
    }
}

/// The stable sort of `s` by decreasing start.
pub open spec fn sort_last_first(s: Seq<TextEdit>) -> Seq<TextEdit>
    decreases s.len(),
{
    if s.len() == 0 {
        s
    } else {
        insert_last_first(sort_last_first(s.drop_last()), s.last())
    }
}

/// Char index of a protocol position in text `s`: the start of the line
/// plus the char in it, clamped to the text.
pub open spec fn position_index(s: Seq<char>, line: u32, character: u32) -> int {
    let p = line_start(s, line as int) + character;
    if p <= s.len() { p } else { s.len() as int }
}

/// `s` after edit `e`: nothing happens when it starts past the last line or
/// its end comes before its start; an end past the last line is the end of
/// the text.
pub open spec fn apply_text_edit(s: Seq<char>, e: TextEdit) -> Seq<char> {
    if e.start_line < line_count(s) {
        let start = position_index(s, e.start_line, e.start_character);
        let end = if e.end_line < line_count(s) {
            position_index(s, e.end_line, e.end_character)
        } else {
            s.len() as int
        };
        if start <= end {
            s.take(start) + e.new_text@ + s.skip(end)
        } else {
            s
        }
    } else {
        s
    }
}

/// `s` after the edits, applied in order.
pub open spec fn apply_text_edit_seq(s: Seq<char>, edits: Seq<TextEdit>) -> Seq<char>
    decreases edits.len(),
{
    if edits.len() == 0 {
        s
    } else {
        apply_text_edit(apply_text_edit_seq(s, edits.drop_last()), edits.last())
    }
}

pub proof fn lemma_insert_last_first(s: Seq<TextEdit>, e: TextEdit, j: int)
    requires
        sorted_last_first(s),
        0 <= j <= s.len(),
        forall|i: int| 0 <= i < j ==> !starts_before(s[i], e),
        forall|i: int| j <= i < s.len() ==> starts_before(s[i], e),
    ensures
        insert_last_first(s, e) == s.insert(j, e),
        sorted_last_first(s.insert(j, e)),
    decreases s.len(),
{
    if s.len() == 0 {
        assert(s.insert(j, e) =~= seq![e]);
    } else if !starts_before(s.last(), e) {
        assert(j == s.len());
        assert(s.insert(j, e) =~= s.push(e));
    } else {
        let d = s.drop_last();
        lemma_insert_last_first(d, e, j);
        assert(d.insert(j, e).push(s.last()) =~= s.insert(j, e));
    }
    let t = s.insert(j, e);
    assert forall|a: int, b: int| 0 <= a <= b < t.len() implies !starts_before(#[trigger] t[a], #[trigger] t[b]) by {
        if a < j && b > j {
            assert(t[b] == s[b - 1]);
        } else if a == j && b > j {
            assert(t[b] == s[b - 1]);
        } else if a > j {
            assert(t[a] == s[a - 1]);
            assert(t[b] == s[b - 1]);
        }
    }
}

fn starts_before_exec(a: &TextEdit, b: &TextEdit) -> (r: bool)
    ensures
        r == starts_before(*a, *b),
{
    a.start_line < b.start_line || (a.start_line == b.start_line && a.start_character < b.start_character)
}

/// Char index of a protocol position, clamped to the text.
pub(crate) fn position_to_index(rope: &Rope, line: u32, character: u32) -> (r: usize)
    requires
        (line as int) < line_count(rope_chars(*rope)),
    ensures
        r == position_index(rope_chars(*rope), line, character),
{
    let len = rope_len_chars(rope);
    proof {
        lemma_line_start_mono(rope_chars(*rope), line as int);
    }
    let line_char = rope_line_to_char(rope, line as usize);
    let p = line_char.saturating_add(character as usize);
    if p <= len {
        p
    } else {
        len
    }
}

/// Apply a server's text edits (from formatting, say): they are applied
/// from the last start to the first, so that each leaves the positions of
/// those still to come in place; edits with the same start keep their order.
/// The whole display is then due for a refresh.
pub fn apply_text_edits(tv: &mut TextViewState, edits: Vec<TextEdit>)
    ensures
        rope_chars(final(tv).rope) == apply_text_edit_seq(rope_chars(old(tv).rope), sort_last_first(edits@)),
        marked_for_refresh(*final(tv), *old(tv)),
{
    let ghost input = edits@;
    let mut rest = edits;
    let mut sorted: Vec<TextEdit> = Vec::new();
    let ghost mut i: int = 0;
    assert(input.take(0) =~= Seq::<TextEdit>::empty());
    assert(input.skip(0) =~= input);
    while rest.len() > 0
        invariant
            0 <= i <= input.len(),
            rest@ == input.skip(i),
            sorted@ == sort_last_first(input.take(i)),
            sorted_last_first(sorted@),
        decreases rest@.len(),
    {
        let e = rest.remove(0);
        let mut j: usize = sorted.len();
        while j > 0 && starts_before_exec(&sorted[j - 1], &e)
            invariant
                0 <= j <= sorted@.len(),
                sorted_last_first(sorted@),
                forall|k: int| j <= k < sorted@.len() ==> starts_before(sorted@[k], e),
            decreases j,
        {
            j -= 1;
        }
        proof {
            assert forall|k: int| 0 <= k < j implies !starts_before(sorted@[k], e) by {
                assert(!starts_before(sorted@[k], sorted@[j - 1]));
            }
            lemma_insert_last_first(sorted@, e, j as int);
            assert(input.take(i + 1).drop_last() =~= input.take(i));
            assert(input[i] == e);
            assert(input.skip(i + 1) =~= input.skip(i).drop_first());
        }
        sorted.insert(j, e);
        proof {
            i = i + 1;
        }
    }
    assert(input.take(i) =~= input);
    let ghost start = rope_chars(tv.rope);
    let mut k: usize = 0;
    while k < sorted.len()
        invariant
            0 <= k <= sorted@.len(),
            rope_chars(tv.rope) == apply_text_edit_seq(start, sorted@.take(k as int)),
            tv.content_version == old(tv).content_version,
            tv.pending_update == old(tv).pending_update,
            tv.needs_update == old(tv).needs_update,
            tv.dirty_lines == old(tv).dirty_lines,
            tv.previous_line_count == old(tv).previous_line_count,
        decreases sorted@.len() - k,
    {
        let e = &sorted[k];
        let ghost s = rope_chars(tv.rope);
        proof {
            assert(sorted@.take(k + 1).drop_last() =~= sorted@.take(k as int));
        }
        let len = rope_len_chars(&tv.rope);
        let line_count = rope_len_lines(&tv.rope);
        if (e.start_line as usize) < line_count {
            let start_pos = position_to_index(&tv.rope, e.start_line, e.start_character);
            let end_pos = if (e.end_line as usize) < line_count {
                position_to_index(&tv.rope, e.end_line, e.end_character)
            } else {
                len
            };
            if start_pos <= end_pos {
                rope_remove(&mut tv.rope, start_pos, end_pos);
                rope_insert(&mut tv.rope, start_pos, e.new_text.as_str());
                assert(rope_chars(tv.rope) =~= s.take(start_pos as int) + e.new_text@ + s.skip(end_pos as int));
            }
        }
        k += 1;
    }
    assert(sorted@.take(sorted@.len() as int) =~= sorted@);
    mark_for_refresh(tv);
}

/// A position of the protocol: a line and a char in it.
#[derive(Clone, Copy, Debug, PartialEq, Eq, Structural)]
pub struct LspPosition {
    pub line: u32,
    pub character: u32,
}

/// The char index of the char that byte `b` of the UTF-8 form of `s` belongs
/// to; the end of the text for `b` at or past its end.
pub open spec fn char_of_byte(s: Seq<char>, b: int) -> int
    recommends
        0 <= b,
{
    if b >= encode_utf8(s).len() {
        s.len() as int
    } else {
        choose|c: int|
            #![trigger s.take(c)]
            0 <= c < s.len() && encode_utf8(s.take(c)).len() <= b < encode_utf8(s.take(c + 1)).len()
    }
}

/// `Rope::len_bytes`: length of the text's UTF-8 form.
#[verifier::external_body]
fn rope_len_bytes(r: &Rope) -> (n: usize)
    ensures
        n == encode_utf8(rope_chars(*r)).len(),
{
    r.len_bytes()
}

/// `Rope::byte_to_char`: the index of the char that byte `b` belongs to (the
/// end of the text for `b` at the end); ropey panics past the end.
#[verifier::external_body]
fn rope_byte_to_char(r: &Rope, b: usize) -> (c: usize)
    requires
        b <= encode_utf8(rope_chars(*r)).len(),
    ensures
        c == char_of_byte(rope_chars(*r), b as int),
        c <= rope_chars(*r).len(),
{
    r.byte_to_char(b)
}

/// The protocol position of byte `byte_offset` (clamped to the text) of the
/// text's UTF-8 form: the line of its char and the char's place in the line.
pub fn byte_to_lsp_position(rope: &Rope, byte_offset: usize) -> (r: LspPosition)
    ensures
        ({
            let s = rope_chars(*rope);
            let b = if byte_offset <= encode_utf8(s).len() { byte_offset as int } else { encode_utf8(s).len() as int };
            let c = char_of_byte(s, b);
            let l = breaks_before(s, c) as int;
            r == (LspPosition { line: l as u32, character: (c - line_start(s, l)) as u32 })
        }),
{
    let len_bytes = rope_len_bytes(rope);
    let byte_offset = if byte_offset <= len_bytes {
        byte_offset
    } else {
        len_bytes
    };
    let char_offset = rope_byte_to_char(rope, byte_offset);
    proof {
        lemma_line_of(rope_chars(*rope), char_offset as int);
    }
    let line = rope_char_to_line(rope, char_offset);
    let line_start_char = rope_line_to_char(rope, line);
    let character = char_offset - line_start_char;
    LspPosition {
        line: #[verifier::truncate] (line as u32),
        character: #[verifier::truncate] (character as u32),
    }
}

} // verus!
