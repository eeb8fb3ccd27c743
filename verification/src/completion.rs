//! Auto-completion: the items a language server offered, the words of the
//! document, their fuzzy ranking against what was typed, and the scrolling
//! of the completion list.

use vstd::prelude::*;
use ropey::Rope;
use fuzzy_matcher::FuzzyMatcher;
use fuzzy_matcher::skim::SkimMatcherV2;
use crate::text::{rope_char, rope_chars, rope_len_chars, rope_slice_string};
use crate::timer::{fresh_timer, DelayTimer};
use crate::cursor::{is_word_char, word_char};
use vstd::utf8::encode_utf8;
use crate::editor::{word_run_left, word_run_right};

verus! {

/// Number of rows the completion list shows unless told otherwise.
pub const COMPLETION_MAX_VISIBLE_DEFAULT: usize = 10;

/// What of a language server's completion item the editor uses. `kind` is
/// the item kind's number in the protocol.
pub struct CompletionEntry {
    pub label: String,
    pub filter_text: Option<String>,
    pub insert_text: Option<String>,
    pub detail: Option<String>,
    pub kind: Option<i32>,
}

pub open spec fn opt_chars(o: Option<String>) -> Option<Seq<char>> {
    match o {
        Some(s) => Some(s@),
        None => None,
    }
}

impl View for CompletionEntry {
    type V = (Seq<char>, Option<Seq<char>>, Option<Seq<char>>, Option<Seq<char>>, Option<i32>);

    open spec fn view(&self) -> Self::V {
        (self.label@, opt_chars(self.filter_text), opt_chars(self.insert_text), opt_chars(self.detail), self.kind)
    }
}

fn copy_opt_string(o: &Option<String>) -> (r: Option<String>)
    ensures
        opt_chars(r) == opt_chars(*o),
{
    match o {
        Some(s) => Some(s.clone()),
        None => None,
    }
}

impl Clone for CompletionEntry {
    fn clone(&self) -> (r: Self)
        ensures
            r@ == self@,
    {
        CompletionEntry {
            label: self.label.clone(),
            filter_text: copy_opt_string(&self.filter_text),
            insert_text: copy_opt_string(&self.insert_text),
            detail: copy_opt_string(&self.detail),
            kind: self.kind,
        }
    }
}

/// A word of the document offered for completion.
pub struct WordCompletionItem {
    pub word: String,
}

impl Clone for WordCompletionItem {
    fn clone(&self) -> (r: Self)
        ensures
            r.word@ == self.word@,
    {
        WordCompletionItem { word: self.word.clone() }
    }
}

/// An item of the completion list: from the language server or a word of
/// the document.
pub enum UnifiedCompletionItem {
    Lsp(CompletionEntry),
    Word(WordCompletionItem),
}

impl View for UnifiedCompletionItem {
    /// Whether it is a word, and what it holds (a word as its label alone).
    type V = (bool, (Seq<char>, Option<Seq<char>>, Option<Seq<char>>, Option<Seq<char>>, Option<i32>));

    open spec fn view(&self) -> Self::V {
        match self {
            UnifiedCompletionItem::Lsp(e) => (false, e@),
            UnifiedCompletionItem::Word(w) => word_view(w.word@),
        }
    }
}

/// View of a completion item that is the word `w`.
pub open spec fn word_view(w: Seq<char>) -> (bool, (Seq<char>, Option<Seq<char>>, Option<Seq<char>>, Option<Seq<char>>, Option<i32>)) {
    (true, (w, None, None, None, None))
}

/// Icon shown for an item of kind `kind`.
pub open spec fn kind_icon_of(kind: Option<i32>) -> &'static str {
    match kind {
        Some(k) => if k == 3 || k == 2 {
            "ƒ"
        } else if k == 6 {
            "𝑥"
        } else if k == 7 || k == 22 {
            "○"
        } else if k == 8 {
            "◇"
        } else if k == 9 {
            "□"
        } else if k == 10 || k == 5 {
            "▪"
        } else if k == 21 {
            "𝐶"
        } else if k == 13 {
            "∈"
        } else if k == 20 {
            "∋"
        } else if k == 14 {
            "⌘"
        } else if k == 15 {
            "✂"
        } else if k == 25 {
            "𝑇"
        } else {
            "•"
        },
        None => "•",
    }
}

impl UnifiedCompletionItem {
    /// The label shown in the list.
    pub fn label(&self) -> (r: &str)
        ensures
            r@ == self@.1.0,
    {
        match self {
            UnifiedCompletionItem::Lsp(item) => item.label.as_str(),
            UnifiedCompletionItem::Word(item) => item.word.as_str(),
        }
    }

    /// The detail text: the server's, or "word" for a word.
    pub fn detail(&self) -> (r: Option<&str>)
        ensures
            match self {
                UnifiedCompletionItem::Lsp(item) => match item.detail {
                    Some(d) => r matches Some(x) && x@ == d@,
                    None => r is None,
                },
                UnifiedCompletionItem::Word(_) => r matches Some(x) && x@ == "word"@,
            },
    {
        match self {
            UnifiedCompletionItem::Lsp(item) => match &item.detail {
                Some(d) => Some(d.as_str()),
                None => None,
            },
            UnifiedCompletionItem::Word(_) => Some("word"),
        }
    }

    /// The text that accepting the item inserts: the server's insert text,
    /// else the label.
    pub fn insert_text(&self) -> (r: &str)
        ensures
            r@ == insert_chars(self@),
    {
        match self {
            UnifiedCompletionItem::Lsp(item) => match &item.insert_text {
                Some(t) => t.as_str(),
                None => item.label.as_str(),
            },
            UnifiedCompletionItem::Word(item) => item.word.as_str(),
        }
    }

    /// Whether the item is a word of the document.
    pub fn is_word(&self) -> (r: bool)
        ensures
            r == self@.0,
    {
        match self {
            UnifiedCompletionItem::Lsp(_) => false,
            UnifiedCompletionItem::Word(_) => true,
        }
    }

    /// The icon for the item's kind; words have their own.
    pub fn kind_icon(&self) -> (r: &'static str)
        ensures
            r == (match self {
                UnifiedCompletionItem::Lsp(item) => kind_icon_of(item.kind),
                UnifiedCompletionItem::Word(_) => "𝑤",
            }),
    {
        match self {
            UnifiedCompletionItem::Lsp(item) => match item.kind {
                Some(k) => if k == 3 || k == 2 {
                    "ƒ"
                } else if k == 6 {
                    "𝑥"
                } else if k == 7 || k == 22 {
                    "○"
                } else if k == 8 {
                    "◇"
                } else if k == 9 {
                    "□"
                } else if k == 10 || k == 5 {
                    "▪"
                } else if k == 21 {
                    "𝐶"
                } else if k == 13 {
                    "∈"
                } else if k == 20 {
                    "∋"
                } else if k == 14 {
                    "⌘"
                } else if k == 15 {
                    "✂"
                } else if k == 25 {
                    "𝑇"
                } else {
                    "•"
                },
                None => "•",
            },
            UnifiedCompletionItem::Word(_) => "𝑤",
        }
    }
}

/// Text inserted for an item, seen through its view.
pub open spec fn insert_chars(v: (bool, (Seq<char>, Option<Seq<char>>, Option<Seq<char>>, Option<Seq<char>>, Option<i32>))) -> Seq<char> {
    match v.1.2 {
        Some(t) => t,
        None => v.1.0,
    }
}

/// The score `SkimMatcherV2::default()` gives `choice` for `pattern`, or
/// none when the pattern does not match.
pub uninterp spec fn skim_score(choice: Seq<char>, pattern: Seq<char>) -> Option<i64>;

/// `FuzzyMatcher::fuzzy_match` of `SkimMatcherV2::default()`. Its source
/// gives an empty pattern the score 0; other scores are named, not stated.
#[verifier::external_body]
fn fuzzy_score(choice: &str, pattern: &str) -> (r: Option<i64>)
    ensures
        r == skim_score(choice@, pattern@),
        pattern@.len() == 0 ==> r == Some(0i64),
{
    SkimMatcherV2::default().fuzzy_match(choice, pattern)
}

/// A server item's score: its label's, else its filter text's.
pub open spec fn entry_score(e: CompletionEntry, pattern: Seq<char>) -> Option<i64> {
    match skim_score(e.label@, pattern) {
        Some(s) => Some(s),
        None => match e.filter_text {
            Some(f) => skim_score(f@, pattern),
            None => None,
        },
    }
}

/// The indices of the scored entries, with their scores, in order.
pub open spec fn scored_indices(scores: Seq<Option<i64>>) -> Seq<(usize, i64)>
    decreases scores.len(),
{
    if scores.len() == 0 {
        Seq::empty()
    } else {
        let rest = scored_indices(scores.drop_last());
        match scores.last() {
            Some(s) => rest.push(((scores.len() - 1) as usize, s)),
            None => rest,
        }
    }
}

/// Scores never increase along `s`.
pub open spec fn sorted_by_score(s: Seq<(usize, i64)>) -> bool {
    forall|a: int, b: int| 0 <= a <= b < s.len() ==> #[trigger] s[a].1 >= #[trigger] s[b].1
}

/// `x` put into `s`, sorted by decreasing score, after every entry that
/// scores at least as high.
pub open spec fn insert_by_score(s: Seq<(usize, i64)>, x: (usize, i64)) -> Seq<(usize, i64)>
    decreases s.len(),
{
    if s.len() == 0 {
        seq![x]
    } else if s.last().1 >= x.1 {
        s.push(x)
    } else {
        insert_by_score(s.drop_last(), x).push(s.last())
    }
}

/// The stable sort of `s` by decreasing score.
pub open spec fn sort_by_score(s: Seq<(usize, i64)>) -> Seq<(usize, i64)>
    decreases s.len(),
{
    if s.len() == 0 {
        s
    } else {
        insert_by_score(sort_by_score(s.drop_last()), s.last())
    }
}

/// The order in which scored entries are listed: by decreasing score, ties in
/// their given order; unscored entries are left out.
pub open spec fn ranking(scores: Seq<Option<i64>>) -> Seq<usize> {
    sort_by_score(scored_indices(scores)).map_values(|p: (usize, i64)| p.0)
}

pub proof fn lemma_insert_by_score(s: Seq<(usize, i64)>, x: (usize, i64), j: int)
    requires
        sorted_by_score(s),
        0 <= j <= s.len(),
        forall|i: int| 0 <= i < j ==> s[i].1 >= x.1,
        forall|i: int| j <= i < s.len() ==> s[i].1 < x.1,
    ensures
        insert_by_score(s, x) == s.insert(j, x),
        sorted_by_score(s.insert(j, x)),
    decreases s.len(),
{
    if s.len() == 0 {
        assert(s.insert(j, x) =~= seq![x]);
    } else if s.last().1 >= x.1 {
        assert(j == s.len());
        assert(s.insert(j, x) =~= s.push(x));
    } else {
        let d = s.drop_last();
        lemma_insert_by_score(d, x, j);
        assert(d.insert(j, x).push(s.last()) =~= s.insert(j, x));
    }
    let t = s.insert(j, x);
    assert forall|a: int, b: int| 0 <= a <= b < t.len() implies #[trigger] t[a].1 >= #[trigger] t[b].1 by {
        if a < j && b > j {
            assert(t[b] == s[b - 1]);
        } else if a == j && b > j {
            assert(t[b] == s[b - 1]);
        } else if a > j {
            assert(t[a] == s[a - 1]);
            assert(t[b] == s[b - 1]);
        }
    }
}

pub proof fn lemma_scored_indices(scores: Seq<Option<i64>>)
    requires
        scores.len() <= usize::MAX,
    ensures
        forall|k: int| 0 <= k < scored_indices(scores).len() ==> {
            let p = #[trigger] scored_indices(scores)[k];
            0 <= p.0 < scores.len() && scores[p.0 as int] == Some(p.1)
        },
    decreases scores.len(),
{
    if scores.len() > 0 {
        let d = scores.drop_last();
        lemma_scored_indices(d);
        assert forall|k: int| 0 <= k < scored_indices(scores).len() implies {
            let p = #[trigger] scored_indices(scores)[k];
            0 <= p.0 < scores.len() && scores[p.0 as int] == Some(p.1)
        } by {
            if k < scored_indices(d).len() {
                let p = scored_indices(d)[k];
                assert(d[p.0 as int] == scores[p.0 as int]);
            }
        }
    }
}

pub proof fn lemma_insert_by_score_elems(s: Seq<(usize, i64)>, x: (usize, i64))
    ensures
        insert_by_score(s, x).len() == s.len() + 1,
        forall|k: int| 0 <= k < insert_by_score(s, x).len() ==> (#[trigger] insert_by_score(s, x)[k] == x
            || s.contains(insert_by_score(s, x)[k])),
    decreases s.len(),
{
    if s.len() > 0 && s.last().1 < x.1 {
        let d = s.drop_last();
        lemma_insert_by_score_elems(d, x);
        assert forall|k: int| 0 <= k < insert_by_score(s, x).len() implies (#[trigger] insert_by_score(s, x)[k]
            == x || s.contains(insert_by_score(s, x)[k])) by {
            if k < d.len() + 1 {
                let e = insert_by_score(d, x)[k];
                if e != x {
                    let w = choose|w: int| 0 <= w < d.len() && d[w] == e;
                    assert(s[w] == e);
                }
            } else {
                assert(s[s.len() - 1] == s.last());
            }
        }
    } else if s.len() > 0 {
        assert forall|k: int| 0 <= k < insert_by_score(s, x).len() implies (#[trigger] insert_by_score(s, x)[k]
            == x || s.contains(insert_by_score(s, x)[k])) by {
            if k < s.len() {
                assert(s[k] == insert_by_score(s, x)[k]);
            }
        }
    }
}

/// Every entry of the sort comes from the sorted sequence.
pub proof fn lemma_sort_by_score_elems(s: Seq<(usize, i64)>)
    ensures
        sort_by_score(s).len() == s.len(),
        forall|k: int| 0 <= k < sort_by_score(s).len() ==> s.contains(#[trigger] sort_by_score(s)[k]),
    decreases s.len(),
{
    if s.len() > 0 {
        let d = s.drop_last();
        lemma_sort_by_score_elems(d);
        lemma_insert_by_score_elems(sort_by_score(d), s.last());
        assert forall|k: int| 0 <= k < sort_by_score(s).len() implies s.contains(#[trigger] sort_by_score(s)[k]) by {
            let e = sort_by_score(s)[k];
            if e == s.last() {
                assert(s[s.len() - 1] == e);
            } else {
                let w = choose|w: int| 0 <= w < sort_by_score(d).len() && sort_by_score(d)[w] == e;
                let v = choose|v: int| 0 <= v < d.len() && d[v] == sort_by_score(d)[w];
                assert(s[v] == e);
            }
        }
    }
}

/// Every index of a ranking is that of a scored entry.
pub proof fn lemma_ranking_indices(scores: Seq<Option<i64>>)
    requires
        scores.len() <= usize::MAX,
    ensures
        forall|k: int| 0 <= k < ranking(scores).len() ==> {
            let i = #[trigger] ranking(scores)[k];
            0 <= i < scores.len() && scores[i as int] is Some
        },
{
    lemma_scored_indices(scores);
    lemma_sort_by_score_elems(scored_indices(scores));
    assert forall|k: int| 0 <= k < ranking(scores).len() implies {
        let i = #[trigger] ranking(scores)[k];
        0 <= i < scores.len() && scores[i as int] is Some
    } by {
        let p = sort_by_score(scored_indices(scores))[k];
        let w = choose|w: int| 0 <= w < scored_indices(scores).len() && scored_indices(scores)[w] == p;
        assert(scored_indices(scores)[w] == p);
    }
}

/// Inserting by score keeps `s` sorted, and keeps every entry of `s` and `x`.
pub proof fn lemma_insert_by_score_sorted(s: Seq<(usize, i64)>, x: (usize, i64))
    requires
        sorted_by_score(s),
    ensures
        sorted_by_score(insert_by_score(s, x)),
        insert_by_score(s, x).contains(x),
        forall|k: int| 0 <= k < s.len() ==> insert_by_score(s, x).contains(#[trigger] s[k]),
    decreases s.len(),
{
    lemma_insert_by_score_elems(s, x);
    let t = insert_by_score(s, x);
    if s.len() == 0 {
        assert(t[0] == x);
    } else if s.last().1 >= x.1 {
        assert(t[s.len() as int] == x);
        assert forall|k: int| 0 <= k < s.len() implies t.contains(#[trigger] s[k]) by {
            assert(t[k] == s[k]);
        }
    } else {
        let d = s.drop_last();
        assert(sorted_by_score(d));
        lemma_insert_by_score_sorted(d, x);
        lemma_insert_by_score_elems(d, x);
        let u = insert_by_score(d, x);
        assert(t == u.push(s.last()));
        assert forall|a: int, b: int| 0 <= a <= b < t.len() implies #[trigger] t[a].1 >= #[trigger] t[b].1 by {
            if b == t.len() - 1 && a < b {
                let e = u[a];
                assert(t[a] == e);
                if e != x {
                    assert(d.contains(insert_by_score(d, x)[a]));
                    let w = choose|w: int| 0 <= w < d.len() && d[w] == e;
                    assert(s[w] == e);
                    assert(s[w].1 >= s[s.len() - 1].1);
                }
            } else if b < t.len() - 1 {
                assert(t[a] == u[a] && t[b] == u[b]);
            }
        }
        let wx = choose|w: int| 0 <= w < u.len() && u[w] == x;
        assert(t[wx] == x);
        assert forall|k: int| 0 <= k < s.len() implies t.contains(#[trigger] s[k]) by {
            if k == s.len() - 1 {
                assert(t[t.len() - 1] == s[k]);
            } else {
                assert(d[k] == s[k]);
                let w = choose|w: int| 0 <= w < u.len() && u[w] == d[k];
                assert(t[w] == s[k]);
            }
        }
    }
}

/// The sort by score is sorted and keeps every entry.
pub proof fn lemma_sort_by_score_sorted(s: Seq<(usize, i64)>)
    ensures
        sorted_by_score(sort_by_score(s)),
        forall|k: int| 0 <= k < s.len() ==> sort_by_score(s).contains(#[trigger] s[k]),
    decreases s.len(),
{
    if s.len() > 0 {
        let d = s.drop_last();
        lemma_sort_by_score_sorted(d);
        lemma_insert_by_score_sorted(sort_by_score(d), s.last());
        let u = sort_by_score(d);
        assert forall|k: int| 0 <= k < s.len() implies sort_by_score(s).contains(#[trigger] s[k]) by {
            if k < s.len() - 1 {
                assert(d[k] == s[k]);
                let w = choose|w: int| 0 <= w < u.len() && u[w] == d[k];
                assert(u[w] == s[k]);
            }
        }
    }
}

/// Every scored entry is listed among the scored indices.
pub proof fn lemma_scored_indices_complete(scores: Seq<Option<i64>>, i: int)
    requires
        scores.len() <= usize::MAX,
        0 <= i < scores.len(),
        scores[i] is Some,
    ensures
        scored_indices(scores).contains((i as usize, scores[i]->0)),
    decreases scores.len(),
{
    let d = scores.drop_last();
    let n = scored_indices(scores).len();
    if i == scores.len() - 1 {
        assert(scored_indices(scores)[n - 1] == (i as usize, scores[i]->0));
    } else {
        lemma_scored_indices_complete(d, i);
        assert(d[i] == scores[i]);
        let w = choose|w: int| 0 <= w < scored_indices(d).len() && scored_indices(d)[w] == (i as usize, scores[i]->0);
        assert(scored_indices(scores)[w] == scored_indices(d)[w]);
    }
}

/// A ranking lists exactly the entries that scored, each with a score no
/// lower than those listed after it.
pub proof fn law_ranking_best_first(scores: Seq<Option<i64>>)
    requires
        scores.len() <= usize::MAX,
    ensures
        forall|k: int| 0 <= k < ranking(scores).len() ==> {
            let i = #[trigger] ranking(scores)[k];
            0 <= i < scores.len() && scores[i as int] is Some
        },
        forall|i: int| 0 <= i < scores.len() && (#[trigger] scores[i]) is Some ==> ranking(scores).contains(
            i as usize,
        ),
        forall|a: int, b: int|
            0 <= a <= b < ranking(scores).len() ==> scores[#[trigger] ranking(scores)[a] as int]->0 >= scores[
            #[trigger] ranking(scores)[b] as int]->0,
{
    let si = scored_indices(scores);
    let sorted = sort_by_score(si);
    lemma_ranking_indices(scores);
    lemma_scored_indices(scores);
    lemma_sort_by_score_elems(si);
    lemma_sort_by_score_sorted(si);
    assert forall|i: int| 0 <= i < scores.len() && (#[trigger] scores[i]) is Some implies ranking(scores).contains(
        i as usize,
    ) by {
        lemma_scored_indices_complete(scores, i);
        let w = choose|w: int| 0 <= w < si.len() && si[w] == (i as usize, scores[i]->0);
        assert(sorted.contains(si[w]));
        let v = choose|v: int| 0 <= v < sorted.len() && sorted[v] == si[w];
        assert(ranking(scores)[v] == i as usize);
    }
    assert forall|a: int, b: int| 0 <= a <= b < ranking(scores).len() implies scores[#[trigger] ranking(
        scores,
    )[a] as int]->0 >= scores[#[trigger] ranking(scores)[b] as int]->0 by {
        let pa = sorted[a];
        let pb = sorted[b];
        assert(pa.1 >= pb.1);
        let wa = choose|w: int| 0 <= w < si.len() && si[w] == pa;
        let wb = choose|w: int| 0 <= w < si.len() && si[w] == pb;
        assert(si[wa] == pa);
        assert(si[wb] == pb);
    }
}

/// The order in which to list entries given their scores (none for an
/// entry that did not match): by decreasing score, ties in their given order.
pub fn rank_by_score(scores: &[Option<i64>]) -> (r: Vec<usize>)
    ensures
        r@ == ranking(scores@),
{
    let mut scored: Vec<(usize, i64)> = Vec::new();
    let mut i: usize = 0;
    assert(scores@.take(0) =~= Seq::<Option<i64>>::empty());
    while i < scores.len()
        invariant
            0 <= i <= scores@.len(),
            scored@ == scored_indices(scores@.take(i as int)),
        decreases scores@.len() - i,
    {
        proof {
            assert(scores@.take(i + 1).drop_last() =~= scores@.take(i as int));
        }
        match scores[i] {
            Some(s) => {
                scored.push((i, s));
            },
            None => {},
        }
        i += 1;
    }
    assert(scores@.take(scores@.len() as int) =~= scores@);
    let mut sorted: Vec<(usize, i64)> = Vec::new();
    let mut k: usize = 0;
    assert(scored@.take(0) =~= Seq::<(usize, i64)>::empty());
    while k < scored.len()
        invariant
            0 <= k <= scored@.len(),
            sorted@ == sort_by_score(scored@.take(k as int)),
            sorted_by_score(sorted@),
        decreases scored@.len() - k,
    {
        let x = scored[k];
        let mut j: usize = sorted.len();
        while j > 0 && sorted[j - 1].1 < x.1
            invariant
                0 <= j <= sorted@.len(),
                sorted_by_score(sorted@),
                forall|m: int| j <= m < sorted@.len() ==> sorted@[m].1 < x.1,
            decreases j,
        {
            j -= 1;
        }
        proof {
            assert forall|m: int| 0 <= m < j implies sorted@[m].1 >= x.1 by {
                assert(sorted@[m].1 >= sorted@[j - 1].1);
            }
            lemma_insert_by_score(sorted@, x, j as int);
            assert(scored@.take(k + 1).drop_last() =~= scored@.take(k as int));
        }
        sorted.insert(j, x);
        k += 1;
    }
    assert(scored@.take(scored@.len() as int) =~= scored@);
    let mut r: Vec<usize> = Vec::new();
    let mut m: usize = 0;
    while m < sorted.len()
        invariant
            0 <= m <= sorted@.len(),
            r@ == sorted@.take(m as int).map_values(|p: (usize, i64)| p.0),
        decreases sorted@.len() - m,
    {
        r.push(sorted[m].0);
        m += 1;
        assert(r@ =~= sorted@.take(m as int).map_values(|p: (usize, i64)| p.0));
    }
    assert(sorted@.take(m as int) =~= sorted@);
    r
}

/// State of the completion popup.
pub struct CompletionState {
    /// Whether the popup is shown.
    pub visible: bool,
    /// The server's items, unfiltered.
    pub items: Vec<CompletionEntry>,
    /// Words of the document, offered besides the server's items.
    pub word_items: Vec<WordCompletionItem>,
    /// Selected row of the filtered list.
    pub selected_index: usize,
    /// First row shown.
    pub scroll_offset: usize,
    /// Char index where completion started.
    pub start_char_index: usize,
    /// What was typed since completion started.
    pub filter: String,
    /// Whether the server's list was incomplete.
    pub is_incomplete: bool,
}

/// Scores of the server's items for `filter`: all 0 for an empty filter.
pub open spec fn item_scores(items: Seq<CompletionEntry>, filter: Seq<char>) -> Seq<Option<i64>> {
    Seq::new(items.len(), |i: int| if filter.len() == 0 { Some(0i64) } else { entry_score(items[i], filter) })
}

/// `w` is the label of one of the server's items.
pub open spec fn is_item_label(items: Seq<CompletionEntry>, w: Seq<char>) -> bool {
    exists|i: int| 0 <= i < items.len() && (#[trigger] items[i]).label@ == w
}

/// Scores of the document's words for `filter`: none for an empty filter or
/// for a word that is also a server item's label.
pub open spec fn word_scores(items: Seq<CompletionEntry>, words: Seq<WordCompletionItem>, filter: Seq<char>) -> Seq<Option<i64>> {
    Seq::new(
        words.len(),
        |i: int|
            if filter.len() == 0 || is_item_label(items, words[i].word@) {
                None
            } else {
                skim_score(words[i].word@, filter)
            },
    )
}

impl CompletionState {
    /// Order of the server's items in the filtered list.
    pub open spec fn item_order(&self) -> Seq<usize> {
        ranking(item_scores(self.items@, self.filter@))
    }

    /// Order of the document's words in the filtered list, after the items.
    pub open spec fn word_order(&self) -> Seq<usize> {
        ranking(word_scores(self.items@, self.word_items@, self.filter@))
    }

    /// Length of the filtered list.
    pub open spec fn filtered_len(&self) -> nat {
        self.item_order().len() + self.word_order().len()
    }

    /// A hidden popup with nothing in it.
    pub fn new() -> (r: Self)
        ensures
            !r.visible,
            r.items@.len() == 0,
            r.word_items@.len() == 0,
            r.selected_index == 0,
            r.scroll_offset == 0,
            r.start_char_index == 0,
            r.filter@.len() == 0,
            !r.is_incomplete,
    {
        CompletionState {
            visible: false,
            items: Vec::new(),
            word_items: Vec::new(),
            selected_index: 0,
            scroll_offset: 0,
            start_char_index: 0,
            filter: String::new(),
            is_incomplete: false,
        }
    }

    /// The items matching the filter: the server's items by decreasing fuzzy
    /// score, then the document's words that are not server labels, by
    /// decreasing score; ties keep their order. With an empty filter, every
    /// server item in order and no word.
    pub fn filtered_items(&self) -> (r: Vec<UnifiedCompletionItem>)
        ensures
            r@.len() == self.filtered_len(),
            forall|k: int|
                0 <= k < self.item_order().len() ==> (#[trigger] r@[k])@ == (
                    false,
                    self.items@[self.item_order()[k] as int]@,
                ),
            forall|k: int|
                0 <= k < self.word_order().len() ==> (#[trigger] r@[self.item_order().len() + k])@ == word_view(
                    self.word_items@[self.word_order()[k] as int].word@,
                ),
    {
        let empty = self.filter.unicode_len() == 0;
        let mut iscores: Vec<Option<i64>> = Vec::new();
        let mut i: usize = 0;
        while i < self.items.len()
            invariant
                0 <= i <= self.items@.len(),
                empty == (self.filter@.len() == 0),
                iscores@ == item_scores(self.items@, self.filter@).take(i as int),
            decreases self.items@.len() - i,
        {
            let score = if empty {
                Some(0i64)
            } else {
                let e = &self.items[i];
                match fuzzy_score(e.label.as_str(), self.filter.as_str()) {
                    Some(s) => Some(s),
                    None => match &e.filter_text {
                        Some(f) => fuzzy_score(f.as_str(), self.filter.as_str()),
                        None => None,
                    },
                }
            };
            iscores.push(score);
            i += 1;
            assert(iscores@ =~= item_scores(self.items@, self.filter@).take(i as int));
        }
        assert(item_scores(self.items@, self.filter@).take(i as int) =~= item_scores(self.items@, self.filter@));
        let mut wscores: Vec<Option<i64>> = Vec::new();
        let mut w: usize = 0;
        while w < self.word_items.len()
            invariant
                0 <= w <= self.word_items@.len(),
                empty == (self.filter@.len() == 0),
                wscores@ == word_scores(self.items@, self.word_items@, self.filter@).take(w as int),
            decreases self.word_items@.len() - w,
        {
            let word = &self.word_items[w].word;
            let score = if empty {
                None
            } else {
                let mut is_label = false;
                let mut j: usize = 0;
                while j < self.items.len()
                    invariant
                        0 <= j <= self.items@.len(),
                        is_label == exists|m: int| 0 <= m < j && (#[trigger] self.items@[m]).label@ == word@,
                    decreases self.items@.len() - j,
                {
                    if self.items[j].label == *word {
                        is_label = true;
                    }
                    j += 1;
                }
                if is_label {
                    None
                } else {
                    fuzzy_score(word.as_str(), self.filter.as_str())
                }
            };
            wscores.push(score);
            w += 1;
            assert(wscores@ =~= word_scores(self.items@, self.word_items@, self.filter@).take(w as int));
        }
        assert(word_scores(self.items@, self.word_items@, self.filter@).take(w as int) =~= word_scores(
            self.items@,
            self.word_items@,
            self.filter@,
        ));
        let item_order = rank_by_score(iscores.as_slice());
        let word_order = rank_by_score(wscores.as_slice());
        proof {
            lemma_ranking_indices(iscores@);
            lemma_ranking_indices(wscores@);
        }
        let mut r: Vec<UnifiedCompletionItem> = Vec::new();
        let mut k: usize = 0;
        while k < item_order.len()
            invariant
                item_order@ == self.item_order(),
                forall|m: int| 0 <= m < item_order@.len() ==> #[trigger] item_order@[m] < self.items@.len(),
                0 <= k <= item_order@.len(),
                r@.len() == k,
                forall|m: int| 0 <= m < k ==> (#[trigger] r@[m])@ == (false, self.items@[item_order@[m] as int]@),
            decreases item_order@.len() - k,
        {
            assert(item_order@[k as int] < self.items@.len());
            let e = self.items[item_order[k]].clone();
            r.push(UnifiedCompletionItem::Lsp(e));
            k += 1;
        }
        let mut k: usize = 0;
        let n = r.len();
        while k < word_order.len()
            invariant
                word_order@ == self.word_order(),
                forall|m: int| 0 <= m < word_order@.len() ==> #[trigger] word_order@[m] < self.word_items@.len(),
                n == self.item_order().len(),
                0 <= k <= word_order@.len(),
                r@.len() == n + k,
                forall|m: int| 0 <= m < n ==> (#[trigger] r@[m])@ == (false, self.items@[self.item_order()[m] as int]@),
                forall|m: int| 0 <= m < k ==> (#[trigger] r@[n + m])@ == word_view(
                    self.word_items@[word_order@[m] as int].word@,
                ),
            decreases word_order@.len() - k,
        {
            assert(word_order@[k as int] < self.word_items@.len());
            let wi = self.word_items[word_order[k]].clone();
            r.push(UnifiedCompletionItem::Word(wi));
            k += 1;
        }
        r
    }

    /// Keep the selected row within the filtered list and scrolled into view
    /// with the default number of visible rows.
    pub fn ensure_selected_visible(&mut self)
        ensures
            final(self).items == old(self).items,
            final(self).word_items == old(self).word_items,
            final(self).filter == old(self).filter,
            final(self).visible == old(self).visible,
            final(self).start_char_index == old(self).start_char_index,
            final(self).is_incomplete == old(self).is_incomplete,
            (final(self).selected_index, final(self).scroll_offset) == scrolled_into_view(
                old(self).selected_index,
                old(self).scroll_offset,
                COMPLETION_MAX_VISIBLE_DEFAULT,
                old(self).filtered_len(),
            ),
    {
        self.ensure_selected_visible_with_max(COMPLETION_MAX_VISIBLE_DEFAULT);
    }

    /// Keep the selected row within the filtered list and scrolled into view
    /// when `max_visible` rows show.
    pub fn ensure_selected_visible_with_max(&mut self, max_visible: usize)
        ensures
            final(self).items == old(self).items,
            final(self).word_items == old(self).word_items,
            final(self).filter == old(self).filter,
            final(self).visible == old(self).visible,
            final(self).start_char_index == old(self).start_char_index,
            final(self).is_incomplete == old(self).is_incomplete,
            (final(self).selected_index, final(self).scroll_offset) == scrolled_into_view(
                old(self).selected_index,
                old(self).scroll_offset,
                max_visible,
                old(self).filtered_len(),
            ),
    {
        let filtered_count = self.filtered_items().len();
        if filtered_count == 0 {
            self.scroll_offset = 0;
            return;
        }
        let last = filtered_count - 1;
        if self.selected_index > last {
            self.selected_index = last;
        }
        if self.selected_index < self.scroll_offset {
            self.scroll_offset = self.selected_index;
        } else if self.selected_index - self.scroll_offset >= max_visible {
            self.scroll_offset = self.selected_index - max_visible + 1;
        }
        let max_scroll = filtered_count.saturating_sub(max_visible);
        if self.scroll_offset > max_scroll {
            self.scroll_offset = max_scroll;
        }
    }

    /// Hide the popup and forget its items, words and filter.
    pub fn reset(&mut self)
        ensures
            !final(self).visible,
            final(self).items@.len() == 0,
            final(self).word_items@.len() == 0,
            final(self).selected_index == 0,
            final(self).scroll_offset == 0,
            final(self).filter@.len() == 0,
            !final(self).is_incomplete,
            final(self).start_char_index == old(self).start_char_index,
    {
        self.visible = false;
        self.items.clear();
        self.word_items.clear();
        self.selected_index = 0;
        self.scroll_offset = 0;
        self.filter = String::new();
        self.is_incomplete = false;
    }
}

/// Selected row and scroll offset once the selection is clamped to `n` rows
/// and scrolled into a window of `max_visible` rows.
pub open spec fn scrolled_into_view(selected: usize, offset: usize, max_visible: usize, n: nat) -> (usize, usize) {
    if n == 0 {
        (selected, 0)
    } else {
        let sel = if selected > n - 1 { (n - 1) as usize } else { selected };
        let off = if sel < offset {
            sel
        } else if sel - offset >= max_visible {
            (sel - max_visible + 1) as usize
        } else {
            offset
        };
        let max_scroll = if n >= max_visible { n - max_visible } else { 0 };
        (sel, if off > max_scroll { max_scroll as usize } else { off })
    }
}

/// The word around `p`: the run of word chars reaching `p` from either
/// side; none at the start of the text, past its end, or between two
/// non-word chars.
pub open spec fn word_around(s: Seq<char>, p: int) -> Option<Seq<char>> {
    if p == 0 || p > s.len() {
        None
    } else if word_run_left(s, p) < word_run_right(s, p) {
        Some(s.subrange(word_run_left(s, p), word_run_right(s, p)))
    } else {
        None
    }
}

/// The word around `char_pos`.
fn get_word_at_position(rope: &Rope, char_pos: usize) -> (r: Option<String>)
    ensures
        opt_chars(r) == word_around(rope_chars(*rope), char_pos as int),
{
    let ghost s = rope_chars(*rope);
    let len = rope_len_chars(rope);
    if char_pos == 0 || char_pos > len {
        return None;
    }
    let mut start = char_pos;
    while start > 0
        invariant
            0 <= start <= char_pos <= len == s.len(),
            s == rope_chars(*rope),
            word_run_left(s, start as int) == word_run_left(s, char_pos as int),
        ensures
            start == word_run_left(s, char_pos as int),
        decreases start,
    {
        if word_char(rope_char(rope, start - 1)) {
            start -= 1;
        } else {
            break;
        }
    }
    let mut end = char_pos;
    while end < len
        invariant
            char_pos <= end <= len == s.len(),
            s == rope_chars(*rope),
            word_run_right(s, end as int) == word_run_right(s, char_pos as int),
        ensures
            end == word_run_right(s, char_pos as int),
        decreases len - end,
    {
        if word_char(rope_char(rope, end)) {
            end += 1;
        } else {
            break;
        }
    }
    if start < end {
        Some(rope_slice_string(rope, start, end))
    } else {
        None
    }
}

/// The UTF-8 encoding of `w` takes at least two bytes.
pub open spec fn utf8_at_least_two(w: Seq<char>) -> bool {
    w.len() >= 2 || (w.len() == 1 && (w[0] as u32) >= 0x80)
}

/// `acc` with the word `w` added when its UTF-8 form takes at least two
/// bytes, it is not the word `cw` at the cursor, and it is not there yet.
pub open spec fn accept_word(acc: Seq<Seq<char>>, w: Seq<char>, cw: Option<Seq<char>>) -> Seq<Seq<char>> {
    if utf8_at_least_two(w) && cw != Some(w) && !acc.contains(w) {
        acc.push(w)
    } else {
        acc
    }
}

/// The words collected scanning `s` from `i` on, with `acc` collected so
/// far and a word under way from `start`: each maximal run of word chars is
/// offered to `accept_word` when it ends.
pub open spec fn collect_words(s: Seq<char>, i: int, start: Option<int>, acc: Seq<Seq<char>>, cw: Option<Seq<char>>) -> Seq<Seq<char>>
    decreases s.len() - i,
{
    if i >= s.len() {
        match start {
            Some(b) => accept_word(acc, s.subrange(b, s.len() as int), cw),
            None => acc,
        }
    } else if is_word_char(s[i]) {
        collect_words(s, i + 1, if start is Some { start } else { Some(i) }, acc, cw)
    } else {
        match start {
            Some(b) => collect_words(s, i + 1, None, accept_word(acc, s.subrange(b, i), cw), cw),
            None => collect_words(s, i + 1, None, acc, cw),
        }
    }
}

/// The distinct words of the document, in order of first appearance, that
/// completion offers when the cursor is at `p`.
pub open spec fn document_words(s: Seq<char>, p: int) -> Seq<Seq<char>> {
    collect_words(s, 0, None, Seq::empty(), word_around(s, p))
}

/// `s[b..e]` is a maximal run of word chars: all word chars, with no word
/// char just before or just after it.
pub open spec fn is_word_run(s: Seq<char>, b: int, e: int) -> bool {
    &&& 0 <= b < e <= s.len()
    &&& forall|k: int| b <= k < e ==> is_word_char(#[trigger] s[k])
    &&& b == 0 || !is_word_char(s[b - 1])
    &&& e == s.len() || !is_word_char(s[e])
}

proof fn lemma_accept_keeps(acc: Seq<Seq<char>>, w: Seq<char>, cw: Option<Seq<char>>, x: Seq<char>)
    requires
        acc.contains(x),
    ensures
        accept_word(acc, w, cw).contains(x),
{
    if utf8_at_least_two(w) && cw != Some(w) && !acc.contains(w) {
        let k = choose|k: int| 0 <= k < acc.len() && acc[k] == x;
        assert(acc.push(w)[k] == x);
    }
}

proof fn lemma_accept_takes(acc: Seq<Seq<char>>, w: Seq<char>, cw: Option<Seq<char>>)
    requires
        utf8_at_least_two(w),
        cw != Some(w),
    ensures
        accept_word(acc, w, cw).contains(w),
{
    if !acc.contains(w) {
        assert(acc.push(w)[acc.len() as int] == w);
    }
}

/// The scan keeps every word already collected, and collects the run
/// `s[b..e]` once it reaches its end.
proof fn lemma_collect_finds_run(
    s: Seq<char>,
    i: int,
    start: Option<int>,
    acc: Seq<Seq<char>>,
    cw: Option<Seq<char>>,
    b: int,
    e: int,
)
    requires
        0 <= i <= s.len(),
        start matches Some(b0) ==> 0 <= b0 < i && (forall|k: int| b0 <= k < i ==> is_word_char(#[trigger] s[k])) && (
        b0 == 0 || !is_word_char(s[b0 - 1])),
        start is None ==> i == 0 || !is_word_char(s[i - 1]),
        is_word_run(s, b, e),
        utf8_at_least_two(s.subrange(b, e)),
        cw != Some(s.subrange(b, e)),
        i <= e || acc.contains(s.subrange(b, e)),
    ensures
        collect_words(s, i, start, acc, cw).contains(s.subrange(b, e)),
    decreases s.len() - i,
{
    let w = s.subrange(b, e);
    if b < i && i <= e {
        // The run is under way, and the scan's current word is this run.
        assert(is_word_char(s[i - 1]));
        let b0 = start->0;
        if b0 < b {
            assert(is_word_char(s[b - 1]));
        }
        if b0 > b {
            assert(is_word_char(s[b0 - 1]));
        }
        assert(b0 == b);
    }
    if i >= s.len() {
        if i <= e {
            assert(b < i);
            lemma_accept_takes(acc, w, cw);
        } else {
            match start {
                Some(b0) => lemma_accept_keeps(acc, s.subrange(b0, s.len() as int), cw, w),
                None => {},
            }
        }
    } else if is_word_char(s[i]) {
        lemma_collect_finds_run(s, i + 1, if start is Some { start } else { Some(i) }, acc, cw, b, e);
    } else {
        match start {
            Some(b0) => {
                let acc2 = accept_word(acc, s.subrange(b0, i), cw);
                if i == e {
                    lemma_accept_takes(acc, w, cw);
                } else if acc.contains(w) {
                    lemma_accept_keeps(acc, s.subrange(b0, i), cw, w);
                }
                lemma_collect_finds_run(s, i + 1, None, acc2, cw, b, e);
            },
            None => {
                lemma_collect_finds_run(s, i + 1, None, acc, cw, b, e);
            },
        }
    }
}

proof fn lemma_word_run_left_stop(s: Seq<char>, p: int)
    requires
        0 <= p <= s.len(),
    ensures
        0 <= word_run_left(s, p) <= p,
        forall|k: int| word_run_left(s, p) <= k < p ==> is_word_char(#[trigger] s[k]),
        word_run_left(s, p) == 0 || !is_word_char(s[word_run_left(s, p) - 1]),
    decreases p,
{
    if 0 < p && is_word_char(s[p - 1]) {
        lemma_word_run_left_stop(s, p - 1);
    }
}

proof fn lemma_word_run_right_stop(s: Seq<char>, p: int)
    requires
        0 <= p <= s.len(),
    ensures
        p <= word_run_right(s, p) <= s.len(),
        forall|k: int| p <= k < word_run_right(s, p) ==> is_word_char(#[trigger] s[k]),
        word_run_right(s, p) == s.len() || !is_word_char(s[word_run_right(s, p)]),
    decreases s.len() - p,
{
    if p < s.len() && is_word_char(s[p]) {
        lemma_word_run_right_stop(s, p + 1);
    }
}

/// The word at the cursor is the maximal run of word chars that the cursor
/// touches (it stands inside it or at either end); there is none at the
/// start of the text, past its end, or between two chars that are not word
/// chars.
pub proof fn law_word_at_cursor(s: Seq<char>, p: int, w: Seq<char>)
    ensures
        (p <= 0 || p > s.len()) ==> word_around(s, p) is None,
        0 < p <= s.len() ==> (word_around(s, p) == Some(w) <==> exists|b: int, e: int|
            #[trigger] is_word_run(s, b, e) && b <= p <= e && s.subrange(b, e) == w),
{
    if 0 < p <= s.len() {
        lemma_word_run_left_stop(s, p);
        lemma_word_run_right_stop(s, p);
        let l = word_run_left(s, p);
        let r = word_run_right(s, p);
        if l < r {
            assert(forall|k: int| l <= k < r ==> is_word_char(#[trigger] s[k]));
            assert(is_word_run(s, l, r));
        }
        if exists|b: int, e: int| #[trigger] is_word_run(s, b, e) && b <= p <= e && s.subrange(b, e) == w {
            let (b, e) = choose|b: int, e: int| #[trigger] is_word_run(s, b, e) && b <= p <= e && s.subrange(b, e) == w;
            assert(b == l) by {
                if b < l {
                    assert(is_word_char(s[l - 1]));
                }
                if b > l {
                    assert(is_word_char(s[b - 1]));
                }
            }
            assert(e == r) by {
                if e < r {
                    assert(is_word_char(s[e]));
                }
                if e > r {
                    assert(is_word_char(s[r]));
                }
            }
        }
    }
}

proof fn lemma_encode_len_at_least(w: Seq<char>)
    ensures
        encode_utf8(w).len() >= w.len(),
    decreases w.len(),
{
    if w.len() > 0 {
        lemma_encode_len_at_least(w.drop_first());
    }
}

/// A word's UTF-8 form takes at least two bytes exactly when it has at
/// least two chars or one char outside ASCII.
proof fn lemma_two_utf8_bytes(w: Seq<char>)
    ensures
        utf8_at_least_two(w) <==> encode_utf8(w).len() >= 2,
{
    lemma_encode_len_at_least(w);
    if w.len() == 1 {
        lemma_encode_len_at_least(w.drop_first());
        assert(w.drop_first().len() == 0);
        assert(encode_utf8(w.drop_first()) =~= Seq::<u8>::empty());
    }
}

/// `w` is a word completion may offer: a maximal run of word chars of `s`
/// whose UTF-8 form takes at least two bytes, other than the word `cw` at
/// the cursor.
pub open spec fn offerable(s: Seq<char>, w: Seq<char>, cw: Option<Seq<char>>) -> bool {
    &&& exists|b: int, e: int| #[trigger] is_word_run(s, b, e) && s.subrange(b, e) == w
    &&& encode_utf8(w).len() >= 2
    &&& cw != Some(w)
}

/// Every word collected is offerable, and none comes twice.
pub open spec fn words_sound(s: Seq<char>, acc: Seq<Seq<char>>, cw: Option<Seq<char>>) -> bool {
    &&& forall|k: int| 0 <= k < acc.len() ==> offerable(s, #[trigger] acc[k], cw)
    &&& forall|k: int, m: int| 0 <= k < m < acc.len() ==> #[trigger] acc[k] != #[trigger] acc[m]
}

proof fn lemma_accept_sound(s: Seq<char>, acc: Seq<Seq<char>>, b: int, e: int, cw: Option<Seq<char>>)
    requires
        words_sound(s, acc, cw),
        is_word_run(s, b, e),
    ensures
        words_sound(s, accept_word(acc, s.subrange(b, e), cw), cw),
{
    let w = s.subrange(b, e);
    lemma_two_utf8_bytes(w);
    if utf8_at_least_two(w) && cw != Some(w) && !acc.contains(w) {
        let n = acc.push(w);
        assert forall|k: int| 0 <= k < n.len() implies offerable(s, #[trigger] n[k], cw) by {
            if k == acc.len() {
                assert(n[k] == w);
                assert(is_word_run(s, b, e) && s.subrange(b, e) == w);
            } else {
                assert(n[k] == acc[k]);
            }
        }
        assert forall|k: int, m: int| 0 <= k < m < n.len() implies #[trigger] n[k] != #[trigger] n[m] by {
            if m == acc.len() {
                assert(n[k] == acc[k]);
                assert(n[m] == w);
            } else {
                assert(n[k] == acc[k] && n[m] == acc[m]);
            }
        }
    }
}

proof fn lemma_collect_sound(s: Seq<char>, i: int, start: Option<int>, acc: Seq<Seq<char>>, cw: Option<Seq<char>>)
    requires
        0 <= i <= s.len(),
        start matches Some(b0) ==> 0 <= b0 < i && (forall|k: int| b0 <= k < i ==> is_word_char(#[trigger] s[k])) && (
        b0 == 0 || !is_word_char(s[b0 - 1])),
        start is None ==> i == 0 || !is_word_char(s[i - 1]),
        words_sound(s, acc, cw),
    ensures
        words_sound(s, collect_words(s, i, start, acc, cw), cw),
    decreases s.len() - i,
{
    if i >= s.len() {
        match start {
            Some(b0) => lemma_accept_sound(s, acc, b0, s.len() as int, cw),
            None => {},
        }
    } else if is_word_char(s[i]) {
        lemma_collect_sound(s, i + 1, if start is Some { start } else { Some(i) }, acc, cw);
    } else {
        match start {
            Some(b0) => {
                lemma_accept_sound(s, acc, b0, i, cw);
                lemma_collect_sound(s, i + 1, None, accept_word(acc, s.subrange(b0, i), cw), cw);
            },
            None => lemma_collect_sound(s, i + 1, None, acc, cw),
        }
    }
}

/// Word completion offers only words of the document: each word collected
/// is a maximal run of word chars of the text whose UTF-8 form takes at
/// least two bytes, other than the word at the cursor, and no word is
/// collected twice.
pub proof fn law_only_words_offered(s: Seq<char>, p: int)
    ensures
        words_sound(s, document_words(s, p), word_around(s, p)),
{
    lemma_collect_sound(s, 0, None, Seq::empty(), word_around(s, p));
}

/// Some maximal run of word chars of `s` that ends by `lim` writes `w`.
pub open spec fn occurs_by(s: Seq<char>, w: Seq<char>, lim: int) -> bool {
    exists|b: int, e: int| #[trigger] is_word_run(s, b, e) && s.subrange(b, e) == w && e <= lim
}

/// The words of `acc` come in order of first appearance in `s`: wherever a
/// word stands, every word before it in `acc` occurs before that place.
pub open spec fn in_appearance_order(s: Seq<char>, acc: Seq<Seq<char>>) -> bool {
    forall|k: int, m: int, b: int, e: int|
        #![trigger is_word_run(s, b, e), acc[m], acc[k]]
        0 <= k < m < acc.len() && is_word_run(s, b, e) && s.subrange(b, e) == acc[m] ==> occurs_by(s, acc[k], b)
}

/// Where the scan stands: `lim` is the start of the word under way, or the
/// scan position when there is none.
pub open spec fn scan_limit(i: int, start: Option<int>) -> int {
    match start {
        Some(b0) => b0,
        None => i,
    }
}

proof fn lemma_collect_order(s: Seq<char>, i: int, start: Option<int>, acc: Seq<Seq<char>>, cw: Option<Seq<char>>)
    requires
        0 <= i <= s.len(),
        start matches Some(b0) ==> 0 <= b0 < i && (forall|k: int| b0 <= k < i ==> is_word_char(#[trigger] s[k])) && (
        b0 == 0 || !is_word_char(s[b0 - 1])),
        start is None ==> i == 0 || !is_word_char(s[i - 1]),
        forall|b: int, e: int|
            #[trigger] is_word_run(s, b, e) && utf8_at_least_two(s.subrange(b, e)) && cw != Some(s.subrange(b, e))
                && e <= scan_limit(i, start) ==> acc.contains(s.subrange(b, e)),
        forall|k: int| 0 <= k < acc.len() ==> occurs_by(s, #[trigger] acc[k], scan_limit(i, start)),
        in_appearance_order(s, acc),
    ensures
        in_appearance_order(s, collect_words(s, i, start, acc, cw)),
    decreases s.len() - i,
{
    if i >= s.len() {
        match start {
            Some(b0) => lemma_push_in_order(s, acc, b0, s.len() as int, cw),
            None => {},
        }
    } else if is_word_char(s[i]) {
        lemma_collect_order(s, i + 1, if start is Some { start } else { Some(i) }, acc, cw);
    } else {
        match start {
            Some(b0) => {
                let acc2 = accept_word(acc, s.subrange(b0, i), cw);
                lemma_push_in_order(s, acc, b0, i, cw);
                assert forall|b: int, e: int|
                    #[trigger] is_word_run(s, b, e) && utf8_at_least_two(s.subrange(b, e)) && cw != Some(
                        s.subrange(b, e),
                    ) && e <= i + 1 implies acc2.contains(s.subrange(b, e)) by {
                    if b == b0 {
                        assert(e == i) by {
                            if e > i {
                                assert(is_word_char(s[i]));
                            }
                            if e < i {
                                assert(is_word_char(s[e]));
                            }
                        }
                        lemma_accept_takes(acc, s.subrange(b, e), cw);
                    } else {
                        if b > b0 {
                            assert(is_word_char(s[b - 1]));
                        }
                        assert(e <= b0) by {
                            if e > b0 {
                                assert(is_word_char(s[b0 - 1]));
                            }
                        }
                        lemma_accept_keeps(acc, s.subrange(b0, i), cw, s.subrange(b, e));
                    }
                }
                assert forall|k: int| 0 <= k < acc2.len() implies occurs_by(s, #[trigger] acc2[k], i + 1) by {
                    if k < acc.len() {
                        assert(acc2[k] == acc[k]);
                        let (b, e) = choose|b: int, e: int| #[trigger] is_word_run(s, b, e) && s.subrange(b, e) == acc[k]
                            && e <= b0;
                        assert(is_word_run(s, b, e) && s.subrange(b, e) == acc2[k] && e <= i + 1);
                    } else {
                        assert(acc2[k] == s.subrange(b0, i));
                        assert(is_word_run(s, b0, i));
                    }
                }
                lemma_collect_order(s, i + 1, None, acc2, cw);
            },
            None => lemma_collect_order(s, i + 1, None, acc, cw),
        }
    }
}

/// Offering the run `s[b0..e0]`, none of whose earlier runs were left out,
/// keeps the words in order of appearance.
proof fn lemma_push_in_order(s: Seq<char>, acc: Seq<Seq<char>>, b0: int, e0: int, cw: Option<Seq<char>>)
    requires
        is_word_run(s, b0, e0),
        forall|b: int, e: int|
            #[trigger] is_word_run(s, b, e) && utf8_at_least_two(s.subrange(b, e)) && cw != Some(s.subrange(b, e))
                && e <= b0 ==> acc.contains(s.subrange(b, e)),
        forall|k: int| 0 <= k < acc.len() ==> occurs_by(s, #[trigger] acc[k], b0),
        in_appearance_order(s, acc),
    ensures
        in_appearance_order(s, accept_word(acc, s.subrange(b0, e0), cw)),
{
    let w = s.subrange(b0, e0);
    if utf8_at_least_two(w) && cw != Some(w) && !acc.contains(w) {
        let n = acc.push(w);
        assert forall|k: int, m: int, b: int, e: int|
            #![trigger is_word_run(s, b, e), n[m], n[k]]
            0 <= k < m < n.len() && is_word_run(s, b, e) && s.subrange(b, e) == n[m] implies occurs_by(
                s,
                n[k],
                b,
            ) by {
            assert(n[k] == acc[k]);
            if m < acc.len() {
                assert(n[m] == acc[m]);
            } else {
                assert(n[m] == w);
                // Every run of `w` starts at `b0` or later: an earlier one
                // would have ended before `b0` and been collected already.
                assert(b >= b0) by {
                    if b < b0 {
                        assert(e <= b0) by {
                            if e > b0 {
                                assert(is_word_char(s[b0 - 1]));
                            }
                        }
                    }
                }
                let (b1, e1) = choose|b1: int, e1: int| #[trigger] is_word_run(s, b1, e1) && s.subrange(b1, e1) == acc[k]
                    && e1 <= b0;
                assert(is_word_run(s, b1, e1) && s.subrange(b1, e1) == n[k] && e1 <= b);
            }
        }
    }
}

/// Word completion lists the words in the order they first appear in the
/// document.
pub proof fn law_words_in_appearance_order(s: Seq<char>, p: int)
    ensures
        in_appearance_order(s, document_words(s, p)),
{
    lemma_collect_order(s, 0, None, Seq::empty(), word_around(s, p));
}

/// Word completion offers every word of the document: each maximal run of
/// word chars whose UTF-8 form takes at least two bytes, other than the word
/// at the cursor, is among the words collected, wherever it stands, the
/// end of the text included.
pub proof fn law_every_word_offered(s: Seq<char>, p: int, b: int, e: int)
    requires
        is_word_run(s, b, e),
        encode_utf8(s.subrange(b, e)).len() >= 2,
        word_around(s, p) != Some(s.subrange(b, e)),
    ensures
        document_words(s, p).contains(s.subrange(b, e)),
{
    lemma_two_utf8_bytes(s.subrange(b, e));
    lemma_collect_finds_run(s, 0, None, Seq::empty(), word_around(s, p), b, e);
}

pub open spec fn word_strings(ws: Seq<WordCompletionItem>) -> Seq<Seq<char>> {
    ws.map_values(|w: WordCompletionItem| w.word@)
}

/// Add `w` to `words` as `accept_word` says.
fn offer_word(words: &mut Vec<WordCompletionItem>, w: String, cw: &Option<String>)
    ensures
        word_strings(final(words)@) == accept_word(word_strings(old(words)@), w@, opt_chars(*cw)),
{
    let n = w.unicode_len();
    let long_enough = n >= 2 || (n == 1 && (w.get_char(0) as u32) >= 0x80);
    let is_cursor_word = match cw {
        Some(c) => *c == w,
        None => false,
    };
    // Whether `w` was offered already: a scan of the words so far. A
    // `HashSet<String>` of them would be quicker, but Verus's specification
    // of `HashSet` proves nothing of membership for `String` keys.
    let mut seen = false;
    let mut j: usize = 0;
    while j < words.len()
        invariant
            0 <= j <= words@.len(),
            seen == exists|m: int| 0 <= m < j && (#[trigger] words@[m]).word@ == w@,
        decreases words@.len() - j,
    {
        if words[j].word == w {
            seen = true;
        }
        j += 1;
    }
    proof {
        let ws = word_strings(words@);
        if seen {
            let m = choose|m: int| 0 <= m < words@.len() && (#[trigger] words@[m]).word@ == w@;
            assert(ws[m] == w@);
        } else {
            assert forall|m: int| 0 <= m < ws.len() implies ws[m] != w@ by {
                assert(words@[m].word@ != w@);
            }
        }
    }
    if long_enough && !is_cursor_word && !seen {
        words.push(WordCompletionItem { word: w });
        assert(word_strings(words@) =~= word_strings(old(words)@).push(w@));
    }
}

impl CompletionState {
    /// Collect the words of the document for completion: each distinct run of
    /// alphanumerics and `_` whose UTF-8 form takes at least two bytes, other
    /// than the word at the cursor, in order of first appearance.
    pub fn update_word_completions(&mut self, rope: &Rope, cursor_pos: usize)
        ensures
            word_strings(final(self).word_items@) == document_words(rope_chars(*rope), cursor_pos as int),
            final(self).items == old(self).items,
            final(self).filter == old(self).filter,
            final(self).visible == old(self).visible,
            final(self).selected_index == old(self).selected_index,
            final(self).scroll_offset == old(self).scroll_offset,
            final(self).start_char_index == old(self).start_char_index,
            final(self).is_incomplete == old(self).is_incomplete,
    {
        let ghost s = rope_chars(*rope);
        let cursor_word = get_word_at_position(rope, cursor_pos);
        let ghost cw = opt_chars(cursor_word);
        let len = rope_len_chars(rope);
        let mut words: Vec<WordCompletionItem> = Vec::new();
        let mut word_start: Option<usize> = None;
        let mut i: usize = 0;
        assert(word_strings(words@) =~= Seq::<Seq<char>>::empty());
        while i < len
            invariant
                0 <= i <= len == s.len(),
                s == rope_chars(*rope),
                cw == opt_chars(cursor_word),
                word_start matches Some(b) ==> b < i,
                collect_words(s, i as int, match word_start { Some(b) => Some(b as int), None => None }, word_strings(words@), cw)
                    == collect_words(s, 0, None, Seq::empty(), cw),
            decreases len - i,
        {
            let c = rope_char(rope, i);
            if word_char(c) {
                if word_start.is_none() {
                    word_start = Some(i);
                }
            } else {
                match word_start {
                    Some(b) => {
                        let w = rope_slice_string(rope, b, i);
                        offer_word(&mut words, w, &cursor_word);
                        word_start = None;
                    },
                    None => {},
                }
            }
            i += 1;
        }
        match word_start {
            Some(b) => {
                let w = rope_slice_string(rope, b, len);
                offer_word(&mut words, w, &cursor_word);
            },
            None => {},
        }
        self.word_items = words;
    }
}

/// Chars a popup row needs for an item: its label, its detail (a word's
/// is "word") and room for the icon and spacing.
pub open spec fn row_chars(v: (bool, (Seq<char>, Option<Seq<char>>, Option<Seq<char>>, Option<Seq<char>>, Option<i32>))) -> int {
    let detail = if v.0 {
        4int
    } else {
        match v.1.3 {
            Some(d) => d.len() as int,
            None => 0int,
        }
    };
    v.1.0.len() + detail + 7
}

/// Popup rows measured for its width.
pub const POPUP_MEASURED_ROWS: usize = 10;

/// Width in chars the popup needs for the first `n` items (20 for none).
pub open spec fn popup_chars(items: Seq<UnifiedCompletionItem>, n: int) -> int
    decreases n,
{
    if n <= 0 {
        20
    } else if n == 1 {
        row_chars(items[0]@)
    } else {
        let w = popup_chars(items, n - 1);
        let c = row_chars(items[n - 1]@);
        if c > w { c } else { w }
    }
}

/// Width in chars the completion popup needs: the widest of its first rows
/// (20 when it has none).
pub fn popup_width_chars(items: &Vec<UnifiedCompletionItem>) -> (r: usize)
    requires
        forall|k: int| 0 <= k < items@.len() ==> row_chars(#[trigger] items@[k]@) <= usize::MAX,
    ensures
        r == popup_chars(items@, if items@.len() < POPUP_MEASURED_ROWS { items@.len() as int } else { POPUP_MEASURED_ROWS as int }),
{
    let n = if items.len() < POPUP_MEASURED_ROWS {
        items.len()
    } else {
        POPUP_MEASURED_ROWS
    };
    let mut best: usize = 20;
    let mut i: usize = 0;
    while i < n
        invariant
            i <= n <= items@.len(),
            forall|k: int| 0 <= k < items@.len() ==> row_chars(#[trigger] items@[k]@) <= usize::MAX,
            best == popup_chars(items@, i as int),
        decreases n - i,
    {
        let item = &items[i];
        let label_len = item.label().unicode_len();
        let detail_len = match item.detail() {
            Some(d) => d.unicode_len(),
            None => 0,
        };
        proof {
            reveal_strlit("word");
            assert(row_chars(items@[i as int]@) <= usize::MAX);
        }
        let c = label_len + detail_len + 7;
        if i == 0 || c > best {
            best = c;
        }
        i += 1;
    }
    best
}

/// Where the open document stands with the language server.
pub struct LspSyncState {
    /// Whether the text changed since it was last sent.
    pub dirty: bool,
    /// The debounce before a changed text is sent.
    pub timer: DelayTimer,
    /// The document's URI, once the server knows the document.
    pub document_uri: Option<String>,
    /// Version of the last content sent.
    pub document_version: i32,
}

/// How long the text rests before a change is sent.
pub const SYNC_DEBOUNCE_MS: u64 = 200;

impl LspSyncState {
    /// Nothing to send, no document known to the server yet.
    pub fn new() -> (r: Self)
        ensures
            !r.dirty,
            r.timer == fresh_timer(SYNC_DEBOUNCE_MS),
            r.document_uri is None,
            r.document_version == 0,
    {
        LspSyncState { dirty: false, timer: DelayTimer::new(SYNC_DEBOUNCE_MS), document_uri: None, document_version: 0 }
    }
}

/// A message for the language server that an editing step calls for.
pub enum LspRequest {
    /// Ask for completions at a position (line and char in the line).
    Completion { line: u32, character: u32 },
    /// The document's full new text, with its version.
    DidChange { version: i32, text: String },
}

} // verus!
