//! Where the words of a text begin and end.
//!
//! A word is a run of letters and numbers. A run is cut further where the
//! case changes: before a capital that follows a small letter, and before
//! the last capital of a row of capitals that a small letter follows.
//! Everything else separates words and belongs to none.

use crate::chars::{alphanumeric, lowercase, uppercase};
use vstd::prelude::*;

verus! {

/// What the segmenter remembers of the characters it has read.
#[derive(Copy, Clone, PartialEq, Eq, Structural)]
pub enum State {
    /// Nothing read yet, or only caseless word characters since the last
    /// separator.
    Unknown,
    /// The last character read was a separator.
    Delims,
    /// The last cased character of the current run was a small letter.
    Lower,
    /// The last cased character of the current run was a capital.
    Upper,
}

/// The state in which the segmenter meets the character of index `i`, that
/// is, after it has read `s[0..i]`.
pub open spec fn state_at(s: Seq<char>, i: int) -> State
    decreases i,
{
    if i <= 0 || i > s.len() {
        State::Unknown
    } else if !alphanumeric(s[i - 1]) {
        State::Delims
    } else if lowercase(s[i - 1]) {
        State::Lower
    } else if uppercase(s[i - 1]) {
        State::Upper
    } else if state_at(s, i - 1) is Delims {
        State::Unknown
    } else {
        state_at(s, i - 1)
    }
}

/// Whether a word begins with the character of index `i`.
pub open spec fn starts_word(s: Seq<char>, i: int) -> bool {
    &&& 0 <= i < s.len()
    &&& alphanumeric(s[i])
    &&& match state_at(s, i) {
        State::Unknown => i == 0,
        State::Delims => true,
        State::Lower => uppercase(s[i]),
        State::Upper => uppercase(s[i]) && i + 1 < s.len() && lowercase(s[i + 1]),
    }
}

/// Whether a word that has reached the index `j` stops there: at the end of
/// the text, at a separator, or at the beginning of the next word.
pub open spec fn stops_at(s: Seq<char>, j: int) -> bool {
    j >= s.len() || !alphanumeric(s[j]) || starts_word(s, j)
}

/// The end of the word that begins at `i`: the first index after `i` at
/// which a word stops.
pub open spec fn word_end(s: Seq<char>, i: int) -> int
    decreases s.len() - i,
{
    if stops_at(s, i + 1) {
        i + 1
    } else {
        word_end(s, i + 1)
    }
}

/// The spans `(start, end)` of the words that begin before the index `n`,
/// in the order of the text.
pub open spec fn spans_upto(s: Seq<char>, n: int) -> Seq<(int, int)>
    decreases n,
{
    if n <= 0 {
        Seq::empty()
    } else if starts_word(s, n - 1) {
        spans_upto(s, n - 1).push((n - 1, word_end(s, n - 1)))
    } else {
        spans_upto(s, n - 1)
    }
}

/// The spans of the words of `s`, in the order of the text.
pub open spec fn spans(s: Seq<char>) -> Seq<(int, int)> {
    spans_upto(s, s.len() as int)
}

/// The words that begin before the index `n`, in the order of the text.
pub open spec fn words_upto(s: Seq<char>, n: int) -> Seq<Seq<char>> {
    Seq::new(spans_upto(s, n).len(), |k: int| s.subrange(spans_upto(s, n)[k].0, spans_upto(s, n)[k].1))
}

/// The words of `s`, in the order of the text.
pub open spec fn words(s: Seq<char>) -> Seq<Seq<char>> {
    words_upto(s, s.len() as int)
}

/// Whether `s[a..e]` is a word of `s`: a word begins at `a`, every character
/// up to `e` is a word character at which no other word begins, and the
/// word stops at `e`.
pub open spec fn is_word(s: Seq<char>, a: int, e: int) -> bool {
    &&& starts_word(s, a)
    &&& a < e <= s.len()
    &&& forall|j: int| a <= j < e ==> alphanumeric(s[j])
    &&& forall|j: int| a < j < e ==> !starts_word(s, j)
    &&& stops_at(s, e)
}

/// Where no word begins between `m` and `n`, the words that begin before `n`
/// are those that begin before `m`.
pub proof fn lemma_no_start_between(s: Seq<char>, m: int, n: int)
    requires
        0 <= m <= n,
        forall|j: int| m <= j < n ==> !starts_word(s, j),
    ensures
        spans_upto(s, n) == spans_upto(s, m),
        words_upto(s, n) == words_upto(s, m),
    decreases n - m,
{
    if m < n {
        lemma_no_start_between(s, m, n - 1);
    }
}

/// A word runs on for as long as it meets word characters at which no word
/// begins, and ends where it first stops.
pub proof fn lemma_word_end(s: Seq<char>, i: int, e: int)
    requires
        i < e,
        forall|j: int| i < j < e ==> !stops_at(s, j),
        stops_at(s, e),
    ensures
        word_end(s, i) == e,
    decreases e - i,
{
    if i + 1 < e {
        lemma_word_end(s, i + 1, e);
    }
}

/// One more word: where a word begins at `i` and ends at `e`, and none
/// begins after `i` and before `n`, the words that begin before `n` are
/// those that begin before `i`, and this one.
pub proof fn lemma_next_word(s: Seq<char>, i: int, e: int, n: int)
    requires
        starts_word(s, i),
        i < e,
        i < n,
        forall|j: int| i < j < e ==> !stops_at(s, j),
        stops_at(s, e),
        forall|j: int| i < j < n ==> !starts_word(s, j),
    ensures
        spans_upto(s, n) == spans_upto(s, i).push((i, e)),
        words_upto(s, n) == words_upto(s, i).push(s.subrange(i, e)),
{
    lemma_word_end(s, i, e);
    lemma_no_start_between(s, i + 1, n);
    assert(words_upto(s, n) =~= words_upto(s, i).push(s.subrange(i, e)));
}

/// The word that begins at `i` ends after `i`, within the text, at the
/// first index at which a word stops.
pub proof fn lemma_word_end_is_first_stop(s: Seq<char>, i: int)
    requires
        0 <= i < s.len(),
    ensures
        i < word_end(s, i) <= s.len(),
        stops_at(s, word_end(s, i)),
        forall|j: int| i < j < word_end(s, i) ==> !stops_at(s, j),
    decreases s.len() - i,
{
    if !stops_at(s, i + 1) {
        lemma_word_end_is_first_stop(s, i + 1);
    }
}

/// Every span is a word of the text, none is empty, and each ends before
/// the next begins.
pub proof fn lemma_spans_upto(s: Seq<char>, n: int)
    requires
        0 <= n <= s.len(),
    ensures
        forall|k: int|
            0 <= k < spans_upto(s, n).len() ==> {
                &&& is_word(s, (#[trigger] spans_upto(s, n)[k]).0, spans_upto(s, n)[k].1)
                &&& spans_upto(s, n)[k].0 < n
            },
        forall|k: int|
            0 <= k && k + 1 < spans_upto(s, n).len() ==> (#[trigger] spans_upto(s, n)[k]).1
                <= spans_upto(s, n)[k + 1].0,
        spans_upto(s, n).len() <= n,
    decreases n,
{
    if n > 0 {
        lemma_spans_upto(s, n - 1);
        if starts_word(s, n - 1) {
            lemma_word_end_is_first_stop(s, n - 1);
            let before = spans_upto(s, n - 1);
            let all = spans_upto(s, n);
            assert(all == before.push((n - 1, word_end(s, n - 1))));
            assert forall|k: int| 0 <= k < all.len() implies {
                &&& is_word(s, (#[trigger] all[k]).0, all[k].1)
                &&& all[k].0 < n
            } by {
                if k < before.len() {
                    assert(all[k] == before[k]);
                } else {
                    let e = word_end(s, n - 1);
                    assert(all[k] == (n - 1, e));
                    assert forall|j: int| n - 1 <= j < e implies alphanumeric(s[j]) by {
                        if n - 1 < j {
                            assert(!stops_at(s, j));
                        }
                    }
                    assert forall|j: int| n - 1 < j < e implies !starts_word(s, j) by {
                        assert(!stops_at(s, j));
                    }
                }
            }
            assert forall|k: int| 0 <= k && k + 1 < all.len() implies (#[trigger] all[k]).1
                <= all[k + 1].0 by {
                assert(all[k] == before[k]);
                if k + 1 < before.len() {
                    assert(all[k + 1] == before[k + 1]);
                } else {
                    assert(is_word(s, before[k].0, before[k].1));
                }
            }
        }
    }
}

/// The spans of a text are words of it, in the order of the text and
/// apart from each other; the words are the texts of the spans.
pub proof fn lemma_spans(s: Seq<char>)
    ensures
        words(s).len() == spans(s).len(),
        forall|k: int|
            0 <= k < spans(s).len() ==> {
                &&& is_word(s, (#[trigger] spans(s)[k]).0, spans(s)[k].1)
                &&& words(s)[k] == s.subrange(spans(s)[k].0, spans(s)[k].1)
            },
        forall|k: int|
            0 <= k && k + 1 < spans(s).len() ==> (#[trigger] spans(s)[k]).1 <= spans(s)[k + 1].0,
{
    lemma_spans_upto(s, s.len() as int);
}

/// No word is empty, and a word holds word characters only.
pub proof fn lemma_words_are_runs(s: Seq<char>)
    ensures
        forall|k: int|
            0 <= k < words(s).len() ==> {
                &&& (#[trigger] words(s)[k]).len() > 0
                &&& forall|q: int| 0 <= q < words(s)[k].len() ==> alphanumeric(words(s)[k][q])
            },
{
    lemma_spans(s);
    assert forall|k: int| 0 <= k < words(s).len() implies {
        &&& (#[trigger] words(s)[k]).len() > 0
        &&& forall|q: int| 0 <= q < words(s)[k].len() ==> alphanumeric(words(s)[k][q])
    } by {
        let a = spans(s)[k].0;
        let e = spans(s)[k].1;
        assert(is_word(s, a, e));
        assert(words(s)[k] == s.subrange(a, e));
    }
}

/// Every index at which a word begins is the beginning of a span.
pub proof fn lemma_every_start_has_a_span(s: Seq<char>, i: int, n: int)
    requires
        starts_word(s, i),
        i < n,
    ensures
        exists|k: int| 0 <= k < spans_upto(s, n).len() && (#[trigger] spans_upto(s, n)[k]).0 == i,
    decreases n,
{
    if i == n - 1 {
        let k = spans_upto(s, n).len() - 1;
        assert(spans_upto(s, n)[k].0 == i);
    } else {
        lemma_every_start_has_a_span(s, i, n - 1);
        let k = choose|k: int|
            0 <= k < spans_upto(s, n - 1).len() && (#[trigger] spans_upto(s, n - 1)[k]).0 == i;
        assert(spans_upto(s, n)[k] == spans_upto(s, n - 1)[k]);
    }
}

/// Every word character lies in a word: separators are all that the words
/// leave out.
pub proof fn lemma_every_word_char_is_in_a_word(s: Seq<char>, i: int)
    requires
        0 <= i < s.len(),
        alphanumeric(s[i]),
    ensures
        exists|k: int|
            0 <= k < spans(s).len() && (#[trigger] spans(s)[k]).0 <= i < spans(s)[k].1,
    decreases i,
{
    lemma_spans(s);
    if starts_word(s, i) {
        lemma_every_start_has_a_span(s, i, s.len() as int);
        let k = choose|k: int| 0 <= k < spans(s).len() && (#[trigger] spans(s)[k]).0 == i;
        assert(is_word(s, spans(s)[k].0, spans(s)[k].1));
    } else {
        assert(i > 0 && alphanumeric(s[i - 1]));
        lemma_every_word_char_is_in_a_word(s, i - 1);
        let k = choose|k: int|
            0 <= k < spans(s).len() && (#[trigger] spans(s)[k]).0 <= i - 1 < spans(s)[k].1;
        assert(is_word(s, spans(s)[k].0, spans(s)[k].1));
        assert(!stops_at(s, i));
        assert(spans(s)[k].0 <= i < spans(s)[k].1);
    }
}

} // verus!
