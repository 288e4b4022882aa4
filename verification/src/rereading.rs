//! Texts that the engine reads back as they were written: when parts are
//! joined by a delimiter, the words of the joined text are the parts again,
//! provided that each part is one run of word characters of one case and
//! that the delimiter separates.

use crate::chars::{alphanumeric, lowercase, uppercase};
use crate::transform::join;
use crate::words::{
    is_word, lemma_next_word, lemma_no_start_between, lemma_spans_upto, spans_upto, starts_word,
    state_at, stops_at, word_end, words, words_upto,
};
use vstd::prelude::*;

verus! {

/// Whether every character of `t` is a word character.
pub open spec fn all_word_chars(t: Seq<char>) -> bool {
    forall|i: int| 0 <= i < t.len() ==> alphanumeric(#[trigger] t[i])
}

/// Whether no character of `t` is a capital.
pub open spec fn no_capital(t: Seq<char>) -> bool {
    forall|i: int| 0 <= i < t.len() ==> !uppercase(#[trigger] t[i])
}

/// Whether no character of `t` is a small letter.
pub open spec fn no_small(t: Seq<char>) -> bool {
    forall|i: int| 0 <= i < t.len() ==> !lowercase(#[trigger] t[i])
}

/// Whether `d` can stand between two words: it is not empty and holds no
/// word character.
pub open spec fn separates(d: Seq<char>) -> bool {
    d.len() > 0 && forall|i: int| 0 <= i < d.len() ==> !alphanumeric(#[trigger] d[i])
}

/// Whether `x` may follow `t` without a capital at the end of `t` being
/// taken for the beginning of a word: that takes a small letter at the head
/// of `x`.
pub open spec fn follows_quietly(t: Seq<char>, x: Seq<char>) -> bool {
    t.len() > 0 && x.len() > 0 ==> !(uppercase(t.last()) && lowercase(x[0]))
}

/// The state after a part of the text does not depend on what follows it.
pub proof fn lemma_state_of_prefix(t: Seq<char>, x: Seq<char>, i: int)
    requires
        0 <= i <= t.len(),
    ensures
        state_at(t + x, i) == state_at(t, i),
    decreases i,
{
    if i > 0 {
        lemma_state_of_prefix(t, x, i - 1);
        assert((t + x)[i - 1] == t[i - 1]);
    }
}

/// Where words begin in `t` does not depend on what follows `t`, as long as
/// it follows quietly.
pub proof fn lemma_starts_of_prefix(t: Seq<char>, x: Seq<char>, j: int)
    requires
        0 <= j < t.len(),
        follows_quietly(t, x),
    ensures
        starts_word(t + x, j) == starts_word(t, j),
{
    lemma_state_of_prefix(t, x, j);
    assert((t + x)[j] == t[j]);
    if j + 1 < t.len() {
        assert((t + x)[j + 1] == t[j + 1]);
    } else if x.len() > 0 {
        assert((t + x)[j + 1] == x[0]);
        assert(t.last() == t[j]);
    }
}

/// Where a word of `t` ends does not depend on what follows `t`, as long as
/// it follows quietly and begins with a separator.
pub proof fn lemma_word_end_of_prefix(t: Seq<char>, x: Seq<char>, i: int)
    requires
        0 <= i < t.len(),
        follows_quietly(t, x),
        x.len() > 0 ==> !alphanumeric(x[0]),
    ensures
        word_end(t + x, i) == word_end(t, i),
    decreases t.len() - i,
{
    if i + 1 < t.len() {
        lemma_starts_of_prefix(t, x, i + 1);
        assert((t + x)[i + 1] == t[i + 1]);
        if !stops_at(t, i + 1) {
            lemma_word_end_of_prefix(t, x, i + 1);
        }
    } else if x.len() > 0 {
        assert((t + x)[i + 1] == x[0]);
    } else {
        assert(t + x =~= t);
    }
}

/// The words of `t` are the words that begin in `t` when a text follows
/// that begins with a separator and follows quietly.
pub proof fn lemma_words_of_prefix(t: Seq<char>, x: Seq<char>, n: int)
    requires
        0 <= n <= t.len(),
        follows_quietly(t, x),
        x.len() > 0 ==> !alphanumeric(x[0]),
    ensures
        spans_upto(t + x, n) == spans_upto(t, n),
        words_upto(t + x, n) == words_upto(t, n),
    decreases n,
{
    if n > 0 {
        lemma_words_of_prefix(t, x, n - 1);
        lemma_starts_of_prefix(t, x, n - 1);
        if starts_word(t, n - 1) {
            lemma_word_end_of_prefix(t, x, n - 1);
        }
    }
    lemma_spans_upto(t, n);
    assert forall|k: int| 0 <= k < spans_upto(t, n).len() implies (t + x).subrange(
        spans_upto(t, n)[k].0,
        spans_upto(t, n)[k].1,
    ) == t.subrange(spans_upto(t, n)[k].0, spans_upto(t, n)[k].1) by {
        let a = spans_upto(t, n)[k].0;
        let e = spans_upto(t, n)[k].1;
        assert(is_word(t, a, e));
        assert((t + x).subrange(a, e) =~= t.subrange(a, e));
    }
    assert(words_upto(t + x, n) =~= words_upto(t, n));
}

/// Within a run of word characters that holds no small letter, the state is
/// never that of a small letter.
proof fn lemma_state_without_small(u: Seq<char>, a: int, j: int)
    requires
        0 <= a < j <= u.len(),
        a == 0 || !alphanumeric(u[a - 1]),
        forall|i: int| a <= i < j ==> alphanumeric(u[i]) && !lowercase(u[i]),
    ensures
        !(state_at(u, j) is Lower),
        !(state_at(u, j) is Delims),
    decreases j - a,
{
    if a + 1 < j {
        lemma_state_without_small(u, a, j - 1);
    } else {
        assert(state_at(u, a) is Unknown || state_at(u, a) is Delims);
    }
}

/// A run of word characters of one case that reaches the end of the text,
/// and begins the text or follows a separator, is the last word of the
/// text.
pub proof fn lemma_last_word(u: Seq<char>, a: int)
    requires
        0 <= a < u.len(),
        a == 0 || !alphanumeric(u[a - 1]),
        all_word_chars(u.skip(a)),
        no_capital(u.skip(a)) || no_small(u.skip(a)),
    ensures
        words(u) == words_upto(u, a).push(u.skip(a)),
{
    let n = u.len() as int;
    assert forall|i: int| a <= i < n implies alphanumeric(u[i]) by {
        assert(u[i] == u.skip(a)[i - a]);
    }
    assert(starts_word(u, a));
    assert forall|j: int| a < j < n implies !starts_word(u, j) by {
        assert(u[j] == u.skip(a)[j - a]);
        if no_capital(u.skip(a)) {
            assert(!uppercase(u[j]));
        } else {
            assert forall|i: int| a <= i < j implies alphanumeric(u[i]) && !lowercase(u[i]) by {
                assert(u[i] == u.skip(a)[i - a]);
            }
            lemma_state_without_small(u, a, j);
            if j + 1 < n {
                assert(u[j + 1] == u.skip(a)[j + 1 - a]);
            }
        }
    }
    lemma_next_word(u, a, n, n);
    assert(u.subrange(a, n) =~= u.skip(a));
}

/// One more part: the words of a text, a separating delimiter and a run of
/// word characters of one case are the words of the text, and the run.
pub proof fn lemma_words_of_appended(t: Seq<char>, d: Seq<char>, p: Seq<char>)
    requires
        separates(d),
        follows_quietly(t, d),
        p.len() > 0,
        all_word_chars(p),
        no_capital(p) || no_small(p),
    ensures
        words(t + d + p) == words(t).push(p),
{
    let u = t + d + p;
    let a = (t.len() + d.len()) as int;
    assert(u.skip(a) =~= p);
    assert(u[a - 1] == d[d.len() - 1]);
    lemma_last_word(u, a);
    assert forall|j: int| t.len() <= j < a implies !starts_word(u, j) by {
        assert(u[j] == d[j - t.len()]);
    }
    lemma_no_start_between(u, t.len() as int, a);
    assert(u =~= t + (d + p));
    assert((d + p)[0] == d[0]);
    lemma_words_of_prefix(t, d + p, t.len() as int);
}

/// Whether the engine reads the parts back when they are joined by `delim`:
/// each part is a run of word characters, not empty, the delimiter
/// separates, and either no part holds a capital, or no part holds a small
/// letter and the delimiter does not begin with one.
pub open spec fn reads_back(parts: Seq<Seq<char>>, delim: Seq<char>) -> bool {
    &&& separates(delim)
    &&& forall|k: int|
        0 <= k < parts.len() ==> (#[trigger] parts[k]).len() > 0 && all_word_chars(parts[k])
    &&& {
        ||| forall|k: int| 0 <= k < parts.len() ==> no_capital(#[trigger] parts[k])
        ||| !lowercase(delim[0]) && forall|k: int|
            0 <= k < parts.len() ==> no_small(#[trigger] parts[k])
    }
}

/// A joined text ends as its last part ends.
proof fn lemma_join_last(parts: Seq<Seq<char>>, delim: Seq<char>)
    requires
        parts.len() > 0,
        parts.last().len() > 0,
    ensures
        join(parts, delim).len() > 0,
        join(parts, delim).last() == parts.last().last(),
{
}

/// The words of a joined text are the parts that were joined.
pub proof fn lemma_words_of_joined(parts: Seq<Seq<char>>, delim: Seq<char>)
    requires
        reads_back(parts, delim),
    ensures
        words(join(parts, delim)) == parts,
    decreases parts.len(),
{
    if parts.len() == 0 {
        assert(words(join(parts, delim)) =~= parts);
    } else if parts.len() == 1 {
        let p = parts[0];
        assert(p.skip(0) =~= p);
        lemma_last_word(p, 0);
        assert(words(p) =~= parts);
    } else {
        let front = parts.drop_last();
        let p = parts.last();
        let t = join(front, delim);
        assert forall|k: int| 0 <= k < front.len() implies (#[trigger] front[k]) == parts[k] by {}
        assert(reads_back(front, delim));
        lemma_words_of_joined(front, delim);
        lemma_join_last(front, delim);
        assert(front.last() == parts[parts.len() - 2]);
        assert(t.last() == parts[parts.len() - 2].last());
        assert(follows_quietly(t, delim));
        lemma_words_of_appended(t, delim, p);
        assert(words(t).push(p) =~= parts);
    }
}

} // verus!
