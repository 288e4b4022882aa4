//! What holds of the engine and of the ten conventions on every text.

use crate::acronyms::text_entries;
use crate::chars::{alphanumeric, lowercase, lowercase_of, lowercased, uppercase, uppercase_of};
use crate::recipes::{
    camel_case, kebab_case, lower_case, pascal_case, screaming_kebab_case,
    screaming_snake_case, snake_case, title_case, train_case, upper_case, Camel, Lower, Title,
    Upper,
};
use crate::rereading::{
    all_word_chars, lemma_words_of_joined, no_capital, no_small, reads_back, separates,
};
use crate::transform::{join, lower_text, pieces, rendered, upper_text, WordFn};
use crate::words::{
    is_word, lemma_no_start_between, lemma_spans, lemma_words_are_runs, spans, words,
};
use pyo3::types::PyDict;
use vstd::prelude::*;

verus! {

/// A text without a letter or a number has no words, and the engine makes
/// the empty text of it, whatever the formatter and the delimiter.
pub proof fn lemma_only_separators<F: WordFn>(s: Seq<char>, word_fn: F, delim: Seq<char>)
    requires
        forall|i: int| 0 <= i < s.len() ==> !alphanumeric(s[i]),
    ensures
        words(s) == Seq::<Seq<char>>::empty(),
        rendered(s, word_fn, delim) == Seq::<char>::empty(),
{
    lemma_no_start_between(s, 0, s.len() as int);
    assert(words(s) =~= Seq::<Seq<char>>::empty());
    assert(pieces(words(s), word_fn) =~= Seq::<Seq<char>>::empty());
}

/// Each of the ten conventions turns a text without a letter or a number
/// into the empty text, with or without an acronym table.
pub proof fn lemma_conventions_of_separators(s: Seq<char>, acronyms: Option<&PyDict>)
    requires
        forall|i: int| 0 <= i < s.len() ==> !alphanumeric(s[i]),
    ensures
        camel_case(s, acronyms) == Seq::<char>::empty(),
        pascal_case(s, acronyms) == Seq::<char>::empty(),
        snake_case(s) == Seq::<char>::empty(),
        screaming_snake_case(s) == Seq::<char>::empty(),
        kebab_case(s) == Seq::<char>::empty(),
        screaming_kebab_case(s) == Seq::<char>::empty(),
        train_case(s, acronyms) == Seq::<char>::empty(),
        lower_case(s) == Seq::<char>::empty(),
        title_case(s, acronyms) == Seq::<char>::empty(),
        upper_case(s) == Seq::<char>::empty(),
{
    lemma_no_start_between(s, 0, s.len() as int);
    assert(words(s) =~= Seq::<Seq<char>>::empty());
    assert forall|parts: Seq<Seq<char>>, delim: Seq<char>| parts.len() == 0 implies #[trigger] join(
        parts,
        delim,
    ) == Seq::<char>::empty() by {}
}

/// The words are those of the text alone. Whatever the formatters and the
/// delimiters, two outputs are made of as many pieces as the text has
/// words, one piece for each word.
pub proof fn lemma_word_count<F: WordFn, G: WordFn>(
    s: Seq<char>,
    f: F,
    f_delim: Seq<char>,
    g: G,
    g_delim: Seq<char>,
)
    ensures
        rendered(s, f, f_delim) == join(pieces(words(s), f), f_delim),
        rendered(s, g, g_delim) == join(pieces(words(s), g), g_delim),
        pieces(words(s), f).len() == words(s).len(),
        pieces(words(s), g).len() == words(s).len(),
{
}

/// The first part stands at the head of a joined text; the delimiter and the
/// other parts, joined, follow it.
pub proof fn lemma_join_first(parts: Seq<Seq<char>>, delim: Seq<char>)
    requires
        parts.len() > 0,
    ensures
        join(parts, delim) == (if parts.len() == 1 {
            parts[0]
        } else {
            parts[0] + delim + join(parts.drop_first(), delim)
        }),
    decreases parts.len(),
{
    if parts.len() == 2 {
        assert(join(parts.drop_last(), delim) == parts.drop_last()[0]);
        assert(join(parts.drop_first(), delim) == parts.drop_first()[0]);
    } else if parts.len() > 2 {
        let front = parts.drop_last();
        let back = parts.drop_first();
        lemma_join_first(front, delim);
        assert(front.drop_first() =~= back.drop_last());
        assert(join(parts, delim) =~= parts[0] + delim + join(back, delim));
    }
}

/// A table that has no text under the lowercase form of any word changes
/// nothing: the title, pascal and train forms are those made without a
/// table.
pub proof fn lemma_table_without_entries(s: Seq<char>, d: &PyDict)
    requires
        forall|k: int|
            0 <= k < words(s).len() ==> !text_entries(*d).contains_key(
                lowercased(#[trigger] words(s)[k]),
            ),
    ensures
        pascal_case(s, Some(d)) == pascal_case(s, None),
        train_case(s, Some(d)) == train_case(s, None),
        title_case(s, Some(d)) == title_case(s, None),
        camel_case(s, Some(d)) == camel_case(s, None),
{
    let ws = words(s);
    assert(pieces(ws, (Title { acronyms: Some(d) })) =~= pieces(ws, (Title { acronyms: None })));
    assert(pieces(ws, (Camel { acronyms: Some(d) })) =~= pieces(ws, (Camel { acronyms: None })));
}

/// For the camel form the first word is never looked up: a table that has
/// no text under the lowercase form of any later word changes nothing.
pub proof fn lemma_camel_table_without_entries(s: Seq<char>, d: &PyDict)
    requires
        forall|k: int|
            1 <= k < words(s).len() ==> !text_entries(*d).contains_key(
                lowercased(#[trigger] words(s)[k]),
            ),
    ensures
        camel_case(s, Some(d)) == camel_case(s, None),
{
    let ws = words(s);
    assert(pieces(ws, (Camel { acronyms: Some(d) })) =~= pieces(ws, (Camel { acronyms: None })));
}

/// The camel form begins with the first word in lowercase, whatever the
/// table holds under it; the later words follow as the pascal form writes
/// them.
pub proof fn lemma_camel_first_word(s: Seq<char>, acronyms: Option<&PyDict>)
    requires
        words(s).len() > 0,
    ensures
        pieces(words(s), (Camel { acronyms }))[0] == lower_text(words(s)[0]),
        camel_case(s, acronyms) == lower_text(words(s)[0]) + join(
            pieces(words(s).drop_first(), (Title { acronyms })),
            Seq::empty(),
        ),
        lower_text(words(s)[0]).is_prefix_of(camel_case(s, acronyms)),
{
    let ws = words(s);
    let parts = pieces(ws, (Camel { acronyms }));
    let rest = pieces(ws.drop_first(), (Title { acronyms }));
    let none = Seq::<char>::empty();
    lemma_join_first(parts, none);
    assert(parts.drop_first() =~= rest);
    if parts.len() == 1 {
        assert(join(rest, none) =~= none);
        assert(join(parts, none) =~= parts[0] + join(rest, none));
    } else {
        assert(join(parts, none) =~= parts[0] + join(rest, none));
    }
}

/// Whether lowercase writing leaves `c` as it is: `c` is a word character,
/// no capital, and its own lowercase form.
pub open spec fn stays_lower(c: char) -> bool {
    alphanumeric(c) && !uppercase(c) && lowercase_of(c) == seq![c]
}

/// Whether the lowercase form of `c` is not empty and made of characters
/// that lowercase writing leaves as they are.
pub open spec fn settles_lower(c: char) -> bool {
    lowercase_of(c).len() > 0 && forall|k: int|
        0 <= k < lowercase_of(c).len() ==> stays_lower(#[trigger] lowercase_of(c)[k])
}

/// Whether uppercase writing leaves `c` as it is: `c` is a word character,
/// no small letter, and its own uppercase form.
pub open spec fn stays_upper(c: char) -> bool {
    alphanumeric(c) && !lowercase(c) && uppercase_of(c) == seq![c]
}

/// Whether the uppercase form of `c` is not empty and made of characters
/// that uppercase writing leaves as they are.
pub open spec fn settles_upper(c: char) -> bool {
    uppercase_of(c).len() > 0 && forall|k: int|
        0 <= k < uppercase_of(c).len() ==> stays_upper(#[trigger] uppercase_of(c)[k])
}

/// The lowercase form of a word whose characters all settle is at least as
/// long as the word, and lowercase writing leaves each of its characters as
/// it is.
proof fn lemma_lower_text_settled(w: Seq<char>)
    requires
        forall|i: int| 0 <= i < w.len() ==> settles_lower(#[trigger] w[i]),
    ensures
        lower_text(w).len() >= w.len(),
        forall|q: int| 0 <= q < lower_text(w).len() ==> stays_lower(#[trigger] lower_text(w)[q]),
    decreases w.len(),
{
    if w.len() > 0 {
        let front = w.drop_last();
        assert forall|i: int| 0 <= i < front.len() implies settles_lower(#[trigger] front[i]) by {
            assert(front[i] == w[i]);
        }
        lemma_lower_text_settled(front);
        assert(settles_lower(w[w.len() - 1]));
        let head = lower_text(front);
        let tail = lowercase_of(w.last());
        assert forall|q: int| 0 <= q < lower_text(w).len() implies stays_lower(
            #[trigger] lower_text(w)[q],
        ) by {
            if q < head.len() {
                assert(lower_text(w)[q] == head[q]);
            } else {
                assert(lower_text(w)[q] == tail[q - head.len()]);
            }
        }
    }
}

/// A text of characters that are their own lowercase form is its own
/// lowercase form.
proof fn lemma_lower_text_fixed(x: Seq<char>)
    requires
        forall|i: int| 0 <= i < x.len() ==> lowercase_of(#[trigger] x[i]) == seq![x[i]],
    ensures
        lower_text(x) == x,
    decreases x.len(),
{
    if x.len() > 0 {
        let front = x.drop_last();
        assert forall|i: int| 0 <= i < front.len() implies lowercase_of(#[trigger] front[i])
            == seq![front[i]] by {
            assert(front[i] == x[i]);
        }
        lemma_lower_text_fixed(front);
        assert(lowercase_of(x[x.len() - 1]) == seq![x.last()]);
        assert(lower_text(x) =~= x);
    }
}

/// The uppercase form of a word whose characters all settle is at least as
/// long as the word, and uppercase writing leaves each of its characters as
/// it is.
proof fn lemma_upper_text_settled(w: Seq<char>)
    requires
        forall|i: int| 0 <= i < w.len() ==> settles_upper(#[trigger] w[i]),
    ensures
        upper_text(w).len() >= w.len(),
        forall|q: int| 0 <= q < upper_text(w).len() ==> stays_upper(#[trigger] upper_text(w)[q]),
    decreases w.len(),
{
    if w.len() > 0 {
        let front = w.drop_last();
        assert forall|i: int| 0 <= i < front.len() implies settles_upper(#[trigger] front[i]) by {
            assert(front[i] == w[i]);
        }
        lemma_upper_text_settled(front);
        assert(settles_upper(w[w.len() - 1]));
        let head = upper_text(front);
        let tail = uppercase_of(w.last());
        assert forall|q: int| 0 <= q < upper_text(w).len() implies stays_upper(
            #[trigger] upper_text(w)[q],
        ) by {
            if q < head.len() {
                assert(upper_text(w)[q] == head[q]);
            } else {
                assert(upper_text(w)[q] == tail[q - head.len()]);
            }
        }
    }
}

/// A text of characters that are their own uppercase form is its own
/// uppercase form.
proof fn lemma_upper_text_fixed(x: Seq<char>)
    requires
        forall|i: int| 0 <= i < x.len() ==> uppercase_of(#[trigger] x[i]) == seq![x[i]],
    ensures
        upper_text(x) == x,
    decreases x.len(),
{
    if x.len() > 0 {
        let front = x.drop_last();
        assert forall|i: int| 0 <= i < front.len() implies uppercase_of(#[trigger] front[i])
            == seq![front[i]] by {
            assert(front[i] == x[i]);
        }
        lemma_upper_text_fixed(front);
        assert(uppercase_of(x[x.len() - 1]) == seq![x.last()]);
        assert(upper_text(x) =~= x);
    }
}

/// Every character of a word of `s` is a word character of `s`.
proof fn lemma_word_chars_come_from_text(s: Seq<char>, k: int, q: int)
    requires
        0 <= k < words(s).len(),
        0 <= q < words(s)[k].len(),
    ensures
        exists|i: int| 0 <= i < s.len() && alphanumeric(s[i]) && #[trigger] s[i] == words(s)[k][q],
{
    lemma_spans(s);
    let a = spans(s)[k].0;
    let e = spans(s)[k].1;
    assert(is_word(s, a, e));
    assert(words(s)[k] == s.subrange(a, e));
    assert(s[a + q] == words(s)[k][q]);
}

/// Writing in lowercase twice is writing in lowercase once, with any
/// delimiter that separates, for a text whose word characters all settle:
/// the second pass finds the words that the first one wrote.
pub proof fn lemma_lower_twice(s: Seq<char>, delim: Seq<char>)
    requires
        separates(delim),
        forall|i: int| 0 <= i < s.len() && alphanumeric(s[i]) ==> settles_lower(#[trigger] s[i]),
    ensures
        words(rendered(s, Lower, delim)) == pieces(words(s), Lower),
        rendered(rendered(s, Lower, delim), Lower, delim) == rendered(s, Lower, delim),
{
    let ws = words(s);
    let parts = pieces(ws, Lower);
    lemma_words_are_runs(s);
    assert forall|k: int| 0 <= k < parts.len() implies {
        &&& (#[trigger] parts[k]).len() > 0
        &&& all_word_chars(parts[k])
        &&& no_capital(parts[k])
        &&& lower_text(parts[k]) == parts[k]
    } by {
        let w = ws[k];
        assert(parts[k] == lower_text(w));
        assert forall|q: int| 0 <= q < w.len() implies settles_lower(#[trigger] w[q]) by {
            lemma_word_chars_come_from_text(s, k, q);
        }
        lemma_lower_text_settled(w);
        assert forall|q: int| 0 <= q < parts[k].len() implies lowercase_of(#[trigger] parts[k][q])
            == seq![parts[k][q]] by {
            assert(stays_lower(parts[k][q]));
        }
        lemma_lower_text_fixed(parts[k]);
        assert forall|q: int| 0 <= q < parts[k].len() implies alphanumeric(#[trigger] parts[k][q])
            && !uppercase(parts[k][q]) by {
            assert(stays_lower(parts[k][q]));
        }
    }
    assert(reads_back(parts, delim));
    lemma_words_of_joined(parts, delim);
    assert(pieces(parts, Lower) =~= parts);
}

/// Writing in uppercase twice is writing in uppercase once, with any
/// delimiter that separates and does not begin with a small letter, for a
/// text whose word characters all settle.
pub proof fn lemma_upper_twice(s: Seq<char>, delim: Seq<char>)
    requires
        separates(delim),
        !lowercase(delim[0]),
        forall|i: int| 0 <= i < s.len() && alphanumeric(s[i]) ==> settles_upper(#[trigger] s[i]),
    ensures
        words(rendered(s, Upper, delim)) == pieces(words(s), Upper),
        rendered(rendered(s, Upper, delim), Upper, delim) == rendered(s, Upper, delim),
{
    let ws = words(s);
    let parts = pieces(ws, Upper);
    lemma_words_are_runs(s);
    assert forall|k: int| 0 <= k < parts.len() implies {
        &&& (#[trigger] parts[k]).len() > 0
        &&& all_word_chars(parts[k])
        &&& no_small(parts[k])
        &&& upper_text(parts[k]) == parts[k]
    } by {
        let w = ws[k];
        assert(parts[k] == upper_text(w));
        assert forall|q: int| 0 <= q < w.len() implies settles_upper(#[trigger] w[q]) by {
            lemma_word_chars_come_from_text(s, k, q);
        }
        lemma_upper_text_settled(w);
        assert forall|q: int| 0 <= q < parts[k].len() implies uppercase_of(#[trigger] parts[k][q])
            == seq![parts[k][q]] by {
            assert(stays_upper(parts[k][q]));
        }
        lemma_upper_text_fixed(parts[k]);
        assert forall|q: int| 0 <= q < parts[k].len() implies alphanumeric(#[trigger] parts[k][q])
            && !lowercase(parts[k][q]) by {
            assert(stays_upper(parts[k][q]));
        }
    }
    assert(reads_back(parts, delim));
    lemma_words_of_joined(parts, delim);
    assert(pieces(parts, Upper) =~= parts);
}

/// The lowercase convention applied twice gives what it gives applied once,
/// for a text whose word characters all settle, the space being no word
/// character.
pub proof fn lemma_lower_idempotent(s: Seq<char>)
    requires
        !alphanumeric(' '),
        forall|i: int| 0 <= i < s.len() && alphanumeric(s[i]) ==> settles_lower(#[trigger] s[i]),
    ensures
        lower_case(lower_case(s)) == lower_case(s),
{
    lemma_lower_twice(s, seq![' ']);
}

/// The uppercase convention applied twice gives what it gives applied once,
/// for a text whose word characters all settle, the space being neither a
/// word character nor a small letter.
pub proof fn lemma_upper_idempotent(s: Seq<char>)
    requires
        !alphanumeric(' '),
        !lowercase(' '),
        forall|i: int| 0 <= i < s.len() && alphanumeric(s[i]) ==> settles_upper(#[trigger] s[i]),
    ensures
        upper_case(upper_case(s)) == upper_case(s),
{
    lemma_upper_twice(s, seq![' ']);
}

} // verus!
