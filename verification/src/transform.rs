//! The engine: it cuts a text into words, writes each word through a
//! formatter, and puts a delimiter between one word and the next.

use crate::chars::{
    alphanumeric, lowercase, lowercase_of, push_lowercase, push_uppercase, uppercase_of,
};
use crate::offsets::{
    byte_offset, lemma_offset_bounds, lemma_offset_increases, lemma_offset_is_boundary,
    lemma_offset_step, lemma_text_between, substring,
};
use crate::words::{
    lemma_next_word, lemma_no_start_between, starts_word, state_at, stops_at, words, words_upto,
    State,
};
use vstd::prelude::*;
use vstd::std_specs::iter::IteratorSpec;
use vstd::string::StringExecFns;
use vstd::utf8::encode_utf8;

verus! {

/// A way to write one word.
pub trait WordFn {
    /// The text that stands for `word` in the output. `first` says whether
    /// `word` is the first word of the text.
    spec fn text(&self, word: Seq<char>, first: bool) -> Seq<char>;

    /// Appends the text for `word` to `buf`.
    fn write(&self, buf: &mut String, word: &str, first: bool)
        ensures
            final(buf)@ == old(buf)@ + self.text(word@, first),
    ;
}

/// What a formatter makes of each word of `ws`, in the same order.
pub open spec fn pieces<F: WordFn>(ws: Seq<Seq<char>>, word_fn: F) -> Seq<Seq<char>> {
    Seq::new(ws.len(), |k: int| word_fn.text(ws[k], k == 0))
}

/// The texts of `parts` in a row, with `delim` between one and the next.
pub open spec fn join(parts: Seq<Seq<char>>, delim: Seq<char>) -> Seq<char>
    decreases parts.len(),
{
    if parts.len() == 0 {
        Seq::empty()
    } else if parts.len() == 1 {
        parts[0]
    } else {
        join(parts.drop_last(), delim) + delim + parts.last()
    }
}

/// The text that the engine makes of `s`: each word of `s` as the formatter
/// writes it, with `delim` between one word and the next.
pub open spec fn rendered<F: WordFn>(s: Seq<char>, word_fn: F, delim: Seq<char>) -> Seq<char> {
    join(pieces(words(s), word_fn), delim)
}

/// One more word in the output: the delimiter, unless the word is the
/// first, and then the word as the formatter writes it.
pub proof fn lemma_join_push<F: WordFn>(
    ws: Seq<Seq<char>>,
    w: Seq<char>,
    word_fn: F,
    delim: Seq<char>,
)
    ensures
        pieces(ws.push(w), word_fn) == pieces(ws, word_fn).push(word_fn.text(w, ws.len() == 0)),
        join(pieces(ws.push(w), word_fn), delim) == join(pieces(ws, word_fn), delim) + (if ws.len()
            == 0 {
            Seq::empty()
        } else {
            delim
        }) + word_fn.text(w, ws.len() == 0),
{
    let before = pieces(ws, word_fn);
    let after = pieces(ws.push(w), word_fn);
    assert(after =~= before.push(word_fn.text(w, ws.len() == 0)));
    assert(after.drop_last() =~= before);
    if ws.len() == 0 {
        assert(join(after, delim) =~= Seq::<char>::empty() + Seq::<char>::empty() + after[0]);
    }
}

/// A word with every character replaced by its lowercase mapping.
pub open spec fn lower_text(word: Seq<char>) -> Seq<char>
    decreases word.len(),
{
    if word.len() == 0 {
        Seq::empty()
    } else {
        lower_text(word.drop_last()) + lowercase_of(word.last())
    }
}

/// A word with every character replaced by its uppercase mapping.
pub open spec fn upper_text(word: Seq<char>) -> Seq<char>
    decreases word.len(),
{
    if word.len() == 0 {
        Seq::empty()
    } else {
        upper_text(word.drop_last()) + uppercase_of(word.last())
    }
}

/// A word with its first character replaced by its uppercase mapping and
/// every later one by its lowercase mapping.
pub open spec fn title_text(word: Seq<char>) -> Seq<char> {
    if word.len() == 0 {
        Seq::empty()
    } else {
        uppercase_of(word[0]) + lower_text(word.drop_first())
    }
}

/// Appends the lowercase form of `s` to `buf`.
pub fn fmt_lower(buf: &mut String, s: &str)
    ensures
        final(buf)@ == old(buf)@ + lower_text(s@),
{
    for c in iter: s.chars()
        invariant
            iter.seq() == s@,
            buf@ == old(buf)@ + lower_text(s@.take(iter.index() as int)),
    {
        push_lowercase(buf, c);
        proof {
            let n = iter.index() as int;
            assert(s@.take(n + 1).drop_last() =~= s@.take(n));
        }
    }
    proof {
        assert(s@.take(s@.len() as int) =~= s@);
    }
}

/// Appends the uppercase form of `s` to `buf`.
pub fn fmt_upper(buf: &mut String, s: &str)
    ensures
        final(buf)@ == old(buf)@ + upper_text(s@),
{
    for c in iter: s.chars()
        invariant
            iter.seq() == s@,
            buf@ == old(buf)@ + upper_text(s@.take(iter.index() as int)),
    {
        push_uppercase(buf, c);
        proof {
            let n = iter.index() as int;
            assert(s@.take(n + 1).drop_last() =~= s@.take(n));
        }
    }
    proof {
        assert(s@.take(s@.len() as int) =~= s@);
    }
}

/// Appends the title form of `s` to `buf`: the first character in
/// uppercase, the others in lowercase.
pub fn fmt_title(buf: &mut String, s: &str)
    ensures
        final(buf)@ == old(buf)@ + title_text(s@),
{
    let mut iter = s.chars();
    if let Some(c) = iter.next() {
        push_uppercase(buf, c);
        let ghost rest = s@.drop_first();
        let ghost mut n: int = 0;
        loop
            invariant
                0 <= n <= rest.len(),
                iter.remaining() == rest.skip(n),
                iter.obeys_prophetic_iter_laws(),
                buf@ == old(buf)@ + uppercase_of(s@[0]) + lower_text(rest.take(n)),
            ensures
                buf@ == old(buf)@ + uppercase_of(s@[0]) + lower_text(rest),
            decreases rest.len() - n,
        {
            match iter.next() {
                Some(c) => {
                    push_lowercase(buf, c);
                    proof {
                        assert(rest.take(n + 1).drop_last() =~= rest.take(n));
                        assert(rest.skip(n).drop_first() =~= rest.skip(n + 1));
                        n = n + 1;
                    }
                },
                None => {
                    proof {
                        assert(rest.take(n) =~= rest);
                    }
                    break ;
                },
            }
        }
        proof {
            assert(buf@ =~= old(buf)@ + (uppercase_of(s@[0]) + lower_text(rest)));
        }
    }
}

/// Writes the word that lies between the byte offsets `w0` and `w1` of `s`,
/// if there is one, after the delimiter that parts it from the word before.
/// After a word has been written, `first` is false.
fn write_word<F: WordFn>(
    s: &str,
    buf: &mut String,
    word_fn: &F,
    delim: &str,
    first: &mut bool,
    w0: usize,
    w1: usize,
    Ghost(k0): Ghost<int>,
    Ghost(k1): Ghost<int>,
)
    requires
        0 <= k0 <= k1 <= s@.len(),
        w0 == byte_offset(s@, k0),
        w1 == byte_offset(s@, k1),
    ensures
        k0 == k1 ==> *final(first) == *old(first) && final(buf)@ == old(buf)@,
        k0 < k1 ==> !*final(first) && final(buf)@ == old(buf)@ + (if *old(first) {
            Seq::empty()
        } else {
            delim@
        }) + word_fn.text(s@.subrange(k0, k1), *old(first)),
{
    proof {
        lemma_offset_increases(s@, k0, k1);
    }
    if w1 - w0 > 0 {
        let is_first = *first;
        if is_first {
            *first = false;
        } else {
            buf.append(delim);
        }
        proof {
            lemma_offset_is_boundary(s@, k0);
            lemma_offset_is_boundary(s@, k1);
        }
        let word = substring(s, w0, w1);
        proof {
            lemma_text_between(s@, word@, k0, k1);
            assert(buf@ =~= old(buf)@ + (if is_first {
                Seq::<char>::empty()
            } else {
                delim@
            }));
        }
        word_fn.write(buf, word, is_first);
    }
}

/// Whether the character that follows, if there is one, is a small letter.
fn followed_by_lowercase(next: Option<char>) -> (b: bool)
    ensures
        b == (next matches Some(c) && lowercase(c)),
{
    match next {
        Some(c) => c.is_lowercase(),
        None => false,
    }
}

/// What writing the pending word adds to the output. The pending word
/// begins at `k0` and ends at `e`; it is there unless `e` is `k0`, which
/// happens only before the first word of the text. No word begins after
/// `k0` and before `n`.
proof fn lemma_pending_word<F: WordFn>(
    s: Seq<char>,
    k0: int,
    e: int,
    n: int,
    word_fn: F,
    delim: Seq<char>,
)
    requires
        0 <= k0 <= e <= n <= s.len(),
        k0 == 0 || starts_word(s, k0),
        forall|j: int| k0 <= j < e ==> alphanumeric(s[j]),
        forall|j: int| k0 < j < n ==> !starts_word(s, j),
        stops_at(s, e),
        k0 == e ==> k0 == 0 && (n == 0 || !alphanumeric(s[0])),
        k0 < e ==> k0 < n,
    ensures
        k0 == e ==> words_upto(s, n) == words_upto(s, k0),
        k0 < e ==> words_upto(s, n).len() > 0 && join(pieces(words_upto(s, n), word_fn), delim)
            == join(pieces(words_upto(s, k0), word_fn), delim) + (if words_upto(s, k0).len() == 0 {
            Seq::empty()
        } else {
            delim
        }) + word_fn.text(s.subrange(k0, e), words_upto(s, k0).len() == 0),
{
    if k0 < e {
        lemma_next_word(s, k0, e, n);
        lemma_join_push(words_upto(s, k0), s.subrange(k0, e), word_fn, delim);
    } else {
        lemma_no_start_between(s, 0, n);
    }
}

/// Cuts `s` into words and appends them to `buf`, each as `word_fn` writes
/// it, with `delim` between one word and the next.
pub fn transform<F: WordFn>(s: &str, buf: &mut String, word_fn: F, delim: &str)
    ensures
        final(buf)@ == old(buf)@ + rendered(s@, word_fn, delim@),
{
    let end: usize = s.as_bytes().len();
    // whether no word has been written yet
    let mut first = true;
    // the byte offset at which the current word begins
    let mut w0: usize = 0;
    // the byte offset at which the current word ended, once a separator was met
    let mut w1: Option<usize> = None;
    let mut state = State::Unknown;
    let mut iter = s.chars();
    // the character to read, and the byte offset at which it begins
    let mut cur: Option<char> = iter.next();
    let mut i: usize = 0;
    // the indices of the characters that begin at `i`, `w0` and `w1`
    let ghost mut k: int = 0;
    let ghost mut k0: int = 0;
    let ghost mut k1: int = 0;
    proof {
        lemma_offset_bounds(s@, 0);
        assert(s@.len() > 0 ==> s@.drop_first() =~= s@.skip(1));
        assert(buf@ =~= old(buf)@ + join(pieces(words_upto(s@, 0), word_fn), delim@));
    }
    while cur.is_some()
        invariant
            0 <= k0 <= k <= s@.len(),
            k0 < k || k == 0,
            end == encode_utf8(s@).len(),
            i == byte_offset(s@, k),
            w0 == byte_offset(s@, k0),
            cur == (if k < s@.len() {
                Some(s@[k])
            } else {
                None
            }),
            iter.remaining() == (if k < s@.len() {
                s@.skip(k + 1)
            } else {
                Seq::empty()
            }),
            iter.obeys_prophetic_iter_laws(),
            state == state_at(s@, k),
            buf@ == old(buf)@ + join(pieces(words_upto(s@, k0), word_fn), delim@),
            first == (words_upto(s@, k0).len() == 0),
            k0 == 0 || starts_word(s@, k0),
            forall|j: int| k0 < j < k ==> !starts_word(s@, j),
            state is Delims ==> w1 == Some(byte_offset(s@, k1) as usize) && k0 <= k1 < k
                && !alphanumeric(s@[k1]) && forall|j: int| k0 <= j < k1 ==> alphanumeric(s@[j]),
            !(state is Delims) ==> w1 is None && forall|j: int| k0 <= j < k ==> alphanumeric(s@[j]),
        decreases s@.len() - k,
    {
        let c = cur.unwrap();
        let next = iter.next();
        proof {
            lemma_offset_step(s@, k);
            lemma_offset_bounds(s@, k);
            lemma_offset_bounds(s@, k0);
            assert(s@.skip(k + 1).len() > 0 ==> s@.skip(k + 1).drop_first() =~= s@.skip(k + 2));
        }
        let width = c.len_utf8();
        if !c.is_alphanumeric() {
            if w1.is_none() {
                w1 = Some(i);
                proof {
                    k1 = k;
                }
            }
            state = State::Delims;
        } else {
            let is_lower = c.is_lowercase();
            let is_upper = c.is_uppercase();
            match state {
                State::Delims => {
                    if let Some(e) = w1 {
                        proof {
                            lemma_offset_bounds(s@, k1);
                            lemma_pending_word(s@, k0, k1, k, word_fn, delim@);
                        }
                        write_word(s, buf, &word_fn, delim, &mut first, w0, e, Ghost(k0), Ghost(k1));
                    }
                    w0 = i;
                    w1 = None;
                    proof {
                        k0 = k;
                    }
                },
                State::Lower => {
                    if is_upper {
                        proof {
                            lemma_pending_word(s@, k0, k, k, word_fn, delim@);
                        }
                        write_word(s, buf, &word_fn, delim, &mut first, w0, i, Ghost(k0), Ghost(k));
                        w0 = i;
                        proof {
                            k0 = k;
                        }
                    }
                },
                State::Upper => {
                    if is_upper && followed_by_lowercase(next) {
                        proof {
                            lemma_pending_word(s@, k0, k, k, word_fn, delim@);
                        }
                        write_word(s, buf, &word_fn, delim, &mut first, w0, i, Ghost(k0), Ghost(k));
                        w0 = i;
                        proof {
                            k0 = k;
                        }
                    }
                },
                State::Unknown => {},
            }
            if is_lower {
                state = State::Lower;
            } else if is_upper {
                state = State::Upper;
            } else if let State::Delims = state {
                state = State::Unknown;
            }
        }
        i = i + width;
        cur = next;
        proof {
            k = k + 1;
        }
    }
    proof {
        lemma_offset_bounds(s@, k0);
        lemma_offset_bounds(s@, k);
    }
    match state {
        State::Delims => {
            if let Some(e) = w1 {
                proof {
                    lemma_offset_bounds(s@, k1);
                    lemma_pending_word(s@, k0, k1, k, word_fn, delim@);
                }
                write_word(s, buf, &word_fn, delim, &mut first, w0, e, Ghost(k0), Ghost(k1));
            }
        },
        _ => {
            proof {
                lemma_pending_word(s@, k0, k, k, word_fn, delim@);
            }
            write_word(s, buf, &word_fn, delim, &mut first, w0, end, Ghost(k0), Ghost(k));
        },
    }
}

/// `String::with_capacity` returns an empty string. It panics for a capacity
/// of more than `isize::MAX` bytes, which the condition leaves out.
pub assume_specification[ String::with_capacity ](capacity: usize) -> (r: String)
    requires
        capacity <= isize::MAX,
    ensures
        r@ == Seq::<char>::empty(),
;

/// The text that the engine makes of `s`, as a new string.
pub fn to_string<F: WordFn>(s: &str, word_fn: F, delim: &str) -> (r: String)
    ensures
        r@ == rendered(s@, word_fn, delim@),
{
    let size = s.len();
    // room for the text as it is, which is most often near what will be written
    let mut buf = if size <= isize::MAX as usize {
        String::with_capacity(size)
    } else {
        String::new()
    };
    transform(s, &mut buf, word_fn, delim);
    proof {
        assert(buf@ =~= rendered(s@, word_fn, delim@));
    }
    buf
}

} // verus!
