//! The ten naming conventions, each a formatter and a delimiter handed to
//! the engine.

use crate::acronyms::{acronym_of, get_acronym};
use crate::transform::{
    fmt_lower, fmt_title, fmt_upper, lower_text, rendered, title_text, to_string, upper_text,
    WordFn,
};
use pyo3::types::PyDict;
use vstd::prelude::*;
use vstd::string::StringExecFns;

verus! {

/// Writes every word in lowercase.
pub struct Lower;

/// Writes every word in uppercase.
pub struct Upper;

/// Writes every word as the acronym table has it, and a word that the table
/// does not know with a capital first letter.
pub struct Title<'a> {
    pub acronyms: Option<&'a PyDict>,
}

/// Writes the first word in lowercase, whatever the acronym table says of
/// it, and every later word as `Title` does.
pub struct Camel<'a> {
    pub acronyms: Option<&'a PyDict>,
}

/// A word as the acronym table has it, or else with a capital first letter.
pub open spec fn acronym_or_title(word: Seq<char>, acronyms: Option<&PyDict>) -> Seq<char> {
    match acronym_of(word, acronyms) {
        Some(a) => a,
        None => title_text(word),
    }
}

/// Appends `word` to `buf` as the acronym table has it, or else with a
/// capital first letter.
fn fmt_acronym_or_title(buf: &mut String, word: &str, acronyms: Option<&PyDict>)
    ensures
        final(buf)@ == old(buf)@ + acronym_or_title(word@, acronyms),
{
    match get_acronym(word, acronyms) {
        Some(acronym) => buf.append(acronym),
        None => fmt_title(buf, word),
    }
}

impl WordFn for Lower {
    open spec fn text(&self, word: Seq<char>, first: bool) -> Seq<char> {
        lower_text(word)
    }

    fn write(&self, buf: &mut String, word: &str, first: bool) {
        fmt_lower(buf, word)
    }
}

impl WordFn for Upper {
    open spec fn text(&self, word: Seq<char>, first: bool) -> Seq<char> {
        upper_text(word)
    }

    fn write(&self, buf: &mut String, word: &str, first: bool) {
        fmt_upper(buf, word)
    }
}

impl<'a> WordFn for Title<'a> {
    open spec fn text(&self, word: Seq<char>, first: bool) -> Seq<char> {
        acronym_or_title(word, self.acronyms)
    }

    fn write(&self, buf: &mut String, word: &str, first: bool) {
        fmt_acronym_or_title(buf, word, self.acronyms)
    }
}

impl<'a> WordFn for Camel<'a> {
    open spec fn text(&self, word: Seq<char>, first: bool) -> Seq<char> {
        if first {
            lower_text(word)
        } else {
            acronym_or_title(word, self.acronyms)
        }
    }

    fn write(&self, buf: &mut String, word: &str, first: bool) {
        if first {
            fmt_lower(buf, word)
        } else {
            fmt_acronym_or_title(buf, word, self.acronyms)
        }
    }
}

/// The text `s` in camel case.
pub open spec fn camel_case(s: Seq<char>, acronyms: Option<&PyDict>) -> Seq<char> {
    rendered(s, (Camel { acronyms }), Seq::empty())
}

/// The text `s` in pascal case.
pub open spec fn pascal_case(s: Seq<char>, acronyms: Option<&PyDict>) -> Seq<char> {
    rendered(s, (Title { acronyms }), Seq::empty())
}

/// The text `s` in snake case.
pub open spec fn snake_case(s: Seq<char>) -> Seq<char> {
    rendered(s, Lower, seq!['_'])
}

/// The text `s` in screaming snake case.
pub open spec fn screaming_snake_case(s: Seq<char>) -> Seq<char> {
    rendered(s, Upper, seq!['_'])
}

/// The text `s` in kebab case.
pub open spec fn kebab_case(s: Seq<char>) -> Seq<char> {
    rendered(s, Lower, seq!['-'])
}

/// The text `s` in screaming kebab case.
pub open spec fn screaming_kebab_case(s: Seq<char>) -> Seq<char> {
    rendered(s, Upper, seq!['-'])
}

/// The text `s` in train case.
pub open spec fn train_case(s: Seq<char>, acronyms: Option<&PyDict>) -> Seq<char> {
    rendered(s, (Title { acronyms }), seq!['-'])
}

/// The text `s` as lowercase words.
pub open spec fn lower_case(s: Seq<char>) -> Seq<char> {
    rendered(s, Lower, seq![' '])
}

/// The text `s` as title-case words.
pub open spec fn title_case(s: Seq<char>, acronyms: Option<&PyDict>) -> Seq<char> {
    rendered(s, (Title { acronyms }), seq![' '])
}

/// The text `s` as uppercase words.
pub open spec fn upper_case(s: Seq<char>) -> Seq<char> {
    rendered(s, Upper, seq![' '])
}

/// Convert a string to 'camelCase'.
pub fn to_camel(s: &str, acronyms: Option<&PyDict>) -> (r: String)
    ensures
        r@ == camel_case(s@, acronyms),
{
    proof {
        reveal_strlit("");
        assert(""@ =~= Seq::<char>::empty());
    }
    to_string(s, Camel { acronyms }, "")
}

/// Convert a string to 'PascalCase'.
pub fn to_pascal(s: &str, acronyms: Option<&PyDict>) -> (r: String)
    ensures
        r@ == pascal_case(s@, acronyms),
{
    proof {
        reveal_strlit("");
        assert(""@ =~= Seq::<char>::empty());
    }
    to_string(s, Title { acronyms }, "")
}

/// Convert a string to 'snake_case'.
pub fn to_snake(s: &str) -> (r: String)
    ensures
        r@ == snake_case(s@),
{
    proof {
        reveal_strlit("_");
        assert("_"@ =~= seq!['_']);
    }
    to_string(s, Lower, "_")
}

/// Convert a string to 'SCREAMING_SNAKE_CASE'.
pub fn to_screaming_snake(s: &str) -> (r: String)
    ensures
        r@ == screaming_snake_case(s@),
{
    proof {
        reveal_strlit("_");
        assert("_"@ =~= seq!['_']);
    }
    to_string(s, Upper, "_")
}

/// Convert a string to 'kebab-case'.
pub fn to_kebab(s: &str) -> (r: String)
    ensures
        r@ == kebab_case(s@),
{
    proof {
        reveal_strlit("-");
        assert("-"@ =~= seq!['-']);
    }
    to_string(s, Lower, "-")
}

/// Convert a string to 'SCREAMING-KEBAB-CASE'.
pub fn to_screaming_kebab(s: &str) -> (r: String)
    ensures
        r@ == screaming_kebab_case(s@),
{
    proof {
        reveal_strlit("-");
        assert("-"@ =~= seq!['-']);
    }
    to_string(s, Upper, "-")
}

/// Convert a string to 'Train-Case'.
pub fn to_train(s: &str, acronyms: Option<&PyDict>) -> (r: String)
    ensures
        r@ == train_case(s@, acronyms),
{
    proof {
        reveal_strlit("-");
        assert("-"@ =~= seq!['-']);
    }
    to_string(s, Title { acronyms }, "-")
}

/// Convert a string to 'lower case'.
pub fn to_lower(s: &str) -> (r: String)
    ensures
        r@ == lower_case(s@),
{
    proof {
        reveal_strlit(" ");
        assert(" "@ =~= seq![' ']);
    }
    to_string(s, Lower, " ")
}

/// Convert a string to 'Title Case'.
pub fn to_title(s: &str, acronyms: Option<&PyDict>) -> (r: String)
    ensures
        r@ == title_case(s@, acronyms),
{
    proof {
        reveal_strlit(" ");
        assert(" "@ =~= seq![' ']);
    }
    to_string(s, Title { acronyms }, " ")
}

/// Convert a string to 'UPPER CASE'.
pub fn to_upper(s: &str) -> (r: String)
    ensures
        r@ == upper_case(s@),
{
    proof {
        reveal_strlit(" ");
        assert(" "@ =~= seq![' ']);
    }
    to_string(s, Upper, " ")
}

} // verus!
