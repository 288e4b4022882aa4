//! The character classes and case mappings of the standard library, under
//! names that contracts can speak of.
//!
//! The tables behind them are Unicode's and fill pages, so none of these
//! names has a definition here: each stands for what the standard library
//! returns for the same character, and nothing more is claimed of it.

use vstd::prelude::*;

verus! {

/// What `char::is_alphanumeric` returns for `c`: whether `c` is a letter or a number.
pub uninterp spec fn alphanumeric(c: char) -> bool;

/// What `char::is_lowercase` returns for `c`.
pub uninterp spec fn lowercase(c: char) -> bool;

/// What `char::is_uppercase` returns for `c`.
pub uninterp spec fn uppercase(c: char) -> bool;

/// The characters that `char::to_lowercase` yields for `c`, in order.
pub uninterp spec fn lowercase_of(c: char) -> Seq<char>;

/// The characters that `char::to_uppercase` yields for `c`, in order.
pub uninterp spec fn uppercase_of(c: char) -> Seq<char>;

/// The text that `str::to_lowercase` returns for the text `s`.
///
/// This is not `lowercase_of` character by character: the standard library
/// lowers a capital sigma by its place in the word.
pub uninterp spec fn lowercased(s: Seq<char>) -> Seq<char>;

/// `char::is_alphanumeric` is a function of the character alone; its result is
/// the one that `alphanumeric` names.
pub assume_specification[ char::is_alphanumeric ](c: char) -> (b: bool)
    ensures
        b == alphanumeric(c),
;

/// `char::is_lowercase` is a function of the character alone; its result is
/// the one that `lowercase` names.
pub assume_specification[ char::is_lowercase ](c: char) -> (b: bool)
    ensures
        b == lowercase(c),
;

/// `char::is_uppercase` is a function of the character alone; its result is
/// the one that `uppercase` names.
pub assume_specification[ char::is_uppercase ](c: char) -> (b: bool)
    ensures
        b == uppercase(c),
;

/// `char::len_utf8` returns the number of bytes of the character's UTF-8
/// encoding.
pub assume_specification[ char::len_utf8 ](c: char) -> (n: usize)
    ensures
        n == vstd::utf8::encode_scalar(c as u32).len(),
;

/// `str::to_lowercase` is a function of the text alone; its result is the one
/// that `lowercased` names.
pub assume_specification[ str::to_lowercase ](s: &str) -> (r: String)
    ensures
        r@ == lowercased(s@),
;

/// Appends to `buf`, with `String::extend`, what `char::to_lowercase` yields
/// for `c`, and leaves the text that `buf` held in front of it.
#[verifier::external_body]
pub(crate) fn push_lowercase(buf: &mut String, c: char)
    ensures
        final(buf)@ == old(buf)@ + lowercase_of(c),
{
    buf.extend(c.to_lowercase());
}

/// Appends to `buf`, with `String::extend`, what `char::to_uppercase` yields
/// for `c`, and leaves the text that `buf` held in front of it.
#[verifier::external_body]
pub(crate) fn push_uppercase(buf: &mut String, c: char)
    ensures
        final(buf)@ == old(buf)@ + uppercase_of(c),
{
    buf.extend(c.to_uppercase());
}

} // verus!
