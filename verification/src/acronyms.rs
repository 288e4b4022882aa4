//! The acronym table: a Python dict, lent by the caller for one call, that
//! says how certain words are to be written.

use crate::chars::lowercased;
use pyo3::types::PyDict;
use vstd::prelude::*;

verus! {

/// A Python dict, as `pyo3` hands it over. Nothing of it is visible here but
/// through `text_entries`.
#[verifier::external_type_specification]
#[verifier::external_body]
pub struct ExPyDict(PyDict);

/// The text entries of a dict: for each text under which `PyDict::get_item`
/// finds a value that is a Python string with a UTF-8 form, that value's
/// text. A key with any other value has no entry.
///
/// The dict is read as the caller lent it: this library never writes to it,
/// and takes it to stay as it is for the length of a call.
pub uninterp spec fn text_entries(d: PyDict) -> Map<Seq<char>, Seq<char>>;

/// Looks `key` up with `PyDict::get_item`, which returns nothing both for a
/// missing key and for a lookup that failed, and reads what was found with
/// `PyAny::extract`, whose error, for a value that is no text, is dropped.
/// What comes back is the entry that `text_entries` holds under `key`.
#[verifier::external_body]
fn text_at<'a>(d: &'a PyDict, key: &str) -> (r: Option<&'a str>)
    ensures
        r is Some <==> text_entries(*d).contains_key(key@),
        r matches Some(v) ==> v@ == text_entries(*d)[key@],
{
    match d.get_item(key) {
        Some(v) => v.extract::<&str>().ok(),
        None => None,
    }
}

/// How the table says that `word` is to be written, if it says so: the
/// entry under the lowercase form of `word`. Without a table there is none.
pub open spec fn acronym_of(word: Seq<char>, acronyms: Option<&PyDict>) -> Option<Seq<char>> {
    match acronyms {
        Some(d) => if text_entries(*d).contains_key(lowercased(word)) {
            Some(text_entries(*d)[lowercased(word)])
        } else {
            None
        },
        None => None,
    }
}

/// The table's replacement for the word `s`, if it has one.
pub fn get_acronym<'a>(s: &str, acronyms: Option<&'a PyDict>) -> (r: Option<&'a str>)
    ensures
        r is Some <==> acronym_of(s@, acronyms) is Some,
        r matches Some(a) ==> acronym_of(s@, acronyms) == Some(a@),
{
    match acronyms {
        Some(d) => {
            let key = s.to_lowercase();
            text_at(d, key.as_str())
        },
        None => None,
    }
}

} // verus!
