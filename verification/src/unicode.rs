//! Unicode character classes and case mappings, as the standard library
//! computes them.

use vstd::prelude::*;

verus! {

/// Whether `c` is alphanumeric (`char::is_alphanumeric`).
pub uninterp spec fn is_alnum(c: char) -> bool;

/// Whether `c` is whitespace (`char::is_whitespace`).
pub uninterp spec fn is_white(c: char) -> bool;

/// The lowercase mapping of `c` (`char::to_lowercase`).
pub uninterp spec fn lower(c: char) -> Seq<char>;

/// The uppercase mapping of `c` (`char::to_uppercase`).
pub uninterp spec fn upper(c: char) -> Seq<char>;

/// `char::is_alphanumeric`: the result is the Unicode table lookup named
/// `is_alnum`; nothing more about which characters qualify is stated.
#[verifier::external_body]
pub(crate) fn char_is_alphanumeric(c: char) -> (res: bool)
    ensures
        res == is_alnum(c),
{
    c.is_alphanumeric()
}

/// `char::is_whitespace`: the result is the Unicode table lookup named
/// `is_white`; nothing more about which characters qualify is stated.
#[verifier::external_body]
pub(crate) fn char_is_whitespace(c: char) -> (res: bool)
    ensures
        res == is_white(c),
{
    c.is_whitespace()
}

/// `char::to_lowercase`, collected: the lowercase mapping named `lower`,
/// which the documentation describes as one or more characters.
#[verifier::external_body]
pub(crate) fn char_to_lowercase(c: char) -> (res: Vec<char>)
    ensures
        res@ == lower(c),
        res@.len() >= 1,
{
    c.to_lowercase().collect()
}

/// `char::to_uppercase`, collected: the uppercase mapping named `upper`,
/// which the documentation describes as one or more characters.
#[verifier::external_body]
pub(crate) fn char_to_uppercase(c: char) -> (res: Vec<char>)
    ensures
        res@ == upper(c),
        res@.len() >= 1,
{
    c.to_uppercase().collect()
}

/// The uppercase form of a text (`str::to_uppercase`).
pub uninterp spec fn upper_text(s: Seq<char>) -> Seq<char>;

/// `str::to_uppercase`: the result is the Unicode uppercase mapping of the
/// text, named `upper_text`; nothing more about the mapping is stated.
#[verifier::external_body]
pub(crate) fn str_to_uppercase(s: &str) -> (res: String)
    ensures
        res@ == upper_text(s@),
{
    s.to_uppercase()
}

/// `String: FromIterator<char>`: the string made of the given characters.
#[verifier::external_body]
pub(crate) fn string_from_chars(chars: &Vec<char>) -> (res: String)
    ensures
        res@ == chars@,
{
    chars.iter().collect()
}

} // verus!
