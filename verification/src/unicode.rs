//! The two questions about characters that are left to the standard library, which
//! answers them from the tables of Unicode: what a text is in lower case, and
//! whether a character is a letter or a digit.

use vstd::prelude::*;

verus! {

/// `text` in lower case, as `str::to_lowercase` gives it.
pub uninterp spec fn lowercase_of(text: Seq<char>) -> Seq<char>;

/// Whether `c` is a letter or a digit, as `char::is_alphanumeric` says.
pub uninterp spec fn is_alphanumeric(c: char) -> bool;

/// Calls `str::to_lowercase`. Assumed: the result depends on the text alone.
#[verifier::external_body]
pub(crate) fn text_lowercase(text: &str) -> (lower: String)
    ensures
        lower@ == lowercase_of(text@),
{
    text.to_lowercase()
}

/// Calls `char::is_alphanumeric`. Assumed: the result depends on the character alone.
#[verifier::external_body]
pub(crate) fn char_is_alphanumeric(c: char) -> (r: bool)
    ensures
        r == is_alphanumeric(c),
{
    c.is_alphanumeric()
}

} // verus!
