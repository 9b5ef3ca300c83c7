//! What this library takes from std's text handling on trust: nothing here
//! is proved, and everything else is proved from it.

use vstd::prelude::*;

verus! {

/// What std documents of `String::push`: the character is appended to the
/// end of the string.
pub assume_specification[ std::string::String::push ](s: &mut std::string::String, c: char)
    ensures
        final(s)@ == old(s)@.push(c),
;

/// The text that the `Debug` formatting of std gives for a string: the
/// string between double quotes, with escapes for the double quote, the
/// backslash and characters that do not print.
pub uninterp spec fn str_debug_text(s: Seq<char>) -> Seq<char>;

/// The text that the `Debug` formatting of std gives for a character: the
/// character between single quotes, with an escape for the single quote,
/// the backslash and characters that do not print.
pub uninterp spec fn char_debug_text(c: char) -> Seq<char>;

/// Formats a string with std's `Debug` implementation for `str`. Trusted,
/// not proved: the text is a function of the string's characters alone.
#[verifier::external_body]
pub(crate) fn debug_str(s: &str) -> (text: String)
    ensures
        text@ == str_debug_text(s@),
{
    format!("{:?}", s)
}

/// Formats a character with std's `Debug` implementation for `char`.
/// Trusted, not proved: the text is a function of the character alone.
#[verifier::external_body]
pub(crate) fn debug_char(c: char) -> (text: String)
    ensures
        text@ == char_debug_text(c),
{
    format!("{:?}", c)
}

} // verus!
