//! Unicode character classes, as the standard library computes them.

use vstd::prelude::*;

verus! {

/// Whether `char::is_numeric` holds of `c` (general category Nd, Nl or No).
pub uninterp spec fn is_numeric_char(c: char) -> bool;

/// Whether `char::is_alphanumeric` holds of `c` (alphabetic or numeric).
pub uninterp spec fn is_alphanumeric_char(c: char) -> bool;

/// Calls `char::is_numeric`; its result is named `is_numeric_char(c)`, a fixed
/// property of the character (its Unicode general category). Of the ASCII
/// characters, only the digits `0`..=`9` have a numeric category; beyond ASCII
/// nothing else is claimed.
#[verifier::external_body]
pub(crate) fn char_is_numeric(c: char) -> (r: bool)
    ensures
        r == is_numeric_char(c),
        c <= '\u{7f}' ==> (r <==> '0' <= c <= '9'),
{
    c.is_numeric()
}

/// Calls `char::is_alphanumeric` (alphabetic or numeric); its result is named
/// `is_alphanumeric_char(c)`, a fixed property of the character. Of the ASCII
/// characters, exactly the letters and digits are alphanumeric; beyond ASCII
/// nothing else is claimed.
#[verifier::external_body]
pub(crate) fn char_is_alphanumeric(c: char) -> (r: bool)
    ensures
        r == is_alphanumeric_char(c),
        c <= '\u{7f}' ==> (r <==> ('0' <= c <= '9' || 'A' <= c <= 'Z' || 'a' <= c <= 'z')),
{
    c.is_alphanumeric()
}

} // verus!
