//! What this crate takes on trust of the standard library: the Unicode
//! tables behind `char`, and `String::push`. Verus checks none of it.
//!
//! The tables are long and grow with each version of Unicode, so they are
//! named here and not written out. A contract that goes through one of the
//! names says which table decides, and nothing of what the table holds.

use vstd::prelude::*;

verus! {

/// Whether `c` has the Unicode `Alphabetic` property.
pub uninterp spec fn unicode_alphabetic(c: char) -> bool;

/// Whether `c` is in one of the Unicode general categories for numbers
/// (`Nd`, `Nl` or `No`).
pub uninterp spec fn unicode_numeric(c: char) -> bool;

/// Whether `c` has the Unicode `White_Space` property.
pub uninterp spec fn unicode_whitespace(c: char) -> bool;

/// `char::is_alphabetic` tells whether the character has the `Alphabetic`
/// property. The table is not written out here: the claim is only that the
/// answer depends on the character alone.
pub assume_specification[ char::is_alphabetic ](c: char) -> (b: bool)
    ensures
        b == unicode_alphabetic(c),
;

/// `char::is_numeric` tells whether the character is in a general category
/// for numbers. As above, only the dependence on the character is claimed.
pub assume_specification[ char::is_numeric ](c: char) -> (b: bool)
    ensures
        b == unicode_numeric(c),
;

/// `char::is_whitespace` tells whether the character has the `White_Space`
/// property. As above, only the dependence on the character is claimed.
pub assume_specification[ char::is_whitespace ](c: char) -> (b: bool)
    ensures
        b == unicode_whitespace(c),
;

/// `char::is_alphanumeric` holds of exactly the characters of which
/// `is_alphabetic` or `is_numeric` holds.
pub assume_specification[ char::is_alphanumeric ](c: char) -> (b: bool)
    ensures
        b == (unicode_alphabetic(c) || unicode_numeric(c)),
;

/// `String::push` appends the character to the end of the string.
pub assume_specification[ String::push ](s: &mut String, c: char)
    ensures
        final(s)@ == old(s)@.push(c),
;

} // verus!
