//! What the standard library knows of characters and strings, as far as
//! this crate uses it.
use vstd::prelude::*;

verus! {

/// Whether `c` is a letter, as `char::is_alphabetic` decides it.
pub uninterp spec fn is_letter(c: char) -> bool;

/// Whether `c` is white space, as `char::is_whitespace` decides it.
pub uninterp spec fn is_space(c: char) -> bool;

/// `char::is_alphabetic`: the answer depends on the character alone, so it
/// is given the name `is_letter`. Nothing else is claimed of it.
pub assume_specification[ char::is_alphabetic ](c: char) -> (b: bool)
    ensures
        b == is_letter(c),
;

/// `char::is_whitespace`: the answer depends on the character alone, so it
/// is given the name `is_space`. Nothing else is claimed of it.
pub assume_specification[ char::is_whitespace ](c: char) -> (b: bool)
    ensures
        b == is_space(c),
;

/// `String::push`: appends one character to the end of the string.
pub assume_specification[ String::push ](s: &mut String, c: char)
    ensures
        final(s)@ == old(s)@.push(c),
;

/// `str::eq`: two string slices are equal when they hold the same
/// characters in the same order.
pub assume_specification[ <str as PartialEq>::eq ](a: &str, b: &str) -> (r: bool)
    ensures
        r == (a@ == b@),
;

/// Whether `a` and `b` hold the same characters.
pub fn same_text(a: &str, b: &str) -> (r: bool)
    ensures
        r == (a@ == b@),
{
    *a == *b
}

} // verus!
