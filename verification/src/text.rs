//! What this library takes on trust from the standard library to build text.
use vstd::prelude::*;

verus! {

/// Whether `code` is a Unicode scalar value, that is, the code of a `char`:
/// at most `0x10FFFF` and outside the surrogate range.
pub open spec fn is_scalar_value(code: u32) -> bool {
    code < 0xD800 || (0xDFFF < code && code <= 0x10FFFF)
}

/// `char::from_u32` returns the `char` with the given code where the code is
/// a Unicode scalar value, and nothing otherwise.
pub assume_specification[ char::from_u32 ](i: u32) -> (r: Option<char>)
    ensures
        r.is_some() == is_scalar_value(i),
        r.is_some() ==> r.unwrap() as u32 == i,
;

/// `String::push` appends the given `char` to the end of the string.
pub assume_specification[ String::push ](s: &mut String, ch: char)
    ensures
        final(s)@ == old(s)@.push(ch),
;

} // verus!
