//! Trusted contracts for std functions that vstd does not specify.

use vstd::prelude::*;

verus! {

/// Relies on `String::push`: it appends exactly the one given character to
/// the end of the string.
pub assume_specification[ String::push ](s: &mut String, c: char)
    ensures
        final(s)@ == old(s)@.push(c),
;

/// Relies on `char::from_u32`: it converts exactly the scalar values that
/// are no surrogates and at most the largest code point, and the character
/// it returns has the given value as its code point.
pub assume_specification[ char::from_u32 ](v: u32) -> (r: Option<char>)
    ensures
        (r is Some <==> (v < 0xD800 || (0xE000 <= v && v <= 0x10FFFF))),
        (r is Some ==> r->0 as u32 == v),
;

} // verus!
