//! Contracts of the few standard-library functions that the library calls and
//! that come without one. They are trusted: nothing here is proved.

use vstd::prelude::*;

verus! {

/// `String::push` appends one character to the end of the string.
pub assume_specification[ String::push ](s: &mut String, c: char)
    ensures
        final(s)@ == old(s)@.push(c),
;

/// `std::path::is_separator` tells whether the platform separates path
/// components with the character. The answer depends on the machine, so
/// nothing is promised of it.
pub assume_specification[ std::path::is_separator ](c: char) -> (r: bool)
;

/// Whether the Unicode tables class the character as alphabetic.
pub uninterp spec fn unicode_alphabetic(c: char) -> bool;

/// `char::is_alphabetic` looks the character up in the Unicode `Alphabetic`
/// property; among the ASCII characters exactly the 52 letters have it.
pub assume_specification[ char::is_alphabetic ](c: char) -> (r: bool)
    ensures
        r == unicode_alphabetic(c),
        c <= '\x7f' ==> r == ('a' <= c <= 'z' || 'A' <= c <= 'Z'),
;

/// Whether the Unicode tables class the character as alphabetic or numeric.
pub uninterp spec fn unicode_alphanumeric(c: char) -> bool;

/// `char::is_alphanumeric` looks the character up in the Unicode `Alphabetic`
/// property and the numeric general categories; among the ASCII characters
/// exactly the letters and the ten digits satisfy it.
pub assume_specification[ char::is_alphanumeric ](c: char) -> (r: bool)
    ensures
        r == unicode_alphanumeric(c),
        c <= '\x7f' ==> r == ('a' <= c <= 'z' || 'A' <= c <= 'Z' || '0' <= c <= '9'),
;

} // verus!
