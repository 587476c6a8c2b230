//! What this crate takes on trust of the standard library's strings.

use vstd::prelude::*;

verus! {

/// The upper-case form of `s` that `str::to_uppercase` computes from the
/// Unicode case mappings.
pub uninterp spec fn uppercase_of(s: Seq<char>) -> Seq<char>;

/// `str::to_uppercase` returns the upper-case equivalent of the text as a new
/// `String`. The result depends on the characters alone; it is not spelled
/// out here, only named.
pub assume_specification[ str::to_uppercase ](s: &str) -> (upper: String)
    ensures
        upper@ == uppercase_of(s@),
;

/// `==` on two string slices holds exactly when they spell the same
/// characters.
pub assume_specification[ <str as PartialEq>::eq ](a: &str, b: &str) -> (same: bool)
    ensures
        same == (a@ == b@),
;

/// `String::push` appends the character to the end of the string and leaves
/// the rest as it was.
pub assume_specification[ String::push ](s: &mut String, c: char)
    ensures
        final(s)@ == old(s)@.push(c),
;

} // verus!
