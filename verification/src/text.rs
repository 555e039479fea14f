//! What this crate takes for granted of the standard library's strings.
use vstd::prelude::*;

verus! {

/// `str`'s `==`: two string slices are equal when they hold the same
/// characters.
pub assume_specification[ <str as PartialEq>::eq ](a: &str, b: &str) -> (res: bool)
    ensures
        res == (a@ == b@),
;

} // verus!
