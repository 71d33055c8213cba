//! Case-insensitive character comparison.
//!
//! Guesses are compared against the secret word and the alphabet layout
//! ignoring ASCII case: `'A'` and `'a'` count as the same letter.

use vstd::prelude::*;

verus! {

/// Code point of `c` with ASCII uppercase letters (codes 65..=90, `'A'`..=`'Z'`)
/// folded to their lowercase counterparts.
pub open spec fn fold_code(c: char) -> int {
    if 65 <= c as u32 && c as u32 <= 90 {
        c as u32 + 32
    } else {
        c as u32 as int
    }
}

/// Case-insensitive character equality: equal up to ASCII case folding.
pub open spec fn eq_ci(a: char, b: char) -> bool {
    fold_code(a) == fold_code(b)
}

/// Decides case-insensitive equality of two characters.
pub fn chars_eq_ci(a: char, b: char) -> (r: bool)
    ensures
        r == eq_ci(a, b),
{
    let ca: u32 = a as u32;
    let cb: u32 = b as u32;
    let fa: u32 = if 65 <= ca && ca <= 90 { ca + 32 } else { ca };
    let fb: u32 = if 65 <= cb && cb <= 90 { cb + 32 } else { cb };
    fa == fb
}

} // verus!
