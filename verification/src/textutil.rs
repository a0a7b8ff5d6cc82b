//! Small string comparisons shared by the configuration and rule code.

use vstd::prelude::*;

verus! {

/// Exact character-for-character equality of two string slices.
pub fn string_eq_str(a: &str, b: &str) -> (r: bool)
    ensures
        r == (a@ == b@),
{
    let ao: String = a.to_owned();
    let bo: String = b.to_owned();
    ao == bo
}

} // verus!
