//! Range test of one reading against an inclusive `[min, max]` interval.

use vstd::prelude::*;

use crate::value::{num64_of, DataType, DataValue};

verus! {

/// An inclusive range a numeric reading must fall in.
#[derive(Debug, Clone, Copy, PartialEq, Eq, Structural)]
pub struct Boundary {
    pub min: i64,
    pub max: i64,
}

/// A value passes a boundary exactly when it stands for a number inside
/// the inclusive range; anything non-numeric never does.
pub open spec fn spec_boundary_pass(b: Boundary, v: DataValue) -> bool {
    match num64_of(v) {
        Some(n) => b.min <= n && n <= b.max,
        None => false,
    }
}

/// Passes iff `min <= value <= max`; a value that stands for no finite
/// number always fails.
pub fn boundary_check(b: &Boundary, data: &DataType) -> (r: bool)
    ensures
        r == spec_boundary_pass(*b, data@),
{
    match data.to_number() {
        Some(n) => b.min <= n && n <= b.max,
        None => false,
    }
}

} // verus!
