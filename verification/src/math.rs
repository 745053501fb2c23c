//! Small arithmetic helpers.

use vstd::prelude::*;

verus! {

/// Sum of two 32-bit integers; the operands must not overflow.
pub fn add(lhs: u32, rhs: u32) -> (r: u32)
    requires
        lhs + rhs <= u32::MAX,
    ensures
        r == lhs + rhs,
{
    lhs + rhs
}

} // verus!
