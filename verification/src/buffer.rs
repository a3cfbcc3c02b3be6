//! Small boolean helper kept for the test suite.

use vstd::prelude::*;

verus! {

/// Logical negation.
pub fn invert(arg: bool) -> (r: bool)
    ensures
        r == !arg,
{
    return !arg;
}

} // verus!
