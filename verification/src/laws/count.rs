//! Counting and adding up over positions.

use vstd::prelude::*;

verus! {

/// How many of the first `n` positions have a property.
pub open spec fn count(n: int, p: spec_fn(int) -> bool) -> nat
    decreases n,
{
    if n <= 0 {
        0
    } else {
        count(n - 1, p) + (if p(n - 1) {
            1nat
        } else {
            0
        })
    }
}

/// What the first `n` positions hold together.
pub open spec fn added(n: int, f: spec_fn(int) -> int) -> int
    decreases n,
{
    if n <= 0 {
        0
    } else {
        added(n - 1, f) + f(n - 1)
    }
}

} // verus!
