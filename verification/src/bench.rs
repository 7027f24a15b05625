//! Benchmark sizing.

use vstd::prelude::*;

verus! {

/// Timed iterations for a square problem of side `n`: fewer repetitions
/// for larger problems.
pub fn iters_for(n: usize) -> (k: usize)
    ensures
        k == if n >= 2048 {
            4usize
        } else if n >= 512 {
            15usize
        } else if n >= 128 {
            100usize
        } else {
            500usize
        },
{
    if n >= 2048 {
        4
    } else if n >= 512 {
        15
    } else if n >= 128 {
        100
    } else {
        500
    }
}

} // verus!
