//! Work partitioning for the SME matrix multiply, and the integer tile.

pub mod tile_i16;

use vstd::prelude::*;

verus! {

/// The number of worker threads before clamping: one thread below
/// 2 GFLOP, at most four P-cores below 8 GFLOP, all P-cores above.
pub open spec fn thread_cap_unclamped(flops: usize, p_cores: usize) -> int {
    if flops < 2_000_000_000int {
        1
    } else if flops < 8_000_000_000int {
        if p_cores < 4 {
            p_cores as int
        } else {
            4
        }
    } else {
        p_cores as int
    }
}

/// Worker threads for a multiply of `flops` floating-point operations
/// over `m_strips` row strips on `p_cores` performance cores: spawning
/// only pays off for large problems, and never more workers than strips.
pub fn thread_cap(flops: usize, p_cores: usize, m_strips: usize) -> (n: usize)
    ensures
        ({
            let hi = if m_strips < 1 { 1 } else { m_strips as int };
            let c = thread_cap_unclamped(flops, p_cores);
            n == if c < 1 { 1 } else if c > hi { hi } else { c }
        }),
        1 <= n,
        n <= m_strips || n == 1,
{
    let work = flops as u64;
    let cap: usize = if work < 2_000_000_000 {
        1
    } else if work < 8_000_000_000 {
        if p_cores < 4 {
            p_cores
        } else {
            4
        }
    } else {
        p_cores
    };
    let hi: usize = if m_strips < 1 {
        1
    } else {
        m_strips
    };
    if cap < 1 {
        1
    } else if cap > hi {
        hi
    } else {
        cap
    }
}

} // verus!
