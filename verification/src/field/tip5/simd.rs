//! Eight-lane batched primitives for Tip5, lane for lane identical to the
//! scalar primitives: a Montgomery multiply and the x^7 power map.
//!
//! The accelerated form runs in streaming SVE mode; the entry points that
//! open the scope themselves refuse to run without FEAT_SME, exactly as the
//! scope does.

use crate::error::CpuError;
use crate::field::tip5::neon::{mont_mul, pow7_raw};
use crate::field::tip5::scalar::bfe_mul_raw;
use crate::streaming::Stream;
use vstd::prelude::*;

verus! {

fn mul_lanes(a: &[u64; 8], b: &[u64; 8], out: &mut [u64; 8])
    ensures
        forall|i: int| 0 <= i < 8 ==> #[trigger] final(out)@[i] as int == mont_mul(
            a@[i] as int,
            b@[i] as int,
        ),
{
    let mut i: usize = 0;
    while i < 8
        invariant
            i <= 8,
            out@.len() == 8,
            forall|k: int| 0 <= k < i ==> #[trigger] out@[k] as int == mont_mul(
                a@[k] as int,
                b@[k] as int,
            ),
        decreases 8 - i,
    {
        out[i] = bfe_mul_raw(a[i], b[i]);
        i += 1;
    }
}

fn pow7_lanes(state: &mut [u64; 8])
    ensures
        forall|i: int| 0 <= i < 8 ==> #[trigger] final(state)@[i] as int == pow7_raw(
            old(state)@[i] as int,
        ),
{
    let ghost s0 = state@;
    let mut i: usize = 0;
    while i < 8
        invariant
            i <= 8,
            state@.len() == 8,
            forall|k: int| 0 <= k < i ==> #[trigger] state@[k] as int == pow7_raw(s0[k] as int),
            forall|k: int| i <= k < 8 ==> #[trigger] state@[k] == s0[k],
        decreases 8 - i,
    {
        let x = state[i];
        let sq = bfe_mul_raw(x, x);
        let qu = bfe_mul_raw(sq, sq);
        let s6 = bfe_mul_raw(sq, qu);
        state[i] = bfe_mul_raw(x, s6);
        i += 1;
    }
}

/// Batched Montgomery multiply `out[i] = montyred(a[i] * b[i])` for the eight
/// lanes, on a host that does (`has_sme`) or does not support FEAT_SME;
/// without it the answer is `FeatureNotAvailable(Sme)` and `out` is left
/// alone.
pub fn raw_mul_batch8(has_sme: bool, a: &[u64; 8], b: &[u64; 8], out: &mut [u64; 8]) -> (r:
    Result<(), CpuError>)
    ensures
        r == Stream::require_sme_spec(has_sme),
        !has_sme ==> final(out)@ == old(out)@,
        has_sme ==> forall|i: int|
            0 <= i < 8 ==> #[trigger] final(out)@[i] as int == mont_mul(a@[i] as int, b@[i] as int),
{
    match Stream::require_sme(has_sme) {
        Err(e) => Err(e),
        Ok(()) => {
            mul_lanes(a, b, out);
            Ok(())
        },
    }
}

/// Batched Montgomery multiply inside a streaming scope the caller holds.
pub fn raw_mul_batch8_in_stream(_stream: &Stream, a: &[u64; 8], b: &[u64; 8], out: &mut [u64; 8])
    ensures
        forall|i: int| 0 <= i < 8 ==> #[trigger] final(out)@[i] as int == mont_mul(
            a@[i] as int,
            b@[i] as int,
        ),
{
    mul_lanes(a, b, out);
}

/// Apply x^7 to eight raw Montgomery words in the S-box multiplication
/// order `x * ((x^2) * (x^2)^2)`, on a host that does (`has_sme`) or does
/// not support FEAT_SME; without it the state is left alone.
pub fn sbox_x7_8way(has_sme: bool, state: &mut [u64; 8]) -> (r: Result<(), CpuError>)
    ensures
        r == Stream::require_sme_spec(has_sme),
        !has_sme ==> final(state)@ == old(state)@,
        has_sme ==> forall|i: int|
            0 <= i < 8 ==> #[trigger] final(state)@[i] as int == pow7_raw(old(state)@[i] as int),
{
    match Stream::require_sme(has_sme) {
        Err(e) => Err(e),
        Ok(()) => {
            pow7_lanes(state);
            Ok(())
        },
    }
}

/// x^7 on eight lanes inside a streaming scope the caller holds.
pub fn sbox_x7_8way_in_stream(_stream: &Stream, state: &mut [u64; 8])
    ensures
        forall|i: int| 0 <= i < 8 ==> #[trigger] final(state)@[i] as int == pow7_raw(
            old(state)@[i] as int,
        ),
{
    pow7_lanes(state);
}

} // verus!
