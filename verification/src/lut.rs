//! Table-indexed byte permutes: a 16-entry byte table applied to a stream
//! of indices.

use crate::error::{CpuError, Feature};
use vstd::prelude::*;

verus! {

/// The answer of `permute_u8` on a host with or without FEAT_SME2.
pub open spec fn lut_feature_spec(has_sme2: bool) -> Result<(), CpuError> {
    if has_sme2 {
        Ok(())
    } else {
        Err(CpuError::FeatureNotAvailable(Feature::Sme2))
    }
}

/// Apply a 16-entry byte table to a stream of indices:
/// `out[i] = table[idx[i] & 0xF]`, so indices wrap modulo 16. On a host
/// without FEAT_SME2 (`has_sme2` false) the answer is
/// `FeatureNotAvailable(Sme2)` and `out` is left alone.
pub fn permute_u8(has_sme2: bool, table: &[u8; 16], idx: &[u8], out: &mut [u8]) -> (r: Result<
    (),
    CpuError,
>)
    requires
        idx@.len() == old(out)@.len(),
    ensures
        r == lut_feature_spec(has_sme2),
        !has_sme2 ==> final(out)@ == old(out)@,
        has_sme2 ==> final(out)@.len() == idx@.len(),
        has_sme2 ==> forall|i: int|
            0 <= i < idx@.len() ==> #[trigger] final(out)@[i] == table@[(idx@[i] % 16) as int],
{
    if !has_sme2 {
        return Err(CpuError::FeatureNotAvailable(Feature::Sme2));
    }
    let n = idx.len();
    let mut i: usize = 0;
    while i < n
        invariant
            n == idx@.len(),
            out@.len() == n,
            i <= n,
            forall|k: int| 0 <= k < i ==> #[trigger] out@[k] == table@[(idx@[k] % 16) as int],
        decreases n - i,
    {
        let x = idx[i];
        let j = x & 0x0F;
        assert(x & 0x0F == x % 16) by (bit_vector);
        out[i] = table[j as usize];
        i += 1;
    }
    Ok(())
}

} // verus!
