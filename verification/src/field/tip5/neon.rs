//! x^7 S-box on the twelve power-map lanes of the Tip5 state.
//!
//! Four serial multiply layers over twelve independent lanes:
//! `sq = x^2`, `qu = sq^2`, `x^6 = sq * qu`, `x^7 = x * x^6`, each a
//! Montgomery multiplication.

use crate::field::tip5::scalar::{monty_reduce, montyred};
use vstd::arithmetic::mul::*;
use vstd::prelude::*;

verus! {

/// Montgomery product of two raw words.
pub open spec fn mont_mul(a: int, b: int) -> int {
    monty_reduce(a * b)
}

/// Raw Montgomery seventh power, in the multiplication order of the
/// S-box: `x * ((x^2) * (x^2)^2)`.
pub open spec fn pow7_raw(x: int) -> int {
    let sq = mont_mul(x, x);
    let qu = mont_mul(sq, sq);
    mont_mul(x, mont_mul(sq, qu))
}

proof fn lemma_wide_product(a: u64, b: u64)
    ensures
        (a as u128) * (b as u128) <= u128::MAX,
{
    lemma_mul_upper_bound(a as int, u64::MAX as int, b as int, u64::MAX as int);
}

/// Apply x^7 in place to `state[4..16]`; lanes `0..4` are left alone.
pub fn pow7_last12(state: &mut [u64; 16])
    ensures
        forall|i: int| 0 <= i < 4 ==> #[trigger] final(state)@[i] == old(state)@[i],
        forall|i: int| 4 <= i < 16 ==> #[trigger] final(state)@[i] as int == pow7_raw(
            old(state)@[i] as int,
        ),
{
    let ghost s0 = state@;
    // Layer 1: sq[i] = x[i]^2.
    let mut sq = [0u128; 12];
    let mut i: usize = 0;
    while i < 12
        invariant
            state@ == s0,
            i <= 12,
            forall|k: int| 0 <= k < i ==> #[trigger] sq@[k] == (s0[k + 4] as u128) * (s0[k + 4] as u128),
        decreases 12 - i,
    {
        let x = state[i + 4] as u128;
        proof {
            lemma_wide_product(state[i + 4], state[i + 4]);
        }
        sq[i] = x * x;
        i += 1;
    }
    let mut sq_r = [0u64; 12];
    let mut i: usize = 0;
    while i < 12
        invariant
            state@ == s0,
            i <= 12,
            forall|k: int| 0 <= k < 12 ==> #[trigger] sq@[k] == (s0[k + 4] as u128) * (s0[k + 4] as u128),
            forall|k: int| 0 <= k < i ==> #[trigger] sq_r@[k] as int == mont_mul(s0[k + 4] as int, s0[k + 4] as int),
        decreases 12 - i,
    {
        sq_r[i] = montyred(sq[i]);
        i += 1;
    }
    // Layer 2: qu[i] = sq[i]^2.
    let mut qu = [0u128; 12];
    let mut i: usize = 0;
    while i < 12
        invariant
            state@ == s0,
            i <= 12,
            forall|k: int| 0 <= k < i ==> #[trigger] qu@[k] == (sq_r@[k] as u128) * (sq_r@[k] as u128),
        decreases 12 - i,
    {
        let s = sq_r[i] as u128;
        proof {
            lemma_wide_product(sq_r[i as int], sq_r[i as int]);
        }
        qu[i] = s * s;
        i += 1;
    }
    let mut qu_r = [0u64; 12];
    let mut i: usize = 0;
    while i < 12
        invariant
            state@ == s0,
            i <= 12,
            forall|k: int| 0 <= k < 12 ==> #[trigger] qu@[k] == (sq_r@[k] as u128) * (sq_r@[k] as u128),
            forall|k: int| 0 <= k < i ==> #[trigger] qu_r@[k] as int == mont_mul(sq_r@[k] as int, sq_r@[k] as int),
        decreases 12 - i,
    {
        qu_r[i] = montyred(qu[i]);
        i += 1;
    }
    // Layer 3: sq_qu[i] = sq[i] * qu[i] = x^6.
    let mut sq_qu = [0u128; 12];
    let mut i: usize = 0;
    while i < 12
        invariant
            state@ == s0,
            i <= 12,
            forall|k: int| 0 <= k < i ==> #[trigger] sq_qu@[k] == (sq_r@[k] as u128) * (qu_r@[k] as u128),
        decreases 12 - i,
    {
        proof {
            lemma_wide_product(sq_r[i as int], qu_r[i as int]);
        }
        sq_qu[i] = (sq_r[i] as u128) * (qu_r[i] as u128);
        i += 1;
    }
    let mut sq_qu_r = [0u64; 12];
    let mut i: usize = 0;
    while i < 12
        invariant
            state@ == s0,
            i <= 12,
            forall|k: int| 0 <= k < 12 ==> #[trigger] sq_qu@[k] == (sq_r@[k] as u128) * (qu_r@[k] as u128),
            forall|k: int| 0 <= k < i ==> #[trigger] sq_qu_r@[k] as int == mont_mul(sq_r@[k] as int, qu_r@[k] as int),
        decreases 12 - i,
    {
        sq_qu_r[i] = montyred(sq_qu[i]);
        i += 1;
    }
    // Layer 4: x^7 = x * x^6.
    let mut out = [0u128; 12];
    let mut i: usize = 0;
    while i < 12
        invariant
            state@ == s0,
            i <= 12,
            forall|k: int| 0 <= k < i ==> #[trigger] out@[k] == (s0[k + 4] as u128) * (sq_qu_r@[k] as u128),
        decreases 12 - i,
    {
        proof {
            lemma_wide_product(state[i + 4], sq_qu_r[i as int]);
        }
        out[i] = (state[i + 4] as u128) * (sq_qu_r[i] as u128);
        i += 1;
    }
    let mut i: usize = 0;
    while i < 12
        invariant
            i <= 12,
            forall|k: int| 0 <= k < 12 ==> #[trigger] out@[k] == (s0[k + 4] as u128) * (sq_qu_r@[k] as u128),
            forall|k: int| 0 <= k < 4 ==> #[trigger] state@[k] == s0[k],
            forall|k: int| 4 + i <= k < 16 ==> #[trigger] state@[k] == s0[k],
            forall|k: int| 4 <= k < 4 + i ==> #[trigger] state@[k] as int == mont_mul(s0[k] as int, sq_qu_r@[k - 4] as int),
        decreases 12 - i,
    {
        state[i + 4] = montyred(out[i]);
        i += 1;
    }
    proof {
        assert forall|k: int| 4 <= k < 16 implies #[trigger] state@[k] as int == pow7_raw(s0[k] as int) by {
            let j = k - 4;
            assert(sq_r@[j] as int == mont_mul(s0[k] as int, s0[k] as int));
            assert(qu_r@[j] as int == mont_mul(sq_r@[j] as int, sq_r@[j] as int));
            assert(sq_qu_r@[j] as int == mont_mul(sq_r@[j] as int, qu_r@[j] as int));
        }
    }
}

} // verus!
