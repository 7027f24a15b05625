//! Tip5 MDS layer: multiplication by the circulant 16 x 16 matrix whose
//! first column is `MDS_MATRIX_FIRST_COLUMN`, on raw words, followed by a
//! folding reduction of the 128-bit column sums.

use crate::field::goldilocks::P;
use crate::field::tip5::consts::MDS_MATRIX_FIRST_COLUMN;
use crate::field::tip5::scalar::{lemma_split_u128, two64, EPSILON};
use vstd::arithmetic::div_mod::*;
use vstd::arithmetic::mul::*;
use vstd::prelude::*;

verus! {

/// Entry `(r, j)` of the circulant MDS matrix.
pub open spec fn mds_entry(r: int, j: int) -> int {
    MDS_MATRIX_FIRST_COLUMN@[(r - j) % 16] as int
}

/// `sum_{j < n} M[r][j] * s[j]`, exact over the integers.
pub open spec fn circulant_sum(s: Seq<u64>, r: int, n: nat) -> int
    decreases n,
{
    if n == 0 {
        0
    } else {
        circulant_sum(s, r, (n - 1) as nat) + mds_entry(r, n - 1) * s[n - 1] as int
    }
}

/// Fold a sum below `2^128` into a word: `hi * 2^64 + lo` becomes
/// `lo + hi * (2^64 mod p)`, with one more fold if that carries out.
pub open spec fn fold_sum(v: int) -> int {
    let hi = v / two64();
    let lo = v % two64();
    let t = lo + hi * EPSILON;
    if t >= two64() {
        t - two64() + EPSILON
    } else {
        t
    }
}

/// The MDS layer on a raw state.
pub open spec fn mds_spec(s: Seq<u64>) -> Seq<u64> {
    Seq::new(16, |r: int| fold_sum(circulant_sum(s, r, 16)) as u64)
}

proof fn lemma_circulant_sum_bound(s: Seq<u64>, r: int, n: nat)
    requires
        n <= s.len(),
    ensures
        0 <= circulant_sum(s, r, n) <= n * (0x1_0000 * 0xffff_ffff_ffff_ffff),
    decreases n,
{
    if n > 0 {
        lemma_circulant_sum_bound(s, r, (n - 1) as nat);
        let e = mds_entry(r, n - 1);
        assert(0 <= e < 0x1_0000);
        lemma_mul_upper_bound(e, 0x1_0000, s[n - 1] as int, 0xffff_ffff_ffff_ffff);
        assert(e * s[n - 1] as int >= 0) by (nonlinear_arith)
            requires
                e >= 0,
        ;
        assert((n - 1) * (0x1_0000 * 0xffff_ffff_ffff_ffff) + 0x1_0000 * 0xffff_ffff_ffff_ffff == n * (0x1_0000 * 0xffff_ffff_ffff_ffff)) by (nonlinear_arith);
    }
}

/// Reduce one column sum; the result is congruent to `v` modulo `p`.
fn fold_column(v: u128) -> (r: u64)
    requires
        v < 0x1_0000_0000_0000_0000_0000_0000,
    ensures
        r as int == fold_sum(v as int),
{
    let s_hi = (v >> 64) as u64;
    let s_lo = v as u64;
    proof {
        lemma_split_u128(v, s_lo, s_hi);
        lemma_fundamental_div_mod_converse(v as int, two64(), s_hi as int, s_lo as int);
        assert(s_hi < 0x1_0000_0000);
    }
    let t = s_hi * EPSILON;
    let res = s_lo.wrapping_add(t);
    let over = res < s_lo;
    if over {
        res + EPSILON
    } else {
        res
    }
}

/// Apply the MDS layer in place.
pub fn mds_generated_inplace(state: &mut [u64; 16])
    ensures
        final(state)@ == mds_spec(old(state)@),
{
    let ghost s0 = state@;
    let mut out = [0u64; 16];
    let mut r: usize = 0;
    while r < 16
        invariant
            state@ == s0,
            s0.len() == 16,
            r <= 16,
            forall|k: int| 0 <= k < r ==> #[trigger] out@[k] as int == fold_sum(circulant_sum(s0, k, 16)),
        decreases 16 - r,
    {
        let mut acc: u128 = 0;
        let mut j: usize = 0;
        while j < 16
            invariant
                state@ == s0,
                s0.len() == 16,
                r < 16,
                j <= 16,
                acc as int == circulant_sum(s0, r as int, j as nat),
            decreases 16 - j,
        {
            let idx = (16 + r - j) % 16;
            let c = MDS_MATRIX_FIRST_COLUMN[idx];
            proof {
                assert(idx as int == (r - j) % 16) by {
                    lemma_mod_add_multiples_vanish(r - j, 16);
                }
                lemma_circulant_sum_bound(s0, r as int, (j + 1) as nat);
                assert((j + 1) * (0x1_0000 * 0xffff_ffff_ffff_ffff) <= 16 * (0x1_0000 * 0xffff_ffff_ffff_ffff));
                lemma_mul_upper_bound(c as int, 0x1_0000, state[j as int] as int, 0xffff_ffff_ffff_ffff);
            }
            acc = acc + (c as u128) * (state[j] as u128);
            j += 1;
        }
        proof {
            lemma_circulant_sum_bound(s0, r as int, 16);
        }
        out[r] = fold_column(acc);
        r += 1;
    }
    proof {
        assert(out@ =~= mds_spec(s0));
    }
    *state = out;
}


/// Folding keeps the value modulo `p` (`2^64 = p + (2^64 mod p)`), and a
/// column sum below `2^84` folds into a word.
proof fn lemma_fold_sum(v: int)
    requires
        0 <= v < 0x1_0000_0000_0000_0000_0000_0,
    ensures
        fold_sum(v) % (P as int) == v % (P as int),
        0 <= fold_sum(v) < two64(),
{
    let p = P as int;
    let hi = v / two64();
    let lo = v % two64();
    lemma_fundamental_div_mod(v, two64());
    assert(two64() == p + EPSILON);
    assert(hi < 0x10_0000) by {
        lemma_div_by_multiple_is_strongly_ordered(v, 0x1_0000_0000_0000_0000_0000_0, two64(), 0x10_0000);
    }
    let t = lo + hi * EPSILON;
    assert(v == p * hi + t) by (nonlinear_arith)
        requires
            v == two64() * hi + lo,
            two64() == p + EPSILON,
            t == lo + hi * EPSILON,
    ;
    lemma_mod_multiples_vanish(hi, t, p);
    if t >= two64() {
        assert(t - two64() + EPSILON == t + (-1) * p);
        lemma_mod_multiples_vanish(-1, t, p);
    }
}

/// The MDS layer multiplies the state by the circulant matrix modulo `p`:
/// lane `r` of the output is congruent to `sum_j M[r][j] * s[j]`.
pub proof fn lemma_mds_is_matrix_product(s: Seq<u64>, r: int)
    requires
        s.len() == 16,
        0 <= r < 16,
    ensures
        (mds_spec(s)[r] as int) % (P as int) == circulant_sum(s, r, 16) % (P as int),
{
    lemma_circulant_sum_bound(s, r, 16);
    lemma_fold_sum(circulant_sum(s, r, 16));
}

} // verus!
