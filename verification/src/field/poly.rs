//! Multilinear polynomial evaluation over Goldilocks.
//!
//! A multilinear polynomial in `k` variables is given by its evaluations on
//! the boolean hypercube `{0,1}^k`, ordered lexicographically (the first
//! coordinate is the most significant); it is evaluated at an arbitrary
//! field point by repeated linear interpolation.

use crate::field::goldilocks::{gl_add, gl_mul, gl_sub, P};
use crate::field::ntt::{is_power_of_two, lemma_power_of_two_log2, log2};
use crate::field::sums::{lemma_cong_add, lemma_cong_mul, lemma_sum_scale, lemma_sum_split, sum_to};
use vstd::arithmetic::power2::*;
use vstd::arithmetic::div_mod::*;
use vstd::prelude::*;

verus! {

/// The multilinear extension of `evals`, evaluated at `point`:
/// interpolate linearly in the first coordinate between the extensions of
/// the lower and the upper half of `evals`. A single evaluation is the
/// constant polynomial.
pub open spec fn mle(evals: Seq<u64>, point: Seq<u64>) -> int
    decreases evals.len(),
{
    if evals.len() <= 1 {
        evals[0] as int
    } else {
        let mid = evals.len() / 2;
        let vl = mle(evals.subrange(0, mid as int), point.subrange(1, point.len() as int));
        let vr = mle(
            evals.subrange(mid as int, evals.len() as int),
            point.subrange(1, point.len() as int),
        );
        (vl + point[0] * (vr - vl)) % (P as int)
    }
}

/// Evaluate a multilinear polynomial, given by its `2^k` hypercube
/// evaluations, at the field point `point[0..k]`.
///
/// A single evaluation is returned as it is; otherwise the result is
/// reduced modulo `p`.
pub fn multilinear_eval(evals: &[u64], point: &[u64]) -> (r: u64)
    requires
        is_power_of_two(evals@.len()),
        point@.len() >= log2(evals@.len()),
    ensures
        r == mle(evals@, point@),
        evals@.len() > 1 ==> r < P,
    decreases evals@.len(),
{
    let len = evals.len();
    if len == 1 {
        return evals[0];
    }
    let mid = len / 2;
    let x = point[0];
    let (lo, hi) = evals.split_at(mid);
    let rest = &point[1..point.len()];
    proof {
        assert(is_power_of_two(lo@.len()));
        assert(hi@.len() == mid);
    }
    let vl = multilinear_eval(lo, rest);
    let vr = multilinear_eval(hi, rest);
    proof {
        let p = P as int;
        let d = (vr - vl) % p;
        lemma_mul_mod_noop_right(x as int, vr - vl, p);
        lemma_add_mod_noop_right(vl as int, x * d, p);
        if mid == 1 {
            lemma_small_mod(0, P as nat);
        }
    }
    gl_add(vl, gl_mul(x, gl_sub(vr, vl)))
}


/// The hypercube index of the corner given by the first `m` coordinates of
/// `point`, read as bits with the first coordinate most significant.
pub open spec fn corner_index(point: Seq<u64>, m: nat) -> nat
    decreases m,
{
    if m == 0 {
        0
    } else {
        (point[0] as nat) * pow2((m - 1) as nat) + corner_index(
            point.subrange(1, point.len() as int),
            (m - 1) as nat,
        )
    }
}

/// The first `m` coordinates of `point` are `0` or `1`.
pub open spec fn is_corner(point: Seq<u64>, m: nat) -> bool {
    forall|j: int| 0 <= j < m ==> #[trigger] point[j] == 0 || point[j] == 1
}

proof fn lemma_corner_index_bound(point: Seq<u64>, m: nat)
    requires
        point.len() >= m,
        is_corner(point, m),
    ensures
        corner_index(point, m) < pow2(m),
    decreases m,
{
    if m == 0 {
        lemma2_to64();
    } else {
        let rest = point.subrange(1, point.len() as int);
        assert forall|j: int| 0 <= j < m - 1 implies #[trigger] rest[j] == 0 || rest[j] == 1 by {
            assert(rest[j] == point[j + 1]);
        }
        lemma_corner_index_bound(rest, (m - 1) as nat);
        lemma_pow2_unfold(m);
        assert(point[0] == 0 || point[0] == 1);
    }
}

/// At a corner of the hypercube the multilinear extension is the stored
/// evaluation there (reduced modulo `p`).
pub proof fn lemma_mle_at_corner(evals: Seq<u64>, point: Seq<u64>)
    requires
        is_power_of_two(evals.len()),
        point.len() >= log2(evals.len()),
        is_corner(point, log2(evals.len())),
    ensures
        corner_index(point, log2(evals.len())) < evals.len(),
        mle(evals, point) % (P as int) == (evals[corner_index(point, log2(evals.len())) as int] as int)
            % (P as int),
        evals[corner_index(point, log2(evals.len())) as int] < P ==> mle(evals, point)
            == evals[corner_index(point, log2(evals.len())) as int],
    decreases evals.len(),
{
    let n = evals.len();
    let m = log2(n);
    let p = P as int;
    lemma_power_of_two_log2(n);
    lemma_corner_index_bound(point, m);
    if n == 1 {
        assert(corner_index(point, 0) == 0);
        if evals[0] < P {
            lemma_small_mod(evals[0] as nat, p as nat);
        }
    } else {
        let mid = n / 2;
        assert(n % 2 == 0 && is_power_of_two(mid));
        assert(m == 1 + log2(mid));
        let m1 = log2(mid);
        let rest = point.subrange(1, point.len() as int);
        let lo = evals.subrange(0, mid as int);
        let hi = evals.subrange(mid as int, n as int);
        assert forall|j: int| 0 <= j < m1 implies #[trigger] rest[j] == 0 || rest[j] == 1 by {
            assert(rest[j] == point[j + 1]);
        }
        lemma_mle_at_corner(lo, rest);
        lemma_mle_at_corner(hi, rest);
        lemma_power_of_two_log2(mid);
        let i1 = corner_index(rest, m1);
        let vl = mle(lo, rest);
        let vr = mle(hi, rest);
        assert(point[0] == 0 || point[0] == 1);
        assert(corner_index(point, m) == (point[0] as nat) * mid + i1);
        if point[0] == 0 {
            assert(mle(evals, point) == (vl + 0 * (vr - vl)) % p);
            lemma_mod_twice(vl, p);
            assert(lo[i1 as int] == evals[i1 as int]);
        } else {
            assert(mle(evals, point) == (vl + 1 * (vr - vl)) % p);
            lemma_mod_twice(vr, p);
            assert(hi[i1 as int] == evals[(mid + i1) as int]);
        }
        if evals[corner_index(point, m) as int] < P {
            lemma_small_mod(evals[corner_index(point, m) as int] as nat, p as nat);
        }
    }
}


/// The Lagrange weight of hypercube corner `i` at `point`: over the first
/// `m` coordinates (the first one for the most significant bit of `i`), the
/// product of `x_j` where the bit is one and `1 - x_j` where it is zero.
pub open spec fn corner_weight(i: int, point: Seq<u64>, m: nat) -> int
    decreases m,
{
    if m == 0 {
        1
    } else {
        let h = pow2((m - 1) as nat) as int;
        let x = point[0] as int;
        let rest = point.subrange(1, point.len() as int);
        if i < h {
            (1 - x) * corner_weight(i, rest, (m - 1) as nat)
        } else {
            x * corner_weight(i - h, rest, (m - 1) as nat)
        }
    }
}

/// The terms `evals[i] * corner_weight(i, point)` of the Lagrange form.
pub open spec fn lagrange_terms(evals: Seq<u64>, point: Seq<u64>) -> spec_fn(int) -> int {
    |i: int| evals[i] * corner_weight(i, point, log2(evals.len()))
}

/// The multilinear polynomial with corner values `evals`, in Lagrange form:
/// `sum_i evals[i] * corner_weight(i, point)`.
pub open spec fn lagrange_form(evals: Seq<u64>, point: Seq<u64>) -> int {
    sum_to(lagrange_terms(evals, point), evals.len())
}

/// Repeated linear interpolation evaluates the multilinear extension: the
/// result is, modulo `p`, the Lagrange form
/// `sum_i evals[i] * prod_j (x_j or 1 - x_j)` over the hypercube corners.
pub proof fn lemma_mle_is_lagrange_form(evals: Seq<u64>, point: Seq<u64>)
    requires
        is_power_of_two(evals.len()),
        point.len() >= log2(evals.len()),
    ensures
        mle(evals, point) % (P as int) == lagrange_form(evals, point) % (P as int),
    decreases evals.len(),
{
    let p = P as int;
    let n = evals.len();
    lemma_power_of_two_log2(n);
    if n == 1 {
        assert(lagrange_terms(evals, point)(0) == evals[0] * 1);
        assert(lagrange_form(evals, point) == sum_to(lagrange_terms(evals, point), 0)
            + lagrange_terms(evals, point)(0));
    } else {
        let h = n / 2;
        assert(n % 2 == 0 && is_power_of_two(h));
        let m1 = log2(h);
        assert(log2(n) == m1 + 1);
        lemma_power_of_two_log2(h);
        let rest = point.subrange(1, point.len() as int);
        let lo = evals.subrange(0, h as int);
        let hi = evals.subrange(h as int, n as int);
        lemma_mle_is_lagrange_form(lo, rest);
        lemma_mle_is_lagrange_form(hi, rest);
        let x = point[0] as int;
        let f = lagrange_terms(evals, point);
        let flo = lagrange_terms(lo, rest);
        let fhi = lagrange_terms(hi, rest);
        let g = |i: int| f(h + i);
        lemma_sum_split(f, g, h, h);
        assert forall|i: int| 0 <= i < h implies #[trigger] f(i) == (1 - x) * flo(i) by {
            let w = corner_weight(i, rest, m1);
            assert(corner_weight(i, point, m1 + 1) == (1 - x) * w);
            assert((evals[i] as int) * ((1 - x) * w) == (1 - x) * ((lo[i] as int) * w))
                by (nonlinear_arith)
                requires
                    evals[i] == lo[i],
            ;
        }
        lemma_sum_scale(flo, f, 1 - x, h);
        assert forall|i: int| 0 <= i < h implies #[trigger] g(i) == x * fhi(i) by {
            let w = corner_weight(i, rest, m1);
            assert(corner_weight(h + i, point, m1 + 1) == x * w);
            assert((evals[h + i] as int) * (x * w) == x * ((hi[i] as int) * w)) by (nonlinear_arith)
                requires
                    evals[h + i] == hi[i],
            ;
        }
        lemma_sum_scale(fhi, g, x, h);
        let vl = mle(lo, rest);
        let vr = mle(hi, rest);
        let ll = lagrange_form(lo, rest);
        let lh = lagrange_form(hi, rest);
        assert(lagrange_form(evals, point) == (1 - x) * ll + x * lh);
        assert(vl + x * (vr - vl) == (1 - x) * vl + x * vr) by (nonlinear_arith);
        lemma_cong_mul(1 - x, 1 - x, vl, ll);
        lemma_cong_mul(x, x, vr, lh);
        lemma_cong_add((1 - x) * vl, (1 - x) * ll, x * vr, x * lh);
        lemma_mod_twice(vl + x * (vr - vl), p);
    }
}

} // verus!
