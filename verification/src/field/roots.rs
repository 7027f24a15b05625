//! Square roots of one in the Goldilocks field, and what they say of the roots of
//! unity that the NTT is run with.

use crate::field::goldilocks::P;
use crate::field::prime::{lemma_inverse_exists, lemma_p_is_prime};
use vstd::arithmetic::div_mod::*;
use vstd::arithmetic::mul::*;
use vstd::arithmetic::power::*;
use vstd::prelude::*;

verus! {

/// In the Goldilocks field the only square roots of one are `1` and `-1`.
pub proof fn lemma_square_roots_of_one(y: int)
    requires
        0 <= y < P,
        (y * y) % (P as int) == 1,
    ensures
        y == 1 || y == (P as int) - 1,
{
    let p = P as int;
    lemma_p_is_prime();
    if y != 1 {
        if y == 0 {
            lemma_small_mod(0, p as nat);
            assert(false);
        }
        let a = y - 1;
        let u = lemma_inverse_exists(p as nat, a as nat);
        // (y - 1) * (y + 1) = y^2 - 1 is a multiple of p
        assert((y - 1) * (y + 1) == y * y - 1) by (nonlinear_arith);
        lemma_sub_mod_noop(y * y, 1, p);
        lemma_small_mod(1, p as nat);
        lemma_small_mod(0, p as nat);
        assert(((y - 1) * (y + 1)) % p == 0);
        // multiplying by the inverse of y - 1 leaves y + 1
        lemma_mul_mod_noop_right(u, (y - 1) * (y + 1), p);
        assert(u * ((y - 1) * (y + 1)) == (a * u) * (y + 1)) by (nonlinear_arith)
            requires
                a == y - 1,
        ;
        lemma_mul_mod_noop_left(a * u, y + 1, p);
        lemma_mul_is_commutative(u, 0);
        assert((y + 1) % p == 0);
        if y + 1 < p {
            lemma_small_mod((y + 1) as nat, p as nat);
        }
        assert(y + 1 == p);
    }
}

/// A primitive root of even order `n` of the Goldilocks field (`omega^n = 1` and
/// `omega^(n/2) != 1`) has `omega^(n/2) = -1`.
pub proof fn lemma_primitive_root_half(omega: int, n: nat)
    requires
        n % 2 == 0,
        pow(omega, n) % (P as int) == 1,
        pow(omega, n / 2) % (P as int) != 1,
    ensures
        pow(omega, n / 2) % (P as int) == (P as int) - 1,
{
    let p = P as int;
    let h = n / 2;
    lemma_pow_adds(omega, h, h);
    assert(h + h == n);
    let y = pow(omega, h) % p;
    lemma_mul_mod_noop(pow(omega, h), pow(omega, h), p);
    lemma_mod_twice(pow(omega, h), p);
    lemma_mul_mod_noop(y, y, p);
    lemma_square_roots_of_one(y);
}

} // verus!
