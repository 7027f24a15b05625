//! Canonical Goldilocks field arithmetic: every result lies in `[0, p)`.

use vstd::arithmetic::div_mod::*;
use vstd::arithmetic::mul::*;
use vstd::arithmetic::power::*;
use crate::field::ntt::pow_gl;
use crate::field::prime::{lemma_fermat, lemma_p_is_prime};
use vstd::prelude::*;

verus! {

/// The Goldilocks prime `p = 2^64 - 2^32 + 1`.
pub const P: u64 = 0xffff_ffff_0000_0001;

/// `(a + b) mod p` for any two words.
pub fn gl_add(a: u64, b: u64) -> (r: u64)
    ensures
        r == (a + b) % (P as int),
        r < P,
{
    let s: u128 = a as u128 + b as u128;
    (s % (P as u128)) as u64
}

/// `(a - b) mod p` for any two words (the non-negative representative).
pub fn gl_sub(a: u64, b: u64) -> (r: u64)
    ensures
        r == (a - b) % (P as int),
        r < P,
{
    let am: u128 = (a % P) as u128;
    let bm: u128 = (b % P) as u128;
    let d: u128 = am + (P as u128) - bm;
    proof {
        let p = P as int;
        lemma_sub_mod_noop(a as int, b as int, p);
        lemma_mod_add_multiples_vanish((a % P) - (b % P), p);
    }
    (d % (P as u128)) as u64
}

/// `(a * b) mod p` for any two words.
pub fn gl_mul(a: u64, b: u64) -> (r: u64)
    ensures
        r == (a * b) % (P as int),
        r < P,
{
    proof {
        lemma_mul_upper_bound(a as int, u64::MAX as int, b as int, u64::MAX as int);
    }
    let m: u128 = (a as u128) * (b as u128);
    (m % (P as u128)) as u64
}


/// `a^(p - 2) mod p`: the multiplicative inverse of `a` for `a` not
/// divisible by `p` (Fermat), and `0` for `a` divisible by `p`.
pub fn gl_inv(a: u64) -> (r: u64)
    ensures
        r == pow(a as int, (P - 2) as nat) % (P as int),
        r < P,
        a % P != 0 ==> (a * r) % (P as int) == 1,
        a % P == 0 ==> r == 0,
{
    let r = pow_gl(a, P - 2);
    proof {
        let p = P as int;
        let ai = a as int;
        let e = (P - 2) as nat;
        lemma_pow_mod_noop(ai, e, p);
        if a % P != 0 {
            lemma_p_is_prime();
            lemma_fermat(P as nat, ai);
            lemma_pow_adds(ai, 1, e);
            lemma_pow1(ai);
            lemma_mul_mod_noop_right(ai, pow(ai, e), p);
        } else {
            lemma0_pow(e);
            lemma_small_mod(0, P as nat);
        }
    }
    r
}

} // verus!
