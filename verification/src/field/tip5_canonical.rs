//! Tip5 over canonical field values.
//!
//! The permutation and the sponges take and return canonical Goldilocks
//! values; they convert to the raw Montgomery form of `field::tip5` at
//! the boundary and back.

use crate::field::goldilocks::P;
use crate::field::tip5::neon::{mont_mul, pow7_raw};
use crate::field::tip5::scalar::{
    lemma_redc_canonical, lemma_redc_congruent, lemma_redc_value, montyred, redc, two64, R_INV,
};
use crate::field::tip5::{
    hash_varlen_spec, pair_state, permutation, tip5_hash_pair as raw_hash_pair,
    tip5_hash_varlen as raw_hash_varlen, tip5_permute as raw_permute,
};
use vstd::arithmetic::div_mod::*;
use vstd::arithmetic::mul::*;
use vstd::arithmetic::power::*;
use vstd::prelude::*;

verus! {

/// `2^128 mod p`, the factor that moves a value into Montgomery form.
pub const R2: u64 = 0xffff_fffe_0000_0001;

/// Montgomery representative of one: `2^64 mod p`.
pub const ONE_MONTY: u64 = 0xffff_ffff;

/// The raw Montgomery representative of the value `v`.
pub open spec fn monty_of(v: int) -> int {
    (v * two64()) % (P as int)
}

/// The canonical value of the raw representative `raw`.
pub open spec fn value_of(raw: int) -> int {
    (raw * R_INV) % (P as int)
}

/// Canonical value to raw Montgomery form: `v * 2^64 mod p`.
pub fn to_monty(v: u64) -> (r: u64)
    ensures
        r as int == monty_of(v as int),
        r < P,
{
    proof {
        let p = P as int;
        let x = v * (R2 as int);
        assert(0 <= x < p * two64()) by (nonlinear_arith)
            requires
                x == v * (R2 as int),
                0 <= v < two64(),
                R2 < p,
        ;
        lemma_redc_value(x);
        lemma_redc_canonical(x);
        // x * R_INV == v * (2^128 * 2^-64) ≡ v * 2^64
        assert(((R2 as int) * (R_INV as int)) % p == two64() % p);
        lemma_mul_is_associative(v as int, R2 as int, R_INV as int);
        lemma_mul_mod_noop_right(v as int, (R2 as int) * (R_INV as int), p);
        lemma_mul_mod_noop_right(v as int, two64(), p);
        lemma_mul_upper_bound(v as int, u64::MAX as int, R2 as int, u64::MAX as int);
    }
    montyred((v as u128) * (R2 as u128))
}

/// Raw Montgomery form to canonical value: `raw * 2^-64 mod p`.
pub fn from_monty(raw: u64) -> (r: u64)
    ensures
        r as int == value_of(raw as int),
        r < P,
{
    proof {
        assert(raw as int <= (P as int) * two64());
        lemma_redc_value(raw as int);
        lemma_redc_canonical(raw as int);
    }
    montyred(raw as u128)
}

/// Converting a value to Montgomery form and back gives the value
/// modulo `p`.
pub proof fn lemma_monty_round_trip(v: int)
    ensures
        value_of(monty_of(v)) == v % (P as int),
{
    let p = P as int;
    lemma_mul_mod_noop_left(v * two64(), R_INV as int, p);
    lemma_mul_is_associative(v, two64(), R_INV as int);
    assert((two64() * (R_INV as int)) % p == 1);
    lemma_mul_mod_noop_right(v, two64() * (R_INV as int), p);
}

/// The canonical values of a raw state.
pub open spec fn values(s: Seq<u64>) -> Seq<u64> {
    Seq::new(s.len(), |i: int| value_of(s[i] as int) as u64)
}

/// The raw representatives of a state of values.
pub open spec fn montys(s: Seq<u64>) -> Seq<u64> {
    Seq::new(s.len(), |i: int| monty_of(s[i] as int) as u64)
}

/// Apply the Tip5 permutation in place to canonical values.
pub fn tip5_permute(state: &mut [u64; 16])
    ensures
        final(state)@ == values(permutation(montys(old(state)@))),
{
    let ghost s0 = state@;
    let mut s = [0u64; 16];
    let mut i: usize = 0;
    while i < 16
        invariant
            state@ == s0,
            i <= 16,
            forall|k: int| 0 <= k < i ==> #[trigger] s@[k] as int == monty_of(s0[k] as int),
        decreases 16 - i,
    {
        s[i] = to_monty(state[i]);
        i += 1;
    }
    proof {
        assert(s@ =~= montys(s0));
    }
    raw_permute(&mut s);
    let ghost t = s@;
    let mut i: usize = 0;
    while i < 16
        invariant
            s@ == t,
            i <= 16,
            forall|k: int| 0 <= k < i ==> #[trigger] state@[k] as int == value_of(t[k] as int),
        decreases 16 - i,
    {
        state[i] = from_monty(s[i]);
        i += 1;
    }
    proof {
        assert(state@ =~= values(t));
    }
}

fn digest_to_monty(d: [u64; 5]) -> (r: [u64; 5])
    ensures
        r@ == montys(d@),
{
    let r = [to_monty(d[0]), to_monty(d[1]), to_monty(d[2]), to_monty(d[3]), to_monty(d[4])];
    proof {
        assert(r@ =~= montys(d@));
    }
    r
}

fn digest_from_monty(d: [u64; 5]) -> (r: [u64; 5])
    ensures
        r@ == values(d@),
{
    let r = [from_monty(d[0]), from_monty(d[1]), from_monty(d[2]), from_monty(d[3]), from_monty(d[4])];
    proof {
        assert(r@ =~= values(d@));
    }
    r
}

/// Hash two digests of canonical values into one.
pub fn tip5_hash_pair(left: [u64; 5], right: [u64; 5]) -> (d: [u64; 5])
    ensures
        d@ == values(permutation(pair_state(montys(left@), montys(right@))).subrange(0, 5)),
{
    let l = digest_to_monty(left);
    let r = digest_to_monty(right);
    let h = raw_hash_pair(l, r);
    digest_from_monty(h)
}

/// Hash a variable-length sequence of canonical values.
pub fn tip5_hash_varlen(input: &[u64]) -> (d: [u64; 5])
    ensures
        d@ == values(hash_varlen_spec(montys(input@))),
{
    let mut raw: Vec<u64> = Vec::new();
    let mut i: usize = 0;
    while i < input.len()
        invariant
            i <= input@.len(),
            raw@.len() == i,
            forall|k: int| 0 <= k < i ==> #[trigger] raw@[k] as int == monty_of(input@[k] as int),
        decreases input@.len() - i,
    {
        raw.push(to_monty(input[i]));
        i += 1;
    }
    proof {
        assert(raw@ =~= montys(input@));
    }
    let h = raw_hash_varlen(raw.as_slice());
    digest_from_monty(h)
}


/// REDC multiplies by `2^-64` modulo `p` for every non-negative input,
/// even where its result is a degenerate representative (`>= p`).
proof fn lemma_redc_congruent_value(x: int)
    requires
        x >= 0,
    ensures
        redc(x) % (P as int) == (x * R_INV) % (P as int),
{
    let p = P as int;
    let r = redc(x);
    lemma_redc_congruent(x);
    assert((two64() * (R_INV as int)) % p == 1);
    lemma_mul_mod_noop_left(r * two64(), R_INV as int, p);
    lemma_mul_mod_noop_left(x, R_INV as int, p);
    lemma_mul_is_associative(r, two64(), R_INV as int);
    lemma_mul_mod_noop_right(r, two64() * (R_INV as int), p);
}

/// Montgomery multiplication multiplies values: the value of
/// `montyred(a * b)` is the product of the values of `a` and `b`, for any raw
/// words, degenerate ones included.
pub proof fn lemma_mont_mul_value(a: u64, b: u64)
    ensures
        value_of(mont_mul(a as int, b as int)) == (value_of(a as int) * value_of(b as int)) % (
        P as int),
{
    let p = P as int;
    lemma_mod_twice((a as int) * (R_INV as int), p);
    lemma_mod_twice((b as int) * (R_INV as int), p);
    lemma_mont_mul_of_values(a as int, b as int, value_of(a as int), value_of(b as int));
}

/// A Montgomery product of non-negative words is non-negative.
proof fn lemma_mont_mul_nonneg(a: int, b: int)
    requires
        a >= 0,
        b >= 0,
    ensures
        mont_mul(a, b) >= 0,
{
    let p = P as int;
    let x = a * b;
    assert(x >= 0) by (nonlinear_arith)
        requires
            a >= 0,
            b >= 0,
            x == a * b,
    ;
    let m = crate::field::tip5::scalar::monty_quotient(x);
    assert(0 <= m < two64());
    assert(x - m * p > -(two64() * p)) by (nonlinear_arith)
        requires
            x >= 0,
            0 <= m < two64(),
            p > 0,
    ;
    lemma_fundamental_div_mod(x - m * p, two64());
    let t = (x - m * p) / two64();
    assert(t >= -p) by (nonlinear_arith)
        requires
            x - m * p == two64() * t + (x - m * p) % two64(),
            0 <= (x - m * p) % two64() < two64(),
            x - m * p > -(two64() * p),
    ;
}

/// Value of a Montgomery product of raw words whose values are known.
proof fn lemma_mont_mul_of_values(a: int, b: int, va: int, vb: int)
    requires
        a >= 0,
        b >= 0,
        value_of(a) == va % (P as int),
        value_of(b) == vb % (P as int),
    ensures
        value_of(mont_mul(a, b)) == (va * vb) % (P as int),
{
    let p = P as int;
    let ri = R_INV as int;
    let x = a * b;
    assert(x >= 0) by (nonlinear_arith)
        requires
            a >= 0,
            b >= 0,
            x == a * b,
    ;
    lemma_redc_congruent_value(x);
    lemma_mul_mod_noop_left(redc(x), ri, p);
    lemma_mul_mod_noop_left(x * ri, ri, p);
    lemma_mul_mod_noop(a * ri, b * ri, p);
    assert((x * ri) * ri == (a * ri) * (b * ri)) by (nonlinear_arith)
        requires
            x == a * b,
    ;
    lemma_mul_mod_noop(va, vb, p);
}

/// The S-box power map raises the value to the seventh power:
/// `value(pow7_raw(x)) = value(x)^7 mod p`.
pub proof fn lemma_pow7_value(x: u64)
    ensures
        value_of(pow7_raw(x as int)) == pow(value_of(x as int), 7) % (P as int),
{
    let p = P as int;
    let xi = x as int;
    let v = value_of(xi);
    lemma_mod_twice(xi * (R_INV as int), p);
    assert(value_of(xi) == v % p);
    let sq = mont_mul(xi, xi);
    lemma_mont_mul_nonneg(xi, xi);
    lemma_mont_mul_of_values(xi, xi, v, v);
    let qu = mont_mul(sq, sq);
    lemma_mont_mul_nonneg(sq, sq);
    lemma_mont_mul_of_values(sq, sq, v * v, v * v);
    let sx = mont_mul(sq, qu);
    lemma_mont_mul_nonneg(sq, qu);
    lemma_mont_mul_of_values(sq, qu, v * v, (v * v) * (v * v));
    lemma_mont_mul_nonneg(xi, sx);
    lemma_mont_mul_of_values(xi, sx, v, (v * v) * ((v * v) * (v * v)));
    assert(pow(v, 7) == v * ((v * v) * ((v * v) * (v * v)))) by {
        reveal_with_fuel(pow, 8);
        assert(v * ((v * v) * ((v * v) * (v * v))) == v * (v * (v * (v * (v * (v * (v * 1)))))))
            by (nonlinear_arith);
    }
}

} // verus!
