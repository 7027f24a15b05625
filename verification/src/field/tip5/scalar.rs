//! Raw Montgomery-form Goldilocks primitives used by the Tip5 state.
//!
//! A field element `a` is stored as its Montgomery representative
//! `a * 2^64 mod p`. Intermediate representatives may be degenerate
//! (`>= p`); every primitive here is stated for all inputs it accepts.

use crate::field::goldilocks::P;
use vstd::arithmetic::div_mod::*;
use vstd::arithmetic::mul::*;
use vstd::arithmetic::power2::*;
use vstd::prelude::*;

verus! {

/// `2^64 mod p`, also the Montgomery representative of one.
pub const EPSILON: u64 = 0xffff_ffff;

/// `2^64` as an integer.
pub open spec fn two64() -> int {
    0x1_0000_0000_0000_0000
}

/// The Montgomery quotient `m = (x mod 2^64) * p^-1 mod 2^64`;
/// `p^-1 = 2^32 + 1` modulo `2^64`.
pub open spec fn monty_quotient(x: int) -> int {
    ((x % two64()) * 0x1_0000_0001) % two64()
}

/// Montgomery reduction (REDC) without the final conditional subtraction:
/// `t = (x - m * p) / 2^64`, lifted by `p` when negative. The result is
/// congruent to `x * 2^-64` modulo `p`.
pub open spec fn redc(x: int) -> int {
    let t = (x - monty_quotient(x) * (P as int)) / two64();
    if t >= 0 {
        t
    } else {
        t + P
    }
}

proof fn lemma_add_carry(xl: u64, s: u64, a: u64)
    requires
        a == xl.wrapping_add(s),
    ensures
        a as int + (if a < xl { two64() } else { 0 }) == xl as int + s as int,
{
}

proof fn lemma_shl32(xl: u64)
    ensures
        (xl << 32u64) as int == (xl as int * 0x1_0000_0000) % two64(),
{
    assert((xl << 32u64) == (xl * 0x1_0000_0000) % 0x1_0000_0000_0000_0000) by (bit_vector);
}

proof fn lemma_carry_is_half_compare(xl: u64, a: u64)
    requires
        a == xl.wrapping_add(xl << 32u64),
    ensures
        (a < xl) == ((a & 0xffff_ffffu64) > (a >> 32u64)),
{
    lemma_shl32(xl);
    lemma_add_carry(xl, xl << 32u64, a);
    let s = xl << 32u64;
    assert((a < xl) == ((a & 0xffff_ffffu64) > (a >> 32u64))) by (bit_vector)
        requires
            a + (if a < xl { 0x1_0000_0000_0000_0000int } else { 0int }) == xl + s,
            s == xl << 32u64,
    ;
}


pub proof fn lemma_split_u128(x: u128, xl: u64, xh: u64)
    requires
        xl == x as u64,
        xh == (x >> 64u128) as u64,
    ensures
        x as int == xh as int * two64() + xl as int,
{
    assert(x == xh * 0x1_0000_0000_0000_0000 + xl) by (bit_vector)
        requires
            xl == x as u64,
            xh == (x >> 64u128) as u64,
    ;
}

proof fn lemma_halves(a: u64)
    ensures
        (a >> 32u64) as int == a as int / 0x1_0000_0000,
        (a & 0xffff_ffffu64) as int == a as int % 0x1_0000_0000,
{
    assert((a >> 32u64) == a / 0x1_0000_0000) by (bit_vector);
    assert((a & 0xffff_ffffu64) == a % 0x1_0000_0000) by (bit_vector);
}

/// The high word of `a * p`, for the Montgomery quotient `a`.
proof fn lemma_quotient_times_p(a: int, mh: int, ml: int, e: int)
    requires
        0 <= a < two64(),
        mh == a / 0x1_0000_0000,
        ml == a % 0x1_0000_0000,
        e == (if ml > mh { 1int } else { 0int }),
    ensures
        a * (P as int) == (a - mh - e) * two64() + (a * (P as int)) % two64(),
        (a * (P as int)) / two64() == a - mh - e,
        a - mh - e >= 0,
        a - mh - e < P,
{
    let p = P as int;
    lemma_fundamental_div_mod(a, 0x1_0000_0000);
    assert(a == mh * 0x1_0000_0000 + ml);
    assert(0 <= ml < 0x1_0000_0000);
    assert(0 <= mh < 0x1_0000_0000);
    let rem = (mh - ml) * 0x1_0000_0000 + ml + e * two64();
    assert(a * p == (a - mh - e) * two64() + rem);
    assert(0 <= rem < two64());
    lemma_fundamental_div_mod_converse(a * p, two64(), a - mh - e, rem);
}

/// Montgomery reduction with the final reduction: REDC brought into
/// `[0, p)`.
pub open spec fn monty_reduce(x: int) -> int {
    redc(x) % (P as int)
}

/// Montgomery reduction: `montyred(x) = x * 2^-64 mod p`. The output lies
/// in `[0, p)` for every input.
pub fn montyred(x: u128) -> (r: u64)
    ensures
        r as int == monty_reduce(x as int),
        r < P,
        (r * two64()) % (P as int) == (x as int) % (P as int),
{
    let xl = x as u64;
    let xh = (x >> 64) as u64;
    let a = xl.wrapping_add(xl << 32);
    let e = a < xl;
    let b = a.wrapping_sub(a >> 32).wrapping_sub(e as u64);
    let r = xh.wrapping_sub(b);
    let c = xh < b;
    proof {
        let p = P as int;
        lemma_split_u128(x, xl, xh);
        lemma_shl32(xl);
        lemma_add_carry(xl, xl << 32u64, a);
        lemma_carry_is_half_compare(xl, a);
        lemma_halves(a);
        let mh = (a >> 32u64) as int;
        let ml = (a & 0xffff_ffffu64) as int;
        let ei: int = if e { 1 } else { 0 };
        // the Montgomery quotient
        let m = monty_quotient(x as int);
        assert(x as int % two64() == xl as int) by {
            lemma_fundamental_div_mod_converse(x as int, two64(), xh as int, xl as int);
        }
        let prod = xl as int * 0x1_0000_0001;
        assert(a as int == prod % two64()) by {
            lemma_fundamental_div_mod(xl as int * 0x1_0000_0000, two64());
            let k = (xl as int * 0x1_0000_0000) / two64();
            assert(a as int + ei * two64() == xl as int + xl as int * 0x1_0000_0000 - k * two64());
            lemma_fundamental_div_mod_converse(prod, two64(), ei + k, a as int);
        }
        assert(m == a as int);
        lemma_quotient_times_p(a as int, mh, ml, ei);
        assert(b as int == a as int - mh - ei);
        // m * p is congruent to xl modulo 2^64
        let k2 = prod / two64();
        lemma_fundamental_div_mod(prod, two64());
        assert(m * p == xl as int * 0x1_0000_0000_0000_0000_0000_0000 + xl as int - k2 * p * two64()) by {
            assert(m == prod - k2 * two64());
        }
        assert((m * p) % two64() == xl as int) by {
            let q = xl as int * 0x1_0000_0000 - k2 * p;
            assert(m * p == q * two64() + xl as int);
            lemma_fundamental_div_mod_converse(m * p, two64(), q, xl as int);
        }
        assert(x as int - m * p == (xh as int - b as int) * two64());
        lemma_div_multiples_vanish(xh as int - b as int, two64());
        assert((x as int - m * p) / two64() == xh as int - b as int);
    }
    let t = r.wrapping_sub(EPSILON * (c as u64));
    proof {
        let p = P as int;
        lemma_redc_congruent(x as int);
        assert(t as int == redc(x as int));
    }
    let res = if t >= P {
        t - P
    } else {
        t
    };
    proof {
        let p = P as int;
        if t >= P {
            lemma_fundamental_div_mod_converse(t as int, p, 1, t - p);
        } else {
            lemma_small_mod(t as nat, p as nat);
        }
        assert(res as int == monty_reduce(x as int));
        lemma_mul_mod_noop_left(t as int, two64(), p);
        lemma_mul_mod_noop_left(res as int, two64(), p);
    }
    res
}


/// `x - m * p` is a multiple of `2^64` for the Montgomery quotient `m`.
proof fn lemma_monty_quotient_divides(x: int)
    requires
        x >= 0,
    ensures
        (x - monty_quotient(x) * (P as int)) % two64() == 0,
{
    let p = P as int;
    let m = monty_quotient(x);
    assert(m * p % two64() == x % two64()) by {
        let xl = x % two64();
        lemma_fundamental_div_mod(x, two64());
        let prod = xl * 0x1_0000_0001;
        lemma_fundamental_div_mod(prod, two64());
        let k2 = prod / two64();
        assert(m == prod - k2 * two64());
        assert(m * p == (xl * 0x1_0000_0000 - k2 * p) * two64() + xl);
        lemma_fundamental_div_mod_converse(m * p, two64(), xl * 0x1_0000_0000 - k2 * p, xl);
    }
    lemma_sub_mod_noop(x, m * p, two64());
}

/// REDC yields `x * 2^-64` modulo `p`: multiplying back by `2^64`
/// recovers `x` modulo `p`.
pub proof fn lemma_redc_congruent(x: int)
    requires
        x >= 0,
    ensures
        (redc(x) * two64()) % (P as int) == x % (P as int),
{
    let p = P as int;
    let m = monty_quotient(x);
    let t = (x - m * p) / two64();
    lemma_monty_quotient_divides(x);
    lemma_fundamental_div_mod(x - m * p, two64());
    assert(t * two64() == x - m * p);
    lemma_mod_multiples_vanish(-m, x, p);
    if t >= 0 {
        assert(redc(x) * two64() == x + (-m) * p);
    } else {
        assert(redc(x) * two64() == x + (two64() - m) * p) by {
            lemma_mul_is_distributive_add_other_way(two64(), t, p);
        }
        lemma_mod_multiples_vanish(two64() - m, x, p);
    }
}

/// REDC of anything below `p * 2^64` is canonical.
pub proof fn lemma_redc_canonical(x: int)
    requires
        0 <= x < (P as int) * two64(),
    ensures
        0 <= redc(x) < P,
{
    let p = P as int;
    let m = monty_quotient(x);
    assert(0 <= m < two64());
    lemma_monty_quotient_divides(x);
    lemma_fundamental_div_mod(x - m * p, two64());
    let t = (x - m * p) / two64();
    assert(0 <= m * p < two64() * p) by (nonlinear_arith)
        requires
            0 <= m < two64(),
            p > 0,
    ;
    assert(t < p) by (nonlinear_arith)
        requires
            x - m * p == two64() * t + (x - m * p) % two64(),
            (x - m * p) % two64() >= 0,
            x - m * p < p * two64(),
    ;
    assert(t > -p) by (nonlinear_arith)
        requires
            x - m * p == two64() * t + (x - m * p) % two64(),
            (x - m * p) % two64() == 0,
            x - m * p > -(two64() * p),
    ;
}

/// Raw Montgomery addition, computed as `a - (p - b)`.
///
/// The sum is reduced by `p` exactly when it reaches `p`; in particular a
/// degenerate left operand (`a >= p`) comes back below `p` as long as
/// `b < 2p - 2^64`.
pub fn bfe_add_raw(a: u64, b: u64) -> (r: u64)
    requires
        b <= P,
    ensures
        r as int == if a + b >= P { a + b - P } else { a + b },
{
    let d = P - b;
    let x1 = a.wrapping_sub(d);
    if a < d {
        x1.wrapping_add(P)
    } else {
        x1
    }
}

/// Raw Montgomery multiplication: `redc(a * b)` brought into `[0, p)`.
pub fn bfe_mul_raw(a: u64, b: u64) -> (r: u64)
    ensures
        r as int == monty_reduce(a * b),
        r < P,
{
    proof {
        lemma_mul_upper_bound(a as int, u64::MAX as int, b as int, u64::MAX as int);
    }
    montyred((a as u128) * (b as u128))
}

/// Byte `k` (little-endian) of `x`.
pub open spec fn byte_of(x: int, k: nat) -> int {
    (x / (pow2(8 * k) as int)) % 256
}

/// The word whose little-endian bytes are the `lut` images of the bytes of
/// `x`, built from the `k` lowest bytes.
pub open spec fn lookup_bytes(x: int, lut: Seq<u8>, k: nat) -> int
    decreases k,
{
    if k == 0 {
        0
    } else {
        lookup_bytes(x, lut, (k - 1) as nat) + lut[byte_of(x, (k - 1) as nat)] as int * pow2(
            8 * ((k - 1) as nat),
        )
    }
}

proof fn lemma_bytes_of_word(x: u64)
    ensures
        byte_of(x as int, 0) == (x & 0xff) as int,
        byte_of(x as int, 1) == ((x >> 8u64) & 0xff) as int,
        byte_of(x as int, 2) == ((x >> 16u64) & 0xff) as int,
        byte_of(x as int, 3) == ((x >> 24u64) & 0xff) as int,
        byte_of(x as int, 4) == ((x >> 32u64) & 0xff) as int,
        byte_of(x as int, 5) == ((x >> 40u64) & 0xff) as int,
        byte_of(x as int, 6) == ((x >> 48u64) & 0xff) as int,
        byte_of(x as int, 7) == ((x >> 56u64) & 0xff) as int,
{
    lemma2_to64();
    lemma2_to64_rest();
    assert(pow2(8 * 0) == 1);
    assert(pow2(8 * 1) == 0x100);
    assert(pow2(8 * 2) == 0x1_0000);
    assert(pow2(8 * 3) == 0x100_0000);
    assert(pow2(8 * 4) == 0x1_0000_0000);
    assert(pow2(8 * 5) == 0x100_0000_0000);
    assert(pow2(8 * 6) == 0x1_0000_0000_0000);
    assert(pow2(8 * 7) == 0x100_0000_0000_0000);
    assert(x as int / 1 == x as int);
    assert((x & 0xff) == x % 256) by (bit_vector);
    assert(((x >> 8u64) & 0xff) == (x / 0x100) % 256) by (bit_vector);
    assert(((x >> 16u64) & 0xff) == (x / 0x1_0000) % 256) by (bit_vector);
    assert(((x >> 24u64) & 0xff) == (x / 0x100_0000) % 256) by (bit_vector);
    assert(((x >> 32u64) & 0xff) == (x / 0x1_0000_0000) % 256) by (bit_vector);
    assert(((x >> 40u64) & 0xff) == (x / 0x100_0000_0000) % 256) by (bit_vector);
    assert(((x >> 48u64) & 0xff) == (x / 0x1_0000_0000_0000) % 256) by (bit_vector);
    assert(((x >> 56u64) & 0xff) == (x / 0x100_0000_0000_0000) % 256) by (bit_vector);
}

proof fn lemma_pack_bytes(b0: u8, b1: u8, b2: u8, b3: u8, b4: u8, b5: u8, b6: u8, b7: u8)
    ensures
        ((b0 as u64) | ((b1 as u64) << 8u64) | ((b2 as u64) << 16u64) | ((b3 as u64) << 24u64) | (
        (b4 as u64) << 32u64) | ((b5 as u64) << 40u64) | ((b6 as u64) << 48u64) | ((b7 as u64)
            << 56u64)) as int == b0 + b1 * 0x100 + b2 * 0x1_0000 + b3 * 0x100_0000 + b4
            * 0x1_0000_0000 + b5 * 0x100_0000_0000 + b6 * 0x1_0000_0000_0000 + b7
            * 0x100_0000_0000_0000,
{
    assert(((b0 as u64) | ((b1 as u64) << 8u64) | ((b2 as u64) << 16u64) | ((b3 as u64) << 24u64)
        | ((b4 as u64) << 32u64) | ((b5 as u64) << 40u64) | ((b6 as u64) << 48u64) | ((b7 as u64)
        << 56u64)) == b0 + b1 * 0x100 + b2 * 0x1_0000 + b3 * 0x100_0000 + b4 * 0x1_0000_0000 + b5
        * 0x100_0000_0000 + b6 * 0x1_0000_0000_0000 + b7 * 0x100_0000_0000_0000) by (bit_vector);
}

/// Split-and-lookup S-box: every little-endian byte of `x` is replaced by
/// its image under `lut`.
pub fn split_and_lookup(x: u64, lut: &[u8; 256]) -> (r: u64)
    ensures
        r as int == lookup_bytes(x as int, lut@, 8),
{
    proof {
        lemma_bytes_of_word(x);
    }
    let b0 = lut[(x & 0xff) as usize];
    let b1 = lut[((x >> 8) & 0xff) as usize];
    let b2 = lut[((x >> 16) & 0xff) as usize];
    let b3 = lut[((x >> 24) & 0xff) as usize];
    let b4 = lut[((x >> 32) & 0xff) as usize];
    let b5 = lut[((x >> 40) & 0xff) as usize];
    let b6 = lut[((x >> 48) & 0xff) as usize];
    let b7 = lut[((x >> 56) & 0xff) as usize];
    proof {
        lemma_pack_bytes(b0, b1, b2, b3, b4, b5, b6, b7);
        lemma2_to64();
        lemma2_to64_rest();
        let xi = x as int;
        let l = lut@;
        assert(pow2(8 * 0) == 1);
        assert(pow2(8 * 1) == 0x100);
        assert(pow2(8 * 2) == 0x1_0000);
        assert(pow2(8 * 3) == 0x100_0000);
        assert(pow2(8 * 4) == 0x1_0000_0000);
        assert(pow2(8 * 5) == 0x100_0000_0000);
        assert(pow2(8 * 6) == 0x1_0000_0000_0000);
        assert(pow2(8 * 7) == 0x100_0000_0000_0000);
        assert(lookup_bytes(xi, l, 0) == 0);
        assert(byte_of(xi, 0) == (x & 0xff) as int);
        assert(((x & 0xff) as usize) as int == (x & 0xff) as int);
        assert(b0 == l[byte_of(xi, 0)]);
        assert(lookup_bytes(xi, l, 1) == lookup_bytes(xi, l, 0) + l[byte_of(xi, 0)] as int * pow2(8 * 0));
        assert(lookup_bytes(xi, l, 1) == b0 as int);
        assert(lookup_bytes(xi, l, 2) == b0 + b1 * 0x100);
        assert(lookup_bytes(xi, l, 3) == b0 + b1 * 0x100 + b2 * 0x1_0000);
        assert(lookup_bytes(xi, l, 4) == b0 + b1 * 0x100 + b2 * 0x1_0000 + b3 * 0x100_0000);
        assert(lookup_bytes(xi, l, 5) == b0 + b1 * 0x100 + b2 * 0x1_0000 + b3 * 0x100_0000 + b4
            * 0x1_0000_0000);
        assert(lookup_bytes(xi, l, 6) == b0 + b1 * 0x100 + b2 * 0x1_0000 + b3 * 0x100_0000 + b4
            * 0x1_0000_0000 + b5 * 0x100_0000_0000);
        assert(lookup_bytes(xi, l, 7) == b0 + b1 * 0x100 + b2 * 0x1_0000 + b3 * 0x100_0000 + b4
            * 0x1_0000_0000 + b5 * 0x100_0000_0000 + b6 * 0x1_0000_0000_0000);
    }
    (b0 as u64) | ((b1 as u64) << 8) | ((b2 as u64) << 16) | ((b3 as u64) << 24) | ((b4 as u64)
        << 32) | ((b5 as u64) << 40) | ((b6 as u64) << 48) | ((b7 as u64) << 56)
}


/// `2^-64 mod p`, which happens to equal `2^128 mod p`.
pub const R_INV: u64 = 0xffff_fffe_0000_0001;

/// The canonical value of REDC: `redc(x) == x * 2^-64 mod p` for every
/// `x < p * 2^64`.
pub proof fn lemma_redc_value(x: int)
    requires
        0 <= x < (P as int) * two64(),
    ensures
        redc(x) == (x * R_INV) % (P as int),
{
    let p = P as int;
    let r = redc(x);
    lemma_redc_congruent(x);
    lemma_redc_canonical(x);
    assert((two64() * (R_INV as int)) % p == 1);
    // r * 2^64 * R_INV ≡ x * R_INV
    lemma_mul_mod_noop_left(r * two64(), R_INV as int, p);
    lemma_mul_mod_noop_left(x, R_INV as int, p);
    assert((r * two64() * R_INV) % p == (x * R_INV) % p);
    assert(r * two64() * R_INV == r * (two64() * R_INV)) by {
        lemma_mul_is_associative(r, two64(), R_INV as int);
    }
    lemma_mul_mod_noop_right(r, two64() * R_INV, p);
    lemma_small_mod(r as nat, p as nat);
}

} // verus!
