//! Number Theoretic Transform over Goldilocks.
//!
//! Cooley-Tukey decimation-in-time transform, preceded by a bit-reversal
//! permutation of the input.

use crate::field::goldilocks::{gl_add, gl_mul, gl_sub, P};
use vstd::arithmetic::div_mod::*;
use vstd::arithmetic::mul::*;
use vstd::arithmetic::power::*;
use vstd::arithmetic::power2::*;
use vstd::prelude::*;

verus! {

/// One square-and-multiply step: folding the low bit of `e` into `r`
/// and squaring `b` keeps `r * b^e` unchanged modulo `p`.
proof fn lemma_square_multiply_step(r: int, b: int, e: nat)
    requires
        e > 0,
    ensures
        ({
            let p = P as int;
            let r2 = if e % 2 == 1 { (r * b) % p } else { r };
            (r2 * pow((b * b) % p, e / 2)) % p == (r * pow(b, e)) % p
        }),
{
    let p = P as int;
    let h = e / 2;
    lemma_pow_mod_noop(b * b, h, p);
    lemma_square_is_pow2(b);
    lemma_pow_multiplies(b, 2, h);
    assert(pow(b * b, h) == pow(b, 2 * h)) by {
        lemma_pow1(b);
        assert(pow(b, 2) == b * b) by {
            reveal(pow);
            lemma_pow1(b);
        }
    }
    let q = pow((b * b) % p, h);
    // q ≡ b^(2h) (mod p)
    assert(q % p == pow(b, 2 * h) % p);
    if e % 2 == 1 {
        assert(e == 2 * h + 1);
        lemma_pow_adds(b, 2 * h, 1);
        lemma_pow1(b);
        // ((r*b)%p * q) % p == (r*b*q) % p == (r*b*b^(2h)) % p
        lemma_mul_mod_noop_left(r * b, q, p);
        lemma_mul_mod_noop_right(r * b, q, p);
        lemma_mul_mod_noop_right(r * b, pow(b, 2 * h), p);
        lemma_mul_is_associative(r, b, pow(b, 2 * h));
        assert(pow(b, e) == pow(b, 2 * h) * b);
        lemma_mul_is_commutative(pow(b, 2 * h), b);
    } else {
        assert(e == 2 * h);
        lemma_mul_mod_noop_right(r, q, p);
        lemma_mul_mod_noop_right(r, pow(b, 2 * h), p);
    }
}

/// `base^exp mod p`, by square-and-multiply.
pub fn pow_gl(base: u64, exp: u64) -> (r: u64)
    ensures
        r == pow(base as int, exp as nat) % (P as int),
        r < P,
{
    let ghost p = P as int;
    let mut result: u64 = 1;
    let mut b: u64 = base % P;
    let mut e: u64 = exp;
    proof {
        lemma_pow0(b as int);
        lemma_pow_mod_noop(base as int, exp as nat, p);
        lemma_mul_mod_noop_right(1, pow(b as int, exp as nat), p);
    }
    while e > 0
        invariant
            result < P,
            b < P,
            (result * pow(b as int, e as nat)) % p == pow(base as int, exp as nat) % p,
            p == P as int,
        decreases e,
    {
        proof {
            lemma_square_multiply_step(result as int, b as int, e as nat);
        }
        if e & 1 == 1 {
            assert(e & 1 == e % 2) by (bit_vector);
            result = gl_mul(result, b);
        } else {
            assert(e & 1 == e % 2) by (bit_vector);
        }
        b = gl_mul(b, b);
        assert(e >> 1 == e / 2) by (bit_vector);
        e = e >> 1;
    }
    proof {
        lemma_pow0(b as int);
        lemma_small_mod(result as nat, p as nat);
    }
    result
}


/// `n` is a power of two (`1, 2, 4, ...`).
pub open spec fn is_power_of_two(n: nat) -> bool
    decreases n,
{
    if n == 1 {
        true
    } else if n < 2 {
        false
    } else {
        n % 2 == 0 && is_power_of_two(n / 2)
    }
}

/// Base-two logarithm, rounded down (`log2(0) == 0`).
pub open spec fn log2(n: nat) -> nat
    decreases n,
{
    if n <= 1 {
        0
    } else {
        1 + log2(n / 2)
    }
}

/// The lowest `bits` bits of `x`, in reversed order.
pub open spec fn bit_rev(x: nat, bits: nat) -> nat
    decreases bits,
{
    if bits == 0 {
        0
    } else {
        (x % 2) * pow2((bits - 1) as nat) + bit_rev(x / 2, (bits - 1) as nat)
    }
}

pub proof fn lemma_power_of_two_log2(n: nat)
    requires
        is_power_of_two(n),
    ensures
        n == pow2(log2(n)),
        n >= 1,
    decreases n,
{
    if n == 1 {
        lemma2_to64();
    } else {
        lemma_power_of_two_log2(n / 2);
        lemma_pow2_unfold(log2(n));
    }
}

pub proof fn lemma_bit_rev_bound(x: nat, bits: nat)
    ensures
        bit_rev(x, bits) < pow2(bits),
    decreases bits,
{
    if bits == 0 {
        lemma2_to64();
    } else {
        let b1 = (bits - 1) as nat;
        lemma_bit_rev_bound(x / 2, b1);
        lemma_pow2_unfold(bits);
        lemma_pow2_pos(b1);
        assert((x % 2) * pow2(b1) <= pow2(b1)) by {
            lemma_mul_inequality((x % 2) as int, 1, pow2(b1) as int);
        }
    }
}

/// Bits are consumed from the bottom: reversing `t + 1` bits shifts the
/// reversal of `t` bits up by one and appends bit `t` of `x`.
pub proof fn lemma_bit_rev_step(x: nat, t: nat)
    ensures
        bit_rev(x, t + 1) == 2 * bit_rev(x, t) + (x / pow2(t)) % 2,
    decreases t,
{
    lemma2_to64();
    if t == 0 {
        assert(x / pow2(0) == x / 1);
        assert(bit_rev(x, 1) == (x % 2) * pow2(0) + bit_rev(x / 2, 0));
    } else {
        let t1 = (t - 1) as nat;
        lemma_bit_rev_step(x / 2, t1);
        lemma_pow2_unfold(t);
        lemma_pow2_pos(t1);
        lemma_div_denominator(x as int, 2, pow2(t1) as int);
        assert((x % 2) * pow2(t) == 2 * ((x % 2) * pow2(t1))) by {
            lemma_mul_is_associative((x % 2) as int, 2, pow2(t1) as int);
            lemma_mul_is_commutative((x % 2) as int, 2);
            lemma_mul_is_associative(2, (x % 2) as int, pow2(t1) as int);
        }
    }
}

/// Reversal only looks at the low `bits` bits.
pub proof fn lemma_bit_rev_mod(x: nat, bits: nat)
    ensures
        bit_rev(x, bits) == bit_rev(x % pow2(bits), bits),
    decreases bits,
{
    lemma_pow2_pos(bits);
    if bits == 0 {
        lemma2_to64();
    } else {
        let b1 = (bits - 1) as nat;
        lemma_pow2_unfold(bits);
        lemma_pow2_pos(b1);
        let m = pow2(b1) as int;
        lemma_mod_breakdown(x as int, 2, m);
        lemma_mod_mod(x as int, 2, m);
        let xm = x % pow2(bits);
        // xm == 2 * ((x/2) % m) + x % 2
        lemma_div_multiples_vanish_fancy(((x / 2) as int) % m, (x % 2) as int, 2);
        lemma_bit_rev_mod(x / 2, b1);
        lemma_bit_rev_mod(xm / 2, b1);
        lemma_mod_twice((x / 2) as int, m);
    }
}

/// Reversing twice restores the low `bits` bits.
pub proof fn lemma_bit_rev_involution(x: nat, bits: nat)
    requires
        x < pow2(bits),
    ensures
        bit_rev(bit_rev(x, bits), bits) == x,
    decreases bits,
{
    if bits == 0 {
        lemma2_to64();
    } else {
        let b = (bits - 1) as nat;
        lemma_pow2_unfold(bits);
        lemma_pow2_pos(b);
        let r = bit_rev(x / 2, b);
        lemma_bit_rev_bound(x / 2, b);
        let y = bit_rev(x, bits);
        assert(y == (x % 2) * pow2(b) + r);
        lemma_bit_rev_step(y, b);
        // y / 2^b == x % 2 and y % 2^b == r
        lemma_fundamental_div_mod_converse(y as int, pow2(b) as int, (x % 2) as int, r as int);
        lemma_bit_rev_mod(y, b);
        assert(x / 2 < pow2(b)) by {
            lemma_div_by_multiple_is_strongly_ordered(x as int, pow2(bits) as int, pow2(b) as int, 2);
        }
        lemma_bit_rev_involution(x / 2, b);
        lemma_fundamental_div_mod(x as int, 2);
    }
}

/// `bit_rev(x, bits)` computed one bit at a time.
fn bit_reverse(x: usize, bits: usize) -> (r: usize)
    requires
        pow2(bits as nat) <= usize::MAX,
    ensures
        r == bit_rev(x as nat, bits as nat),
{
    let mut result: usize = 0;
    let mut y: usize = x;
    let mut t: usize = 0;
    proof {
        lemma2_to64();
    }
    while t < bits
        invariant
            t <= bits,
            pow2(bits as nat) <= usize::MAX,
            result == bit_rev(x as nat, t as nat),
            y == x as nat / pow2(t as nat),
        decreases bits - t,
    {
        proof {
            lemma_bit_rev_step(x as nat, t as nat);
            lemma_bit_rev_bound(x as nat, (t + 1) as nat);
            lemma_pow2_strictly_increases((t + 1) as nat, (bits + 1) as nat);
            lemma_pow2_unfold((bits + 1) as nat);
            if t + 1 < bits {
                lemma_pow2_strictly_increases((t + 1) as nat, bits as nat);
            }
            lemma_pow2_unfold((t + 1) as nat);
            lemma_pow2_pos(t as nat);
            lemma_div_denominator(x as int, pow2(t as nat) as int, 2);
            lemma_mul_is_commutative(pow2(t as nat) as int, 2);
        }
        result = result * 2 + y % 2;
        y = y / 2;
        t = t + 1;
    }
    result
}

/// Number of halvings that bring a power of two down to one.
fn exact_log2(n: usize) -> (k: usize)
    requires
        is_power_of_two(n as nat),
    ensures
        k == log2(n as nat),
        n == pow2(k as nat),
{
    proof {
        lemma_power_of_two_log2(n as nat);
        if log2(n as nat) >= 64 {
            lemma2_to64_rest();
            if log2(n as nat) > 64 {
                lemma_pow2_strictly_increases(64, log2(n as nat));
            }
        }
    }
    let mut m: usize = n;
    let mut k: usize = 0;
    while m > 1
        invariant
            is_power_of_two(m as nat),
            log2(n as nat) == k + log2(m as nat),
            log2(n as nat) < 64,
            m >= 1,
            n as nat == pow2(log2(n as nat)),
        decreases m,
    {
        m = m / 2;
        k = k + 1;
    }
    k
}

/// Bit-reverse permute `vals` in place: afterwards position `i` holds
/// the element that was at position `bit_rev(i, log2(n))`.
pub fn bit_reverse_permute(vals: &mut [u64])
    requires
        is_power_of_two(old(vals)@.len()),
    ensures
        final(vals)@ == bit_reversed(old(vals)@),
{
    let n = vals.len();
    let log_n = exact_log2(n);
    let ghost orig = vals@;
    let ghost lg = log_n as nat;
    let mut i: usize = 0;
    while i < n
        invariant
            n == vals@.len(),
            orig.len() == n,
            n == pow2(lg),
            lg == log_n,
            lg == log2(n as nat),
            i <= n,
            forall|m: int|
                0 <= m < n ==> {
                    let r = bit_rev(m as nat, lg) as int;
                    if m < i || r < i {
                        #[trigger] vals@[m] == orig[r]
                    } else {
                        vals@[m] == orig[m]
                    }
                },
        decreases n - i,
    {
        let j = bit_reverse(i, log_n);
        proof {
            lemma_bit_rev_bound(i as nat, lg);
            lemma_bit_rev_involution(i as nat, lg);
        }
        if i < j {
            let t = vals[i];
            let u = vals[j];
            vals[i] = u;
            vals[j] = t;
        }
        proof {
            assert forall|m: int| 0 <= m < n implies {
                let r = bit_rev(m as nat, lg) as int;
                if m < i + 1 || r < i + 1 {
                    #[trigger] vals@[m] == orig[r]
                } else {
                    vals@[m] == orig[m]
                }
            } by {
                lemma_bit_rev_bound(m as nat, lg);
                lemma_bit_rev_involution(m as nat, lg);
            }
        }
        i = i + 1;
    }
    proof {
        assert forall|m: int| 0 <= m < n implies #[trigger] vals@[m] == orig[bit_rev(m as nat, lg) as int] by {
            lemma_bit_rev_bound(m as nat, lg);
        }
        assert(vals@ =~= bit_reversed(orig));
    }
}

/// Bit-reversal permutation is an involution: permuting twice restores
/// the input.
pub proof fn lemma_bit_reversed_involution(x: Seq<u64>)
    requires
        is_power_of_two(x.len()),
    ensures
        bit_reversed(bit_reversed(x)) == x,
{
    let n = x.len();
    let lg = log2(n);
    lemma_power_of_two_log2(n);
    assert forall|i: int| 0 <= i < n implies #[trigger] bit_reversed(bit_reversed(x))[i] == x[i] by {
        lemma_bit_rev_bound(i as nat, lg);
        lemma_bit_rev_involution(i as nat, lg);
    }
    assert(bit_reversed(bit_reversed(x)) =~= x);
}


/// `omega^e mod p`: the twiddle factor of a butterfly.
pub open spec fn twiddle(omega: int, e: nat) -> int {
    pow(omega, e) % (P as int)
}

/// The elements of `x` in bit-reversed index order.
pub open spec fn bit_reversed(x: Seq<u64>) -> Seq<u64> {
    Seq::new(x.len(), |i: int| x[bit_rev(i as nat, log2(x.len())) as int])
}

/// Radix-2 decimation-in-time transform of an input that is already in
/// bit-reversed order: the two halves are transformed with twiddle stride
/// `2 * s` and combined by butterflies with twiddles `omega^(s * k)`.
/// With `s = 1` and `omega^(n/2) = -1` this is the discrete Fourier
/// transform of the input before its bit-reversal.
pub open spec fn ntt_dit(y: Seq<u64>, omega: int, s: nat) -> Seq<u64>
    decreases y.len(),
{
    if y.len() <= 1 {
        y
    } else {
        let h = y.len() / 2;
        let e = ntt_dit(y.subrange(0, h as int), omega, 2 * s);
        let o = ntt_dit(y.subrange(h as int, y.len() as int), omega, 2 * s);
        Seq::new(
            y.len(),
            |k: int|
                if k < h {
                    ((e[k] + o[k] * twiddle(omega, s * (k as nat))) % (P as int)) as u64
                } else {
                    ((e[k - h] - o[k - h] * twiddle(omega, s * ((k - h) as nat))) % (
                    P as int)) as u64
                },
        )
    }
}

pub proof fn lemma_ntt_dit_len(y: Seq<u64>, omega: int, s: nat)
    ensures
        ntt_dit(y, omega, s).len() == y.len(),
    decreases y.len(),
{
}

/// Block `c` of size `sz` of `x`.
pub open spec fn block(x: Seq<u64>, c: int, sz: int) -> Seq<u64> {
    x.subrange(c * sz, c * sz + sz)
}

proof fn lemma_block_halves(x: Seq<u64>, c: int, h: int)
    requires
        h >= 1,
        c >= 0,
        (c + 1) * (2 * h) <= x.len(),
    ensures
        block(x, c, 2 * h).subrange(0, h) =~= block(x, 2 * c, h),
        block(x, c, 2 * h).subrange(h, 2 * h) =~= block(x, 2 * c + 1, h),
        c * (2 * h) == (2 * c) * h,
        (2 * c + 1) * h == c * (2 * h) + h,
        (2 * c + 2) * h == (c + 1) * (2 * h),
{
    assert(c * (2 * h) == (2 * c) * h) by (nonlinear_arith);
    assert((2 * c + 1) * h == c * (2 * h) + h) by (nonlinear_arith);
    assert((2 * c + 2) * h == (c + 1) * (2 * h)) by (nonlinear_arith);
    assert(c * (2 * h) + 2 * h == (c + 1) * (2 * h)) by (nonlinear_arith);
}

/// Facts about splitting `n = q * half` into blocks of `2 * half`.
proof fn lemma_stage_sizes(n: nat, half: nat, q: nat)
    requires
        n == q * half,
        half >= 1,
        half < n,
        is_power_of_two(q),
    ensures
        q >= 2,
        q % 2 == 0,
        is_power_of_two(q / 2),
        n == (q / 2) * (2 * half),
        n / (2 * half) == q / 2,
        n / half == q,
        2 * (q / 2) == q,
{
    if q < 2 {
        assert(q == 1);
        assert(n == half);
    }
    assert(q != 1);
    assert(q % 2 == 0 && is_power_of_two(q / 2));
    lemma_fundamental_div_mod(q as int, 2);
    assert(n == (q / 2) * (2 * half)) by {
        lemma_mul_is_associative((q / 2) as int, 2, half as int);
    }
    lemma_div_by_multiple((q / 2) as int, (2 * half) as int);
    lemma_div_by_multiple(q as int, half as int);
}

/// One butterfly column: combines element `k` of the two halves of a block.
proof fn lemma_butterfly_values(e: u64, o: u64, w: u64, tw: int)
    requires
        w as int == tw,
    ensures
        ({
            let v = (o * w) % (P as int);
            &&& (e + v) % (P as int) == (e + o * tw) % (P as int)
            &&& (e - v) % (P as int) == (e - o * tw) % (P as int)
        }),
{
    let p = P as int;
    lemma_add_mod_noop_right(e as int, o * w, p);
    lemma_sub_mod_noop_right(e as int, o * w, p);
}

proof fn lemma_twiddle_step(omega: int, s: nat, k: nat)
    ensures
        (twiddle(omega, s * k) * twiddle(omega, s)) % (P as int) == twiddle(omega, s * (k + 1)),
{
    let p = P as int;
    lemma_mul_mod_noop(pow(omega, s * k), pow(omega, s), p);
    lemma_pow_adds(omega, s * k, s);
    assert(s * k + s == s * (k + 1)) by (nonlinear_arith);
}

/// Cooley-Tukey DIT NTT in place over Goldilocks.
///
/// The input is first permuted into bit-reversed order, then combined by
/// `log2(n)` butterfly stages; stage with blocks of size `len` uses the
/// twiddle `omega^(n / len)`. When `omega` is a primitive `n`-th root of
/// unity the result is the discrete Fourier transform of the input.
pub fn ntt_forward(vals: &mut [u64], omega: u64)
    requires
        is_power_of_two(old(vals)@.len()),
    ensures
        final(vals)@ == ntt_dit(bit_reversed(old(vals)@), omega as int, 1),
{
    let n = vals.len();
    let ghost om = omega as int;
    let ghost orig = vals@;
    if n == 1 {
        proof {
            assert(bit_reversed(orig) =~= orig);
        }
        return;
    }
    bit_reverse_permute(vals);
    let ghost y = vals@;
    proof {
        assert(y =~= bit_reversed(orig));
    }
    let mut half: usize = 1;
    let ghost mut q: nat = n as nat;
    proof {
        assert forall|c: int| 0 <= c < n / 1 implies #[trigger] block(vals@, c, 1) =~= ntt_dit(
            block(y, c, 1),
            om,
            (n / 1) as nat,
        ) by {}
    }
    while half < n
        invariant
            n == vals@.len(),
            y.len() == n,
            n >= 2,
            half >= 1,
            half <= n,
            n == q * half,
            is_power_of_two(q),
            om == omega as int,
            forall|c: int|
                0 <= c < q ==> #[trigger] block(vals@, c, half as int) =~= ntt_dit(
                    block(y, c, half as int),
                    om,
                    q,
                ),
        decreases n - half,
    {
        proof {
            lemma_stage_sizes(n as nat, half as nat, q);
            assert(2 * half <= n) by (nonlinear_arith)
                requires
                    n == (q / 2) * (2 * half),
                    q / 2 >= 1,
            ;
        }
        let len = half * 2;
        let ghost s: nat = q / 2;
        let stride = n / len;
        assert(stride == s);
        let w_len = pow_gl(omega, stride as u64);
        let mut j: usize = 0;
        let ghost mut b: int = 0;
        while j < n
            invariant
                n == vals@.len(),
                y.len() == n,
                half >= 1,
                len == 2 * half,
                n == s * len,
                q == 2 * s,
                j == b * len,
                0 <= b <= s,
                w_len == twiddle(om, s),
                om == omega as int,
                forall|c: int|
                    0 <= c < b ==> #[trigger] block(vals@, c, len as int) =~= ntt_dit(
                        block(y, c, len as int),
                        om,
                        s,
                    ),
                forall|c: int|
                    2 * b <= c < q ==> #[trigger] block(vals@, c, half as int) =~= ntt_dit(
                        block(y, c, half as int),
                        om,
                        q,
                    ),
            decreases n - j,
        {
            proof {
                assert(b < s) by (nonlinear_arith)
                    requires
                        j == b * len,
                        j < n,
                        n == s * len,
                        len > 0,
                ;
                assert((b + 1) * len <= n) by (nonlinear_arith)
                    requires
                        b < s,
                        n == s * len,
                        len > 0,
                ;
                lemma_block_halves(y, b, half as int);
                lemma_block_halves(vals@, b, half as int);
                assert(j + len == (b + 1) * len) by (nonlinear_arith)
                    requires
                        j == b * len,
                ;
            }
            let ghost before = vals@;
            let ghost ev = block(y, 2 * b, half as int);
            let ghost od = block(y, 2 * b + 1, half as int);
            let ghost e = ntt_dit(ev, om, q);
            let ghost o = ntt_dit(od, om, q);
            proof {
                lemma_ntt_dit_len(ev, om, q);
                lemma_ntt_dit_len(od, om, q);
                assert(block(before, 2 * b, half as int) =~= e);
                assert(block(before, 2 * b + 1, half as int) =~= o);
            }
            let mut w: u64 = 1;
            let mut k: usize = 0;
            proof {
                lemma_pow0(om);
                assert(twiddle(om, s * 0) == 1) by {
                    lemma_small_mod(1, P as nat);
                }
            }
            while k < half
                invariant
                    n == vals@.len(),
                    before.len() == n,
                    len == 2 * half,
                    j + len <= n,
                    j == b * len,
                    k <= half,
                    w as int == twiddle(om, s * (k as nat)),
                    w_len == twiddle(om, s),
                    e.len() == half,
                    o.len() == half,
                    forall|m: int|
                        0 <= m < n && !(j <= m < j + len) ==> #[trigger] vals@[m] == before[m],
                    forall|i: int|
                        0 <= i < k ==> #[trigger] vals@[j + i] == ((e[i] + o[i] * twiddle(
                            om,
                            s * (i as nat),
                        )) % (P as int)) as u64,
                    forall|i: int|
                        0 <= i < k ==> #[trigger] vals@[j + i + half] == ((e[i] - o[i] * twiddle(
                            om,
                            s * (i as nat),
                        )) % (P as int)) as u64,
                    forall|i: int| k <= i < half ==> #[trigger] vals@[j + i] == e[i],
                    forall|i: int| k <= i < half ==> #[trigger] vals@[j + i + half] == o[i],
                decreases half - k,
            {
                let u = vals[j + k];
                let x = vals[j + k + half];
                let v = gl_mul(x, w);
                proof {
                    lemma_butterfly_values(u, x, w, twiddle(om, s * (k as nat)));
                }
                vals[j + k] = gl_add(u, v);
                vals[j + k + half] = gl_sub(u, v);
                proof {
                    lemma_twiddle_step(om, s, k as nat);
                    lemma_mul_mod_noop(w as int, w_len as int, P as int);
                }
                w = gl_mul(w, w_len);
                k = k + 1;
            }
            proof {
                let t = ntt_dit(block(y, b, len as int), om, s);
                let blk = block(y, b, len as int);
                assert(blk.subrange(0, half as int) =~= ev);
                assert(blk.subrange(half as int, len as int) =~= od);
                assert(2 * s == q);
                assert forall|i: int| 0 <= i < len implies #[trigger] block(vals@, b, len as int)[i]
                    == t[i] by {
                    if i < half {
                        assert(vals@[j + i] == block(vals@, b, len as int)[i]);
                    } else {
                        assert(vals@[j + (i - half) + half] == block(vals@, b, len as int)[i]);
                    }
                }
                assert(block(vals@, b, len as int) =~= t);
                assert forall|c: int| 0 <= c < b + 1 implies #[trigger] block(
                    vals@,
                    c,
                    len as int,
                ) =~= ntt_dit(block(y, c, len as int), om, s) by {
                    if c < b {
                        assert(c * len + len <= j) by (nonlinear_arith)
                            requires
                                c < b,
                                j == b * len,
                                len > 0,
                        ;
                        assert(block(vals@, c, len as int) =~= block(before, c, len as int));
                    }
                }
                assert forall|c: int| 2 * (b + 1) <= c < q implies #[trigger] block(
                    vals@,
                    c,
                    half as int,
                ) =~= ntt_dit(block(y, c, half as int), om, q) by {
                    assert(c * half >= j + len) by (nonlinear_arith)
                        requires
                            c >= 2 * b + 2,
                            j == b * len,
                            len == 2 * half,
                            half > 0,
                    ;
                    assert(c * half + half <= n) by (nonlinear_arith)
                        requires
                            c < q,
                            n == s * len,
                            q == 2 * s,
                            len == 2 * half,
                    ;
                    assert(block(vals@, c, half as int) =~= block(before, c, half as int));
                }
            }
            j = j + len;
            proof {
                b = b + 1;
                assert(j == b * len) by (nonlinear_arith)
                    requires
                        j == (b - 1) * len + len,
                ;
            }
        }
        proof {
            assert(b == s) by (nonlinear_arith)
                requires
                    j == b * len,
                    j >= n,
                    n == s * len,
                    b <= s,
                    len > 0,
            ;
        }
        half = len;
        proof {
            q = s;
            assert(half <= n) by (nonlinear_arith)
                requires
                    n == s * len,
                    s >= 1,
                    half == len,
            ;
        }
    }
    proof {
        assert(q == 1) by (nonlinear_arith)
            requires
                n == q * half,
                half >= n,
                n >= 2,
                q >= 1,
        ;
        assert(block(vals@, 0, n as int) =~= vals@);
        assert(block(y, 0, n as int) =~= y);
    }
}

} // verus!
