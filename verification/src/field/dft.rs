//! What the Cooley-Tukey transform computes: algebraic laws of `ntt_dit`.

use crate::field::goldilocks::P;
use crate::field::roots::lemma_primitive_root_half;
use crate::field::sums::{
    lemma_cong_add, lemma_cong_mul, lemma_cong_sub, lemma_sum_cong, lemma_sum_ext, lemma_sum_scale,
    sum_to,
};
use crate::field::ntt::{
    bit_reversed, is_power_of_two, lemma_bit_rev_bound, lemma_bit_rev_mod, lemma_bit_rev_step,
    lemma_power_of_two_log2, log2, ntt_dit,
};
use vstd::arithmetic::div_mod::*;
use vstd::arithmetic::mul::*;
use vstd::arithmetic::power::*;
use vstd::arithmetic::power2::*;
use vstd::prelude::*;

verus! {

/// Elementwise `(a[i] + b[i]) mod p`.
pub open spec fn add_elementwise(a: Seq<u64>, b: Seq<u64>) -> Seq<u64> {
    Seq::new(a.len(), |i: int| ((a[i] + b[i]) % (P as int)) as u64)
}

/// Both butterfly outputs commute with an elementwise sum of inputs.
proof fn lemma_butterfly_linear(ea: int, eb: int, oa: int, ob: int, t: int)
    ensures
        (((ea + eb) % (P as int)) + ((oa + ob) % (P as int)) * t) % (P as int) == (((ea + oa * t)
            % (P as int)) + ((eb + ob * t) % (P as int))) % (P as int),
        (((ea + eb) % (P as int)) - ((oa + ob) % (P as int)) * t) % (P as int) == (((ea - oa * t)
            % (P as int)) + ((eb - ob * t) % (P as int))) % (P as int),
{
    let p = P as int;
    lemma_mod_twice(ea + eb, p);
    lemma_mod_twice(oa + ob, p);
    lemma_cong_mul((oa + ob) % p, oa + ob, t, t);
    lemma_cong_add((ea + eb) % p, ea + eb, ((oa + ob) % p) * t, (oa + ob) * t);
    lemma_cong_sub((ea + eb) % p, ea + eb, ((oa + ob) % p) * t, (oa + ob) * t);
    lemma_add_mod_noop(ea + oa * t, eb + ob * t, p);
    lemma_add_mod_noop(ea - oa * t, eb - ob * t, p);
    lemma_mul_is_distributive_add_other_way(t, oa, ob);
}

/// `ntt_dit` with any root and stride is linear in its input.
proof fn lemma_ntt_dit_linear(a: Seq<u64>, b: Seq<u64>, omega: int, s: nat)
    requires
        is_power_of_two(a.len()),
        a.len() == b.len(),
    ensures
        ntt_dit(add_elementwise(a, b), omega, s) == add_elementwise(
            ntt_dit(a, omega, s),
            ntt_dit(b, omega, s),
        ),
    decreases a.len(),
{
    let n = a.len();
    let p = P as int;
    let ab = add_elementwise(a, b);
    if n <= 1 {
        assert(ntt_dit(ab, omega, s) =~= add_elementwise(
            ntt_dit(a, omega, s),
            ntt_dit(b, omega, s),
        ));
    } else {
        let h = n / 2;
        assert(n % 2 == 0 && is_power_of_two(h));
        assert(ab.subrange(0, h as int) =~= add_elementwise(
            a.subrange(0, h as int),
            b.subrange(0, h as int),
        ));
        assert(ab.subrange(h as int, n as int) =~= add_elementwise(
            a.subrange(h as int, n as int),
            b.subrange(h as int, n as int),
        ));
        lemma_ntt_dit_linear(a.subrange(0, h as int), b.subrange(0, h as int), omega, 2 * s);
        lemma_ntt_dit_linear(
            a.subrange(h as int, n as int),
            b.subrange(h as int, n as int),
            omega,
            2 * s,
        );
        let ea = ntt_dit(a.subrange(0, h as int), omega, 2 * s);
        let eb = ntt_dit(b.subrange(0, h as int), omega, 2 * s);
        let oa = ntt_dit(a.subrange(h as int, n as int), omega, 2 * s);
        let ob = ntt_dit(b.subrange(h as int, n as int), omega, 2 * s);
        crate::field::ntt::lemma_ntt_dit_len(a.subrange(0, h as int), omega, 2 * s);
        crate::field::ntt::lemma_ntt_dit_len(b.subrange(0, h as int), omega, 2 * s);
        crate::field::ntt::lemma_ntt_dit_len(a.subrange(h as int, n as int), omega, 2 * s);
        crate::field::ntt::lemma_ntt_dit_len(b.subrange(h as int, n as int), omega, 2 * s);
        crate::field::ntt::lemma_ntt_dit_len(a, omega, s);
        crate::field::ntt::lemma_ntt_dit_len(b, omega, s);
        let lhs = ntt_dit(ab, omega, s);
        let rhs = add_elementwise(ntt_dit(a, omega, s), ntt_dit(b, omega, s));
        assert(ea.len() == h);
        assert(eb.len() == h);
        assert(oa.len() == h);
        assert(ob.len() == h);
        assert forall|k: int| 0 <= k < n implies #[trigger] lhs[k] == rhs[k] by {
            let aa = ntt_dit(a, omega, s);
            let bb = ntt_dit(b, omega, s);
            if k < h {
                let t = crate::field::ntt::twiddle(omega, s * (k as nat));
                lemma_butterfly_linear(ea[k] as int, eb[k] as int, oa[k] as int, ob[k] as int, t);
                assert(aa[k] == ((ea[k] + oa[k] * t) % p) as u64);
                assert(bb[k] == ((eb[k] + ob[k] * t) % p) as u64);
            } else {
                let kk = k - h;
                let t = crate::field::ntt::twiddle(omega, s * (kk as nat));
                lemma_butterfly_linear(ea[kk] as int, eb[kk] as int, oa[kk] as int, ob[kk] as int, t);
                assert(aa[k] == ((ea[kk] - oa[kk] * t) % p) as u64);
                assert(bb[k] == ((eb[kk] - ob[kk] * t) % p) as u64);
            }
        }
        assert(lhs =~= rhs);
    }
}

/// Linearity: transforming the elementwise sum (mod `p`) of two inputs
/// gives the elementwise sum of their transforms, for any `omega`.
pub proof fn lemma_ntt_forward_linear(a: Seq<u64>, b: Seq<u64>, omega: u64)
    requires
        is_power_of_two(a.len()),
        a.len() == b.len(),
    ensures
        ntt_dit(bit_reversed(add_elementwise(a, b)), omega as int, 1) == add_elementwise(
            ntt_dit(bit_reversed(a), omega as int, 1),
            ntt_dit(bit_reversed(b), omega as int, 1),
        ),
{
    let n = a.len();
    let lg = log2(n);
    lemma_power_of_two_log2(n);
    assert forall|i: int| 0 <= i < n implies #[trigger] bit_reversed(add_elementwise(a, b))[i]
        == add_elementwise(bit_reversed(a), bit_reversed(b))[i] by {
        lemma_bit_rev_bound(i as nat, lg);
    }
    assert(bit_reversed(add_elementwise(a, b)) =~= add_elementwise(
        bit_reversed(a),
        bit_reversed(b),
    ));
    lemma_ntt_dit_linear(bit_reversed(a), bit_reversed(b), omega as int, 1);
}


/// The terms `x[j] * omega^(s * j * k)` of a transform at frequency `k`
/// whose twiddle exponents advance by `s`.
pub open spec fn dft_terms(x: Seq<u64>, omega: int, s: nat, k: nat) -> spec_fn(int) -> int {
    |j: int| x[j] * pow(omega, s * (j as nat) * k)
}

/// The discrete Fourier transform of `x` at frequency `k`:
/// `(x[0] * omega^0 + x[1] * omega^k + ... + x[n-1] * omega^((n-1) * k)) mod p`.
pub open spec fn dft(x: Seq<u64>, omega: int, k: nat) -> int {
    sum_to(dft_terms(x, omega, 1, k), x.len()) % (P as int)
}

spec fn evens(x: Seq<u64>) -> Seq<u64> {
    Seq::new(x.len() / 2, |i: int| x[2 * i])
}

spec fn odds(x: Seq<u64>) -> Seq<u64> {
    Seq::new(x.len() / 2, |i: int| x[2 * i + 1])
}

spec fn at_even(f: spec_fn(int) -> int) -> spec_fn(int) -> int {
    |i: int| f(2 * i)
}

spec fn at_odd(f: spec_fn(int) -> int) -> spec_fn(int) -> int {
    |i: int| f(2 * i + 1)
}

proof fn lemma_sum_parity(f: spec_fn(int) -> int, m: nat)
    ensures
        sum_to(f, 2 * m) == sum_to(at_even(f), m) + sum_to(at_odd(f), m),
    decreases m,
{
    if m > 0 {
        let m1 = (m - 1) as nat;
        lemma_sum_parity(f, m1);
        assert(sum_to(f, 2 * m) == sum_to(f, (2 * m - 1) as nat) + f(2 * m - 1));
        assert(sum_to(f, (2 * m - 1) as nat) == sum_to(f, 2 * m1) + f(2 * m - 2));
        assert(at_even(f)(m - 1) == f(2 * m - 2));
        assert(at_odd(f)(m - 1) == f(2 * m - 1));
    }
}

/// The first half of a bit-reversed sequence is the bit-reversed even
/// positions, the second half the bit-reversed odd positions.
proof fn lemma_bit_reversed_halves(x: Seq<u64>)
    requires
        is_power_of_two(x.len()),
        x.len() >= 2,
    ensures
        x.len() % 2 == 0,
        is_power_of_two(x.len() / 2),
        bit_reversed(x).subrange(0, (x.len() / 2) as int) =~= bit_reversed(evens(x)),
        bit_reversed(x).subrange((x.len() / 2) as int, x.len() as int) =~= bit_reversed(odds(x)),
{
    let n = x.len();
    let h = n / 2;
    assert(n % 2 == 0 && is_power_of_two(h));
    let m1 = log2(h);
    assert(log2(n) == m1 + 1);
    lemma_power_of_two_log2(h);
    let hp = pow2(m1) as int;
    assert forall|i: int| 0 <= i < h implies #[trigger] bit_reversed(x).subrange(0, h as int)[i]
        == bit_reversed(evens(x))[i] by {
        lemma_bit_rev_step(i as nat, m1);
        lemma_basic_div(i, hp);
        lemma_bit_rev_bound(i as nat, m1);
    }
    assert forall|i: int| 0 <= i < h implies #[trigger] bit_reversed(x).subrange(
        h as int,
        n as int,
    )[i] == bit_reversed(odds(x))[i] by {
        let j = i + h;
        lemma_bit_rev_step(j as nat, m1);
        lemma_fundamental_div_mod_converse(j, hp, 1, i);
        lemma_bit_rev_mod(j as nat, m1);
        lemma_bit_rev_bound(i as nat, m1);
    }
}

/// Splitting a transform by index parity: the even terms form a transform of
/// stride `2s`, and the odd terms one scaled by `omega^(s*k)`.
proof fn lemma_dft_split(x: Seq<u64>, omega: int, s: nat, k: nat)
    requires
        x.len() % 2 == 0,
    ensures
        sum_to(dft_terms(x, omega, s, k), x.len()) == sum_to(
            dft_terms(evens(x), omega, 2 * s, k),
            x.len() / 2,
        ) + pow(omega, s * k) * sum_to(dft_terms(odds(x), omega, 2 * s, k), x.len() / 2),
{
    let h = x.len() / 2;
    let f = dft_terms(x, omega, s, k);
    let fe = dft_terms(evens(x), omega, 2 * s, k);
    let fo = dft_terms(odds(x), omega, 2 * s, k);
    lemma_sum_parity(f, h);
    assert forall|i: int| 0 <= i < h implies #[trigger] at_even(f)(i) == fe(i) by {
        let iu = i as nat;
        assert((2 * i) as nat == 2 * iu);
        assert(s * (2 * iu) * k == (2 * s) * iu * k) by (nonlinear_arith);
    }
    lemma_sum_ext(at_even(f), fe, h);
    let c = pow(omega, s * k);
    assert forall|i: int| 0 <= i < h implies #[trigger] at_odd(f)(i) == c * fo(i) by {
        let iu = i as nat;
        let a = (2 * s) * iu * k;
        assert((2 * i + 1) as nat == 2 * iu + 1);
        assert(s * (2 * iu + 1) * k == a + s * k) by (nonlinear_arith)
            requires
                a == (2 * s) * iu * k,
        ;
        lemma_pow_adds(omega, a, s * k);
        let xv = x[2 * i + 1] as int;
        let pa = pow(omega, a);
        assert(xv * (pa * c) == c * (xv * pa)) by (nonlinear_arith);
    }
    lemma_sum_scale(fo, at_odd(f), c, h);
}

/// `(p - 1)^2 = 1 (mod p)`.
proof fn lemma_minus_one_squared()
    ensures
        (((P as int) - 1) * ((P as int) - 1)) % (P as int) == 1,
{
    let p = P as int;
    assert((p - 1) * (p - 1) == p * (p - 2) + 1) by (nonlinear_arith);
    lemma_mod_multiples_vanish(p - 2, 1, p);
    lemma_small_mod(1, p as nat);
}

/// If `omega^r = -1` then every multiple of `2r` is a period: `omega^(i*2r) = 1`.
proof fn lemma_root_period(omega: int, r: nat, i: nat)
    requires
        pow(omega, r) % (P as int) == (P as int) - 1,
    ensures
        pow(omega, i * (2 * r)) % (P as int) == 1,
{
    let p = P as int;
    lemma_pow_adds(omega, r, r);
    lemma_cong_mul(pow(omega, r), p - 1, pow(omega, r), p - 1);
    lemma_minus_one_squared();
    assert(pow(omega, 2 * r) % p == 1);
    lemma_pow_multiplies(omega, 2 * r, i);
    lemma_mul_is_commutative((2 * r) as int, i as int);
    lemma_pow_mod_noop(pow(omega, 2 * r), i, p);
    lemma1_pow(i);
    lemma_small_mod(1, p as nat);
}

/// Shifting the frequency by half the length leaves a stride-`2s` transform
/// of length `h` unchanged mod `p` when `omega^(s*h) = -1`.
proof fn lemma_frequency_shift(z: Seq<u64>, omega: int, s: nat, h: nat, k: nat)
    requires
        pow(omega, s * h) % (P as int) == (P as int) - 1,
    ensures
        sum_to(dft_terms(z, omega, 2 * s, k + h), h) % (P as int) == sum_to(
            dft_terms(z, omega, 2 * s, k),
            h,
        ) % (P as int),
{
    let p = P as int;
    let f = dft_terms(z, omega, 2 * s, k + h);
    let g = dft_terms(z, omega, 2 * s, k);
    assert forall|i: int| 0 <= i < h implies #[trigger] f(i) % p == g(i) % p by {
        let iu = i as nat;
        let a = (2 * s) * iu * k;
        let b = iu * (2 * (s * h));
        assert((2 * s) * iu * (k + h) == a + b) by (nonlinear_arith)
            requires
                a == (2 * s) * iu * k,
                b == iu * (2 * (s * h)),
        ;
        lemma_pow_adds(omega, a, b);
        lemma_root_period(omega, s * h, iu);
        let zv = z[i] as int;
        let pa = pow(omega, a);
        assert(zv * (pa * pow(omega, b)) == (zv * pa) * pow(omega, b)) by (nonlinear_arith);
        lemma_cong_mul(zv * pa, zv * pa, pow(omega, b), 1);
    }
    lemma_sum_cong(f, g, h);
}

/// Shifting the twiddle exponent by `s*h` negates it when `omega^(s*h) = -1`.
proof fn lemma_twiddle_shift(omega: int, s: nat, h: nat, k: nat)
    requires
        pow(omega, s * h) % (P as int) == (P as int) - 1,
    ensures
        pow(omega, s * (k + h)) % (P as int) == (-pow(omega, s * k)) % (P as int),
{
    let p = P as int;
    assert(s * (k + h) == s * k + s * h) by (nonlinear_arith);
    lemma_pow_adds(omega, s * k, s * h);
    lemma_mod_add_multiples_vanish(-1, p);
    lemma_small_mod((p - 1) as nat, p as nat);
    lemma_cong_mul(pow(omega, s * k), pow(omega, s * k), pow(omega, s * h), -1);
}

/// `ntt_dit` of a bit-reversed input with stride `s` is, mod `p`, the sum
/// `x[0] + x[1] * omega^(s*k) + ...` at every frequency `k`.
proof fn lemma_ntt_dit_dft(x: Seq<u64>, omega: int, s: nat, k: int)
    requires
        is_power_of_two(x.len()),
        x.len() >= 2 ==> pow(omega, s * (x.len() / 2)) % (P as int) == (P as int) - 1,
        0 <= k < x.len(),
    ensures
        (ntt_dit(bit_reversed(x), omega, s)[k] as int) % (P as int) == sum_to(
            dft_terms(x, omega, s, k as nat),
            x.len(),
        ) % (P as int),
    decreases x.len(),
{
    let p = P as int;
    let n = x.len();
    if n == 1 {
        assert(bit_reversed(x) =~= x);
        lemma_pow0(omega);
        assert(sum_to(dft_terms(x, omega, s, 0), 1) == sum_to(dft_terms(x, omega, s, 0), 0)
            + dft_terms(x, omega, s, 0)(0));
    } else {
        let h = n / 2;
        lemma_bit_reversed_halves(x);
        let y = bit_reversed(x);
        let ev = evens(x);
        let od = odds(x);
        if h >= 2 {
            assert(h % 2 == 0);
            assert((2 * s) * (h / 2) == s * h) by (nonlinear_arith)
                requires
                    h % 2 == 0,
            ;
        }
        let kk: int = if k < h {
            k
        } else {
            k - h
        };
        lemma_ntt_dit_dft(ev, omega, 2 * s, kk);
        lemma_ntt_dit_dft(od, omega, 2 * s, kk);
        crate::field::ntt::lemma_ntt_dit_len(bit_reversed(ev), omega, 2 * s);
        crate::field::ntt::lemma_ntt_dit_len(bit_reversed(od), omega, 2 * s);
        let e = ntt_dit(bit_reversed(ev), omega, 2 * s);
        let o = ntt_dit(bit_reversed(od), omega, 2 * s);
        assert(y.subrange(0, h as int) == bit_reversed(ev));
        assert(y.subrange(h as int, n as int) == bit_reversed(od));
        let ek = sum_to(dft_terms(ev, omega, 2 * s, kk as nat), h);
        let ok = sum_to(dft_terms(od, omega, 2 * s, kk as nat), h);
        let w = pow(omega, s * (kk as nat));
        let tw = crate::field::ntt::twiddle(omega, s * (kk as nat));
        lemma_mod_twice(w, p);
        lemma_cong_mul(o[kk] as int, ok, tw, w);
        lemma_dft_split(x, omega, s, k as nat);
        let total = sum_to(dft_terms(x, omega, s, k as nat), n);
        let r = ntt_dit(y, omega, s);
        if k < h {
            lemma_cong_add(e[kk] as int, ek, o[kk] * tw, ok * w);
            assert(r[k] == ((e[kk] + o[kk] * tw) % p) as u64);
            lemma_mod_twice(e[kk] + o[kk] * tw, p);
            assert(total == ek + w * ok);
            lemma_mul_is_commutative(w, ok);
        } else {
            lemma_frequency_shift(ev, omega, s, h, kk as nat);
            lemma_frequency_shift(od, omega, s, h, kk as nat);
            lemma_twiddle_shift(omega, s, h, kk as nat);
            assert(kk as nat + h == k as nat);
            let ek2 = sum_to(dft_terms(ev, omega, 2 * s, k as nat), h);
            let ok2 = sum_to(dft_terms(od, omega, 2 * s, k as nat), h);
            let w2 = pow(omega, s * (k as nat));
            assert(total == ek2 + w2 * ok2);
            lemma_cong_mul(w2, -w, ok2, ok);
            lemma_cong_add(ek2, ek, w2 * ok2, (-w) * ok);
            lemma_cong_sub(e[kk] as int, ek, o[kk] * tw, ok * w);
            assert(r[k] == ((e[kk] - o[kk] * tw) % p) as u64);
            lemma_mod_twice(e[kk] - o[kk] * tw, p);
            assert(ek + (-w) * ok == ek - ok * w) by (nonlinear_arith);
        }
    }
}

/// With `omega` a primitive `n`-th root of unity (`omega^(n/2) = -1 mod p`),
/// the transform computed by `ntt_forward` is the discrete Fourier
/// transform: output `k` is `sum_j x[j] * omega^(j*k) mod p`.
pub proof fn lemma_ntt_forward_is_dft(x: Seq<u64>, omega: u64, k: int)
    requires
        is_power_of_two(x.len()),
        x.len() >= 2 ==> pow(omega as int, x.len() / 2) % (P as int) == (P as int) - 1,
        0 <= k < x.len(),
    ensures
        (ntt_dit(bit_reversed(x), omega as int, 1)[k] as int) % (P as int) == dft(x, omega as int, k as nat),
        x.len() >= 2 ==> ntt_dit(bit_reversed(x), omega as int, 1)[k] == dft(
            x,
            omega as int,
            k as nat,
        ),
{
    let p = P as int;
    assert(1 * (x.len() / 2) == x.len() / 2);
    lemma_ntt_dit_dft(x, omega as int, 1, k);
    if x.len() >= 2 {
        let v = ntt_dit(bit_reversed(x), omega as int, 1)[k];
        assert(v < P) by {
            let n = x.len();
            let h = n / 2;
            lemma_bit_reversed_halves(x);
        }
        lemma_small_mod(v as nat, p as nat);
    }
}


/// At a primitive `n`-th root of unity of the Goldilocks field (`omega^n = 1`,
/// `omega^(n/2) != 1`), the transform computed by `ntt_forward` is the
/// discrete Fourier transform `sum_j x[j] * omega^(j*k) mod p`.
pub proof fn lemma_ntt_forward_is_dft_at_primitive_root(x: Seq<u64>, omega: u64, k: int)
    requires
        is_power_of_two(x.len()),
        pow(omega as int, x.len()) % (P as int) == 1,
        x.len() >= 2 ==> pow(omega as int, x.len() / 2) % (P as int) != 1,
        0 <= k < x.len(),
    ensures
        (ntt_dit(bit_reversed(x), omega as int, 1)[k] as int) % (P as int) == dft(x, omega as int, k as nat),
        x.len() >= 2 ==> ntt_dit(bit_reversed(x), omega as int, 1)[k] == dft(
            x,
            omega as int,
            k as nat,
        ),
{
    if x.len() >= 2 {
        assert(x.len() % 2 == 0);
        lemma_primitive_root_half(omega as int, x.len());
    }
    lemma_ntt_forward_is_dft(x, omega, k);
}

} // verus!
