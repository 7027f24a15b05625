//! Primes: Euclid's algorithm, inverses modulo a prime, Fermat's little
//! theorem, and the primality of the Goldilocks prime.

use crate::field::goldilocks::P;
use crate::field::sums::{lemma_sum_scale, lemma_sum_split, sum_to};
use vstd::arithmetic::div_mod::*;
use vstd::arithmetic::mul::*;
use vstd::arithmetic::power::*;
use vstd::arithmetic::power2::*;
use vstd::prelude::*;

verus! {

/// `n` is prime: greater than one, with no divisor strictly between one
/// and itself.
pub open spec fn is_prime(n: int) -> bool {
    n > 1 && forall|d: int| 1 < d < n ==> #[trigger] (n % d) != 0
}

/// Greatest common divisor by Euclid's algorithm.
pub open spec fn gcd(a: nat, b: nat) -> nat
    decreases b,
{
    if b == 0 {
        a
    } else {
        gcd(b, a % b)
    }
}

/// Bezout coefficients: `a * x + b * y == gcd(a, b)`.
pub proof fn lemma_bezout(a: nat, b: nat) -> (xy: (int, int))
    ensures
        a * xy.0 + b * xy.1 == gcd(a, b),
    decreases b,
{
    if b == 0 {
        (1, 0)
    } else {
        let r = a % b;
        let q = a / b;
        let (x, y) = lemma_bezout(b, r);
        lemma_fundamental_div_mod(a as int, b as int);
        assert(a * y + b * (x - q * y) == b * x + r * y) by (nonlinear_arith)
            requires
                a == b * q + r,
        ;
        (y, x - q * y)
    }
}

/// The gcd of two numbers, not both zero, is positive and divides both.
pub proof fn lemma_gcd_divides(a: nat, b: nat)
    requires
        a > 0 || b > 0,
    ensures
        gcd(a, b) > 0,
        a % gcd(a, b) == 0,
        b % gcd(a, b) == 0,
    decreases b,
{
    if b == 0 {
        lemma_mod_self_0(a as int);
        lemma_small_mod(0, a);
    } else {
        lemma_gcd_divides(b, a % b);
        let ai = a as int;
        let bi = b as int;
        let r = ai % bi;
        let q = ai / bi;
        let g = gcd(b, a % b) as int;
        lemma_fundamental_div_mod(ai, bi);
        lemma_fundamental_div_mod(bi, g);
        lemma_fundamental_div_mod(r, g);
        let k = q * (bi / g) + (r / g);
        assert(ai == k * g) by (nonlinear_arith)
            requires
                ai == bi * q + r,
                bi == g * (bi / g) + bi % g,
                bi % g == 0,
                r == g * (r / g) + r % g,
                r % g == 0,
                k == q * (bi / g) + (r / g),
        ;
        lemma_mod_multiples_basic(k, g);
    }
}

/// In a prime field every non-zero element has an inverse.
pub proof fn lemma_inverse_exists(p: nat, a: nat) -> (u: int)
    requires
        is_prime(p as int),
        0 < a < p,
    ensures
        (a * u) % (p as int) == 1,
{
    lemma_gcd_divides(a, p);
    let g = gcd(a, p);
    // g divides a, so g <= a < p; g divides p, so g is not a proper divisor
    let ai = a as int;
    let gi = g as int;
    lemma_fundamental_div_mod(ai, gi);
    assert(gi <= ai) by (nonlinear_arith)
        requires
            ai == gi * (ai / gi) + ai % gi,
            ai % gi == 0,
            ai > 0,
            gi > 0,
    ;
    if g > 1 {
        assert((p as int) % (g as int) != 0);
    }
    assert(g == 1);
    let (x, y) = lemma_bezout(a, p);
    lemma_mod_multiples_vanish(y, a * x, p as int);
    lemma_small_mod(1, p);
    assert(p * y + a * x == 1);
    x
}


/// `f` and `g` agree modulo `m` term by term, so their sums do.
proof fn lemma_sum_cong_mod(f: spec_fn(int) -> int, g: spec_fn(int) -> int, n: nat, m: int)
    requires
        m > 0,
        forall|i: int| 0 <= i < n ==> #[trigger] f(i) % m == g(i) % m,
    ensures
        sum_to(f, n) % m == sum_to(g, n) % m,
    decreases n,
{
    if n > 0 {
        let n1 = (n - 1) as nat;
        lemma_sum_cong_mod(f, g, n1, m);
        lemma_add_mod_noop(sum_to(f, n1), f(n1 as int), m);
        lemma_add_mod_noop(sum_to(g, n1), g(n1 as int), m);
    }
}

/// The sum of a pointwise sum is the sum of the sums.
proof fn lemma_sum_add(f: spec_fn(int) -> int, g: spec_fn(int) -> int, h: spec_fn(int) -> int, n: nat)
    requires
        forall|i: int| 0 <= i < n ==> #[trigger] h(i) == f(i) + g(i),
    ensures
        sum_to(h, n) == sum_to(f, n) + sum_to(g, n),
    decreases n,
{
    if n > 0 {
        lemma_sum_add(f, g, h, (n - 1) as nat);
    }
}

/// A sum whose terms vanish past the first is its first term.
proof fn lemma_sum_first_only(f: spec_fn(int) -> int, n: nat)
    requires
        n >= 1,
        forall|i: int| 1 <= i < n ==> #[trigger] f(i) == 0,
    ensures
        sum_to(f, n) == f(0),
    decreases n,
{
    if n > 1 {
        lemma_sum_first_only(f, (n - 1) as nat);
    } else {
        assert(sum_to(f, 1) == sum_to(f, 0) + f(0));
    }
}

/// The binomial coefficient `C(n, k)` by Pascal's rule; zero outside
/// `0 <= k <= n`.
pub open spec fn binom(n: nat, k: int) -> int
    decreases n,
{
    if k < 0 || k > n {
        0
    } else if k == 0 {
        1
    } else {
        binom((n - 1) as nat, k - 1) + binom((n - 1) as nat, k)
    }
}

proof fn lemma_pascal(n: nat, k: int)
    requires
        n >= 1,
    ensures
        binom(n, k) == binom((n - 1) as nat, k - 1) + binom((n - 1) as nat, k),
{
}

/// `C(n, n) == 1`.
proof fn lemma_binom_diag(n: nat)
    ensures
        binom(n, n as int) == 1,
    decreases n,
{
    if n > 0 {
        lemma_binom_diag((n - 1) as nat);
        assert(binom((n - 1) as nat, n as int) == 0);
        lemma_pascal(n, n as int);
    }
}

/// Absorption: `k * C(n, k) == n * C(n - 1, k - 1)`.
proof fn lemma_absorption(n: nat, k: int)
    requires
        n >= 1,
    ensures
        k * binom(n, k) == n * binom((n - 1) as nat, k - 1),
    decreases n,
{
    if n == 1 {
        assert(binom(0, k - 1) == if k == 1 { 1int } else { 0int });
        assert(binom(1, k) == binom(0, k - 1) + binom(0, k));
    } else {
        let n1 = (n - 1) as nat;
        let n2 = (n - 2) as nat;
        lemma_pascal(n, k);
        lemma_pascal(n1, k - 1);
        lemma_absorption(n1, k - 1);
        lemma_absorption(n1, k);
        let a = binom(n1, k - 1);
        let b = binom(n1, k);
        let c = binom(n2, k - 2);
        let d = binom(n2, k - 1);
        assert(k * binom(n, k) == n * a) by (nonlinear_arith)
            requires
                binom(n, k) == a + b,
                a == c + d,
                (k - 1) * a == n1 * c,
                k * b == n1 * d,
                n1 == n - 1,
        ;
    }
}

/// The terms `C(n, k) * x^k` of the binomial expansion of `(x + 1)^n`.
pub open spec fn binom_terms(n: nat, x: int) -> spec_fn(int) -> int {
    |k: int| binom(n, k) * pow(x, k as nat)
}

/// The binomial theorem: `(x + 1)^n == sum_k C(n, k) * x^k`.
pub proof fn lemma_binomial(n: nat, x: int)
    ensures
        sum_to(binom_terms(n, x), n + 1) == pow(x + 1, n),
    decreases n,
{
    let f = binom_terms(n, x);
    if n == 0 {
        lemma_pow0(x);
        lemma_pow0(x + 1);
        assert(sum_to(f, 1) == sum_to(f, 0) + f(0));
    } else {
        let n1 = (n - 1) as nat;
        lemma_binomial(n1, x);
        let g = binom_terms(n1, x);
        let b = sum_to(g, n);
        // the terms of the shifted half: C(n-1, k-1) x^k
        let f1 = |k: int| binom(n1, k - 1) * pow(x, k as nat);
        let g1 = |j: int| f1(1 + j);
        assert forall|j: int| 0 <= j < n implies #[trigger] g1(j) == x * g(j) by {
            lemma_pow_adds(x, 1, j as nat);
            lemma_pow1(x);
            assert((1 + j) as nat == 1 + (j as nat));
            assert(binom(n1, j) * (x * pow(x, j as nat)) == x * (binom(n1, j) * pow(x, j as nat)))
                by (nonlinear_arith);
        }
        lemma_sum_split(f1, g1, 1, n);
        assert(sum_to(f1, 1) == sum_to(f1, 0) + f1(0));
        assert(f1(0) == 0);
        lemma_sum_scale(g, g1, x, n);
        // C(n-1, k) x^k summed over n + 1 terms: the last one vanishes
        assert(sum_to(g, n + 1) == b + g(n as int));
        assert(g(n as int) == 0);
        assert forall|k: int| 0 <= k < n + 1 implies #[trigger] f(k) == f1(k) + g(k) by {
            lemma_pascal(n, k);
            assert((binom(n1, k - 1) + binom(n1, k)) * pow(x, k as nat) == binom(n1, k - 1) * pow(
                x,
                k as nat,
            ) + binom(n1, k) * pow(x, k as nat)) by (nonlinear_arith);
        }
        lemma_sum_add(f1, g, f, n + 1);
        lemma_pow_adds(x + 1, n1, 1);
        lemma_pow1(x + 1);
        assert(x * b + b == pow(x + 1, n1) * (x + 1)) by (nonlinear_arith)
            requires
                b == pow(x + 1, n1),
        ;
    }
}

/// A prime `q` divides `C(q, k)` for `0 < k < q`.
proof fn lemma_prime_divides_binom(q: nat, k: int)
    requires
        is_prime(q as int),
        0 < k < q,
    ensures
        binom(q, k) % (q as int) == 0,
{
    let qi = q as int;
    let c = binom(q, k);
    lemma_absorption(q, k);
    lemma_mod_multiples_basic(binom((q - 1) as nat, k - 1), qi);
    assert((k * c) % qi == 0) by {
        lemma_mul_is_commutative(qi, binom((q - 1) as nat, k - 1));
    }
    let u = lemma_inverse_exists(q, k as nat);
    // c == c * (k * u) (mod q) == (k * c) * u (mod q) == 0
    lemma_mul_mod_noop_right(c, k * u, qi);
    lemma_mul_mod_noop_left(k * c, u, qi);
    assert(c * (k * u) == (k * c) * u) by (nonlinear_arith);
    lemma_small_mod(0, q);
    lemma_small_mod(1, q);
}

/// Freshman's dream: `(x + 1)^q == x^q + 1` modulo a prime `q`.
proof fn lemma_freshman(q: nat, x: int)
    requires
        is_prime(q as int),
    ensures
        pow(x + 1, q) % (q as int) == (pow(x, q) + 1) % (q as int),
{
    let qi = q as int;
    let f = binom_terms(q, x);
    let g = |k: int| if 0 < k < q { 0 } else { f(k) };
    lemma_binomial(q, x);
    assert forall|k: int| 0 <= k < q + 1 implies #[trigger] f(k) % qi == g(k) % qi by {
        if 0 < k < q {
            lemma_prime_divides_binom(q, k);
            lemma_mul_mod_noop_left(binom(q, k), pow(x, k as nat), qi);
            lemma_small_mod(0, q);
        }
    }
    lemma_sum_cong_mod(f, g, q + 1, qi);
    lemma_sum_first_only(g, q);
    assert(sum_to(g, q + 1) == sum_to(g, q) + g(q as int));
    lemma_pow0(x);
    lemma_binom_diag(q);
}

/// Fermat's little theorem, first form: `a^q == a` modulo a prime `q`.
proof fn lemma_fermat_power(q: nat, a: nat)
    requires
        is_prime(q as int),
    ensures
        pow(a as int, q) % (q as int) == (a as int) % (q as int),
    decreases a,
{
    let qi = q as int;
    if a == 0 {
        lemma0_pow(q);
    } else {
        let a1 = (a - 1) as nat;
        lemma_fermat_power(q, a1);
        lemma_freshman(q, a1 as int);
        lemma_add_mod_noop(pow(a1 as int, q), 1, qi);
        lemma_add_mod_noop(a1 as int, 1, qi);
    }
}

/// Fermat's little theorem: `a^(q - 1) == 1` modulo a prime `q` that does
/// not divide `a`.
pub proof fn lemma_fermat(q: nat, a: int)
    requires
        is_prime(q as int),
        a % (q as int) != 0,
    ensures
        pow(a, (q - 1) as nat) % (q as int) == 1,
{
    let qi = q as int;
    let r = a % qi;
    let e = (q - 1) as nat;
    lemma_pow_mod_noop(a, e, qi);
    lemma_fermat_power(q, r as nat);
    lemma_pow_adds(r, 1, e);
    lemma_pow1(r);
    let w = pow(r, e);
    let u = lemma_inverse_exists(q, r as nat);
    lemma_small_mod(r as nat, q);
    // w == (r * u) * w == u * (r * w) == u * r == 1  (mod q)
    lemma_mul_mod_noop_left(r * u, w, qi);
    assert((r * u) * w == u * (r * w)) by (nonlinear_arith);
    lemma_mul_mod_noop_right(u, r * w, qi);
    lemma_small_mod(1, q);
    assert(u * r == r * u) by (nonlinear_arith);
    lemma_mod_twice(w, qi);
    lemma_mul_mod_noop_right(u, r, qi);
}


/// `b^e mod m` by repeated squaring.
pub open spec fn mod_pow(b: int, e: nat, m: int) -> int
    decreases e,
{
    if e == 0 {
        1int % m
    } else {
        let h = mod_pow(b, e / 2, m);
        if e % 2 == 0 {
            (h * h) % m
        } else {
            ((h * h) % m) * (b % m) % m
        }
    }
}

/// Repeated squaring computes `b^e mod m`.
proof fn lemma_mod_pow(b: int, e: nat, m: int)
    requires
        m > 0,
    ensures
        mod_pow(b, e, m) == pow(b, e) % m,
    decreases e,
{
    if e == 0 {
        lemma_pow0(b);
    } else {
        let e2 = e / 2;
        lemma_mod_pow(b, e2, m);
        let h = mod_pow(b, e2, m);
        let w = pow(b, e2);
        lemma_pow_adds(b, e2, e2);
        lemma_mul_mod_noop(w, w, m);
        lemma_mod_twice(w, m);
        lemma_mul_mod_noop(h, h, m);
        if e % 2 == 0 {
            assert(e2 + e2 == e);
        } else {
            assert(e2 + e2 + 1 == e);
            lemma_pow_adds(b, e2 + e2, 1);
            lemma_pow1(b);
            lemma_mul_mod_noop(w * w, b, m);
            lemma_mod_twice(w * w, m);
        }
    }
}

/// One squaring step of `mod_pow(7, e, p)` from the value at `e / 2`.
proof fn lemma_mod_pow_seven_step(e: nat, h: int, v: int)
    requires
        e > 0,
        mod_pow(7, e / 2, 0xffff_ffff_0000_0001) == h,
        v == if e % 2 == 0 {
            (h * h) % 0xffff_ffff_0000_0001
        } else {
            ((h * h) % 0xffff_ffff_0000_0001) * 7 % 0xffff_ffff_0000_0001
        },
    ensures
        mod_pow(7, e, 0xffff_ffff_0000_0001) == v,
{
}

/// `7^((p - 1) / 2) == -1 (mod p)`, squaring step by step.
proof fn lemma_seven_half_power()
    ensures
        pow(7, 0x7fff_ffff_8000_0000) % (P as int) == (P as int) - 1,
{
    assert(mod_pow(7, 0, 0xffff_ffff_0000_0001) == 1);
    lemma_mod_pow_seven_step(1, 1, 7);
    lemma_mod_pow_seven_step(3, 7, 343);
    lemma_mod_pow_seven_step(7, 343, 823543);
    lemma_mod_pow_seven_step(15, 823543, 4747561509943);
    lemma_mod_pow_seven_step(31, 4747561509943, 11074261478625843323);
    lemma_mod_pow_seven_step(63, 11074261478625843323, 12148266161370408270);
    lemma_mod_pow_seven_step(127, 12148266161370408270, 7007601668316978083);
    lemma_mod_pow_seven_step(255, 7007601668316978083, 8125271997680889877);
    lemma_mod_pow_seven_step(511, 8125271997680889877, 2624486902016877951);
    lemma_mod_pow_seven_step(1023, 2624486902016877951, 8253119735826302939);
    lemma_mod_pow_seven_step(2047, 8253119735826302939, 3543566522599720475);
    lemma_mod_pow_seven_step(4095, 3543566522599720475, 11981551684735969599);
    lemma_mod_pow_seven_step(8191, 11981551684735969599, 10062120588441922115);
    lemma_mod_pow_seven_step(16383, 10062120588441922115, 10485806445487905393);
    lemma_mod_pow_seven_step(32767, 10485806445487905393, 4139485063330164956);
    lemma_mod_pow_seven_step(65535, 4139485063330164956, 12134830135347446949);
    lemma_mod_pow_seven_step(131071, 12134830135347446949, 4326791766630348883);
    lemma_mod_pow_seven_step(262143, 4326791766630348883, 206761543466863628);
    lemma_mod_pow_seven_step(524287, 206761543466863628, 10086585273483141421);
    lemma_mod_pow_seven_step(1048575, 10086585273483141421, 1855730417186139594);
    lemma_mod_pow_seven_step(2097151, 1855730417186139594, 7626447102712710903);
    lemma_mod_pow_seven_step(4194303, 7626447102712710903, 7790920094560990216);
    lemma_mod_pow_seven_step(8388607, 7790920094560990216, 5901922255895126089);
    lemma_mod_pow_seven_step(16777215, 5901922255895126089, 8935258787870022506);
    lemma_mod_pow_seven_step(33554431, 8935258787870022506, 13093775858033092690);
    lemma_mod_pow_seven_step(67108863, 13093775858033092690, 11243737384857129666);
    lemma_mod_pow_seven_step(134217727, 11243737384857129666, 2063617152444052883);
    lemma_mod_pow_seven_step(268435455, 2063617152444052883, 13064848991504552222);
    lemma_mod_pow_seven_step(536870911, 13064848991504552222, 16593403251012455084);
    lemma_mod_pow_seven_step(1073741823, 16593403251012455084, 5859133952941131217);
    lemma_mod_pow_seven_step(2147483647, 5859133952941131217, 15659105665374529263);
    lemma_mod_pow_seven_step(4294967295, 15659105665374529263, 1753635133440165772);
    lemma_mod_pow_seven_step(8589934590, 1753635133440165772, 4614640910117430873);
    lemma_mod_pow_seven_step(17179869180, 4614640910117430873, 9123114210336311365);
    lemma_mod_pow_seven_step(34359738360, 9123114210336311365, 16116352524544190054);
    lemma_mod_pow_seven_step(68719476720, 16116352524544190054, 6414415596519834757);
    lemma_mod_pow_seven_step(137438953440, 6414415596519834757, 1213594585890690845);
    lemma_mod_pow_seven_step(274877906880, 1213594585890690845, 17096174751763063430);
    lemma_mod_pow_seven_step(549755813760, 17096174751763063430, 5456943929260765144);
    lemma_mod_pow_seven_step(1099511627520, 5456943929260765144, 9713644485405565297);
    lemma_mod_pow_seven_step(2199023255040, 9713644485405565297, 16905767614792059275);
    lemma_mod_pow_seven_step(4398046510080, 16905767614792059275, 5416168637041100469);
    lemma_mod_pow_seven_step(8796093020160, 5416168637041100469, 17654865857378133588);
    lemma_mod_pow_seven_step(17592186040320, 17654865857378133588, 3511170319078647661);
    lemma_mod_pow_seven_step(35184372080640, 3511170319078647661, 18146160046829613826);
    lemma_mod_pow_seven_step(70368744161280, 18146160046829613826, 9306717745644682924);
    lemma_mod_pow_seven_step(140737488322560, 9306717745644682924, 12380578893860276750);
    lemma_mod_pow_seven_step(281474976645120, 12380578893860276750, 6115771955107415310);
    lemma_mod_pow_seven_step(562949953290240, 6115771955107415310, 17776499369601055404);
    lemma_mod_pow_seven_step(1125899906580480, 17776499369601055404, 16207902636198568418);
    lemma_mod_pow_seven_step(2251799813160960, 16207902636198568418, 1532612707718625687);
    lemma_mod_pow_seven_step(4503599626321920, 1532612707718625687, 17492915097719143606);
    lemma_mod_pow_seven_step(9007199252643840, 17492915097719143606, 455906449640507599);
    lemma_mod_pow_seven_step(18014398505287680, 455906449640507599, 11353340290879379826);
    lemma_mod_pow_seven_step(36028797010575360, 11353340290879379826, 1803076106186727246);
    lemma_mod_pow_seven_step(72057594021150720, 1803076106186727246, 13797081185216407910);
    lemma_mod_pow_seven_step(144115188042301440, 13797081185216407910, 17870292113338400769);
    lemma_mod_pow_seven_step(288230376084602880, 17870292113338400769, 549755813888);
    lemma_mod_pow_seven_step(576460752169205760, 549755813888, 70368744161280);
    lemma_mod_pow_seven_step(1152921504338411520, 70368744161280, 17293822564807737345);
    lemma_mod_pow_seven_step(2305843008676823040, 17293822564807737345, 18446744069397807105);
    lemma_mod_pow_seven_step(4611686017353646080, 18446744069397807105, 281474976710656);
    lemma_mod_pow_seven_step(9223372034707292160, 281474976710656, 18446744069414584320);
    lemma_mod_pow(7, 0x7fff_ffff_8000_0000, P as int);
}


/// Divisibility is transitive.
proof fn lemma_divides_trans(a: int, b: int, c: int)
    requires
        a > 0,
        b > 0,
        b % a == 0,
        c % b == 0,
    ensures
        c % a == 0,
{
    lemma_fundamental_div_mod(b, a);
    lemma_fundamental_div_mod(c, b);
    let k = (b / a) * (c / b);
    assert(c == k * a) by (nonlinear_arith)
        requires
            b == a * (b / a) + b % a,
            b % a == 0,
            c == b * (c / b) + c % b,
            c % b == 0,
            k == (b / a) * (c / b),
    ;
    lemma_mod_multiples_basic(k, a);
}

/// Every number above one has a prime divisor no larger than itself.
pub proof fn lemma_prime_divisor(n: int) -> (r: int)
    requires
        n > 1,
    ensures
        is_prime(r),
        n % r == 0,
        1 < r <= n,
    decreases n,
{
    if is_prime(n) {
        lemma_mod_self_0(n);
        n
    } else {
        assert(exists|d: int| 1 < d < n && #[trigger] (n % d) == 0);
        let d = choose|d: int| 1 < d < n && #[trigger] (n % d) == 0;
        let r = lemma_prime_divisor(d);
        lemma_divides_trans(r, d, n);
        r
    }
}

/// A positive `s < 2^m` is `2^t * u` with `t < m` and `u` odd.
proof fn lemma_two_adic(s: nat, m: nat) -> (tu: (nat, nat))
    requires
        0 < s < pow2(m),
    ensures
        tu.0 < m,
        tu.1 % 2 == 1,
        s == pow2(tu.0) * tu.1,
    decreases m,
{
    lemma2_to64();
    if m == 0 {
        assert(false);
        (0, 0)
    } else if s % 2 == 1 {
        (0, s)
    } else {
        lemma_pow2_unfold(m);
        let s2 = s / 2;
        let (t, u) = lemma_two_adic(s2, (m - 1) as nat);
        lemma_pow2_unfold(t + 1);
        assert(s == pow2(t + 1) * u) by (nonlinear_arith)
            requires
                s == 2 * s2,
                s2 == pow2(t) * u,
                pow2(t + 1) == 2 * pow2(t),
        ;
        (t + 1, u)
    }
}

/// A number `1` modulo `m` stays `1` under powers.
proof fn lemma_pow_mod_one(x: int, e: nat, m: int)
    requires
        m > 1,
        x % m == 1,
    ensures
        pow(x, e) % m == 1,
{
    lemma_pow_mod_noop(x, e, m);
    lemma1_pow(e);
    lemma_small_mod(1, m as nat);
}

/// Reducing modulo `p` and then modulo a divisor of `p` is reducing modulo
/// the divisor.
proof fn lemma_mod_of_divisor(x: int, r: int)
    requires
        r > 0,
        (P as int) % r == 0,
    ensures
        (x % (P as int)) % r == x % r,
{
    let p = P as int;
    lemma_fundamental_div_mod(x, p);
    lemma_fundamental_div_mod(p, r);
    let k = p / r;
    assert(x == r * (k * (x / p)) + x % p) by (nonlinear_arith)
        requires
            x == p * (x / p) + x % p,
            p == r * k + p % r,
            p % r == 0,
    ;
    lemma_mod_multiples_vanish(k * (x / p), x % p, r);
}

/// Every prime divisor of `p` exceeds `2^32` (Pocklington, with the factor
/// `2^32` of `p - 1` and the witness `7`).
proof fn lemma_prime_divisor_of_p_is_large(r: int)
    requires
        is_prime(r),
        (P as int) % r == 0,
    ensures
        r > 0x1_0000_0000,
{
    let p = P as int;
    let rr = 0xffff_ffffnat;
    let half = 0x8000_0000nat;
    let full = 0x1_0000_0000nat;
    lemma_seven_half_power();
    lemma_mod_of_divisor(pow(7, 0x7fff_ffff_8000_0000), r);
    lemma_fundamental_div_mod(p, r);
    assert(p - 1 == (p / r - 1) * r + (r - 1)) by (nonlinear_arith)
        requires
            p == r * (p / r) + p % r,
            p % r == 0,
    ;
    lemma_fundamental_div_mod_converse(p - 1, r, p / r - 1, r - 1);
    // b = 7^(2^32 - 1): b^(2^31) = 7^((p-1)/2) = -1, b^(2^32) = 1 (mod r)
    let b = pow(7, rr);
    lemma_pow_multiplies(7, rr, half);
    assert(rr * half == 0x7fff_ffff_8000_0000);
    let y = pow(b, half);
    assert(y % r == r - 1);
    lemma_pow_multiplies(b, half, 2);
    lemma_square_is_pow2(y);
    lemma_mul_mod_noop(y, y, r);
    assert((r - 1) * (r - 1) == r * (r - 2) + 1) by (nonlinear_arith);
    lemma_mod_multiples_vanish(r - 2, 1, r);
    lemma_small_mod(1, r as nat);
    let z = pow(b, full);
    assert(half * 2 == full);
    assert(z % r == 1);
    // b is not divisible by r
    if b % r == 0 {
        lemma_pow_mod_noop(b, full, r);
        lemma0_pow(full);
        lemma_small_mod(0, r as nat);
        assert(false);
    }
    lemma_fermat(r as nat, b);
    let e = (r - 1) as nat;
    let q0 = e / full;
    let s = e % full;
    lemma_fundamental_div_mod(e as int, full as int);
    lemma_pow_adds(b, full * q0, s);
    lemma_pow_multiplies(b, full, q0);
    lemma_pow_mod_one(z, q0, r);
    let zq = pow(b, full * q0);
    let bs = pow(b, s);
    lemma_mul_mod_noop(zq, bs, r);
    lemma_mod_twice(bs, r);
    assert(bs % r == 1) by {
        assert((1 * (bs % r)) % r == bs % r);
    }
    if s > 0 {
        lemma2_to64();
        let (t, u) = lemma_two_adic(s, 32);
        let d = (31 - t) as nat;
        lemma_pow2_adds(t, d);
        assert(pow2(31) == half);
        // b^(2^31 * u) = (b^s)^(2^(31 - t)) = 1
        lemma_pow_multiplies(b, s, pow2(d));
        lemma_pow_mod_one(bs, pow2(d), r);
        assert(s * pow2(d) == half * u) by (nonlinear_arith)
            requires
                s == pow2(t) * u,
                pow2(t) * pow2(d) == half,
        ;
        // and b^(2^31 * u) = (b^(2^32))^w * b^(2^31) = b^(2^31) = -1
        let w = u / 2;
        lemma_fundamental_div_mod(u as int, 2);
        assert(half * u == full * w + half) by (nonlinear_arith)
            requires
                u == 2 * w + 1,
                full == 2 * half,
        ;
        lemma_pow_adds(b, full * w, half);
        lemma_pow_multiplies(b, full, w);
        lemma_pow_mod_one(z, w, r);
        lemma_mul_mod_noop(pow(b, full * w), y, r);
        lemma_mod_twice(y, r);
        assert((1 * (y % r)) % r == y % r);
        assert(r - 1 == 1);
        assert(p % 2 == 1);
        assert(false);
    }
}

/// The Goldilocks prime `p = 2^64 - 2^32 + 1` is prime.
pub proof fn lemma_p_is_prime()
    ensures
        is_prime(P as int),
{
    let p = P as int;
    assert forall|d: int| 1 < d < p implies #[trigger] (p % d) != 0 by {
        if p % d == 0 {
            let r1 = lemma_prime_divisor(d);
            lemma_divides_trans(r1, d, p);
            lemma_prime_divisor_of_p_is_large(r1);
            let k = p / r1;
            lemma_fundamental_div_mod(p, r1);
            assert(k > 1) by (nonlinear_arith)
                requires
                    p == r1 * k + p % r1,
                    p % r1 == 0,
                    1 < r1 < p,
            ;
            let r2 = lemma_prime_divisor(k);
            lemma_mod_multiples_basic(r1, k);
            assert(p % k == 0) by {
                lemma_mul_is_commutative(r1, k);
            }
            lemma_divides_trans(r2, k, p);
            lemma_prime_divisor_of_p_is_large(r2);
            assert(false) by (nonlinear_arith)
                requires
                    p == r1 * k,
                    r2 <= k,
                    r1 > 0x1_0000_0000,
                    r2 > 0x1_0000_0000,
                    p == 0xffff_ffff_0000_0001,
            ;
        }
    }
}

} // verus!
