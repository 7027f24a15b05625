//! Finite sums of integer sequences and congruence modulo the Goldilocks
//! prime.

use crate::field::goldilocks::P;
use vstd::arithmetic::div_mod::*;
use vstd::arithmetic::mul::*;
use vstd::prelude::*;

verus! {

/// `f(0) + f(1) + ... + f(n - 1)`.
pub open spec fn sum_to(f: spec_fn(int) -> int, n: nat) -> int
    decreases n,
{
    if n == 0 {
        0
    } else {
        sum_to(f, (n - 1) as nat) + f(n - 1)
    }
}

/// A sum splits at any point: the first `a` terms, then the next `b`.
pub proof fn lemma_sum_split(f: spec_fn(int) -> int, g: spec_fn(int) -> int, a: nat, b: nat)
    requires
        forall|i: int| 0 <= i < b ==> #[trigger] g(i) == f(a + i),
    ensures
        sum_to(f, a + b) == sum_to(f, a) + sum_to(g, b),
    decreases b,
{
    if b > 0 {
        lemma_sum_split(f, g, a, (b - 1) as nat);
        assert(g(b - 1) == f(a + b - 1));
    }
}

pub proof fn lemma_sum_ext(f: spec_fn(int) -> int, g: spec_fn(int) -> int, n: nat)
    requires
        forall|i: int| 0 <= i < n ==> #[trigger] f(i) == g(i),
    ensures
        sum_to(f, n) == sum_to(g, n),
    decreases n,
{
    if n > 0 {
        lemma_sum_ext(f, g, (n - 1) as nat);
    }
}

pub proof fn lemma_sum_scale(f: spec_fn(int) -> int, g: spec_fn(int) -> int, c: int, n: nat)
    requires
        forall|i: int| 0 <= i < n ==> #[trigger] g(i) == c * f(i),
    ensures
        sum_to(g, n) == c * sum_to(f, n),
    decreases n,
{
    if n > 0 {
        lemma_sum_scale(f, g, c, (n - 1) as nat);
        lemma_mul_is_distributive_add(c, sum_to(f, (n - 1) as nat), f(n - 1));
    }
}

pub proof fn lemma_sum_cong(f: spec_fn(int) -> int, g: spec_fn(int) -> int, n: nat)
    requires
        forall|i: int| 0 <= i < n ==> #[trigger] f(i) % (P as int) == g(i) % (P as int),
    ensures
        sum_to(f, n) % (P as int) == sum_to(g, n) % (P as int),
    decreases n,
{
    if n > 0 {
        let n1 = (n - 1) as nat;
        lemma_sum_cong(f, g, n1);
        lemma_cong_add(sum_to(f, n1), sum_to(g, n1), f(n1 as int), g(n1 as int));
    }
}

pub proof fn lemma_cong_add(a: int, b: int, c: int, d: int)
    requires
        a % (P as int) == b % (P as int),
        c % (P as int) == d % (P as int),
    ensures
        (a + c) % (P as int) == (b + d) % (P as int),
{
    let p = P as int;
    lemma_add_mod_noop(a, c, p);
    lemma_add_mod_noop(b, d, p);
}

pub proof fn lemma_cong_sub(a: int, b: int, c: int, d: int)
    requires
        a % (P as int) == b % (P as int),
        c % (P as int) == d % (P as int),
    ensures
        (a - c) % (P as int) == (b - d) % (P as int),
{
    let p = P as int;
    lemma_sub_mod_noop(a, c, p);
    lemma_sub_mod_noop(b, d, p);
}

pub proof fn lemma_cong_mul(a: int, b: int, c: int, d: int)
    requires
        a % (P as int) == b % (P as int),
        c % (P as int) == d % (P as int),
    ensures
        (a * c) % (P as int) == (b * d) % (P as int),
{
    let p = P as int;
    lemma_mul_mod_noop(a, c, p);
    lemma_mul_mod_noop(b, d, p);
}

} // verus!
