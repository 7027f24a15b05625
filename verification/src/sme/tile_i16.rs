//! 16 x 16 INT32 tile of `C = A * B` (or `C += A * B`) over packed INT16
//! operands, the integer counterpart of the SME outer-product tile.
//!
//! Layout of the packed operands, `kc` steps of two K columns each:
//! - `a_pack[p * 32 + 2 * i + k] = A[i, 2 * p + k]` for `i < 16`, `k < 2`;
//! - `b_pack[p * 32 + 2 * j + k] = B[2 * p + k, j]` for `j < 16`, `k < 2`.
//!
//! Sums are taken in INT32 with two's-complement wrap-around. Rows of `C`
//! are written one after another (`ldc` elements apart), so rows that
//! overlap (`ldc < 16`) see the rows written before them.

use crate::streaming::Stream;
use vstd::arithmetic::div_mod::*;
use vstd::prelude::*;

verus! {

/// `x` wrapped to a two's-complement 32-bit integer.
pub open spec fn wrap_i32(x: int) -> int {
    let m = x % 0x1_0000_0000;
    if m >= 0x8000_0000 {
        m - 0x1_0000_0000
    } else {
        m
    }
}

/// The exact dot product of packed row `i` of A and packed column `j` of B
/// over the first `steps` steps.
pub open spec fn tile_dot(a: Seq<i16>, b: Seq<i16>, i: int, j: int, steps: nat) -> int
    decreases steps,
{
    if steps == 0 {
        0
    } else {
        let q = (steps - 1) * 32;
        tile_dot(a, b, i, j, (steps - 1) as nat) + a[q + 2 * i] * b[q + 2 * j] + a[q + 2 * i + 1]
            * b[q + 2 * j + 1]
    }
}

/// `c` after row `i` of the tile has been written at offset `i * ldc`.
pub open spec fn tile_row_update(
    c: Seq<i32>,
    a: Seq<i16>,
    b: Seq<i16>,
    i: int,
    ldc: int,
    kc: nat,
    accumulate: bool,
) -> Seq<i32> {
    Seq::new(
        c.len(),
        |t: int|
            if i * ldc <= t < i * ldc + 16 {
                wrap_i32((if accumulate { c[t] as int } else { 0 }) + tile_dot(a, b, i, t - i * ldc, kc))
                    as i32
            } else {
                c[t]
            },
    )
}

/// `c` after the first `rows` rows of the tile have been written.
pub open spec fn tile_rows(
    c: Seq<i32>,
    a: Seq<i16>,
    b: Seq<i16>,
    ldc: int,
    kc: nat,
    accumulate: bool,
    rows: nat,
) -> Seq<i32>
    decreases rows,
{
    if rows == 0 {
        c
    } else {
        tile_row_update(
            tile_rows(c, a, b, ldc, kc, accumulate, (rows - 1) as nat),
            a,
            b,
            rows - 1,
            ldc,
            kc,
            accumulate,
        )
    }
}

/// The wrapped value is the 32-bit integer congruent to `x`.
proof fn lemma_wrap_unique(r: int, x: int)
    requires
        -0x8000_0000 <= r < 0x8000_0000,
        r % 0x1_0000_0000 == x % 0x1_0000_0000,
    ensures
        wrap_i32(x) == r,
{
    let m = 0x1_0000_0000int;
    if r >= 0 {
        lemma_small_mod(r as nat, m as nat);
    } else {
        lemma_mod_add_multiples_vanish(r, m);
        lemma_small_mod((r + m) as nat, m as nat);
    }
}

/// Adding to a wrapped value with `wrapping_add` wraps the exact sum.
proof fn lemma_wrapping_add_wrap(acc: i32, s: int, x: i32)
    requires
        acc as int == wrap_i32(s),
    ensures
        acc.wrapping_add(x) as int == wrap_i32(s + x),
{
    let m = 0x1_0000_0000int;
    let r = acc.wrapping_add(x) as int;
    lemma_mod_add_multiples_vanish(acc + x, m);
    lemma_mod_sub_multiples_vanish(acc + x, m);
    // acc is congruent to s
    lemma_fundamental_div_mod(s, m);
    lemma_mod_multiples_vanish(s / m, acc as int, m);
    assert(acc as int % m == s % m) by {
        if s % m >= 0x8000_0000 {
            lemma_mod_sub_multiples_vanish(s % m, m);
            lemma_mod_twice(s, m);
        } else {
            lemma_mod_twice(s, m);
        }
    }
    lemma_add_mod_noop(acc as int, x as int, m);
    lemma_add_mod_noop(s, x as int, m);
    lemma_wrap_unique(r, s + x);
}

/// Packed dot product of row `i` and column `j`, wrapped to 32 bits.
fn tile_dot_i32(a_pack: &[i16], b_pack: &[i16], i: usize, j: usize, kc: usize) -> (r: i32)
    requires
        i < 16,
        j < 16,
        a_pack@.len() >= kc * 32,
        b_pack@.len() >= kc * 32,
    ensures
        r as int == wrap_i32(tile_dot(a_pack@, b_pack@, i as int, j as int, kc as nat)),
{
    let alen = a_pack.len();
    let blen = b_pack.len();
    let mut acc: i32 = 0;
    let mut p: usize = 0;
    proof {
        lemma_small_mod(0, 0x1_0000_0000);
    }
    while p < kc
        invariant
            i < 16,
            j < 16,
            p <= kc,
            a_pack@.len() >= kc * 32,
            b_pack@.len() >= kc * 32,
            alen == a_pack@.len(),
            blen == b_pack@.len(),
            acc as int == wrap_i32(tile_dot(a_pack@, b_pack@, i as int, j as int, p as nat)),
        decreases kc - p,
    {
        assert(p * 32 + 32 <= kc * 32) by (nonlinear_arith)
            requires
                p < kc,
        ;
        let q = p * 32;
        let a0 = a_pack[q + 2 * i] as i32;
        let b0 = b_pack[q + 2 * j] as i32;
        let a1 = a_pack[q + 2 * i + 1] as i32;
        let b1 = b_pack[q + 2 * j + 1] as i32;
        assert(-0x4000_0000 <= a0 * b0 <= 0x4000_0000) by (nonlinear_arith)
            requires
                -0x8000 <= a0 <= 0x7fff,
                -0x8000 <= b0 <= 0x7fff,
        ;
        assert(-0x4000_0000 <= a1 * b1 <= 0x4000_0000) by (nonlinear_arith)
            requires
                -0x8000 <= a1 <= 0x7fff,
                -0x8000 <= b1 <= 0x7fff,
        ;
        let x0 = a0 * b0;
        let x1 = a1 * b1;
        let ghost s = tile_dot(a_pack@, b_pack@, i as int, j as int, p as nat);
        proof {
            lemma_wrapping_add_wrap(acc, s, x0);
            lemma_wrapping_add_wrap(acc.wrapping_add(x0), s + x0, x1);
        }
        acc = acc.wrapping_add(x0).wrapping_add(x1);
        p += 1;
    }
    acc
}

/// Compute one 16 x 16 INT32 tile of C from `kc` packed K steps: with
/// `accumulate`, `C += A * B`, otherwise `C = A * B`; row `i` of the tile
/// starts at `c[i * ldc]`.
pub fn tile_16x16_i16_i32(
    _stream: &Stream,
    a_pack: &[i16],
    b_pack: &[i16],
    c: &mut [i32],
    ldc: usize,
    kc: usize,
    accumulate: bool,
)
    requires
        kc > 0,
        a_pack@.len() >= kc * 32,
        b_pack@.len() >= kc * 32,
        old(c)@.len() >= 15 * ldc + 16,
    ensures
        final(c)@ == tile_rows(old(c)@, a_pack@, b_pack@, ldc as int, kc as nat, accumulate, 16),
{
    let ghost c0 = c@;
    let clen = c.len();
    let mut i: usize = 0;
    while i < 16
        invariant
            i <= 16,
            clen == c@.len(),
            c@.len() == c0.len(),
            c0.len() >= 15 * ldc + 16,
            a_pack@.len() >= kc * 32,
            b_pack@.len() >= kc * 32,
            c@ == tile_rows(c0, a_pack@, b_pack@, ldc as int, kc as nat, accumulate, i as nat),
        decreases 16 - i,
    {
        assert(i * ldc + 16 <= 15 * ldc + 16) by (nonlinear_arith)
            requires
                i < 16,
        ;
        let base = i * ldc;
        let ghost before = c@;
        let mut row = [0i32; 16];
        let mut j: usize = 0;
        while j < 16
            invariant
                i < 16,
                j <= 16,
                base == i * ldc,
                base + 16 <= c@.len(),
                clen == c@.len(),
                c@ == before,
                a_pack@.len() >= kc * 32,
                b_pack@.len() >= kc * 32,
                forall|k: int|
                    0 <= k < j ==> #[trigger] row@[k] as int == wrap_i32(
                        (if accumulate { before[base + k] as int } else { 0 }) + tile_dot(
                            a_pack@,
                            b_pack@,
                            i as int,
                            k,
                            kc as nat,
                        ),
                    ),
            decreases 16 - j,
        {
            let d = tile_dot_i32(a_pack, b_pack, i, j, kc);
            let ghost s = tile_dot(a_pack@, b_pack@, i as int, j as int, kc as nat);
            if accumulate {
                let cur = c[base + j];
                proof {
                    lemma_wrapping_add_wrap(d, s, cur);
                    assert(s + cur == cur + s);
                }
                row[j] = d.wrapping_add(cur);
            } else {
                row[j] = d;
            }
            j += 1;
        }
        let mut j: usize = 0;
        while j < 16
            invariant
                i < 16,
                j <= 16,
                base == i * ldc,
                base + 16 <= c@.len(),
                clen == c@.len(),
                c@.len() == before.len(),
                forall|t: int|
                    0 <= t < c@.len() ==> #[trigger] c@[t] == if base <= t < base + j {
                        row@[t - base]
                    } else {
                        before[t]
                    },
            decreases 16 - j,
        {
            c[base + j] = row[j];
            j += 1;
        }
        proof {
            let upd = tile_row_update(before, a_pack@, b_pack@, i as int, ldc as int, kc as nat, accumulate);
            assert forall|t: int| 0 <= t < c@.len() implies #[trigger] c@[t] == upd[t] by {
                if base <= t < base + 16 {
                    assert(row@[t - base] as int == wrap_i32(
                        (if accumulate { before[base + (t - base)] as int } else { 0 }) + tile_dot(
                            a_pack@,
                            b_pack@,
                            i as int,
                            t - base,
                            kc as nat,
                        ),
                    ));
                }
            }
            assert(c@ =~= upd);
        }
        i += 1;
    }
}

} // verus!
