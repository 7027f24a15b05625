//! Tip5 over raw Montgomery words.
//!
//! The state is `[u64; 16]` of raw Montgomery representatives; callers
//! convert to and from canonical values themselves. State width 16, rate
//! 10, capacity 6, five rounds. Each round applies the S-box layer
//! (split-and-lookup on lanes 0..4, x^7 on lanes 4..16), the circulant MDS
//! layer, and the round-constant addition.
//!
//! - `tip5_hash_pair` starts from the fixed-length domain (capacity lanes
//!   hold the representative of one), writes both digests into the rate,
//!   permutes once and returns the first five lanes.
//! - `tip5_hash_varlen` starts from the all-zero variable-length domain,
//!   pads the input with one representative of one followed by zeros up to
//!   a positive multiple of the rate, and absorbs it chunk by chunk.

pub mod consts;
pub mod mds;
pub mod neon;
pub mod scalar;
pub mod simd;

use crate::error::CpuError;
use crate::field::goldilocks::P;
use crate::streaming::Stream;
use consts::{round_constant, LOOKUP_TABLE, ROUND_CONSTANTS_RAW};
use mds::{mds_generated_inplace, mds_spec};
use neon::{pow7_last12, pow7_raw};
use scalar::{bfe_add_raw, lookup_bytes, redc, split_and_lookup};
use vstd::prelude::*;

verus! {

/// Sponge state width.
pub const STATE_SIZE: usize = 16;

/// Sponge rate: lanes the caller reads and writes.
pub const RATE: usize = 10;

/// Lanes that go through the split-and-lookup S-box.
pub const NUM_SPLIT_AND_LOOKUP: usize = 4;

/// Digest length in field elements.
pub const DIGEST_LEN: usize = 5;

/// Number of rounds.
pub const NUM_ROUNDS: usize = 5;

/// Raw Montgomery representative of one: `2^64 mod p`.
pub const RAW_MONT_ONE: u64 = 0xffff_ffff;

/// `RAW_MONT_ONE` is the Montgomery reduction of `2^128 mod p`.
pub proof fn lemma_raw_mont_one()
    ensures
        RAW_MONT_ONE as int == redc(0xffff_fffe_0000_0001),
{
    assert(redc(0xffff_fffe_0000_0001) == 0xffff_ffff);
}

/// Raw Montgomery addition as an integer function (see `bfe_add_raw`).
pub open spec fn add_raw(a: int, b: int) -> int {
    if a + b >= P {
        a + b - P
    } else {
        a + b
    }
}

/// S-box layer on a raw state.
pub open spec fn sbox_spec(s: Seq<u64>) -> Seq<u64> {
    Seq::new(
        16,
        |i: int|
            if i < 4 {
                lookup_bytes(s[i] as int, LOOKUP_TABLE@, 8) as u64
            } else {
                pow7_raw(s[i] as int) as u64
            },
    )
}

/// One round: S-box, MDS, then round constants of row `ri`.
pub open spec fn round_spec(s: Seq<u64>, ri: int) -> Seq<u64> {
    let t = mds_spec(sbox_spec(s));
    Seq::new(16, |i: int| add_raw(t[i] as int, ROUND_CONSTANTS_RAW@[ri * 16 + i] as int) as u64)
}

/// The first `k` rounds applied to `s`.
pub open spec fn rounds(s: Seq<u64>, k: nat) -> Seq<u64>
    decreases k,
{
    if k == 0 {
        s
    } else {
        round_spec(rounds(s, (k - 1) as nat), k - 1)
    }
}

/// The Tip5 permutation on a raw state.
pub open spec fn permutation(s: Seq<u64>) -> Seq<u64> {
    rounds(s, 5)
}

/// The fixed-length sponge state holding two digests.
pub open spec fn pair_state(left: Seq<u64>, right: Seq<u64>) -> Seq<u64> {
    left + right + Seq::new(6, |i: int| RAW_MONT_ONE)
}

/// Overwrite the rate part of `s` with `chunk` and permute.
pub open spec fn absorb_spec(s: Seq<u64>, chunk: Seq<u64>) -> Seq<u64> {
    permutation(chunk + s.subrange(10, 16))
}

/// Absorb `data` (a multiple of the rate long) chunk by chunk into `s`.
pub open spec fn absorb_all(s: Seq<u64>, data: Seq<u64>) -> Seq<u64>
    decreases data.len(),
{
    if data.len() < 10 {
        s
    } else {
        absorb_spec(absorb_all(s, data.subrange(0, data.len() - 10)), data.subrange(data.len() - 10, data.len() as int))
    }
}

/// Variable-length padding: one representative of one, then zeros up to
/// the next multiple of the rate (always at least one element).
pub open spec fn pad_varlen(input: Seq<u64>) -> Seq<u64> {
    let fill = 10 - input.len() % 10;
    input + Seq::new(1, |i: int| RAW_MONT_ONE) + Seq::new((fill - 1) as nat, |i: int| 0u64)
}

/// Padding keeps the input, appends the marker one and then zeros, and
/// always adds at least one element, up to a positive multiple of the rate.
pub proof fn lemma_pad_varlen(input: Seq<u64>)
    ensures
        pad_varlen(input).len() == 10 * (input.len() / 10 + 1),
        pad_varlen(input).subrange(0, input.len() as int) == input,
        pad_varlen(input)[input.len() as int] == RAW_MONT_ONE,
        forall|i: int| input.len() < i < pad_varlen(input).len() ==> #[trigger] pad_varlen(input)[i] == 0,
{
    let n = input.len();
    let q = pad_varlen(input);
    assert(n == 10 * (n / 10) + n % 10);
    assert(q.subrange(0, n as int) =~= input);
}

/// Different inputs have different paddings.
pub proof fn lemma_pad_varlen_injective(a: Seq<u64>, b: Seq<u64>)
    requires
        pad_varlen(a) == pad_varlen(b),
    ensures
        a == b,
{
    lemma_pad_varlen(a);
    lemma_pad_varlen(b);
    let q = pad_varlen(a);
    if a.len() < b.len() {
        assert(q[b.len() as int] == 0);
        assert(pad_varlen(b)[b.len() as int] == RAW_MONT_ONE);
    } else if b.len() < a.len() {
        assert(pad_varlen(b)[a.len() as int] == 0);
        assert(q[a.len() as int] == RAW_MONT_ONE);
    }
    assert(a.len() == b.len());
    assert(a =~= q.subrange(0, a.len() as int));
    assert(b =~= pad_varlen(b).subrange(0, b.len() as int));
}

/// The variable-length digest of a raw input.
pub open spec fn hash_varlen_spec(input: Seq<u64>) -> Seq<u64> {
    absorb_all(Seq::new(16, |i: int| 0u64), pad_varlen(input)).subrange(0, 5)
}

/// S-box layer in place.
fn sbox_layer(s: &mut [u64; 16])
    ensures
        final(s)@ == sbox_spec(old(s)@),
{
    let ghost s0 = s@;
    s[0] = split_and_lookup(s[0], &LOOKUP_TABLE);
    s[1] = split_and_lookup(s[1], &LOOKUP_TABLE);
    s[2] = split_and_lookup(s[2], &LOOKUP_TABLE);
    s[3] = split_and_lookup(s[3], &LOOKUP_TABLE);
    pow7_last12(s);
    proof {
        assert(s@ =~= sbox_spec(s0));
    }
}

/// One Tip5 round in place.
fn round(s: &mut [u64; 16], round_index: usize)
    requires
        round_index < 5,
    ensures
        final(s)@ == round_spec(old(s)@, round_index as int),
        forall|i: int| 0 <= i < 16 ==> #[trigger] final(s)@[i] < P,
{
    let ghost s0 = s@;
    sbox_layer(s);
    mds_generated_inplace(s);
    let ghost t = s@;
    let off = round_index * 16;
    let mut i: usize = 0;
    while i < 16
        invariant
            off == round_index * 16,
            round_index < 5,
            i <= 16,
            t == mds_spec(sbox_spec(s0)),
            forall|k: int| i <= k < 16 ==> #[trigger] s@[k] == t[k],
            forall|k: int|
                0 <= k < i ==> #[trigger] s@[k] as int == add_raw(
                    t[k] as int,
                    ROUND_CONSTANTS_RAW@[off + k] as int,
                ),
            forall|k: int| 0 <= k < i ==> #[trigger] s@[k] < P,
        decreases 16 - i,
    {
        let c = round_constant(off + i);
        s[i] = bfe_add_raw(s[i], c);
        i += 1;
    }
    proof {
        assert(s@ =~= round_spec(s0, round_index as int));
    }
}

/// Apply the Tip5 permutation in place to a raw state.
///
/// Every output lane is canonical (below `p`), whatever the input.
pub fn tip5_permute(s: &mut [u64; 16])
    ensures
        final(s)@ == permutation(old(s)@),
        forall|i: int| 0 <= i < 16 ==> #[trigger] final(s)@[i] < P,
{
    let ghost s0 = s@;
    let mut r: usize = 0;
    while r < NUM_ROUNDS
        invariant
            r <= 5,
            s@ == rounds(s0, r as nat),
            r > 0 ==> forall|i: int| 0 <= i < 16 ==> #[trigger] s@[i] < P,
        decreases 5 - r,
    {
        round(s, r);
        r += 1;
    }
}

/// The fixed-length domain: rate zero, capacity the representative of one.
fn fixed_length_init() -> (s: [u64; 16])
    ensures
        s@ == Seq::new(10, |i: int| 0u64) + Seq::new(6, |i: int| RAW_MONT_ONE),
{
    let mut s = [0u64; 16];
    let mut i = RATE;
    while i < STATE_SIZE
        invariant
            10 <= i <= 16,
            forall|k: int| 0 <= k < 10 ==> #[trigger] s@[k] == 0,
            forall|k: int| 10 <= k < i ==> #[trigger] s@[k] == RAW_MONT_ONE,
            forall|k: int| i <= k < 16 ==> #[trigger] s@[k] == 0,
        decreases 16 - i,
    {
        s[i] = RAW_MONT_ONE;
        i += 1;
    }
    proof {
        assert(s@ =~= Seq::new(10, |i: int| 0u64) + Seq::new(6, |i: int| RAW_MONT_ONE));
    }
    s
}

/// The variable-length domain: the all-zero state.
fn variable_length_init() -> (s: [u64; 16])
    ensures
        s@ == Seq::new(16, |i: int| 0u64),
{
    let s = [0u64; 16];
    proof {
        assert(s@ =~= Seq::new(16, |i: int| 0u64));
    }
    s
}

/// Overwrite the rate with `chunk` and permute.
fn absorb(s: &mut [u64; 16], chunk: &[u64; 10])
    ensures
        final(s)@ == absorb_spec(old(s)@, chunk@),
{
    let ghost s0 = s@;
    let mut i: usize = 0;
    while i < RATE
        invariant
            i <= 10,
            forall|k: int| 0 <= k < i ==> #[trigger] s@[k] == chunk@[k],
            forall|k: int| i <= k < 16 ==> #[trigger] s@[k] == s0[k],
        decreases 10 - i,
    {
        s[i] = chunk[i];
        i += 1;
    }
    proof {
        assert(s@ =~= chunk@ + s0.subrange(10, 16));
    }
    tip5_permute(s);
}

/// Hash a pair of raw digests: the first five lanes of the permuted
/// fixed-length state holding `left` and `right`.
pub fn tip5_hash_pair(left: [u64; 5], right: [u64; 5]) -> (d: [u64; 5])
    ensures
        d@ == permutation(pair_state(left@, right@)).subrange(0, 5),
{
    let mut s = fixed_length_init();
    let mut i: usize = 0;
    while i < 5
        invariant
            i <= 5,
            forall|k: int| 0 <= k < i ==> #[trigger] s@[k] == left@[k],
            forall|k: int| 0 <= k < i ==> #[trigger] s@[k + 5] == right@[k],
            forall|k: int| i <= k < 5 ==> #[trigger] s@[k] == 0,
            forall|k: int| i <= k < 5 ==> #[trigger] s@[k + 5] == 0,
            forall|k: int| 10 <= k < 16 ==> #[trigger] s@[k] == RAW_MONT_ONE,
        decreases 5 - i,
    {
        s[i] = left[i];
        s[i + 5] = right[i];
        i += 1;
    }
    let ghost s1 = s@;
    proof {
        assert forall|k: int| 5 <= k < 10 implies s1[k] == right@[k - 5] by {
            assert(s1[(k - 5) + 5] == right@[k - 5]);
        }
        assert(s1 =~= pair_state(left@, right@));
    }
    tip5_permute(&mut s);
    let d = [s[0], s[1], s[2], s[3], s[4]];
    proof {
        assert(d@ =~= s@.subrange(0, 5));
    }
    d
}

/// Hash a variable-length sequence of raw words (see `pad_varlen`).
pub fn tip5_hash_varlen(input: &[u64]) -> (d: [u64; 5])
    ensures
        d@ == hash_varlen_spec(input@),
{
    let ghost padded = pad_varlen(input@);
    let mut s = variable_length_init();
    let ghost s0 = s@;
    let n = input.len();
    let full = n / RATE;
    let mut c: usize = 0;
    while c < full
        invariant
            n == input@.len(),
            full == n / 10,
            c <= full,
            padded == pad_varlen(input@),
            s0 == Seq::new(16, |i: int| 0u64),
            s@ == absorb_all(s0, padded.subrange(0, 10 * c)),
        decreases full - c,
    {
        let mut buf = [0u64; 10];
        let base = c * RATE;
        let mut i: usize = 0;
        while i < RATE
            invariant
                base == c * 10,
                c < full,
                full == n / 10,
                n == input@.len(),
                i <= 10,
                forall|k: int| 0 <= k < i ==> #[trigger] buf@[k] == input@[base + k],
            decreases 10 - i,
        {
            buf[i] = input[base + i];
            i += 1;
        }
        proof {
            let d = padded.subrange(0, 10 * (c + 1));
            assert(d.subrange(0, d.len() - 10) =~= padded.subrange(0, 10 * c));
            assert(d.subrange(d.len() - 10, d.len() as int) =~= buf@);
        }
        absorb(&mut s, &buf);
        c += 1;
    }
    let rem = n - full * RATE;
    let mut last = [0u64; 10];
    let mut i: usize = 0;
    while i < rem
        invariant
            rem == n - full * 10,
            rem < 10,
            n == input@.len(),
            i <= rem,
            forall|k: int| 0 <= k < i ==> #[trigger] last@[k] == input@[full * 10 + k],
            forall|k: int| i <= k < 10 ==> #[trigger] last@[k] == 0,
        decreases rem - i,
    {
        last[i] = input[full * RATE + i];
        i += 1;
    }
    last[rem] = RAW_MONT_ONE;
    proof {
        assert(padded.len() == 10 * (full + 1));
        assert(padded.subrange(0, padded.len() - 10) =~= padded.subrange(0, 10 * full));
        assert(padded.subrange(padded.len() - 10, padded.len() as int) =~= last@);
        assert(padded.subrange(0, padded.len() as int) =~= padded);
    }
    absorb(&mut s, &last);
    let d = [s[0], s[1], s[2], s[3], s[4]];
    proof {
        assert(d@ =~= s@.subrange(0, 5));
    }
    d
}


/// Permute `N` independent states; the same as `N` separate calls of
/// `tip5_permute`.
pub fn tip5_permute_batch<const N: usize>(states: &mut [[u64; 16]; N])
    ensures
        forall|k: int| 0 <= k < N ==> #[trigger] final(states)@[k]@ == permutation(old(states)@[k]@),
{
    let ghost s0 = states@;
    let mut k: usize = 0;
    while k < N
        invariant
            k <= N,
            states@.len() == N,
            forall|j: int| 0 <= j < k ==> #[trigger] states@[j]@ == permutation(s0[j]@),
            forall|j: int| k <= j < N ==> #[trigger] states@[j] == s0[j],
        decreases N - k,
    {
        let mut st = states[k];
        tip5_permute(&mut st);
        states[k] = st;
        k += 1;
    }
}

/// Hash each `(left, right)` pair of `pairs` into the same slot of `out`.
pub fn tip5_hash_pair_n(pairs: &[([u64; 5], [u64; 5])], out: &mut [[u64; 5]])
    requires
        pairs@.len() == old(out)@.len(),
    ensures
        final(out)@.len() == pairs@.len(),
        forall|i: int|
            0 <= i < pairs@.len() ==> #[trigger] final(out)@[i]@ == permutation(
                pair_state(pairs@[i].0@, pairs@[i].1@),
            ).subrange(0, 5),
{
    let n = pairs.len();
    let mut i: usize = 0;
    while i < n
        invariant
            n == pairs@.len(),
            out@.len() == n,
            i <= n,
            forall|j: int|
                0 <= j < i ==> #[trigger] out@[j]@ == permutation(
                    pair_state(pairs@[j].0@, pairs@[j].1@),
                ).subrange(0, 5),
        decreases n - i,
    {
        let (l, r) = pairs[i];
        out[i] = tip5_hash_pair(l, r);
        i += 1;
    }
}


/// The number of workers that hashing pairs on `n_threads` threads uses:
/// all performance cores (at least one) when `n_threads` is zero.
pub open spec fn pair_workers(n_threads: usize, p_cores: usize) -> int {
    if n_threads == 0 {
        if p_cores < 1 {
            1
        } else {
            p_cores as int
        }
    } else {
        n_threads as int
    }
}

/// How hashing `total` pairs is split over threads: `None` hashes them
/// serially (nothing to do, one worker, or fewer than four pairs per
/// worker); `Some(chunk)` hands consecutive runs of `chunk` pairs to one
/// worker each, the last run possibly shorter.
pub fn hash_pair_par_chunk(total: usize, n_threads: usize, p_cores: usize) -> (r: Option<usize>)
    ensures
        ({
            let n = pair_workers(n_threads, p_cores);
            &&& (r is None <==> (total == 0 || n <= 1 || total < 4 * n))
            &&& r matches Some(c) ==> c * n >= total && (c - 1) * n < total
        }),
{
    if total == 0 {
        return None;
    }
    let n: usize = if n_threads == 0 {
        if p_cores < 1 {
            1
        } else {
            p_cores
        }
    } else {
        n_threads
    };
    if n <= 1 || total / 4 < n {
        return None;
    }
    let q = total / n;
    proof {
        vstd::arithmetic::div_mod::lemma_div_is_ordered_by_denominator(total as int, 2, n as int);
    }
    let c = if total % n == 0 {
        q
    } else {
        q + 1
    };
    proof {
        assert(total == n * q + total % n) by {
            vstd::arithmetic::div_mod::lemma_fundamental_div_mod(total as int, n as int);
        }
        assert(c * n >= total && (c - 1) * n < total) by (nonlinear_arith)
            requires
                total == n * q + total % n,
                0 <= total % n < n,
                c == (if total % n == 0 { q as int } else { q + 1 }),
                total > 0,
        ;
    }
    Some(c)
}

/// Permute `N` independent states inside one streaming-mode scope, on a
/// host that does (`has_sme`) or does not support FEAT_SME. Without it the
/// states are left alone and `FeatureNotAvailable(Sme)` is returned; with
/// it the result is bit-identical to `N` calls of `tip5_permute`.
pub fn tip5_permute_sme<const N: usize>(has_sme: bool, states: &mut [[u64; 16]; N]) -> (r:
    Result<(), CpuError>)
    ensures
        r == Stream::require_sme_spec(has_sme),
        !has_sme ==> final(states)@ == old(states)@,
        has_sme ==> forall|k: int|
            0 <= k < N ==> #[trigger] final(states)@[k]@ == permutation(old(states)@[k]@),
{
    match Stream::require_sme(has_sme) {
        Err(e) => Err(e),
        Ok(()) => {
            tip5_permute_batch(states);
            Ok(())
        },
    }
}

} // verus!
