use acpu::bench::iters_for;
use acpu::field::goldilocks::P;
use acpu::field::tip5::scalar::{bfe_mul_raw, montyred};
use acpu::field::tip5::simd::{
    raw_mul_batch8, raw_mul_batch8_in_stream, sbox_x7_8way, sbox_x7_8way_in_stream,
};
use acpu::field::tip5::{hash_pair_par_chunk, tip5_permute, tip5_permute_sme};
use acpu::lut::permute_u8;
use acpu::sme::thread_cap;
use acpu::streaming::Stream;
use acpu::{CpuError, Feature};

fn raw_mul_scalar(a: u64, b: u64) -> u64 {
    montyred((a as u128) * (b as u128))
}

fn check(a: [u64; 8], b: [u64; 8]) {
    let mut out = [0u64; 8];
    raw_mul_batch8(true, &a, &b, &mut out).unwrap();
    for i in 0..8 {
        let expected = raw_mul_scalar(a[i], b[i]);
        assert_eq!(out[i], expected, "lane {i}: a={:#x} b={:#x}", a[i], b[i]);
    }
}

fn splitmix(s: &mut u64) -> u64 {
    *s = s.wrapping_add(0x9E3779B97F4A7C15);
    let mut z = *s;
    z = (z ^ (z >> 30)).wrapping_mul(0xBF58476D1CE4E5B9);
    z = (z ^ (z >> 27)).wrapping_mul(0x94D049BB133111EB);
    z ^ (z >> 31)
}

#[test]
fn raw_mul_batch8_zero() {
    check([0u64; 8], [0u64; 8]);
}

#[test]
fn raw_mul_batch8_one_one() {
    check([1u64; 8], [1u64; 8]);
}

#[test]
fn raw_mul_batch8_small() {
    check([1u64, 2, 3, 4, 5, 6, 7, 8], [10u64, 20, 30, 40, 50, 60, 70, 80]);
}

#[test]
fn raw_mul_batch8_near_p() {
    let mut a = [0u64; 8];
    let mut b = [0u64; 8];
    for i in 0..8 {
        a[i] = P.wrapping_sub(i as u64 + 1);
        b[i] = P.wrapping_sub(2 * (i as u64) + 7);
    }
    check(a, b);
}

#[test]
fn raw_mul_batch8_random_sweep() {
    let mut s: u64 = 0xC0FFEE_BAD1DEA;
    for _ in 0..200 {
        let mut a = [0u64; 8];
        let mut b = [0u64; 8];
        for i in 0..8 {
            a[i] = splitmix(&mut s);
            b[i] = splitmix(&mut s);
        }
        check(a, b);
    }
}

#[test]
fn raw_mul_batch8_without_sme_is_refused() {
    let a = [3u64; 8];
    let b = [5u64; 8];
    let mut out = [9u64; 8];
    let r = raw_mul_batch8(false, &a, &b, &mut out);
    assert_eq!(r, Err(CpuError::FeatureNotAvailable(Feature::Sme)));
    assert_eq!(out, [9u64; 8]);
}

#[test]
fn raw_mul_batch8_in_stream_matches_scalar() {
    let stream = Stream::with_vector_length(64);
    let a = [7u64, 0, 1, P - 1, P, u64::MAX, 1 << 40, 12345];
    let b = [11u64, 5, P - 1, P - 1, 3, u64::MAX, 1 << 30, 67890];
    let mut out = [0u64; 8];
    raw_mul_batch8_in_stream(&stream, &a, &b, &mut out);
    for i in 0..8 {
        assert_eq!(out[i], bfe_mul_raw(a[i], b[i]));
    }
}

fn x7_scalar(s: u64) -> u64 {
    let sq = raw_mul_scalar(s, s);
    let qu = raw_mul_scalar(sq, sq);
    raw_mul_scalar(s, raw_mul_scalar(sq, qu))
}

#[test]
fn sbox_x7_8way_bit_identity() {
    let mut s: u64 = 0xC0FFEE_BAD1DEA;
    for _ in 0..50 {
        let mut state = [0u64; 8];
        for v in &mut state {
            *v = splitmix(&mut s);
        }
        let mut lanes = state;
        sbox_x7_8way(true, &mut lanes).unwrap();
        for i in 0..8 {
            assert_eq!(lanes[i], x7_scalar(state[i]), "lane {i}: input={:#x}", state[i]);
        }
        let mut in_stream = state;
        sbox_x7_8way_in_stream(&Stream::with_vector_length(64), &mut in_stream);
        assert_eq!(in_stream, lanes);
    }
}

#[test]
fn sbox_x7_8way_without_sme_is_refused() {
    let mut state = [1u64, 2, 3, 4, 5, 6, 7, 8];
    let r = sbox_x7_8way(false, &mut state);
    assert_eq!(r, Err(CpuError::FeatureNotAvailable(Feature::Sme)));
    assert_eq!(state, [1u64, 2, 3, 4, 5, 6, 7, 8]);
}

fn rand_state(mut seed: u64) -> [u64; 16] {
    let mut s = [0u64; 16];
    for v in s.iter_mut() {
        seed ^= seed << 13;
        seed ^= seed >> 7;
        seed ^= seed << 17;
        *v = seed.wrapping_mul(0x2545_F491_4F6C_DD1D);
    }
    s
}

#[test]
fn sme_permute_n1_bit_identical() {
    for seed in [1u64, 42, 0xDEAD_BEEF, 0xFEED_FACE] {
        let mut a = [rand_state(seed)];
        let mut b = a[0];
        tip5_permute_sme::<1>(true, &mut a).unwrap();
        tip5_permute(&mut b);
        assert_eq!(a[0], b, "seed {seed:x}");
    }
}

#[test]
fn sme_permute_n8_bit_identical() {
    const N: usize = 8;
    for seed in [1u64, 0xCAFE, 0xFFFF_0000_FFFF_0001] {
        let mut a: [[u64; 16]; N] = core::array::from_fn(|i| rand_state(seed.wrapping_add(i as u64)));
        let mut b = a;
        tip5_permute_sme::<N>(true, &mut a).unwrap();
        for slot in b.iter_mut() {
            tip5_permute(slot);
        }
        assert_eq!(a, b, "seed {seed:x}");
    }
}

#[test]
fn sme_permute_without_sme_leaves_states() {
    let mut a = [rand_state(7), rand_state(8)];
    let before = a;
    let r = tip5_permute_sme::<2>(false, &mut a);
    assert_eq!(r, Err(CpuError::FeatureNotAvailable(Feature::Sme)));
    assert_eq!(a, before);
}

#[test]
fn stream_errors_when_absent() {
    let r = Stream::require_sme(false);
    assert!(matches!(r, Err(CpuError::FeatureNotAvailable(Feature::Sme))));
    assert_eq!(Stream::require_sme(true), Ok(()));
}

#[test]
fn stream_lane_counts() {
    let s = Stream::with_vector_length(64);
    assert_eq!(s.svl_bytes(), 64);
    assert_eq!(s.svl_lanes_f32(), 16);
    assert_eq!(s.svl_lanes_f64(), 8);
    let t = Stream::with_vector_length(30);
    assert_eq!(t.svl_lanes_f32(), 7);
    assert_eq!(t.svl_lanes_f64(), 3);
}

const TABLE: [u8; 16] = [
    0xA0, 0xA1, 0xA2, 0xA3, 0xA4, 0xA5, 0xA6, 0xA7, 0xB0, 0xB1, 0xB2, 0xB3, 0xB4, 0xB5, 0xB6, 0xB7,
];

fn check_permute(n: usize) {
    let idx: Vec<u8> = (0..n).map(|i| (i as u8) & 0x0F).collect();
    let mut out = vec![0u8; n];
    permute_u8(true, &TABLE, &idx, &mut out).unwrap();
    for i in 0..n {
        assert_eq!(out[i], TABLE[(idx[i] & 0x0F) as usize], "lane {i}: n={n}");
    }
}

#[test]
fn permute_64() {
    check_permute(64);
}

#[test]
fn permute_128() {
    check_permute(128);
}

#[test]
fn permute_256() {
    check_permute(256);
}

#[test]
fn permute_1024() {
    check_permute(1024);
}

#[test]
fn permute_odd() {
    check_permute(73);
}

#[test]
fn permute_small() {
    check_permute(8);
}

#[test]
fn permute_u8_wraps_indices() {
    let idx = [0x10u8, 0x1F, 0xFF, 0x23];
    let mut out = [0u8; 4];
    permute_u8(true, &TABLE, &idx, &mut out).unwrap();
    assert_eq!(out, [0xA0, 0xB7, 0xB7, 0xA3]);
}

#[test]
fn permute_u8_without_sme2_is_refused() {
    let idx = [1u8, 2, 3];
    let mut out = [0u8; 3];
    let r = permute_u8(false, &TABLE, &idx, &mut out);
    assert_eq!(r, Err(CpuError::FeatureNotAvailable(Feature::Sme2)));
    assert_eq!(out, [0u8; 3]);
}

#[test]
fn thread_cap_small_problem_is_single_threaded() {
    assert_eq!(thread_cap(1_999_999_999, 10, 64), 1);
    assert_eq!(thread_cap(0, 10, 0), 1);
}

#[test]
fn thread_cap_medium_problem_uses_at_most_four() {
    assert_eq!(thread_cap(2_000_000_000, 10, 64), 4);
    assert_eq!(thread_cap(7_999_999_999, 3, 64), 3);
    assert_eq!(thread_cap(5_000_000_000, 10, 2), 2);
}

#[test]
fn thread_cap_large_problem_uses_all_cores() {
    assert_eq!(thread_cap(8_000_000_000, 10, 64), 10);
    assert_eq!(thread_cap(8_000_000_000, 10, 6), 6);
    assert_eq!(thread_cap(9_000_000_000, 0, 6), 1);
}

#[test]
fn iters_for_sizes() {
    assert_eq!(iters_for(0), 500);
    assert_eq!(iters_for(127), 500);
    assert_eq!(iters_for(128), 100);
    assert_eq!(iters_for(511), 100);
    assert_eq!(iters_for(512), 15);
    assert_eq!(iters_for(2047), 15);
    assert_eq!(iters_for(2048), 4);
}

#[test]
fn hash_pair_par_chunk_plans() {
    assert_eq!(hash_pair_par_chunk(0, 4, 8), None);
    assert_eq!(hash_pair_par_chunk(100, 1, 8), None);
    assert_eq!(hash_pair_par_chunk(7, 2, 8), None);
    assert_eq!(hash_pair_par_chunk(8, 2, 8), Some(4));
    assert_eq!(hash_pair_par_chunk(9, 2, 8), Some(5));
    assert_eq!(hash_pair_par_chunk(100, 0, 0), None);
    assert_eq!(hash_pair_par_chunk(100, 0, 3), Some(34));
    assert_eq!(hash_pair_par_chunk(usize::MAX, usize::MAX, 0), None);
}
