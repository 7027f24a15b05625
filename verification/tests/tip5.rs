use acpu::field::goldilocks::P;
use acpu::field::tip5::scalar::{bfe_add_raw, bfe_mul_raw, montyred};
use acpu::field::tip5::{tip5_permute, RAW_MONT_ONE};
use acpu::field::tip5_canonical::{
    from_monty, tip5_hash_pair as value_hash_pair, tip5_hash_varlen as value_hash_varlen,
    tip5_permute as value_permute, to_monty, ONE_MONTY,
};

#[test]
fn monty_roundtrip() {
    for v in [0u64, 1, 2, 100, P - 1, P - 2, 0xdead_beef_cafe_babe] {
        let v = if v >= P { v - P } else { v };
        assert_eq!(from_monty(to_monty(v)), v);
    }
}

#[test]
fn one_monty_is_r() {
    assert_eq!(ONE_MONTY, 0xFFFF_FFFF);
    assert_eq!(to_monty(1), ONE_MONTY);
}

#[test]
fn permute_is_deterministic() {
    let mut a: [u64; 16] = core::array::from_fn(|i| i as u64 + 1);
    let mut b = a;
    value_permute(&mut a);
    value_permute(&mut b);
    assert_eq!(a, b);
}

#[test]
fn tip5_permute_changes_state() {
    let mut s: [u64; 16] = core::array::from_fn(|i| i as u64 + 1);
    let original = s;
    value_permute(&mut s);
    assert_ne!(s, original);
    for v in s {
        assert!(v < P);
    }
}

#[test]
fn hash_pair_deterministic() {
    let l = [1u64, 2, 3, 4, 5];
    let r = [6u64, 7, 8, 9, 10];
    assert_eq!(value_hash_pair(l, r), value_hash_pair(l, r));
    for v in value_hash_pair(l, r) {
        assert!(v < P);
    }
}

#[test]
fn hash_varlen_padding_boundary() {
    let d0 = value_hash_varlen(&[]);
    let d1 = value_hash_varlen(&[0]);
    assert_ne!(d0, d1);
    let d10 = value_hash_varlen(&[7u64; 10]);
    let d11 = value_hash_varlen(&[7u64; 11]);
    assert_ne!(d10, d11);
}

#[test]
fn raw_mont_one_round_trip() {
    let z = bfe_add_raw(0, RAW_MONT_ONE);
    assert_eq!(z, RAW_MONT_ONE);
}

#[test]
fn mod_permute_changes_state() {
    let mut s: [u64; 16] = core::array::from_fn(|i| (i as u64 + 1).wrapping_mul(7));
    let orig = s;
    tip5_permute(&mut s);
    assert_ne!(s, orig);
}

#[test]
fn permute_deterministic() {
    let mut s1: [u64; 16] = core::array::from_fn(|i| (i as u64 + 3).wrapping_mul(11));
    let mut s2 = s1;
    tip5_permute(&mut s1);
    tip5_permute(&mut s2);
    assert_eq!(s1, s2);
}

#[test]
fn snapshot_from_twenty_first() {
    let mut state: [u64; 16] = [
        0x0000_000f_ffff_fff0,
        0x0000_0000_ffff_ffff,
        0x0000_0000_ffff_ffff,
        0x0000_0028_ffff_ffd7,
        0x0000_0006_ffff_fff9,
        0x0000_0002_ffff_fffd,
        0x0000_0000_ffff_ffff,
        0x0000_0030_ffff_ffcf,
        0x0000_0397_ffff_fc68,
        0x0000_000f_ffff_fff0,
        0x316b_fb72_3638_2123,
        0x216f_521b_66ef_83f5,
        0x5689_d7b3_63f5_2df0,
        0xeb2f_59e3_aeae_25fc,
        0xb082_99d2_77cb_b4dc,
        0xcbe3_d9fd_c534_9140,
    ];
    tip5_permute(&mut state);
    let expected_prefix: [u64; 5] = [
        0x15d3_8ea9_29f6_632a,
        0xf988_e509_ff73_8bb4,
        0x48bc_dfae_88a2_e9f3,
        0x8733_9e83_2daa_c02a,
        0x511e_4126_8150_fdac,
    ];
    assert_eq!(&state[..5], &expected_prefix[..]);
}

#[test]
fn montyred_zero() {
    assert_eq!(montyred(0), 0);
}

#[test]
fn bfe_add_below_p_is_canonical() {
    let mont_3 = montyred((3u128) * (0xffff_fffe_0000_0001u128));
    let mont_5 = montyred((5u128) * (0xffff_fffe_0000_0001u128));
    let mont_8 = montyred((8u128) * (0xffff_fffe_0000_0001u128));
    assert_eq!(bfe_add_raw(mont_3, mont_5), mont_8);
}

#[test]
fn bfe_mul_one_is_identity() {
    const R2: u128 = 0xffff_fffe_0000_0001;
    let mont_1 = montyred(R2);
    let mont_42 = montyred(42u128 * R2);
    assert_eq!(bfe_mul_raw(mont_42, mont_1), mont_42);
}

#[test]
fn montyred_output_is_canonical_for_a_large_high_word() {
    // (2^64 - 1) * 2^64 reduces to 2^64 - 1 = 2^32 - 2 (mod p).
    let r = montyred(0xFFFF_FFFF_FFFF_FFFF_0000_0000_0000_0000u128);
    assert!(r < P);
    assert_eq!(r, 0xFFFF_FFFE);
    assert_eq!(montyred(u128::MAX) < P, true);
}
