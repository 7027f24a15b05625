//! Concrete instances of the laws the library proves.

use acpu::field::goldilocks::{gl_add, gl_inv, gl_mul, gl_sub, P};
use acpu::field::ntt::{ntt_forward, pow_gl};
use acpu::field::poly::multilinear_eval;
use acpu::field::tip5::consts::MDS_MATRIX_FIRST_COLUMN;
use acpu::field::tip5::mds::mds_generated_inplace;
use acpu::field::tip5::neon::pow7_last12;
use acpu::field::tip5::scalar::bfe_mul_raw;
use acpu::field::tip5::{tip5_hash_varlen, RAW_MONT_ONE};
use acpu::field::tip5_canonical::{from_monty, to_monty};

fn primitive_nth_root(n: u64) -> u64 {
    pow_gl(7, (P - 1) / n)
}

fn naive_dft(x: &[u64], omega: u64) -> Vec<u64> {
    let n = x.len();
    (0..n)
        .map(|k| {
            let mut acc = 0u64;
            for (j, &v) in x.iter().enumerate() {
                acc = gl_add(acc, gl_mul(v, pow_gl(omega, (j * k) as u64)));
            }
            acc
        })
        .collect()
}

#[test]
fn ntt_is_the_dft_at_a_primitive_root() {
    for n in [2usize, 4, 8, 16] {
        let omega = primitive_nth_root(n as u64);
        assert_eq!(pow_gl(omega, (n / 2) as u64), P - 1);
        let x: Vec<u64> = (0..n as u64).map(|i| (i * 0x1234_5678_9abc + 17) % P).collect();
        let mut y = x.clone();
        ntt_forward(&mut y, omega);
        assert_eq!(y, naive_dft(&x, omega), "n = {n}");
    }
}

#[test]
fn ntt_of_length_4_by_hand() {
    // omega_4 squared is -1; DFT of [1, 2, 3, 4].
    let w = primitive_nth_root(4);
    assert_eq!(gl_mul(w, w), P - 1);
    let mut v = [1u64, 2, 3, 4];
    ntt_forward(&mut v, w);
    let expected = [
        10,
        gl_add(gl_add(1, gl_mul(2, w)), gl_add(gl_sub(0, 3), gl_mul(4, gl_sub(0, w)))),
        gl_sub(gl_add(1, 3), gl_add(2, 4)),
        gl_add(gl_add(1, gl_mul(2, gl_sub(0, w))), gl_add(gl_sub(0, 3), gl_mul(4, w))),
    ];
    assert_eq!(v, expected);
}

#[test]
fn ntt_linearity_with_any_root() {
    let omega = 123_456_789u64;
    let a = [5u64, P - 1, 77, 0, 1 << 40, 3, 9, P - 7];
    let b = [P - 5, 2, 11, 13, 17, 19, 23, 29];
    let mut fa = a;
    let mut fb = b;
    let mut fab: Vec<u64> = a.iter().zip(b.iter()).map(|(&x, &y)| gl_add(x, y)).collect();
    ntt_forward(&mut fa, omega);
    ntt_forward(&mut fb, omega);
    ntt_forward(&mut fab, omega);
    for i in 0..8 {
        assert_eq!(gl_add(fa[i], fb[i]), fab[i]);
    }
}

#[test]
fn mle_corner_reduces_modulo_p() {
    // A non-canonical stored value comes back reduced.
    assert_eq!(multilinear_eval(&[P + 5, 3], &[0]), 5);
    assert_eq!(multilinear_eval(&[3, P + 9], &[1]), 9);
    // A single evaluation is returned as it is.
    assert_eq!(multilinear_eval(&[P + 5], &[]), P + 5);
}

#[test]
fn mle_corners_of_sixteen() {
    let evals: Vec<u64> = (0..16u64).map(|i| i * i + 3).collect();
    for idx in 0..16usize {
        let point: Vec<u64> = (0..4).map(|b| ((idx >> (3 - b)) & 1) as u64).collect();
        assert_eq!(multilinear_eval(&evals, &point), evals[idx], "corner {idx}");
    }
}

#[test]
fn mont_mul_multiplies_values() {
    for (a, b) in [(3u64, 5u64), (0, 9), (P - 1, P - 1), (1 << 63, 12345), (P - 2, 2)] {
        let ra = to_monty(a % P);
        let rb = to_monty(b % P);
        assert_eq!(from_monty(bfe_mul_raw(ra, rb)), gl_mul(a, b));
    }
    // Degenerate raw words (>= p) multiply by their values too.
    let x = P + 3;
    let y = u64::MAX;
    assert_eq!(from_monty(bfe_mul_raw(x, y)), gl_mul(from_monty(x), from_monty(y)));
}

#[test]
fn pow7_raises_values_to_the_seventh() {
    let mut state = [0u64; 16];
    let values: [u64; 16] = core::array::from_fn(|i| (i as u64) * 0x1111_1111 + 2);
    for i in 0..16 {
        state[i] = to_monty(values[i]);
    }
    let before = state;
    pow7_last12(&mut state);
    for i in 0..4 {
        assert_eq!(state[i], before[i]);
    }
    for i in 4..16 {
        assert_eq!(from_monty(state[i]), pow_gl(values[i], 7));
    }
}

#[test]
fn mds_of_a_unit_vector_is_a_column() {
    for j in 0..16usize {
        let mut s = [0u64; 16];
        s[j] = 1;
        mds_generated_inplace(&mut s);
        for r in 0..16usize {
            assert_eq!(s[r], MDS_MATRIX_FIRST_COLUMN[(16 + r - j) % 16], "r = {r}, j = {j}");
        }
    }
}

#[test]
fn mds_is_linear_modulo_p() {
    let a: [u64; 16] = core::array::from_fn(|i| (i as u64 + 1) * 0x0123_4567_89ab_cdef);
    let b: [u64; 16] = core::array::from_fn(|i| (i as u64 + 5) * 0x0fed_cba9_8765_4321);
    let mut sum: [u64; 16] = core::array::from_fn(|i| gl_add(a[i], b[i]));
    let mut ma = a;
    let mut mb = b;
    mds_generated_inplace(&mut ma);
    mds_generated_inplace(&mut mb);
    mds_generated_inplace(&mut sum);
    for r in 0..16 {
        assert_eq!(gl_add(ma[r], mb[r]) % P, sum[r] % P);
    }
}

#[test]
fn padding_marker_is_not_confused_with_data() {
    let data: Vec<u64> = (1..10u64).collect();
    let mut with_marker = data.clone();
    with_marker.push(RAW_MONT_ONE);
    assert_ne!(tip5_hash_varlen(&data), tip5_hash_varlen(&with_marker));
    let mut with_zero = data.clone();
    with_zero.push(0);
    assert_ne!(tip5_hash_varlen(&data), tip5_hash_varlen(&with_zero));
}

#[test]
fn gl_inv_inverts() {
    for a in [1u64, 2, 3, 7, P - 1, 0x1234_5678_9abc_def0] {
        assert_eq!(gl_mul(a, gl_inv(a)), 1);
    }
    assert_eq!(gl_inv(0), 0);
}

#[test]
fn mle_is_the_lagrange_form_in_three_variables() {
    let evals: Vec<u64> = (0..8u64).map(|i| 1000 + 37 * i * i).collect();
    let point = [5u64, P - 3, 1 << 50];
    let mut expected = 0u64;
    for (i, &e) in evals.iter().enumerate() {
        let mut w = 1u64;
        for j in 0..3 {
            let bit = (i >> (2 - j)) & 1;
            let f = if bit == 1 { point[j] } else { gl_sub(1, point[j]) };
            w = gl_mul(w, f);
        }
        expected = gl_add(expected, gl_mul(e, w));
    }
    assert_eq!(multilinear_eval(&evals, &point), expected);
}
