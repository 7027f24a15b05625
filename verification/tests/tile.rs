use acpu::sme::tile_i16::tile_16x16_i16_i32;
use acpu::streaming::Stream;

fn ref_matmul_i16_i32(a: &[i16], b: &[i16], c: &mut [i32], m: usize, n: usize, k: usize) {
    for i in 0..m {
        for j in 0..n {
            let mut acc: i32 = 0;
            for p in 0..k {
                acc = acc.wrapping_add((a[i * k + p] as i32) * (b[p * n + j] as i32));
            }
            c[i * n + j] = acc;
        }
    }
}

fn pack_a(a: &[i16], kc: usize) -> Vec<i16> {
    let k_full = 2 * kc;
    let mut out = vec![0i16; kc * 32];
    for p in 0..kc {
        for i in 0..16 {
            for kk in 0..2 {
                out[p * 32 + 2 * i + kk] = a[i * k_full + 2 * p + kk];
            }
        }
    }
    out
}

fn pack_b(b: &[i16], kc: usize) -> Vec<i16> {
    let n = 16usize;
    let mut out = vec![0i16; kc * 32];
    for p in 0..kc {
        for j in 0..n {
            for kk in 0..2 {
                out[p * 32 + 2 * j + kk] = b[(2 * p + kk) * n + j];
            }
        }
    }
    out
}

#[test]
fn smopa_int16_tile_set_correct() {
    let (m, n, kc) = (16usize, 16usize, 4usize);
    let k = 2 * kc;
    let a: Vec<i16> = (0..m * k).map(|i| (((i as i32) % 11) - 5) as i16).collect();
    let b: Vec<i16> = (0..k * n).map(|i| (((i as i32) % 13) - 6) as i16).collect();
    let mut c_tile = vec![0i32; m * n];
    let mut c_ref = vec![0i32; m * n];
    let stream = Stream::with_vector_length(64);
    tile_16x16_i16_i32(&stream, &pack_a(&a, kc), &pack_b(&b, kc), &mut c_tile, n, kc, false);
    ref_matmul_i16_i32(&a, &b, &mut c_ref, m, n, k);
    assert_eq!(c_tile, c_ref);
}

#[test]
fn smopa_int16_tile_accumulate_correct() {
    let (m, n, kc) = (16usize, 16usize, 2usize);
    let k = 2 * kc;
    let a: Vec<i16> = (0..m * k).map(|i| ((i as i32) - 8) as i16).collect();
    let b: Vec<i16> = (0..k * n).map(|i| ((i as i32) - 8) as i16).collect();
    let mut c_tile: Vec<i32> = (0..m * n).map(|i| (i as i32) * 7 - 100).collect();
    let mut c_ref = c_tile.clone();
    let stream = Stream::with_vector_length(64);
    tile_16x16_i16_i32(&stream, &pack_a(&a, kc), &pack_b(&b, kc), &mut c_tile, n, kc, true);
    for i in 0..m {
        for j in 0..n {
            let mut acc: i32 = 0;
            for p in 0..k {
                acc = acc.wrapping_add((a[i * k + p] as i32) * (b[p * n + j] as i32));
            }
            c_ref[i * n + j] = c_ref[i * n + j].wrapping_add(acc);
        }
    }
    assert_eq!(c_tile, c_ref);
}

#[test]
fn tile_wraps_on_overflow() {
    // Every product is (-2^15)^2 = 2^30; eight of them sum to 2^33, which
    // wraps to 0 in 32 bits.
    let kc = 4;
    let a = vec![i16::MIN; kc * 32];
    let b = vec![i16::MIN; kc * 32];
    let mut c = vec![5i32; 16 * 16];
    tile_16x16_i16_i32(&Stream::with_vector_length(64), &a, &b, &mut c, 16, kc, true);
    assert!(c.iter().all(|&v| v == 5));
}

#[test]
fn tile_leaves_the_gaps_between_rows() {
    let kc = 1;
    let a = vec![1i16; 32];
    let b = vec![2i16; 32];
    let ldc = 20;
    let mut c = vec![-1i32; 15 * ldc + 16 + 3];
    tile_16x16_i16_i32(&Stream::with_vector_length(64), &a, &b, &mut c, ldc, kc, false);
    for (t, &v) in c.iter().enumerate() {
        let in_tile = t % ldc < 16 && t / ldc < 16 && t < 15 * ldc + 16;
        assert_eq!(v, if in_tile { 4 } else { -1 }, "t = {t}");
    }
}

#[test]
fn tile_rows_written_in_order_when_they_overlap() {
    // With ldc = 0 every row lands on the same sixteen slots: the last row
    // written (row 15) is what remains.
    let kc = 1;
    let mut a = vec![0i16; 32];
    for i in 0..16 {
        a[2 * i] = i as i16;
    }
    let mut b = vec![0i16; 32];
    for j in 0..16 {
        b[2 * j] = 1;
    }
    let mut c = vec![0i32; 16];
    tile_16x16_i16_i32(&Stream::with_vector_length(64), &a, &b, &mut c, 0, kc, false);
    assert!(c.iter().all(|&v| v == 15));
}
