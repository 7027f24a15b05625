//! Bit-identity against the reference implementation in `twenty_first`.

use acpu::field::tip5::{
    tip5_hash_pair, tip5_hash_varlen, tip5_permute, tip5_permute_batch, tip5_permute_sme,
};
use rand::{Rng, RngCore, SeedableRng};
use twenty_first::prelude::{BFieldElement, Digest, Tip5};

const N_SAMPLES: usize = 1024;

fn random_state(rng: &mut impl RngCore) -> [u64; 16] {
    let mut s = [0u64; 16];
    for v in s.iter_mut() {
        *v = rng.next_u64();
    }
    s
}

fn state_from_raw(raw: [u64; 16]) -> [BFieldElement; 16] {
    let mut out = [BFieldElement::default(); 16];
    for (o, r) in out.iter_mut().zip(raw.iter()) {
        *o = BFieldElement::from_raw_u64(*r);
    }
    out
}

fn state_to_raw(state: [BFieldElement; 16]) -> [u64; 16] {
    let mut out = [0u64; 16];
    for (o, e) in out.iter_mut().zip(state.iter()) {
        *o = e.raw_u64();
    }
    out
}

fn digest_from_raw(d: [u64; 5]) -> Digest {
    Digest::new([
        BFieldElement::from_raw_u64(d[0]),
        BFieldElement::from_raw_u64(d[1]),
        BFieldElement::from_raw_u64(d[2]),
        BFieldElement::from_raw_u64(d[3]),
        BFieldElement::from_raw_u64(d[4]),
    ])
}

fn digest_to_raw(d: Digest) -> [u64; 5] {
    let v = d.values();
    [v[0].raw_u64(), v[1].raw_u64(), v[2].raw_u64(), v[3].raw_u64(), v[4].raw_u64()]
}

#[test]
fn permute_matches_twenty_first_1000_random_inputs() {
    let mut rng = rand::rngs::StdRng::seed_from_u64(0x0C0F_FEE5_71F5);
    for _ in 0..N_SAMPLES {
        let raw = random_state(&mut rng);
        let mut ours = raw;
        tip5_permute(&mut ours);
        let mut theirs = Tip5 {
            state: state_from_raw(raw),
        };
        theirs.permutation();
        assert_eq!(ours, state_to_raw(theirs.state));
    }
}

#[test]
fn hash_pair_matches_twenty_first_1000_random_inputs() {
    let mut rng = rand::rngs::StdRng::seed_from_u64(0x00DE_ADBE_EF42_u64);
    for _ in 0..N_SAMPLES {
        let mut left = [0u64; 5];
        let mut right = [0u64; 5];
        for v in left.iter_mut() {
            *v = BFieldElement::new(rng.random::<u64>()).raw_u64();
        }
        for v in right.iter_mut() {
            *v = BFieldElement::new(rng.random::<u64>()).raw_u64();
        }
        let ours = tip5_hash_pair(left, right);
        let theirs = Tip5::hash_pair(digest_from_raw(left), digest_from_raw(right));
        assert_eq!(ours, digest_to_raw(theirs));
    }
}

#[test]
fn hash_varlen_matches_twenty_first_padding_boundaries() {
    let lengths = [0usize, 1, 9, 10, 11, 30, 100, 1000];
    let mut rng = rand::rngs::StdRng::seed_from_u64(0x00FE_EDFA_CE99_u64);
    for &len in &lengths {
        let bfe_in: Vec<BFieldElement> = (0..len)
            .map(|_| BFieldElement::new(rng.random::<u64>()))
            .collect();
        let raw_in: Vec<u64> = bfe_in.iter().map(|e| e.raw_u64()).collect();
        let ours = tip5_hash_varlen(&raw_in);
        let theirs = Tip5::hash_varlen(&bfe_in);
        assert_eq!(ours, digest_to_raw(theirs), "hash_varlen mismatch at input length {len}");
    }
}

#[test]
fn permute_batch_matches_scalar_path() {
    const N: usize = 8;
    let mut rng = rand::rngs::StdRng::seed_from_u64(0x000B_ADF0_0D77_u64);
    for _ in 0..128 {
        let mut originals = [[0u64; 16]; N];
        for s in originals.iter_mut() {
            *s = random_state(&mut rng);
        }
        let mut batched = originals;
        tip5_permute_batch::<N>(&mut batched);
        let mut scalar = originals;
        for s in scalar.iter_mut() {
            tip5_permute(s);
        }
        for k in 0..N {
            let mut t = Tip5 {
                state: state_from_raw(originals[k]),
            };
            t.permutation();
            assert_eq!(batched[k], state_to_raw(t.state));
            assert_eq!(scalar[k], state_to_raw(t.state));
        }
    }
}

fn sme_property<const N: usize>(seed: u64) {
    let mut rng = rand::rngs::StdRng::seed_from_u64(seed);
    for i in 0..N_SAMPLES / N {
        let mut a: [[u64; 16]; N] = core::array::from_fn(|_| random_state(&mut rng));
        let mut b = a;
        tip5_permute_sme::<N>(true, &mut a).expect("FEAT_SME assumed present");
        for slot in b.iter_mut() {
            tip5_permute(slot);
        }
        for (k, (sa, sb)) in a.iter().zip(b.iter()).enumerate() {
            assert_eq!(sa, sb, "iter {i}, slot {k}");
        }
    }
}

#[test]
fn sme_permute_n1_property() {
    sme_property::<1>(0xA001);
}

#[test]
fn sme_permute_n4_property() {
    sme_property::<4>(0xA004);
}

#[test]
fn sme_permute_n8_property() {
    sme_property::<8>(0xA008);
}

#[test]
fn sme_permute_n16_property() {
    sme_property::<16>(0xA016);
}
