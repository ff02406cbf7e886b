//! Tests of the automorphism/trace engine and the LWE-to-GLWE pipelines,
//! exercised with noiseless key material (all entropy words zero) where
//! the arithmetic is exact.
use cbs_aes::glwe::GlweCiphertext;
use cbs_aes::glwe::GlweSecretKey;
use cbs_aes::glwe::decrypt_glwe_ciphertext;
use cbs_aes::lwe::LweCiphertext;
use cbs_aes::lwe::LweSecretKey;
use cbs_aes::lwe::encrypt_lwe_ciphertext_with;
use cbs_aes::entropy::EntropySource;
use cbs_aes::keygen::generate_automorphism_keys;
use cbs_aes::automorphism::trace_assign;
use cbs_aes::automorphism::trace_partial_assign;
use cbs_aes::glwe_conv::convert_lwe_to_glwe_const;
use cbs_aes::glwe_conv::convert_lwe_to_glwe_by_trace_with_preprocessing;
use cbs_aes::glwe_conv::convert_lwes_to_glwe_by_trace_with_preprocessing;
use cbs_aes::lwe::decrypt_lwe_ciphertext;

struct Lcg(u64);

impl Lcg {
    fn next(&mut self) -> u64 {
        self.0 = self.0.wrapping_mul(6364136223846793005).wrapping_add(1442695040888963407);
        self.0
    }

    fn vec(&mut self, n: usize) -> Vec<u64> {
        (0..n).map(|_| self.next()).collect()
    }
}

fn noiseless_auto_keys(
    sk: &GlweSecretKey,
    base_log: usize,
    levels: usize,
) -> cbs_aes::automorphism::AutomorphKeyMap {
    let k = sk.polys.len();
    let n = sk.polys[0].len();
    let budget = 64 * (k * (levels * ((k + 1) * n)));
    let mut entropy = EntropySource::new(vec![0u64; budget]);
    generate_automorphism_keys(sk, base_log, levels, &mut entropy)
}

#[test]
fn trace_multiplies_a_noiseless_constant_by_the_ring_size() {
    let n = 16usize;
    let k = 1usize;
    let sk = GlweSecretKey { polys: vec![vec![1u64; n]] };
    let keys = noiseless_auto_keys(&sk, 7, 2);
    let c0 = 0x0123_4567_89ab_cdefu64;
    let mut pt = vec![0u64; n];
    pt[0] = c0;
    let mut ct = GlweCiphertext::new_trivial(k, pt);
    trace_assign(&mut ct, &keys);
    assert_eq!(ct.body[0], c0.wrapping_mul(n as u64));
    for j in 1..n {
        assert_eq!(ct.body[j], 0);
    }
    for r in 0..k {
        assert!(ct.mask[r].iter().all(|&v| v == 0));
    }
}

#[test]
fn partial_trace_scales_by_the_lane_count_ratio() {
    let n = 16usize;
    let sk = GlweSecretKey { polys: vec![vec![0u64; n]] };
    let keys = noiseless_auto_keys(&sk, 7, 2);
    let c0 = 1u64 << 40;
    let mut pt = vec![0u64; n];
    pt[0] = c0;
    let mut ct = GlweCiphertext::new_trivial(1, pt);
    trace_partial_assign(&mut ct, &keys, 4);
    // 16 / 4 stages of doubling.
    assert_eq!(ct.body[0], c0 * 4);
}

#[test]
fn embed_then_trace_recovers_the_rescaled_message() {
    // The trace pipeline on a trivial (noiseless) input: the constant
    // coefficient carries N * floor(m / N) exactly.
    let n = 16usize;
    let k = 1usize;
    let sk = GlweSecretKey { polys: vec![vec![1u64; n]] };
    let keys = noiseless_auto_keys(&sk, 7, 2);
    let m = (3u64 << 60) + 12345;
    let lwe = LweCiphertext { mask: vec![0u64; k * n], body: m };
    let out = convert_lwe_to_glwe_by_trace_with_preprocessing(&lwe, k, n, &keys);
    assert_eq!(out.body[0], (m / n as u64) * n as u64);
    for j in 1..n {
        assert_eq!(out.body[j], 0);
    }
}

#[test]
fn embed_const_carries_the_lwe_phase_to_coefficient_zero() {
    // A noisy embedding: the GLWE phase at coefficient 0 equals the LWE
    // phase exactly (the re-embedding adds no noise).
    let mut lcg = Lcg(4242);
    let n = 16usize;
    let k = 2usize;
    let sk_bits: Vec<u64> = (0..k * n).map(|_| lcg.next() & 1).collect();
    let lwe_sk = LweSecretKey { coeffs: sk_bits.clone() };
    let glwe_sk = GlweSecretKey {
        polys: (0..k).map(|r| sk_bits[r * n..(r + 1) * n].to_vec()).collect(),
    };
    let m = 9u64 << 55;
    let noise = 77u64;
    let ct = encrypt_lwe_ciphertext_with(&lwe_sk, m, lcg.vec(k * n), noise);
    let glwe = convert_lwe_to_glwe_const(&ct, k, n);
    let phase = decrypt_glwe_ciphertext(&glwe_sk, &glwe);
    assert_eq!(phase[0], decrypt_lwe_ciphertext(&lwe_sk, &ct));
    assert_eq!(phase[0], m.wrapping_add(noise));
}

#[test]
fn packing_multiple_noiseless_lwes_fills_the_lanes() {
    let n = 16usize;
    let k = 1usize;
    let sk = GlweSecretKey { polys: vec![vec![1u64; n]] };
    let keys = noiseless_auto_keys(&sk, 7, 2);
    let count = 4usize;
    let inputs: Vec<LweCiphertext> = (0..count)
        .map(|i| LweCiphertext { mask: vec![0u64; n], body: ((i as u64) + 1) << 60 })
        .collect();
    let out = convert_lwes_to_glwe_by_trace_with_preprocessing(&inputs, k, n, &keys);
    // The packed ciphertext is noiseless: every input must sit at its lane,
    // rescaled by N (preprocessing divided by N, the packing multiplied
    // back). The lanes are n/count coefficients apart.
    assert!(out.mask[0].iter().all(|&v| v == 0));
    for (i, input) in inputs.iter().enumerate() {
        let lane = i * (n / count);
        assert_eq!(out.body[lane], (input.body / n as u64) * n as u64);
    }
}
