//! Tests of the torus building blocks: polynomial arithmetic, signed
//! decomposition, encryption and decryption with explicit randomness, and
//! the randomness wrapper itself.
use cbs_aes::poly::polynomial_wrapping_add_assign;
use cbs_aes::poly::polynomial_wrapping_monic_monomial_mul_assign;
use cbs_aes::poly::polynomial_wrapping_monic_monomial_div_assign;
use cbs_aes::poly::eval_x_k;
use cbs_aes::polymul::polynomial_wrapping_add_mul_assign;
use cbs_aes::decomp::closest_representable;
use cbs_aes::decomp::decompose_value;
use cbs_aes::lwe::LweSecretKey;
use cbs_aes::lwe::encrypt_lwe_ciphertext_with;
use cbs_aes::lwe::decrypt_lwe_ciphertext;
use cbs_aes::glwe::GlweSecretKey;
use cbs_aes::glwe::encrypt_glwe_ciphertext_with;
use cbs_aes::glwe::decrypt_glwe_ciphertext;
use cbs_aes::glwe::extract_lwe_sample_from_glwe_ciphertext;
use cbs_aes::mod_switch::lwe_preprocessing;
use cbs_aes::lwe::LweCiphertext;
use cbs_aes::random::tfhe_random_binary_vec;
use cbs_aes::utils::get_val_and_bit_and_abs_err;
use cbs_aes::utils::get_val_and_abs_err;
use cbs_aes::utils::get_glwe_max_err;
use cbs_aes::entropy::EntropySource;
use cbs_aes::keygen::keygen_pbs;
use cbs_aes::keygen::generate_binary_glwe_secret_key;
use cbs_aes::keygen::allocate_and_generate_new_glwe_keyswitch_key;
use cbs_aes::lwe_keyswitch::keyswitch_lwe_ciphertext;
use cbs_aes::glwe_keyswitch::keyswitch_glwe_ciphertext;

/// A small deterministic word generator for test randomness.
struct Lcg(u64);

impl Lcg {
    fn next(&mut self) -> u64 {
        self.0 = self.0.wrapping_mul(6364136223846793005).wrapping_add(1442695040888963407);
        self.0
    }

    fn vec(&mut self, n: usize) -> Vec<u64> {
        (0..n).map(|_| self.next()).collect()
    }
}

#[test]
fn monomial_mul_and_div_round_trip() {
    let mut p: Vec<u64> = vec![1, 2, 3, 4];
    polynomial_wrapping_monic_monomial_mul_assign(&mut p, 1);
    // X * (1 + 2X + 3X^2 + 4X^3) = -4 + X + 2X^2 + 3X^3 mod X^4 + 1.
    assert_eq!(p, vec![4u64.wrapping_neg(), 1, 2, 3]);
    polynomial_wrapping_monic_monomial_div_assign(&mut p, 1);
    assert_eq!(p, vec![1, 2, 3, 4]);
    // A full 2N rotation is the identity.
    polynomial_wrapping_monic_monomial_mul_assign(&mut p, 8);
    assert_eq!(p, vec![1, 2, 3, 4]);
    // An N rotation negates.
    polynomial_wrapping_monic_monomial_mul_assign(&mut p, 4);
    assert_eq!(
        p,
        vec![1u64.wrapping_neg(), 2u64.wrapping_neg(), 3u64.wrapping_neg(), 4u64.wrapping_neg()]
    );
}

#[test]
fn negacyclic_product_small_example() {
    // (1 + X) * (1 + X) = 1 + 2X + X^2 over X^4 + 1.
    let mut acc: Vec<u64> = vec![0, 0, 0, 0];
    let a: Vec<u64> = vec![1, 1, 0, 0];
    polynomial_wrapping_add_mul_assign(&mut acc, &a, &a);
    assert_eq!(acc, vec![1, 2, 1, 0]);
    // X^3 * X^3 = X^6 = -X^2.
    let mut acc2: Vec<u64> = vec![0, 0, 0, 0];
    let b: Vec<u64> = vec![0, 0, 0, 1];
    polynomial_wrapping_add_mul_assign(&mut acc2, &b, &b);
    assert_eq!(acc2, vec![0, 0, 1u64.wrapping_neg(), 0]);
}

#[test]
fn automorphism_substitution_small_example() {
    // f(X) = X over X^4 + 1; f(X^3) = X^3, f(X^5) = X^5 = -X.
    let p: Vec<u64> = vec![0, 1, 0, 0];
    let q = eval_x_k(&p, 3);
    assert_eq!(q, vec![0, 0, 0, 1]);
    let r = eval_x_k(&p, 5);
    assert_eq!(r, vec![0, 1u64.wrapping_neg(), 0, 0]);
    // Constants are fixed by every substitution.
    let c: Vec<u64> = vec![7, 0, 0, 0];
    assert_eq!(eval_x_k(&c, 5), c);
}

#[test]
fn closest_representable_rounds_to_window() {
    // base 2^4, 3 levels: the represented window is the top 12 bits.
    let v = 0x0123_4567_89ab_cdefu64;
    let c = closest_representable(v, 4, 3);
    // The gap below the window is 52 bits; rounding adds half and clears.
    let gap = 64 - 12;
    let expected = {
        let half = 1u64 << (gap - 1);
        (v.wrapping_add(half) >> gap) << gap
    };
    assert_eq!(c, expected);
    // Multiples of the window step are fixed points.
    let w = 0xabc0_0000_0000_0000u64;
    assert_eq!(closest_representable(w, 4, 3), w);
}

#[test]
fn decomposition_recomposes_to_closest_representable() {
    let vals = [0u64, 1, 0x8000_0000_0000_0000, 0x0123_4567_89ab_cdef, u64::MAX];
    for &v in vals.iter() {
        let digits = decompose_value(v, 8, 6);
        assert_eq!(digits.len(), 6);
        let mut sum = 0u64;
        for (j, &d) in digits.iter().enumerate() {
            let scale_log = 64 - (j + 1) * 8;
            sum = sum.wrapping_add(d.wrapping_mul(1u64 << scale_log));
        }
        assert_eq!(sum, closest_representable(v, 8, 6));
        // Digits are balanced.
        for &d in digits.iter() {
            assert!(d <= 128 || d >= 128u64.wrapping_neg());
        }
    }
}

#[test]
fn lwe_encrypt_decrypt_with_explicit_randomness() {
    let mut lcg = Lcg(7);
    let sk = LweSecretKey { coeffs: (0..32).map(|i| (i % 2) as u64).collect() };
    let mask = lcg.vec(32);
    let noise = 123u64;
    let m = 5u64 << 60;
    let ct = encrypt_lwe_ciphertext_with(&sk, m, mask, noise);
    let phase = decrypt_lwe_ciphertext(&sk, &ct);
    assert_eq!(phase, m.wrapping_add(noise));
    let (decoded, bit_err, abs_err) = get_val_and_bit_and_abs_err(&sk, &ct, 5, 1u64 << 60);
    assert_eq!(decoded, 5);
    assert_eq!(abs_err, 123);
    assert_eq!(bit_err, 7);
}

#[test]
fn glwe_encrypt_decrypt_and_sample_extract() {
    let mut lcg = Lcg(99);
    let k = 2usize;
    let n = 16usize;
    let sk = GlweSecretKey {
        polys: (0..k).map(|_| lcg.vec(n).iter().map(|w| w & 1).collect()).collect(),
    };
    let pt: Vec<u64> = (0..n).map(|i| (i as u64) << 59).collect();
    let noise: Vec<u64> = vec![0; n];
    let mask: Vec<Vec<u64>> = (0..k).map(|_| lcg.vec(n)).collect();
    let ct = encrypt_glwe_ciphertext_with(&sk, &pt, mask, &noise);
    let phase = decrypt_glwe_ciphertext(&sk, &ct);
    assert_eq!(phase, pt);
    // Extracting coefficient 3 as an LWE sample under the flattened key.
    let lwe = extract_lwe_sample_from_glwe_ciphertext(&ct, 3);
    let flat = LweSecretKey { coeffs: sk.polys.concat() };
    let phase3 = decrypt_lwe_ciphertext(&flat, &lwe);
    assert_eq!(phase3, pt[3]);
}

#[test]
fn preprocessing_divides_by_the_ring_size() {
    let ct = LweCiphertext { mask: vec![1u64 << 40, (1u64 << 41) + 7], body: (1u64 << 42) + 100 };
    let out = lwe_preprocessing(&ct, 16);
    assert_eq!(out.mask[0], (1u64 << 40) / 16);
    assert_eq!(out.mask[1], ((1u64 << 41) + 7) / 16);
    assert_eq!(out.body, ((1u64 << 42) + 100) / 16);
}

#[test]
fn random_binary_vector_is_binary_and_sized() {
    let v = tfhe_random_binary_vec(512);
    assert_eq!(v.len(), 512);
    assert!(v.iter().all(|&b| b == 0 || b == 1));
    // With 512 fair bits, all-equal outputs are vanishingly unlikely.
    let ones: u64 = v.iter().sum();
    assert!(ones > 0 && ones < 512);
}

#[test]
fn lwe_keyswitch_round_trip_with_noiseless_key() {
    let mut lcg = Lcg(31337);
    let lwe_dim = 8usize;
    let k = 1usize;
    let n = 16usize;
    let budget = lwe_dim * ((k + 1) * (2 * ((k + 1) * n))) + (k * n) * (7 * (lwe_dim + 1));
    let mut entropy = EntropySource::new(vec![0u64; budget]);
    // base 9 x 7 levels keeps all but one low-order bit of each mask word.
    let (large_sk, _glwe_sk, small_sk, _bsk, ksk) =
        keygen_pbs(lwe_dim, k, n, 15, 2, 9, 7, &mut entropy);

    let m = 11u64 << 60;
    let mask = lcg.vec(k * n);
    let ct = encrypt_lwe_ciphertext_with(&large_sk, m, mask, 0);
    let switched = keyswitch_lwe_ciphertext(&ksk, &ct);
    assert_eq!(switched.mask.len(), lwe_dim);
    let (decoded, abs_err) = get_val_and_abs_err(&small_sk, &switched, 11, 1u64 << 60);
    assert_eq!(decoded, 11);
    // With noiseless key material the only error is the one dropped
    // decomposition bit per mask word.
    assert!(abs_err <= (k * n) as u64);
}

#[test]
fn glwe_keyswitch_preserves_a_noiseless_message() {
    let mut lcg = Lcg(55);
    let n = 16usize;
    let sk_in = generate_binary_glwe_secret_key(2, n);
    let sk_out = generate_binary_glwe_secret_key(1, n);
    let mut entropy = EntropySource::new(vec![0u64; 2 * (7 * (2 * n))]);
    let ksk = allocate_and_generate_new_glwe_keyswitch_key(&sk_in, &sk_out, 9, 7, &mut entropy);

    let pt: Vec<u64> = (0..n).map(|i| (i as u64) << 58).collect();
    let mask: Vec<Vec<u64>> = (0..2).map(|_| lcg.vec(n)).collect();
    let noise = vec![0u64; n];
    let ct = encrypt_glwe_ciphertext_with(&sk_in, &pt, mask, &noise);
    let switched = keyswitch_glwe_ciphertext(&ksk, &ct);
    assert_eq!(switched.mask.len(), 1);
    let phase = decrypt_glwe_ciphertext(&sk_out, &switched);
    let max_err = get_glwe_max_err(&sk_out, &switched, &pt);
    for j in 0..n {
        let d0 = phase[j].wrapping_sub(pt[j]);
        let d1 = pt[j].wrapping_sub(phase[j]);
        assert!(d0.min(d1) <= (2 * n) as u64);
    }
    assert!(max_err <= (2 * n) as u64);
}
