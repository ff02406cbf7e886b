//! Tests of the homomorphic AES layers against the plaintext reference:
//! with trivial (noiseless) bit ciphertexts at the top-bit scale, every
//! linear layer is exact, and the homomorphic S-box evaluator must decode
//! to the reference substitution.
use cbs_aes::aes_ref::Aes128Ref;
use cbs_aes::aes_ref::byte_array_to_mat;
use cbs_aes::aes_ref::byte_mat_to_array;
use cbs_aes::sbox::aes128_sbox;
use cbs_aes::lwe::LweCiphertext;
use cbs_aes::lwe::LweSecretKey;
use cbs_aes::lwe::decrypt_lwe_ciphertext;
use cbs_aes::glwe::GlweSecretKey;
use cbs_aes::entropy::EntropySource;
use cbs_aes::keygen::generate_bootstrap_key;
use cbs_aes::keygen::generate_automorphism_keys;
use cbs_aes::keygen::generate_scheme_switching_key;
use cbs_aes::aes_he::he_add_round_key;
use cbs_aes::aes_he::he_shift_rows;
use cbs_aes::aes_he::he_mix_columns;
use cbs_aes::aes_he::he_mult_by_two;
use cbs_aes::aes_he::he_sbox_eval_by_patched_wwlp_cbs;

/// Encode 16 bytes as 128 trivial bit ciphertexts at the top-bit scale.
fn trivial_state(bytes: &[u8], dim: usize) -> Vec<LweCiphertext> {
    let mut out = Vec::new();
    for &b in bytes.iter() {
        for t in 0..8 {
            let bit = ((b >> t) & 1) as u64;
            out.push(LweCiphertext { mask: vec![0u64; dim], body: bit << 63 });
        }
    }
    out
}

/// Decode 128 trivial bit ciphertexts back to 16 bytes (exact arithmetic:
/// each body is bit * 2^63).
fn decode_state(state: &[LweCiphertext]) -> Vec<u8> {
    let mut out = Vec::new();
    for chunk in state.chunks(8) {
        let mut b = 0u8;
        for (t, c) in chunk.iter().enumerate() {
            let bit = (c.body.wrapping_add(1 << 62) >> 63) & 1;
            b |= (bit as u8) << t;
        }
        out.push(b);
    }
    out
}

#[test]
fn homomorphic_linear_layers_match_the_reference() {
    let bytes: Vec<u8> = (0..16u8).map(|i| i.wrapping_mul(17).wrapping_add(3)).collect();
    let key: Vec<u8> = (0..16u8).map(|i| i.wrapping_mul(29).wrapping_add(5)).collect();
    let aes = Aes128Ref::new(&key);
    let rks = aes.get_round_keys();

    // Homomorphic path on trivial ciphertexts.
    let mut he_state = trivial_state(&bytes, 4);
    let he_rk = trivial_state(&rks[1], 4);
    he_add_round_key(&mut he_state, &he_rk);
    he_shift_rows(&mut he_state);
    he_mix_columns(&mut he_state);

    // Plaintext path.
    let mut mat = byte_array_to_mat(&bytes);
    aes.add_round_key(&mut mat, 1);
    aes.shift_rows(&mut mat);
    aes.mix_columns(&mut mat);
    let expected = byte_mat_to_array(&mat);

    assert_eq!(decode_state(&he_state), expected);
}

#[test]
fn homomorphic_doubling_matches_the_field_doubling() {
    for &b in [0x00u8, 0x57, 0x80, 0xff].iter() {
        let he_byte = trivial_state(&[b], 4);
        let doubled = he_mult_by_two(&he_byte);
        let expected = cbs_aes::aes_ref::mult_by_two(b);
        assert_eq!(decode_state(&doubled), vec![expected]);
    }
}

#[test]
fn homomorphic_sbox_on_noiseless_bits() {
    // Minimal noiseless parameter set: everything exact, so the decoded
    // output byte must equal the reference substitution.
    let lwe_dim = 4usize;
    let k = 1usize;
    let n = 256usize;
    let pbs_base_log = 15usize;
    let pbs_levels = 2usize;
    let auto_base_log = 12usize;
    let auto_levels = 3usize;
    let ss_base_log = 12usize;
    let ss_levels = 3usize;
    let cbs_base_log = 8usize;
    let cbs_levels = 2usize;
    let log_lut_count = 1usize;

    let small_sk = LweSecretKey { coeffs: vec![1, 0, 0, 1] };
    let glwe_sk = GlweSecretKey { polys: vec![(0..n).map(|i| ((i * 7) as u64) & 1).collect()] };

    let mut entropy = EntropySource::new(vec![
        0u64;
        lwe_dim * ((k + 1) * (pbs_levels * ((k + 1) * n))) + 64 * (k * (auto_levels * ((k + 1)
            * n))) + k * ((k + 1) * (ss_levels * ((k + 1) * n)))
    ]);
    let bsk = generate_bootstrap_key(&small_sk, &glwe_sk, pbs_base_log, pbs_levels, &mut entropy);
    let auto_keys = generate_automorphism_keys(&glwe_sk, auto_base_log, auto_levels, &mut entropy);
    let ss_key = generate_scheme_switching_key(&glwe_sk, ss_base_log, ss_levels, &mut entropy);

    let input_byte = 0x53u8;
    let he_byte = trivial_state(&[input_byte], lwe_dim);
    let out = he_sbox_eval_by_patched_wwlp_cbs(
        &he_byte,
        &bsk,
        &auto_keys,
        &ss_key,
        cbs_base_log,
        cbs_levels,
        log_lut_count,
    );
    assert_eq!(out.len(), 8);

    let flat = LweSecretKey { coeffs: glwe_sk.polys.concat() };
    let sbox = aes128_sbox();
    let expected = sbox[input_byte as usize];
    let mut decoded = 0u8;
    for (t, c) in out.iter().enumerate() {
        let phase = decrypt_lwe_ciphertext(&flat, c);
        let bit = (phase.wrapping_add(1 << 62) >> 63) & 1;
        decoded |= (bit as u8) << t;
    }
    assert_eq!(decoded, expected);
}
