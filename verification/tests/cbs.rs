//! Tests of the circuit-bootstrapping core: scheme switching against the
//! relation key, the multi-value bootstrap ladder, and the refresh
//! bootstrap, with noiseless key material where the arithmetic is exact.
use cbs_aes::glwe::GlweCiphertext;
use cbs_aes::glwe::GlweSecretKey;
use cbs_aes::glwe::decrypt_glwe_ciphertext;
use cbs_aes::lwe::LweCiphertext;
use cbs_aes::lwe::LweSecretKey;
use cbs_aes::lwe::decrypt_lwe_ciphertext;
use cbs_aes::entropy::EntropySource;
use cbs_aes::keygen::generate_scheme_switching_key;
use cbs_aes::keygen::generate_bootstrap_key;
use cbs_aes::ggsw_conv::switch_scheme;
use cbs_aes::pbs::lwe_msb_bit_to_lev;
use cbs_aes::pbs::lwe_msb_bit_refresh;
use cbs_aes::utils::get_max_err_ggsw_bit;

fn zero_entropy(words: usize) -> EntropySource {
    EntropySource::new(vec![0u64; words])
}

/// A noiseless GLev of a bit: trivial ciphertexts with the bit at every
/// ladder scale.
fn trivial_glev(bit: u64, k: usize, n: usize, base_log: usize, levels: usize) -> Vec<
    GlweCiphertext,
> {
    (0..levels)
        .map(|j| {
            let mut pt = vec![0u64; n];
            pt[0] = bit << (64 - (j + 1) * base_log);
            GlweCiphertext::new_trivial(k, pt)
        })
        .collect()
}

#[test]
fn scheme_switch_relation_on_noiseless_ladder() {
    let k = 1usize;
    let n = 16usize;
    let ss_base_log = 8usize;
    let ss_levels = 6usize;
    let cbs_base_log = 8usize;
    let cbs_levels = 2usize;
    let sk = GlweSecretKey { polys: vec![(0..n).map(|i| (i as u64) & 1).collect()] };
    let mut entropy = zero_entropy(k * ((k + 1) * (ss_levels * ((k + 1) * n))));
    let ss_key = generate_scheme_switching_key(&sk, ss_base_log, ss_levels, &mut entropy);

    for bit in 0..2u64 {
        let glev = trivial_glev(bit, k, n, cbs_base_log, cbs_levels);
        let ggsw = switch_scheme(&glev, &ss_key, cbs_base_log, cbs_levels);
        // Body rows are the ladder entries verbatim.
        for j in 0..cbs_levels {
            assert_eq!(ggsw.cols[k][j].body, glev[j].body);
            assert_eq!(ggsw.cols[k][j].mask, glev[j].mask);
        }
        // Mask rows decrypt to -s * bit * scale: with noiseless keys and
        // exact ladder scales the relation is exact.
        for j in 0..cbs_levels {
            let phase = decrypt_glwe_ciphertext(&sk, &ggsw.cols[0][j]);
            let scale_log = 64 - (j + 1) * cbs_base_log;
            for i in 0..n {
                let expected = (sk.polys[0][i] * bit)
                    .wrapping_neg()
                    .wrapping_mul(1u64 << scale_log);
                assert_eq!(phase[i], expected, "mask row level {} coeff {}", j, i);
            }
        }
        // The instrumented bound agrees.
        let err = get_max_err_ggsw_bit(&sk, &ggsw, bit);
        assert_eq!(err, 0);
    }
}

#[test]
fn multi_value_ladder_matches_single_value_rotations() {
    // The chunked two-lane extraction must agree, entry for entry, with
    // single-lane extractions of the same levels when the inputs are
    // noiseless (so the discarded lane bits of the modulus switch are
    // zero).
    let lwe_dim = 4usize;
    let k = 1usize;
    let n = 16usize;
    let pbs_base_log = 15usize;
    let pbs_levels = 2usize;
    let lev_base_log = 8usize;
    let lev_levels = 2usize;
    let small_sk = LweSecretKey { coeffs: vec![1, 0, 1, 0] };
    let glwe_sk = GlweSecretKey { polys: vec![(0..n).map(|i| ((i / 2) as u64) & 1).collect()] };
    let mut entropy = zero_entropy(lwe_dim * ((k + 1) * (pbs_levels * ((k + 1) * n))));
    let bsk = generate_bootstrap_key(&small_sk, &glwe_sk, pbs_base_log, pbs_levels, &mut entropy);

    for bit in 0..2u64 {
        let input = LweCiphertext { mask: vec![0u64; lwe_dim], body: bit << 63 };
        let chunked = lwe_msb_bit_to_lev(&input, &bsk, lev_base_log, lev_levels, 1);
        let single = lwe_msb_bit_to_lev(&input, &bsk, lev_base_log, lev_levels, 0);
        assert_eq!(chunked.len(), single.len());
        for (c, s) in chunked.iter().zip(single.iter()) {
            assert_eq!(c.mask, s.mask);
            assert_eq!(c.body, s.body);
        }
        // The ladder actually encodes the bit at each level scale.
        let flat = LweSecretKey { coeffs: glwe_sk.polys.concat() };
        for (j, entry) in chunked.iter().enumerate() {
            let phase = decrypt_lwe_ciphertext(&flat, entry);
            let expected = bit << (64 - (j + 1) * lev_base_log);
            assert_eq!(phase, expected, "level {}", j);
        }
    }
}

#[test]
fn multi_value_ladder_handles_a_partial_last_chunk() {
    // Three levels with two lanes per rotation: the second rotation's
    // chunk holds a single level, and every entry still decodes the bit
    // at its own level scale.
    let lwe_dim = 4usize;
    let k = 1usize;
    let n = 16usize;
    let pbs_base_log = 15usize;
    let pbs_levels = 2usize;
    let lev_base_log = 8usize;
    let lev_levels = 3usize;
    let small_sk = LweSecretKey { coeffs: vec![1, 0, 1, 0] };
    let glwe_sk = GlweSecretKey { polys: vec![(0..n).map(|i| ((i / 2) as u64) & 1).collect()] };
    let mut entropy = zero_entropy(lwe_dim * ((k + 1) * (pbs_levels * ((k + 1) * n))));
    let bsk = generate_bootstrap_key(&small_sk, &glwe_sk, pbs_base_log, pbs_levels, &mut entropy);

    for bit in 0..2u64 {
        let input = LweCiphertext { mask: vec![0u64; lwe_dim], body: bit << 63 };
        let chunked = lwe_msb_bit_to_lev(&input, &bsk, lev_base_log, lev_levels, 1);
        let single = lwe_msb_bit_to_lev(&input, &bsk, lev_base_log, lev_levels, 0);
        assert_eq!(chunked.len(), lev_levels);
        assert_eq!(single.len(), lev_levels);
        for (c, s) in chunked.iter().zip(single.iter()) {
            assert_eq!(c.mask, s.mask);
            assert_eq!(c.body, s.body);
        }
        let flat = LweSecretKey { coeffs: glwe_sk.polys.concat() };
        for (j, entry) in chunked.iter().enumerate() {
            let phase = decrypt_lwe_ciphertext(&flat, entry);
            let expected = bit << (64 - (j + 1) * lev_base_log);
            assert_eq!(phase, expected, "level {}", j);
        }
    }
}

#[test]
fn refresh_re_encrypts_the_bit_at_the_top_scale() {
    let lwe_dim = 4usize;
    let k = 1usize;
    let n = 16usize;
    let small_sk = LweSecretKey { coeffs: vec![0, 1, 1, 0] };
    let glwe_sk = GlweSecretKey { polys: vec![(0..n).map(|i| (i as u64) & 1).collect()] };
    let mut entropy = zero_entropy(lwe_dim * ((k + 1) * (2 * ((k + 1) * n))));
    let bsk = generate_bootstrap_key(&small_sk, &glwe_sk, 15, 2, &mut entropy);
    let flat = LweSecretKey { coeffs: glwe_sk.polys.concat() };
    for bit in 0..2u64 {
        let input = LweCiphertext { mask: vec![0u64; lwe_dim], body: bit << 63 };
        let out = lwe_msb_bit_refresh(&input, &bsk);
        let phase = decrypt_lwe_ciphertext(&flat, &out);
        assert_eq!(phase, bit << 63);
    }
}
