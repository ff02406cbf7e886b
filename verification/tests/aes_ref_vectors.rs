//! Known-answer tests for the plaintext AES-128 reference implementation.
use cbs_aes::aes_ref::Aes128Ref;
use cbs_aes::aes_ref::byte_array_to_mat;
use cbs_aes::aes_ref::byte_mat_to_array;
use cbs_aes::aes_ref::byte_array_to_bit_array;
use cbs_aes::aes_ref::byte_mat_to_bit_array;
use cbs_aes::aes_ref::mult_by_two;

fn hex_block(s: &str) -> Vec<u8> {
    let mut out = Vec::new();
    let b = s.as_bytes();
    let mut i = 0;
    while i + 1 < b.len() {
        let hi = (b[i] as char).to_digit(16).unwrap() as u8;
        let lo = (b[i + 1] as char).to_digit(16).unwrap() as u8;
        out.push((hi << 4) | lo);
        i += 2;
    }
    out
}

#[test]
fn aes128_fips_known_answer() {
    // The canonical FIPS-197 vector.
    let key = hex_block("000102030405060708090a0b0c0d0e0f");
    let plaintext = hex_block("00112233445566778899aabbccddeeff");
    let expected = hex_block("69c4e0d86a7b0430d8cdb78070b4c55a");
    let aes = Aes128Ref::new(&key);
    let ct = aes.encrypt_block(&plaintext);
    assert_eq!(ct, expected);
}

#[test]
fn aes128_round_keys_match_fips_schedule() {
    let key = hex_block("2b7e151628aed2a6abf7158809cf4f3c");
    let aes = Aes128Ref::new(&key);
    let rks = aes.get_round_keys();
    assert_eq!(rks.len(), 11);
    assert_eq!(rks[0], key);
    // Round key 1 of the FIPS-197 appendix A example.
    assert_eq!(rks[1], hex_block("a0fafe1788542cb123a339392a6c7605"));
    // Round key 10.
    assert_eq!(rks[10], hex_block("d014f9a8c9ee2589e13f0cc8b6630ca6"));
}

#[test]
fn mat_and_array_round_trip() {
    let arr: Vec<u8> = (0u8..16).collect();
    let mat = byte_array_to_mat(&arr);
    assert_eq!(mat[0], vec![0, 1, 2, 3]);
    assert_eq!(mat[3], vec![12, 13, 14, 15]);
    let back = byte_mat_to_array(&mat);
    assert_eq!(back, arr);
}

#[test]
fn bit_expansion_is_lsb_first() {
    let mut arr = vec![0u8; 16];
    arr[0] = 0b1010_0110;
    arr[15] = 1;
    let bits = byte_array_to_bit_array(&arr);
    assert_eq!(bits.len(), 128);
    assert_eq!(&bits[0..8], &[0, 1, 1, 0, 0, 1, 0, 1]);
    assert_eq!(bits[120], 1);
    assert_eq!(&bits[121..128], &[0, 0, 0, 0, 0, 0, 0]);
    let mat = byte_array_to_mat(&arr);
    assert_eq!(byte_mat_to_bit_array(&mat), bits);
}

#[test]
fn gf256_doubling_examples() {
    assert_eq!(mult_by_two(0x57), 0xae);
    assert_eq!(mult_by_two(0xae), 0x47);
    assert_eq!(mult_by_two(0x80), 0x1b);
    assert_eq!(mult_by_two(0x00), 0x00);
}
