//! Circuit bootstrapping for a torus-based fully homomorphic encryption
//! scheme, with a homomorphic AES-128 evaluation built on top of it.
//!
//! Ciphertext coefficients live in the discretized torus, represented as
//! `u64` values with wrapping (mod 2^64) arithmetic throughout.
use vstd::prelude::*;

pub mod arith;
pub mod poly;
pub mod polymul;
pub mod lwe;
pub mod glwe;
pub mod decomp;
pub mod mod_switch;
pub mod gadget;
pub mod entropy;
pub mod automorphism;
pub mod ggsw;
pub mod pbs;
pub mod glwe_keyswitch;
pub mod glwe_conv;
pub mod ggsw_conv;
pub mod sbox;
pub mod aes_ref;
pub mod aes_he;
pub mod random;
pub mod keygen;
pub mod lwe_keyswitch;
pub mod utils;

verus! {

/// The ciphertext modulus 2^64 as a spec-level integer.
pub open spec fn torus_modulus() -> int {
    0x1_0000_0000_0000_0000
}

/// Reduce a mathematical integer into the torus representative range [0, 2^64).
pub open spec fn wrap(x: int) -> u64 {
    (x % torus_modulus()) as u64
}

} // verus!
