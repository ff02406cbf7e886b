//! LWE ciphertexts over the discretized torus: a mask vector of length n and
//! a body scalar, decrypting under a binary secret key via
//! phase = body - <mask, key> (all arithmetic wrapping mod 2^64).
use vstd::prelude::*;
use crate::wrap;
use crate::arith::lemma_wrapping_add;
use crate::arith::lemma_wrapping_sub;
use crate::arith::lemma_wrapping_mul;
use crate::arith::lemma_wrap_id;
use crate::arith::lemma_wrap_add_absorb;
use crate::arith::lemma_wrap_sub_absorb;

verus! {

/// An LWE ciphertext: n mask coefficients and one body coefficient.
#[derive(Clone)]
pub struct LweCiphertext {
    pub mask: Vec<u64>,
    pub body: u64,
}

/// An LWE secret key, one (normally binary) coefficient per mask entry.
#[derive(Clone)]
pub struct LweSecretKey {
    pub coeffs: Vec<u64>,
}

impl LweSecretKey {
    /// All key coefficients are bits.
    pub open spec fn is_binary(&self) -> bool {
        forall|i: int| 0 <= i < self.coeffs@.len() ==> self.coeffs@[i] == 0 || self.coeffs@[i] == 1
    }
}

impl LweCiphertext {
    pub open spec fn lwe_dimension(&self) -> nat {
        self.mask@.len()
    }

    /// A trivial (noiseless, keyless) ciphertext: the mask is zero, so the
    /// phase under any key is the body itself.
    pub open spec fn is_trivial(&self) -> bool {
        forall|i: int| 0 <= i < self.mask@.len() ==> self.mask@[i] == 0
    }

    /// The all-zero ciphertext of dimension n.
    pub fn new_zero(n: usize) -> (r: LweCiphertext)
        ensures
            r.lwe_dimension() == n,
            r.is_trivial(),
            r.body == 0,
    {
        let mut mask: Vec<u64> = Vec::new();
        mask.resize(n, 0u64);
        LweCiphertext { mask, body: 0 }
    }

    /// The trivial encryption of a scalar.
    pub fn new_trivial(n: usize, value: u64) -> (r: LweCiphertext)
        ensures
            r.lwe_dimension() == n,
            r.is_trivial(),
            r.body == value,
    {
        let mut mask: Vec<u64> = Vec::new();
        mask.resize(n, 0u64);
        LweCiphertext { mask, body: value }
    }
}

/// Partial inner product sum_{i<k} mask[i] * key[i], as an exact integer.
pub open spec fn lwe_dot_prefix(mask: Seq<u64>, key: Seq<u64>, k: nat) -> int
    decreases k,
{
    if k == 0 {
        0
    } else {
        lwe_dot_prefix(mask, key, (k - 1) as nat) + (mask[k - 1] as int) * (key[k - 1] as int)
    }
}

/// The phase (decryption before decoding) of an LWE ciphertext:
/// body - <mask, key>, wrapped into the torus.
pub open spec fn lwe_phase(key: Seq<u64>, c: LweCiphertext) -> u64 {
    wrap(c.body - lwe_dot_prefix(c.mask@, key, c.mask@.len()))
}

/// A trivial ciphertext's phase is its body, under any key.
pub proof fn lemma_trivial_lwe_phase(key: Seq<u64>, c: LweCiphertext)
    requires
        c.is_trivial(),
    ensures
        lwe_phase(key, c) == c.body,
{
    lemma_lwe_dot_prefix_trivial(c.mask@, key, c.mask@.len());
    lemma_wrap_id(c.body);
}

proof fn lemma_lwe_dot_prefix_trivial(mask: Seq<u64>, key: Seq<u64>, k: nat)
    requires
        forall|i: int| 0 <= i < mask.len() ==> mask[i] == 0,
        k <= mask.len(),
    ensures
        lwe_dot_prefix(mask, key, k) == 0,
    decreases k,
{
    if k > 0 {
        lemma_lwe_dot_prefix_trivial(mask, key, (k - 1) as nat);
    }
}

/// In-place wrapping addition of two LWE ciphertexts.
pub fn lwe_ciphertext_add_assign(lhs: &mut LweCiphertext, rhs: &LweCiphertext)
    requires
        old(lhs).lwe_dimension() == rhs.lwe_dimension(),
    ensures
        final(lhs).lwe_dimension() == rhs.lwe_dimension(),
        final(lhs).mask@ == crate::poly::padd(old(lhs).mask@, rhs.mask@),
        final(lhs).body == wrap(old(lhs).body + rhs.body),
{
    let n = lhs.mask.len();
    let mut i: usize = 0;
    while i < n
        invariant
            lhs.mask@.len() == n,
            rhs.mask@.len() == n,
            i <= n,
            forall|t: int| 0 <= t < i ==> lhs.mask@[t] == wrap(old(lhs).mask@[t] + rhs.mask@[t]),
            forall|t: int| i <= t < n ==> lhs.mask@[t] == old(lhs).mask@[t],
            lhs.body == old(lhs).body,
        decreases n - i,
    {
        proof {
            lemma_wrapping_add(lhs.mask@[i as int], rhs.mask@[i as int]);
        }
        let v = lhs.mask[i].wrapping_add(rhs.mask[i]);
        lhs.mask[i] = v;
        i = i + 1;
    }
    proof {
        lemma_wrapping_add(lhs.body, rhs.body);
        assert(lhs.mask@ =~= crate::poly::padd(old(lhs).mask@, rhs.mask@));
    }
    lhs.body = lhs.body.wrapping_add(rhs.body);
}

/// In-place wrapping addition of a plaintext scalar onto the body.
pub fn lwe_ciphertext_plaintext_add_assign(lhs: &mut LweCiphertext, plaintext: u64)
    ensures
        final(lhs).mask == old(lhs).mask,
        final(lhs).body == wrap(old(lhs).body + plaintext),
{
    proof {
        lemma_wrapping_add(lhs.body, plaintext);
    }
    lhs.body = lhs.body.wrapping_add(plaintext);
}

/// Decrypt: compute the phase body - <mask, key> exactly.
pub fn decrypt_lwe_ciphertext(key: &LweSecretKey, c: &LweCiphertext) -> (r: u64)
    requires
        key.coeffs@.len() == c.lwe_dimension(),
    ensures
        r == lwe_phase(key.coeffs@, *c),
{
    let n = c.mask.len();
    let mut dot: u64 = 0;
    let mut i: usize = 0;
    proof {
        lemma_wrap_id(0);
    }
    while i < n
        invariant
            c.mask@.len() == n,
            key.coeffs@.len() == n,
            i <= n,
            dot == wrap(lwe_dot_prefix(c.mask@, key.coeffs@, i as nat)),
        decreases n - i,
    {
        let ghost p = lwe_dot_prefix(c.mask@, key.coeffs@, i as nat);
        let m = c.mask[i].wrapping_mul(key.coeffs[i]);
        proof {
            lemma_wrapping_mul(c.mask@[i as int], key.coeffs@[i as int]);
            lemma_wrapping_add(dot, m);
            lemma_wrap_add_absorb(p, m as int);
            lemma_wrap_add_absorb((c.mask@[i as int] as int) * (key.coeffs@[i as int] as int), p);
        }
        dot = dot.wrapping_add(m);
        i = i + 1;
    }
    proof {
        lemma_wrapping_sub(c.body, dot);
        lemma_wrap_sub_absorb(c.body as int, lwe_dot_prefix(c.mask@, key.coeffs@, n as nat));
    }
    c.body.wrapping_sub(dot)
}

/// Encrypt a scalar under an explicit mask and an explicit noise sample:
/// body = <mask, key> + plaintext + noise. The phase of the result is
/// exactly plaintext + noise.
pub fn encrypt_lwe_ciphertext_with(
    key: &LweSecretKey,
    plaintext: u64,
    mask: Vec<u64>,
    noise: u64,
) -> (r: LweCiphertext)
    requires
        key.coeffs@.len() == mask@.len(),
    ensures
        r.mask == mask,
        r.lwe_dimension() == mask@.len(),
        lwe_phase(key.coeffs@, r) == wrap(plaintext + noise),
{
    let n = mask.len();
    let mut dot: u64 = 0;
    let mut i: usize = 0;
    proof {
        lemma_wrap_id(0);
    }
    while i < n
        invariant
            mask@.len() == n,
            key.coeffs@.len() == n,
            i <= n,
            dot == wrap(lwe_dot_prefix(mask@, key.coeffs@, i as nat)),
        decreases n - i,
    {
        let ghost p = lwe_dot_prefix(mask@, key.coeffs@, i as nat);
        let m = mask[i].wrapping_mul(key.coeffs[i]);
        proof {
            lemma_wrapping_mul(mask@[i as int], key.coeffs@[i as int]);
            lemma_wrapping_add(dot, m);
            lemma_wrap_add_absorb(p, m as int);
            lemma_wrap_add_absorb((mask@[i as int] as int) * (key.coeffs@[i as int] as int), p);
        }
        dot = dot.wrapping_add(m);
        i = i + 1;
    }
    let body = dot.wrapping_add(plaintext).wrapping_add(noise);
    proof {
        let d = lwe_dot_prefix(mask@, key.coeffs@, n as nat);
        lemma_wrapping_add(dot, plaintext);
        lemma_wrap_add_absorb(d, plaintext as int);
        lemma_wrapping_add(wrap(d + plaintext), noise);
        lemma_wrap_add_absorb(d + plaintext, noise as int);
        // body == wrap(d + plaintext + noise); the phase removes d again.
        lemma_wrap_sub_absorb((plaintext + noise) as int, d);
        assert(wrap(d + plaintext + noise - d) == wrap(plaintext + noise)) by {
            lemma_wrap_add_absorb(d + plaintext + noise, -d);
            lemma_wrap_add_absorb(plaintext + noise, 0);
        }
        lemma_wrap_sub_absorb((d + plaintext + noise) as int, d);
    }
    let r = LweCiphertext { mask, body };
    proof {
        assert(lwe_phase(key.coeffs@, r) == wrap(body - lwe_dot_prefix(mask@, key.coeffs@, n as nat)));
        lemma_wrap_add_absorb(
            lwe_dot_prefix(mask@, key.coeffs@, n as nat) + plaintext + noise,
            -lwe_dot_prefix(mask@, key.coeffs@, n as nat),
        );
    }
    r
}

} // verus!
