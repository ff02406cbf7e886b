//! Modulus switching between the native modulus 2^64 and a smaller
//! power-of-two modulus 2^(64-s), in the MSB-aligned representation: a
//! value of the small modulus is stored scaled by 2^s.
//!
//! The preprocessing pass used before the trace-based packing is the
//! composite switch-down / raise-up: coefficient-wise it is exactly the
//! floor division by 2^s, which compensates the factor the trace operator
//! later multiplies back in.
use vstd::prelude::*;
use vstd::arithmetic::power2::*;
use vstd::arithmetic::div_mod::*;
use vstd::arithmetic::mul::lemma_mul_is_commutative;
use crate::arith::pow2_u64;
use crate::arith::log2_exact;
use crate::lwe::LweCiphertext;
use crate::glwe::GlweCiphertext;

verus! {

/// Round down to the nearest multiple of 2^s (the switch to the MSB-aligned
/// small modulus).
pub open spec fn mod_switch_down_coeff(v: u64, s: nat) -> u64
    recommends
        s < 64,
{
    (v - (v as int) % (pow2(s) as int)) as u64
}

/// Divide by 2^s (re-read an MSB-aligned small-modulus value as a native
/// residue).
pub open spec fn mod_raise_coeff(v: u64, s: nat) -> u64
    recommends
        s < 64,
{
    ((v as int) / (pow2(s) as int)) as u64
}

/// The switch-down of a value followed by the raise-up is its floor
/// division by 2^s.
pub proof fn lemma_switch_then_raise(v: u64, s: nat)
    requires
        s < 64,
    ensures
        mod_raise_coeff(mod_switch_down_coeff(v, s), s) == mod_raise_coeff(v, s),
{
    let p = pow2(s) as int;
    lemma_pow2_pos(s);
    lemma_fundamental_div_mod(v as int, p);
    lemma_mod_bound(v as int, p);
    let w = mod_switch_down_coeff(v, s);
    assert(w as int == p * (v as int / p));
    lemma_div_by_multiple(v as int / p, p);
    lemma_mul_is_commutative(p, v as int / p);
}

/// Switch an LWE ciphertext from the native modulus down to the
/// MSB-aligned modulus 2^(64-s): every coefficient is rounded down to a
/// multiple of 2^s.
pub fn lwe_ciphertext_mod_switch_from_native_to_non_native_power_of_two(
    input: &LweCiphertext,
    scaling_log: usize,
) -> (out: LweCiphertext)
    requires
        scaling_log < 64,
    ensures
        out.lwe_dimension() == input.lwe_dimension(),
        forall|i: int|
            0 <= i < input.mask@.len() ==> out.mask@[i] == mod_switch_down_coeff(
                #[trigger] input.mask@[i],
                scaling_log as nat,
            ),
        out.body == mod_switch_down_coeff(input.body, scaling_log as nat),
{
    let p = pow2_u64(scaling_log);
    let n = input.mask.len();
    let mut mask: Vec<u64> = Vec::new();
    let mut i: usize = 0;
    while i < n
        invariant
            input.mask@.len() == n,
            p == pow2(scaling_log as nat),
            p >= 1,
            i <= n,
            mask@.len() == i,
            forall|t: int|
                0 <= t < i ==> mask@[t] == mod_switch_down_coeff(
                    #[trigger] input.mask@[t],
                    scaling_log as nat,
                ),
        decreases n - i,
    {
        let v = input.mask[i];
        proof {
            lemma_mod_decreases(v as nat, p as nat);
        }
        mask.push(v - v % p);
        i = i + 1;
    }
    proof {
        lemma_mod_decreases(input.body as nat, p as nat);
    }
    let body = input.body - input.body % p;
    LweCiphertext { mask, body }
}

/// Raise an LWE ciphertext from the MSB-aligned modulus 2^(64-s) back to
/// the native modulus: every coefficient is divided by 2^s.
pub fn lwe_ciphertext_mod_raise_from_non_native_power_of_two_to_native(
    input: &LweCiphertext,
    scaling_log: usize,
) -> (out: LweCiphertext)
    requires
        scaling_log < 64,
    ensures
        out.lwe_dimension() == input.lwe_dimension(),
        forall|i: int|
            0 <= i < input.mask@.len() ==> out.mask@[i] == mod_raise_coeff(
                #[trigger] input.mask@[i],
                scaling_log as nat,
            ),
        out.body == mod_raise_coeff(input.body, scaling_log as nat),
{
    let p = pow2_u64(scaling_log);
    let n = input.mask.len();
    let mut mask: Vec<u64> = Vec::new();
    let mut i: usize = 0;
    while i < n
        invariant
            input.mask@.len() == n,
            p == pow2(scaling_log as nat),
            p >= 1,
            i <= n,
            mask@.len() == i,
            forall|t: int|
                0 <= t < i ==> mask@[t] == mod_raise_coeff(
                    #[trigger] input.mask@[t],
                    scaling_log as nat,
                ),
        decreases n - i,
    {
        mask.push(input.mask[i] / p);
        i = i + 1;
    }
    LweCiphertext { mask, body: input.body / p }
}

/// Preprocess an LWE ciphertext before the trace-based packing: mod-switch
/// down to the power-of-two modulus near the polynomial size and back up.
/// Coefficient-wise this is the floor division by the polynomial size.
pub fn lwe_preprocessing(input: &LweCiphertext, polynomial_size: usize) -> (out: LweCiphertext)
    requires
        polynomial_size >= 1,
        exists|e: nat| e < 64 && polynomial_size == pow2(e),
    ensures
        out.lwe_dimension() == input.lwe_dimension(),
        forall|i: int|
            0 <= i < input.mask@.len() ==> out.mask@[i] as int == (#[trigger] input.mask@[i]) as int
                / polynomial_size as int,
        out.body as int == input.body as int / polynomial_size as int,
{
    let s = log2_exact(polynomial_size);
    let buf = lwe_ciphertext_mod_switch_from_native_to_non_native_power_of_two(input, s);
    let out = lwe_ciphertext_mod_raise_from_non_native_power_of_two_to_native(&buf, s);
    proof {
        assert forall|i: int| 0 <= i < input.mask@.len() implies out.mask@[i] as int == (
        #[trigger] input.mask@[i]) as int / polynomial_size as int by {
            lemma_switch_then_raise(input.mask@[i], s as nat);
        }
        lemma_switch_then_raise(input.body, s as nat);
    }
    out
}

/// In-place variant of `lwe_preprocessing`.
pub fn lwe_preprocessing_assign(input: &mut LweCiphertext, polynomial_size: usize)
    requires
        polynomial_size >= 1,
        exists|e: nat| e < 64 && polynomial_size == pow2(e),
    ensures
        final(input).lwe_dimension() == old(input).lwe_dimension(),
        forall|i: int|
            0 <= i < old(input).mask@.len() ==> final(input).mask@[i] as int == (#[trigger] old(
            input).mask@[i]) as int / polynomial_size as int,
        final(input).body as int == old(input).body as int / polynomial_size as int,
{
    let out = lwe_preprocessing(input, polynomial_size);
    *input = out;
}

/// Switch a GLWE ciphertext down to the MSB-aligned modulus 2^(64-s).
pub fn glwe_ciphertext_mod_switch_from_native_to_non_native_power_of_two(
    input: &GlweCiphertext,
    scaling_log: usize,
) -> (out: GlweCiphertext)
    requires
        input.wf(),
        scaling_log < 64,
    ensures
        out.wf(),
        out.glwe_dimension() == input.glwe_dimension(),
        out.poly_size() == input.poly_size(),
        forall|r: int, j: int|
            0 <= r < input.mask@.len() && 0 <= j < input.poly_size() ==> out.mask@[r]@[j]
                == mod_switch_down_coeff(#[trigger] input.mask@[r]@[j], scaling_log as nat),
        forall|j: int|
            0 <= j < input.poly_size() ==> out.body@[j] == mod_switch_down_coeff(
                #[trigger] input.body@[j],
                scaling_log as nat,
            ),
{
    let p = pow2_u64(scaling_log);
    let k = input.mask.len();
    let n = input.body.len();
    let mut mask: Vec<Vec<u64>> = Vec::new();
    let mut r: usize = 0;
    while r < k
        invariant
            input.wf(),
            input.mask@.len() == k,
            input.body@.len() == n,
            p == pow2(scaling_log as nat),
            p >= 1,
            r <= k,
            mask@.len() == r,
            forall|t: int| 0 <= t < r ==> (#[trigger] mask@[t])@.len() == n,
            forall|t: int, j: int|
                0 <= t < r && 0 <= j < n ==> mask@[t]@[j] == mod_switch_down_coeff(
                    #[trigger] input.mask@[t]@[j],
                    scaling_log as nat,
                ),
        decreases k - r,
    {
        let src = &input.mask[r];
        let mut dst: Vec<u64> = Vec::new();
        let mut j: usize = 0;
        while j < n
            invariant
                src@.len() == n,
                p == pow2(scaling_log as nat),
                p >= 1,
                j <= n,
                dst@.len() == j,
                forall|t: int|
                    0 <= t < j ==> dst@[t] == mod_switch_down_coeff(
                        #[trigger] src@[t],
                        scaling_log as nat,
                    ),
            decreases n - j,
        {
            let v = src[j];
            proof {
                lemma_mod_decreases(v as nat, p as nat);
            }
            dst.push(v - v % p);
            j = j + 1;
        }
        mask.push(dst);
        r = r + 1;
    }
    let mut body: Vec<u64> = Vec::new();
    let mut j: usize = 0;
    while j < n
        invariant
            input.body@.len() == n,
            p == pow2(scaling_log as nat),
            p >= 1,
            j <= n,
            body@.len() == j,
            forall|t: int|
                0 <= t < j ==> body@[t] == mod_switch_down_coeff(
                    #[trigger] input.body@[t],
                    scaling_log as nat,
                ),
        decreases n - j,
    {
        let v = input.body[j];
        proof {
            lemma_mod_decreases(v as nat, p as nat);
        }
        body.push(v - v % p);
        j = j + 1;
    }
    GlweCiphertext { mask, body }
}

/// Raise a GLWE ciphertext from the MSB-aligned modulus 2^(64-s) back to
/// the native modulus.
pub fn glwe_ciphertext_mod_raise_from_non_native_power_of_two_to_native(
    input: &GlweCiphertext,
    scaling_log: usize,
) -> (out: GlweCiphertext)
    requires
        input.wf(),
        scaling_log < 64,
    ensures
        out.wf(),
        out.glwe_dimension() == input.glwe_dimension(),
        out.poly_size() == input.poly_size(),
        forall|r: int, j: int|
            0 <= r < input.mask@.len() && 0 <= j < input.poly_size() ==> out.mask@[r]@[j]
                == mod_raise_coeff(#[trigger] input.mask@[r]@[j], scaling_log as nat),
        forall|j: int|
            0 <= j < input.poly_size() ==> out.body@[j] == mod_raise_coeff(
                #[trigger] input.body@[j],
                scaling_log as nat,
            ),
{
    let p = pow2_u64(scaling_log);
    let k = input.mask.len();
    let n = input.body.len();
    let mut mask: Vec<Vec<u64>> = Vec::new();
    let mut r: usize = 0;
    while r < k
        invariant
            input.wf(),
            input.mask@.len() == k,
            input.body@.len() == n,
            p == pow2(scaling_log as nat),
            p >= 1,
            r <= k,
            mask@.len() == r,
            forall|t: int| 0 <= t < r ==> (#[trigger] mask@[t])@.len() == n,
            forall|t: int, j: int|
                0 <= t < r && 0 <= j < n ==> mask@[t]@[j] == mod_raise_coeff(
                    #[trigger] input.mask@[t]@[j],
                    scaling_log as nat,
                ),
        decreases k - r,
    {
        let src = &input.mask[r];
        let mut dst: Vec<u64> = Vec::new();
        let mut j: usize = 0;
        while j < n
            invariant
                src@.len() == n,
                p == pow2(scaling_log as nat),
                p >= 1,
                j <= n,
                dst@.len() == j,
                forall|t: int|
                    0 <= t < j ==> dst@[t] == mod_raise_coeff(
                        #[trigger] src@[t],
                        scaling_log as nat,
                    ),
            decreases n - j,
        {
            dst.push(src[j] / p);
            j = j + 1;
        }
        mask.push(dst);
        r = r + 1;
    }
    let mut body: Vec<u64> = Vec::new();
    let mut j: usize = 0;
    while j < n
        invariant
            input.body@.len() == n,
            p == pow2(scaling_log as nat),
            p >= 1,
            j <= n,
            body@.len() == j,
            forall|t: int|
                0 <= t < j ==> body@[t] == mod_raise_coeff(
                    #[trigger] input.body@[t],
                    scaling_log as nat,
                ),
        decreases n - j,
    {
        body.push(input.body[j] / p);
        j = j + 1;
    }
    GlweCiphertext { mask, body }
}

/// Preprocess a GLWE ciphertext before the trace: coefficient-wise floor
/// division by the polynomial size.
pub fn glwe_preprocessing(input: &GlweCiphertext) -> (out: GlweCiphertext)
    requires
        input.wf(),
        exists|e: nat| e < 64 && input.poly_size() == pow2(e),
    ensures
        out.wf(),
        out.glwe_dimension() == input.glwe_dimension(),
        out.poly_size() == input.poly_size(),
        forall|r: int, j: int|
            0 <= r < input.mask@.len() && 0 <= j < input.poly_size() ==> out.mask@[r]@[j] as int == (
            #[trigger] input.mask@[r]@[j]) as int / input.poly_size() as int,
        forall|j: int|
            0 <= j < input.poly_size() ==> out.body@[j] as int == (#[trigger] input.body@[j]) as int
                / input.poly_size() as int,
{
    let s = log2_exact(input.body.len());
    let buf = glwe_ciphertext_mod_switch_from_native_to_non_native_power_of_two(input, s);
    let out = glwe_ciphertext_mod_raise_from_non_native_power_of_two_to_native(&buf, s);
    proof {
        assert forall|r: int, j: int|
            0 <= r < input.mask@.len() && 0 <= j < input.poly_size() implies out.mask@[r]@[j] as int
            == (#[trigger] input.mask@[r]@[j]) as int / input.poly_size() as int by {
            lemma_switch_then_raise(input.mask@[r]@[j], s as nat);
        }
        assert forall|j: int| 0 <= j < input.poly_size() implies out.body@[j] as int == (
        #[trigger] input.body@[j]) as int / input.poly_size() as int by {
            lemma_switch_then_raise(input.body@[j], s as nat);
        }
    }
    out
}

/// In-place variant of `glwe_preprocessing`.
pub fn glwe_preprocessing_assign(input: &mut GlweCiphertext)
    requires
        old(input).wf(),
        exists|e: nat| e < 64 && old(input).poly_size() == pow2(e),
    ensures
        final(input).wf(),
        final(input).glwe_dimension() == old(input).glwe_dimension(),
        final(input).poly_size() == old(input).poly_size(),
        forall|r: int, j: int|
            0 <= r < old(input).mask@.len() && 0 <= j < old(input).poly_size()
                ==> final(input).mask@[r]@[j] as int == (#[trigger] old(input).mask@[r]@[j]) as int
                / old(input).poly_size() as int,
        forall|j: int|
            0 <= j < old(input).poly_size() ==> final(input).body@[j] as int == (#[trigger] old(
            input).body@[j]) as int / old(input).poly_size() as int,
{
    let out = glwe_preprocessing(input);
    *input = out;
}

} // verus!
