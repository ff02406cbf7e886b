//! GLWE ciphertexts: k mask polynomials and one body polynomial over
//! Z[X]/(X^N + 1), decrypting under a polynomial secret key via
//! phase = body - sum_r mask_r * key_r (negacyclic, wrapping mod 2^64).
use vstd::prelude::*;
use crate::wrap;
use crate::arith::lemma_wrap_id;
use crate::arith::lemma_wrap_add_absorb;
use crate::arith::lemma_wrap_sub_absorb;
use crate::arith::lemma_wrapping_add;
use crate::poly::padd;
use crate::poly::psub;
use crate::poly::monomial_mul;
use crate::poly::monomial_div;
use crate::poly::is_zero_poly;
use crate::poly::polynomial_wrapping_add_assign;
use crate::poly::polynomial_wrapping_sub_assign;
use crate::poly::polynomial_wrapping_monic_monomial_mul_assign;
use crate::poly::polynomial_wrapping_monic_monomial_div_assign;
use crate::poly::torus_neg;
use crate::polymul::poly_mul_coeff;
use crate::polymul::polynomial_wrapping_add_mul_assign;
use crate::polymul::polynomial_wrapping_sub_mul_assign;

verus! {

/// A GLWE ciphertext: glwe_dimension mask polynomials plus a body polynomial,
/// all of the same power-of-two size.
#[derive(Clone)]
pub struct GlweCiphertext {
    pub mask: Vec<Vec<u64>>,
    pub body: Vec<u64>,
}

/// A GLWE secret key: glwe_dimension polynomials (normally with binary
/// coefficients).
#[derive(Clone)]
pub struct GlweSecretKey {
    pub polys: Vec<Vec<u64>>,
}

impl GlweSecretKey {
    pub open spec fn glwe_dimension(&self) -> nat {
        self.polys@.len()
    }

    pub open spec fn poly_size(&self) -> nat {
        if self.polys@.len() == 0 {
            0
        } else {
            self.polys@[0]@.len()
        }
    }

    pub open spec fn wf(&self) -> bool {
        &&& self.polys@.len() >= 1
        &&& forall|r: int|
            0 <= r < self.polys@.len() ==> (#[trigger] self.polys@[r])@.len() == self.poly_size()
        &&& 1 <= self.poly_size() <= 0x1000_0000
    }

    /// All key coefficients are bits.
    pub open spec fn is_binary(&self) -> bool {
        forall|r: int, i: int|
            0 <= r < self.polys@.len() && 0 <= i < self.polys@[r]@.len() ==> ((
            #[trigger] self.polys@[r]@[i]) == 0 || self.polys@[r]@[i] == 1)
    }
}

impl GlweCiphertext {
    pub open spec fn glwe_dimension(&self) -> nat {
        self.mask@.len()
    }

    pub open spec fn poly_size(&self) -> nat {
        self.body@.len()
    }

    pub open spec fn wf(&self) -> bool {
        &&& 1 <= self.poly_size() <= 0x1000_0000
        &&& forall|r: int|
            0 <= r < self.mask@.len() ==> (#[trigger] self.mask@[r])@.len() == self.poly_size()
    }

    /// A trivial (noiseless, keyless) ciphertext: every mask polynomial is
    /// zero, so the phase under any key is the body itself.
    pub open spec fn is_trivial(&self) -> bool {
        forall|r: int| 0 <= r < self.mask@.len() ==> is_zero_poly((#[trigger] self.mask@[r])@)
    }

    /// The all-zero ciphertext with the given dimensions.
    pub fn new_zero(glwe_dimension: usize, poly_size: usize) -> (r: GlweCiphertext)
        requires
            1 <= poly_size <= 0x1000_0000,
        ensures
            r.wf(),
            r.glwe_dimension() == glwe_dimension,
            r.poly_size() == poly_size,
            r.is_trivial(),
            is_zero_poly(r.body@),
    {
        let mut mask: Vec<Vec<u64>> = Vec::new();
        let mut r: usize = 0;
        while r < glwe_dimension
            invariant
                mask@.len() == r,
                r <= glwe_dimension,
                forall|t: int|
                    0 <= t < r ==> (#[trigger] mask@[t])@ =~= Seq::<u64>::new(
                        poly_size as nat,
                        |j: int| 0u64,
                    ),
            decreases glwe_dimension - r,
        {
            let mut p: Vec<u64> = Vec::new();
            p.resize(poly_size, 0u64);
            assert(p@ =~= Seq::<u64>::new(poly_size as nat, |j: int| 0u64));
            mask.push(p);
            r = r + 1;
        }
        let mut body: Vec<u64> = Vec::new();
        body.resize(poly_size, 0u64);
        let c = GlweCiphertext { mask, body };
        assert forall|t: int| 0 <= t < c.mask@.len() implies (#[trigger] c.mask@[t])@.len()
            == c.poly_size() && is_zero_poly(c.mask@[t]@) by {
            assert(c.mask@[t]@ =~= Seq::<u64>::new(poly_size as nat, |j: int| 0u64));
        }
        c
    }

    /// The trivial encryption of a plaintext polynomial: zero mask, the
    /// plaintext as body.
    pub fn new_trivial(glwe_dimension: usize, plaintext: Vec<u64>) -> (r: GlweCiphertext)
        requires
            1 <= plaintext@.len() <= 0x1000_0000,
        ensures
            r.wf(),
            r.glwe_dimension() == glwe_dimension,
            r.is_trivial(),
            r.body == plaintext,
    {
        let n = plaintext.len();
        let mut c = GlweCiphertext::new_zero(glwe_dimension, n);
        c.body = plaintext;
        c
    }
}

/// Partial sum over the first r mask/key rows of the product coefficient j.
pub open spec fn mask_dot_prefix(mask: Seq<Seq<u64>>, key: Seq<Seq<u64>>, j: int, r: nat) -> int
    decreases r,
{
    if r == 0 {
        0
    } else {
        mask_dot_prefix(mask, key, j, (r - 1) as nat) + poly_mul_coeff(
            mask[r - 1],
            key[r - 1],
            j,
        )
    }
}

/// Coefficient j of the phase of a GLWE ciphertext under a key:
/// body_j - sum_r (mask_r * key_r)_j, wrapped into the torus.
pub open spec fn glwe_phase_coeff(key: Seq<Seq<u64>>, c: GlweCiphertext, j: int) -> u64 {
    wrap(c.body@[j] - mask_dot_prefix(c.mask@.map_values(|p: Vec<u64>| p@), key, j, c.mask@.len()))
}

/// The full phase polynomial of a GLWE ciphertext under a key.
pub open spec fn glwe_phase(key: Seq<Seq<u64>>, c: GlweCiphertext) -> Seq<u64> {
    Seq::new(c.body@.len(), |j: int| glwe_phase_coeff(key, c, j))
}

/// The mask of the LWE sample extracted at coefficient nth of a GLWE
/// ciphertext with the given mask polynomials.
pub open spec fn extract_mask_at(mask: Seq<Seq<u64>>, n: nat, nth: int) -> Seq<u64> {
    Seq::new(
        mask.len() * n,
        |idx: int|
            {
                let r = idx / (n as int);
                let i = idx % (n as int);
                if i <= nth {
                    mask[r][nth - i]
                } else {
                    wrap(-(mask[r][n + nth - i] as int))
                }
            },
    )
}

/// The polynomials of a GLWE secret key, as a sequence of sequences.
pub open spec fn glwe_key_view(sk: GlweSecretKey) -> Seq<Seq<u64>> {
    sk.polys@.map_values(|p: Vec<u64>| p@)
}

proof fn lemma_mask_dot_prefix_trivial(mask: Seq<Seq<u64>>, key: Seq<Seq<u64>>, j: int, r: nat)
    requires
        forall|t: int| 0 <= t < mask.len() ==> is_zero_poly(#[trigger] mask[t]),
        r <= mask.len(),
    ensures
        mask_dot_prefix(mask, key, j, r) == 0,
    decreases r,
{
    if r > 0 {
        lemma_mask_dot_prefix_trivial(mask, key, j, (r - 1) as nat);
        crate::polymul::lemma_poly_mul_coeff_zero_left(mask[r - 1], key[r - 1], j);
    }
}

/// A trivial ciphertext's phase is its body, under any key.
pub proof fn lemma_trivial_glwe_phase(key: Seq<Seq<u64>>, c: GlweCiphertext)
    requires
        c.is_trivial(),
    ensures
        glwe_phase(key, c) =~= c.body@,
{
    assert forall|j: int| 0 <= j < c.body@.len() implies glwe_phase(key, c)[j] == c.body@[j] by {
        let m = c.mask@.map_values(|p: Vec<u64>| p@);
        assert forall|t: int| 0 <= t < m.len() implies is_zero_poly(#[trigger] m[t]) by {
            assert(m[t] == c.mask@[t]@);
        }
        lemma_mask_dot_prefix_trivial(m, key, j, m.len());
        lemma_wrap_id(c.body@[j]);
    }
}

/// In-place wrapping addition of two GLWE ciphertexts.
pub fn glwe_ciphertext_add_assign(lhs: &mut GlweCiphertext, rhs: &GlweCiphertext)
    requires
        old(lhs).wf(),
        rhs.wf(),
        old(lhs).glwe_dimension() == rhs.glwe_dimension(),
        old(lhs).poly_size() == rhs.poly_size(),
    ensures
        final(lhs).wf(),
        final(lhs).glwe_dimension() == rhs.glwe_dimension(),
        final(lhs).poly_size() == rhs.poly_size(),
        forall|r: int|
            0 <= r < rhs.mask@.len() ==> (#[trigger] final(lhs).mask@[r])@ == padd(
                old(lhs).mask@[r]@,
                rhs.mask@[r]@,
            ),
        final(lhs).body@ == padd(old(lhs).body@, rhs.body@),
{
    let k = lhs.mask.len();
    let mut r: usize = 0;
    while r < k
        invariant
            lhs.mask@.len() == k,
            rhs.mask@.len() == k,
            old(lhs).mask@.len() == k,
            rhs.wf(),
            lhs.body == old(lhs).body,
            old(lhs).wf(),
            old(lhs).poly_size() == rhs.poly_size(),
            r <= k,
            forall|t: int|
                0 <= t < r ==> (#[trigger] lhs.mask@[t])@ == padd(old(lhs).mask@[t]@, rhs.mask@[t]@),
            forall|t: int| r <= t < k ==> lhs.mask@[t] == old(lhs).mask@[t],
        decreases k - r,
    {
        assert(lhs.mask@[r as int] == old(lhs).mask@[r as int]);
        assert((old(lhs).mask@[r as int])@.len() == old(lhs).poly_size());
        assert((rhs.mask@[r as int])@.len() == rhs.poly_size());
        let rhs_poly = &rhs.mask[r];
        let lhs_poly = &mut lhs.mask[r];
        polynomial_wrapping_add_assign(lhs_poly, rhs_poly);
        r = r + 1;
    }
    polynomial_wrapping_add_assign(&mut lhs.body, &rhs.body);
}

/// In-place wrapping subtraction of two GLWE ciphertexts.
pub fn glwe_ciphertext_sub_assign(lhs: &mut GlweCiphertext, rhs: &GlweCiphertext)
    requires
        old(lhs).wf(),
        rhs.wf(),
        old(lhs).glwe_dimension() == rhs.glwe_dimension(),
        old(lhs).poly_size() == rhs.poly_size(),
    ensures
        final(lhs).wf(),
        final(lhs).glwe_dimension() == rhs.glwe_dimension(),
        final(lhs).poly_size() == rhs.poly_size(),
        forall|r: int|
            0 <= r < rhs.mask@.len() ==> (#[trigger] final(lhs).mask@[r])@ == psub(
                old(lhs).mask@[r]@,
                rhs.mask@[r]@,
            ),
        final(lhs).body@ == psub(old(lhs).body@, rhs.body@),
{
    let k = lhs.mask.len();
    let mut r: usize = 0;
    while r < k
        invariant
            lhs.mask@.len() == k,
            rhs.mask@.len() == k,
            old(lhs).mask@.len() == k,
            rhs.wf(),
            lhs.body == old(lhs).body,
            old(lhs).wf(),
            old(lhs).poly_size() == rhs.poly_size(),
            r <= k,
            forall|t: int|
                0 <= t < r ==> (#[trigger] lhs.mask@[t])@ == psub(old(lhs).mask@[t]@, rhs.mask@[t]@),
            forall|t: int| r <= t < k ==> lhs.mask@[t] == old(lhs).mask@[t],
        decreases k - r,
    {
        assert(lhs.mask@[r as int] == old(lhs).mask@[r as int]);
        assert((old(lhs).mask@[r as int])@.len() == old(lhs).poly_size());
        assert((rhs.mask@[r as int])@.len() == rhs.poly_size());
        let rhs_poly = &rhs.mask[r];
        let lhs_poly = &mut lhs.mask[r];
        polynomial_wrapping_sub_assign(lhs_poly, rhs_poly);
        r = r + 1;
    }
    polynomial_wrapping_sub_assign(&mut lhs.body, &rhs.body);
}

/// Add a plaintext scalar onto the constant coefficient of the body.
pub fn glwe_ciphertext_plaintext_add_assign(c: &mut GlweCiphertext, plaintext: u64)
    requires
        old(c).wf(),
    ensures
        final(c).wf(),
        final(c).mask == old(c).mask,
        final(c).body@ == old(c).body@.update(0, wrap(old(c).body@[0] + plaintext)),
        final(c).glwe_dimension() == old(c).glwe_dimension(),
        final(c).poly_size() == old(c).poly_size(),
{
    proof {
        lemma_wrapping_add(c.body@[0], plaintext);
    }
    let v = c.body[0].wrapping_add(plaintext);
    c.body[0] = v;
}

/// Multiply every polynomial of the ciphertext by X^degree.
pub fn glwe_ciphertext_monic_monomial_mul_assign(c: &mut GlweCiphertext, degree: usize)
    requires
        old(c).wf(),
    ensures
        final(c).wf(),
        final(c).glwe_dimension() == old(c).glwe_dimension(),
        final(c).poly_size() == old(c).poly_size(),
        forall|r: int|
            0 <= r < old(c).mask@.len() ==> (#[trigger] final(c).mask@[r])@ == monomial_mul(
                old(c).mask@[r]@,
                degree as nat,
            ),
        final(c).body@ == monomial_mul(old(c).body@, degree as nat),
{
    let k = c.mask.len();
    let mut r: usize = 0;
    while r < k
        invariant
            c.mask@.len() == k,
            old(c).mask@.len() == k,
            c.body == old(c).body,
            old(c).wf(),
            r <= k,
            forall|t: int|
                0 <= t < r ==> (#[trigger] c.mask@[t])@ == monomial_mul(
                    old(c).mask@[t]@,
                    degree as nat,
                ),
            forall|t: int| r <= t < k ==> c.mask@[t] == old(c).mask@[t],
        decreases k - r,
    {
        assert(c.mask@[r as int] == old(c).mask@[r as int]);
        assert((old(c).mask@[r as int])@.len() == old(c).poly_size());
        let p = &mut c.mask[r];
        polynomial_wrapping_monic_monomial_mul_assign(p, degree);
        r = r + 1;
    }
    polynomial_wrapping_monic_monomial_mul_assign(&mut c.body, degree);
}

/// Divide every polynomial of the ciphertext by X^degree.
pub fn glwe_ciphertext_monic_monomial_div_assign(c: &mut GlweCiphertext, degree: usize)
    requires
        old(c).wf(),
    ensures
        final(c).wf(),
        final(c).glwe_dimension() == old(c).glwe_dimension(),
        final(c).poly_size() == old(c).poly_size(),
        forall|r: int|
            0 <= r < old(c).mask@.len() ==> (#[trigger] final(c).mask@[r])@ == monomial_div(
                old(c).mask@[r]@,
                degree as nat,
            ),
        final(c).body@ == monomial_div(old(c).body@, degree as nat),
{
    let k = c.mask.len();
    let mut r: usize = 0;
    while r < k
        invariant
            c.mask@.len() == k,
            old(c).mask@.len() == k,
            c.body == old(c).body,
            old(c).wf(),
            r <= k,
            forall|t: int|
                0 <= t < r ==> (#[trigger] c.mask@[t])@ == monomial_div(
                    old(c).mask@[t]@,
                    degree as nat,
                ),
            forall|t: int| r <= t < k ==> c.mask@[t] == old(c).mask@[t],
        decreases k - r,
    {
        assert(c.mask@[r as int] == old(c).mask@[r as int]);
        assert((old(c).mask@[r as int])@.len() == old(c).poly_size());
        let p = &mut c.mask[r];
        polynomial_wrapping_monic_monomial_div_assign(p, degree);
        r = r + 1;
    }
    polynomial_wrapping_monic_monomial_div_assign(&mut c.body, degree);
}

/// Decrypt: compute the phase polynomial body - sum_r mask_r * key_r exactly.
pub fn decrypt_glwe_ciphertext(key: &GlweSecretKey, c: &GlweCiphertext) -> (r: Vec<u64>)
    requires
        key.wf(),
        c.wf(),
        key.glwe_dimension() == c.glwe_dimension(),
        key.poly_size() == c.poly_size(),
    ensures
        r@ =~= glwe_phase(key.polys@.map_values(|p: Vec<u64>| p@), *c),
{
    let k = c.mask.len();
    let n = c.body.len();
    let mut acc: Vec<u64> = c.body.clone();
    let mut r: usize = 0;
    let ghost maskv = c.mask@.map_values(|p: Vec<u64>| p@);
    let ghost keyv = key.polys@.map_values(|p: Vec<u64>| p@);
    proof {
        assert forall|j: int| 0 <= j < n implies acc@[j] == wrap(
            c.body@[j] - mask_dot_prefix(maskv, keyv, j, 0),
        ) by {
            lemma_wrap_id(c.body@[j]);
        }
    }
    while r < k
        invariant
            c.wf(),
            key.wf(),
            maskv == c.mask@.map_values(|p: Vec<u64>| p@),
            keyv == key.polys@.map_values(|p: Vec<u64>| p@),
            c.mask@.len() == k,
            key.polys@.len() == k,
            c.body@.len() == n,
            key.poly_size() == n,
            acc@.len() == n,
            r <= k,
            forall|j: int|
                0 <= j < n ==> acc@[j] == wrap(
                    c.body@[j] - mask_dot_prefix(maskv, keyv, j, r as nat),
                ),
        decreases k - r,
    {
        let ghost acc_pre = acc@;
        polynomial_wrapping_sub_mul_assign(&mut acc, &c.mask[r], &key.polys[r]);
        proof {
            assert forall|j: int| 0 <= j < n implies acc@[j] == wrap(
                c.body@[j] - mask_dot_prefix(maskv, keyv, j, (r + 1) as nat),
            ) by {
                assert(acc@[j] == wrap(acc_pre[j] - poly_mul_coeff(maskv[r as int], keyv[r as int], j)));
                lemma_wrap_sub_absorb(
                    c.body@[j] - mask_dot_prefix(maskv, keyv, j, r as nat),
                    poly_mul_coeff(maskv[r as int], keyv[r as int], j),
                );
                assert(wrap(acc_pre[j] as int - poly_mul_coeff(maskv[r as int], keyv[r as int], j))
                    == wrap(
                    c.body@[j] - mask_dot_prefix(maskv, keyv, j, r as nat) - poly_mul_coeff(
                        maskv[r as int],
                        keyv[r as int],
                        j,
                    ),
                )) by {
                    lemma_wrap_add_absorb(
                        c.body@[j] - mask_dot_prefix(maskv, keyv, j, r as nat),
                        -poly_mul_coeff(maskv[r as int], keyv[r as int], j),
                    );
                }
            }
        }
        r = r + 1;
    }
    acc
}

/// Encrypt a plaintext polynomial under an explicit mask and explicit noise:
/// body = sum_r mask_r * key_r + plaintext + noise. The phase of the result
/// is exactly plaintext + noise (coefficient-wise).
pub fn encrypt_glwe_ciphertext_with(
    key: &GlweSecretKey,
    plaintext: &Vec<u64>,
    mask: Vec<Vec<u64>>,
    noise: &Vec<u64>,
) -> (r: GlweCiphertext)
    requires
        key.wf(),
        plaintext@.len() == key.poly_size(),
        noise@.len() == key.poly_size(),
        mask@.len() == key.glwe_dimension(),
        forall|t: int| 0 <= t < mask@.len() ==> (#[trigger] mask@[t])@.len() == key.poly_size(),
    ensures
        r.wf(),
        r.glwe_dimension() == key.glwe_dimension(),
        r.poly_size() == key.poly_size(),
        r.mask == mask,
        forall|j: int|
            0 <= j < key.poly_size() ==> glwe_phase(key.polys@.map_values(|p: Vec<u64>| p@), r)[j]
                == wrap(plaintext@[j] + noise@[j]),
{
    let k = mask.len();
    let n = plaintext.len();
    let ghost maskv = mask@.map_values(|p: Vec<u64>| p@);
    let ghost keyv = key.polys@.map_values(|p: Vec<u64>| p@);
    let mut body: Vec<u64> = Vec::new();
    let mut j: usize = 0;
    while j < n
        invariant
            plaintext@.len() == n,
            noise@.len() == n,
            j <= n,
            body@.len() == j,
            forall|t: int| 0 <= t < j ==> body@[t] == wrap(plaintext@[t] + noise@[t]),
        decreases n - j,
    {
        proof {
            lemma_wrapping_add(plaintext@[j as int], noise@[j as int]);
        }
        body.push(plaintext[j].wrapping_add(noise[j]));
        j = j + 1;
    }
    let mut r: usize = 0;
    while r < k
        invariant
            key.wf(),
            maskv == mask@.map_values(|p: Vec<u64>| p@),
            keyv == key.polys@.map_values(|p: Vec<u64>| p@),
            mask@.len() == k,
            key.polys@.len() == k,
            key.poly_size() == n,
            plaintext@.len() == n,
            noise@.len() == n,
            1 <= n <= 0x1000_0000,
            forall|t: int| 0 <= t < k ==> (#[trigger] mask@[t])@.len() == n,
            body@.len() == n,
            r <= k,
            forall|j: int|
                0 <= j < n ==> body@[j] == wrap(
                    plaintext@[j] + noise@[j] + mask_dot_prefix(maskv, keyv, j, r as nat),
                ),
        decreases k - r,
    {
        let ghost body_pre = body@;
        polynomial_wrapping_add_mul_assign(&mut body, &mask[r], &key.polys[r]);
        proof {
            assert forall|j: int| 0 <= j < n implies body@[j] == wrap(
                plaintext@[j] + noise@[j] + mask_dot_prefix(maskv, keyv, j, (r + 1) as nat),
            ) by {
                assert(body@[j] == wrap(
                    body_pre[j] + poly_mul_coeff(maskv[r as int], keyv[r as int], j),
                ));
                lemma_wrap_add_absorb(
                    plaintext@[j] + noise@[j] + mask_dot_prefix(maskv, keyv, j, r as nat),
                    poly_mul_coeff(maskv[r as int], keyv[r as int], j),
                );
            }
        }
        r = r + 1;
    }
    let c = GlweCiphertext { mask, body };
    proof {
        assert forall|j: int| 0 <= j < n implies glwe_phase(keyv, c)[j] == wrap(
            plaintext@[j] + noise@[j],
        ) by {
            let d = mask_dot_prefix(maskv, keyv, j, k as nat);
            assert(glwe_phase(keyv, c)[j] == wrap(c.body@[j] - d));
            assert(c.body@[j] == wrap(plaintext@[j] + noise@[j] + d));
            lemma_wrap_add_absorb(plaintext@[j] + noise@[j] + d, -d);
        }
    }
    c
}

/// Extract the LWE ciphertext of coefficient `nth` of a GLWE ciphertext.
///
/// The LWE mask entry for key position (r, i) is mask_r[nth - i] when
/// i <= nth and -mask_r[N + nth - i] otherwise; the LWE body is body[nth].
/// Under the flattened key, the LWE phase equals phase coefficient nth.
pub fn extract_lwe_sample_from_glwe_ciphertext(
    c: &GlweCiphertext,
    nth: usize,
) -> (out: crate::lwe::LweCiphertext)
    requires
        c.wf(),
        nth < c.poly_size(),
        c.glwe_dimension() * c.poly_size() <= 0x4000_0000,
    ensures
        out.lwe_dimension() == c.glwe_dimension() * c.poly_size(),
        out.body == c.body@[nth as int],
        forall|r: int, i: int|
            0 <= r < c.glwe_dimension() && 0 <= i < c.poly_size() ==> (#[trigger] out.mask@[r
                * c.poly_size() + i]) == (if i <= nth {
                c.mask@[r]@[nth - i]
            } else {
                wrap(-(c.mask@[r]@[c.poly_size() + nth - i] as int))
            }),
{
    let k = c.mask.len();
    let n = c.body.len();
    let mut mask: Vec<u64> = Vec::new();
    let mut r: usize = 0;
    while r < k
        invariant
            c.wf(),
            nth < n,
            c.mask@.len() == k,
            c.body@.len() == n,
            k * n <= 0x4000_0000,
            r <= k,
            mask@.len() == r * n,
            forall|t: int, i: int|
                0 <= t < r && 0 <= i < n ==> (#[trigger] mask@[t * n + i]) == (if i <= nth {
                    c.mask@[t]@[nth - i]
                } else {
                    wrap(-(c.mask@[t]@[n + nth - i] as int))
                }),
        decreases k - r,
    {
        proof {
            assert((r + 1) * n <= k * n) by (nonlinear_arith)
                requires
                    r + 1 <= k,
                    n >= 0,
            ;
            assert(r * n + n == (r + 1) * n) by (nonlinear_arith);
        }
        let mut i: usize = 0;
        while i < n
            invariant
                c.wf(),
                nth < n,
                c.mask@.len() == k,
                c.body@.len() == n,
                r < k,
                i <= n,
                r * n + n <= 0x4000_0000,
                mask@.len() == r * n + i,
                forall|t: int, ii: int|
                    0 <= t < r && 0 <= ii < n ==> (#[trigger] mask@[t * n + ii]) == (if ii <= nth {
                        c.mask@[t]@[nth - ii]
                    } else {
                        wrap(-(c.mask@[t]@[n + nth - ii] as int))
                    }),
                forall|ii: int|
                    0 <= ii < i ==> (#[trigger] mask@[r * n + ii]) == (if ii <= nth {
                        c.mask@[r as int]@[nth - ii]
                    } else {
                        wrap(-(c.mask@[r as int]@[n + nth - ii] as int))
                    }),
            decreases n - i,
        {
            let v = if i <= nth {
                c.mask[r][nth - i]
            } else {
                torus_neg(c.mask[r][n + nth - i])
            };
            mask.push(v);
            proof {
                assert forall|t: int, ii: int|
                    0 <= t < r && 0 <= ii < n implies (#[trigger] mask@[t * n + ii]) == (if ii
                    <= nth {
                    c.mask@[t]@[nth - ii]
                } else {
                    wrap(-(c.mask@[t]@[n + nth - ii] as int))
                }) by {
                    assert(t * n + ii < r * n) by (nonlinear_arith)
                        requires
                            0 <= t < r,
                            0 <= ii < n,
                    ;
                }
            }
            i = i + 1;
        }
        r = r + 1;
    }
    proof {
        assert(k * n == mask@.len());
    }
    crate::lwe::LweCiphertext { mask, body: c.body[nth] }
}

} // verus!
