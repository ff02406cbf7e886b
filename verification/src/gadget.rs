//! Gadget-decomposition products: decompose a source polynomial into digit
//! polynomials and fold them against a ladder (GLev) of key ciphertexts,
//! subtracting or adding each digit-times-key product. This is the shared
//! core of the automorphism keyswitch, the GLWE dimension keyswitch and the
//! external product.
use vstd::prelude::*;
use crate::poly::is_zero_poly;
use crate::polymul::psub_mul;
use crate::polymul::padd_mul;
use crate::polymul::polynomial_wrapping_sub_mul_assign;
use crate::polymul::polynomial_wrapping_add_mul_assign;
use crate::polymul::lemma_poly_mul_coeff_zero_left;
use crate::decomp::decomp_digit_at;
use crate::decomp::decompose_value;
use crate::decomp::lemma_decomp_digit_zero;
use crate::glwe::GlweCiphertext;
use crate::arith::lemma_wrap_id;

verus! {

/// The digit polynomial of one decomposition level (0-based index idx,
/// level idx+1): each coefficient is the corresponding digit of the source
/// coefficient.
pub open spec fn digit_poly_spec(a: Seq<u64>, bl: nat, levels: nat, idx: nat) -> Seq<u64> {
    Seq::new(a.len(), |t: int| decomp_digit_at(a[t], bl, levels, idx))
}

/// The digit polynomial of the zero polynomial is zero.
pub proof fn lemma_digit_poly_zero(a: Seq<u64>, bl: nat, levels: nat, idx: nat)
    requires
        is_zero_poly(a),
        1 <= bl,
        1 <= levels,
        levels * bl < 64,
        idx < levels,
    ensures
        is_zero_poly(digit_poly_spec(a, bl, levels, idx)),
{
    assert forall|t: int| 0 <= t < a.len() implies digit_poly_spec(a, bl, levels, idx)[t]
        == 0u64 by {
        lemma_decomp_digit_zero(bl, levels, idx);
    }
}

/// Extract one digit polynomial of the decomposition of a polynomial.
pub fn decompose_poly_level(a: &Vec<u64>, base_log: usize, levels: usize, idx: usize) -> (out: Vec<
    u64,
>)
    requires
        1 <= base_log,
        1 <= levels,
        levels * base_log < 64,
        idx < levels,
    ensures
        out@ == digit_poly_spec(a@, base_log as nat, levels as nat, idx as nat),
{
    let n = a.len();
    let mut out: Vec<u64> = Vec::new();
    let mut t: usize = 0;
    while t < n
        invariant
            a@.len() == n,
            1 <= base_log,
            1 <= levels,
            levels * base_log < 64,
            idx < levels,
            t <= n,
            out@.len() == t,
            forall|i: int|
                0 <= i < t ==> out@[i] == decomp_digit_at(
                    #[trigger] a@[i],
                    base_log as nat,
                    levels as nat,
                    idx as nat,
                ),
        decreases n - t,
    {
        let digits = decompose_value(a[t], base_log, levels);
        out.push(digits[idx]);
        t = t + 1;
    }
    assert(out@ =~= digit_poly_spec(a@, base_log as nat, levels as nat, idx as nat));
    out
}

/// The mask polynomials of a GLWE ciphertext, as a sequence of sequences.
pub open spec fn glwe_maskv(c: GlweCiphertext) -> Seq<Seq<u64>> {
    c.mask@.map_values(|p: Vec<u64>| p@)
}

/// One fold step: acc <- acc - d * key (every mask polynomial and the body).
pub open spec fn ct_sub_mul_step(
    mask: Seq<Seq<u64>>,
    body: Seq<u64>,
    d: Seq<u64>,
    key: GlweCiphertext,
) -> (Seq<Seq<u64>>, Seq<u64>) {
    (Seq::new(mask.len(), |c: int| psub_mul(mask[c], d, key.mask@[c]@)), psub_mul(
        body,
        d,
        key.body@,
    ))
}

/// One fold step: acc <- acc + d * key.
pub open spec fn ct_add_mul_step(
    mask: Seq<Seq<u64>>,
    body: Seq<u64>,
    d: Seq<u64>,
    key: GlweCiphertext,
) -> (Seq<Seq<u64>>, Seq<u64>) {
    (Seq::new(mask.len(), |c: int| padd_mul(mask[c], d, key.mask@[c]@)), padd_mul(
        body,
        d,
        key.body@,
    ))
}

/// Folding the first `upto` decomposition levels of a source polynomial
/// against a GLev ladder, subtracting each digit-times-key product.
pub open spec fn ks_sub_fold(
    mask: Seq<Seq<u64>>,
    body: Seq<u64>,
    src: Seq<u64>,
    bl: nat,
    levels: nat,
    glev: Seq<GlweCiphertext>,
    upto: nat,
) -> (Seq<Seq<u64>>, Seq<u64>)
    decreases upto,
{
    if upto == 0 {
        (mask, body)
    } else {
        let prev = ks_sub_fold(mask, body, src, bl, levels, glev, (upto - 1) as nat);
        ct_sub_mul_step(
            prev.0,
            prev.1,
            digit_poly_spec(src, bl, levels, (upto - 1) as nat),
            glev[upto - 1],
        )
    }
}

/// Folding all levels of the first `upto_r` source polynomials against
/// their GLev ladders.
pub open spec fn ks_sub_fold_rows(
    mask: Seq<Seq<u64>>,
    body: Seq<u64>,
    srcs: Seq<Seq<u64>>,
    bl: nat,
    levels: nat,
    keys: Seq<Seq<GlweCiphertext>>,
    upto_r: nat,
) -> (Seq<Seq<u64>>, Seq<u64>)
    decreases upto_r,
{
    if upto_r == 0 {
        (mask, body)
    } else {
        let prev = ks_sub_fold_rows(mask, body, srcs, bl, levels, keys, (upto_r - 1) as nat);
        ks_sub_fold(prev.0, prev.1, srcs[upto_r - 1], bl, levels, keys[upto_r - 1], levels)
    }
}

/// Well-formedness of a GLev ladder against given dimensions.
pub open spec fn glev_wf(glev: Seq<GlweCiphertext>, k: nat, n: nat, levels: nat) -> bool {
    &&& glev.len() == levels
    &&& forall|j: int|
        0 <= j < glev.len() ==> (#[trigger] glev[j]).wf() && glev[j].glwe_dimension() == k
            && glev[j].poly_size() == n
}

/// acc <- acc - sum over levels of digit_j(src) * glev[j], exactly.
pub fn glev_scaled_sub_assign(
    acc: &mut GlweCiphertext,
    src: &Vec<u64>,
    base_log: usize,
    levels: usize,
    glev: &Vec<GlweCiphertext>,
)
    requires
        old(acc).wf(),
        src@.len() == old(acc).poly_size(),
        1 <= base_log,
        1 <= levels,
        levels * base_log < 64,
        glev_wf(glev@, old(acc).glwe_dimension(), old(acc).poly_size(), levels as nat),
    ensures
        final(acc).wf(),
        final(acc).glwe_dimension() == old(acc).glwe_dimension(),
        final(acc).poly_size() == old(acc).poly_size(),
        (glwe_maskv(*final(acc)), final(acc).body@) == ks_sub_fold(
            glwe_maskv(*old(acc)),
            old(acc).body@,
            src@,
            base_log as nat,
            levels as nat,
            glev@,
            levels as nat,
        ),
{
    let k = acc.mask.len();
    let n = acc.body.len();
    let mut j: usize = 0;
    while j < levels
        invariant
            acc.wf(),
            acc.glwe_dimension() == k,
            acc.poly_size() == n,
            old(acc).glwe_dimension() == k,
            old(acc).poly_size() == n,
            src@.len() == n,
            1 <= base_log,
            1 <= levels,
            levels * base_log < 64,
            glev_wf(glev@, k as nat, n as nat, levels as nat),
            j <= levels,
            (glwe_maskv(*acc), acc.body@) == ks_sub_fold(
                glwe_maskv(*old(acc)),
                old(acc).body@,
                src@,
                base_log as nat,
                levels as nat,
                glev@,
                j as nat,
            ),
        decreases levels - j,
    {
        let ghost mask_pre = glwe_maskv(*acc);
        let ghost body_pre = acc.body@;
        let d = decompose_poly_level(src, base_log, levels, j);
        let key = &glev[j];
        let mut c: usize = 0;
        while c < k
            invariant
                acc.glwe_dimension() == k,
                acc.poly_size() == n,
                acc.wf(),
                key.wf(),
                key.glwe_dimension() == k,
                key.poly_size() == n,
                d@.len() == n,
                1 <= n <= 0x1000_0000,
                c <= k,
                acc.body@ == body_pre,
                mask_pre.len() == k,
                forall|t: int| 0 <= t < mask_pre.len() ==> (#[trigger] mask_pre[t]).len() == n,
                forall|t: int|
                    0 <= t < c ==> (#[trigger] acc.mask@[t])@ == psub_mul(
                        mask_pre[t],
                        d@,
                        key.mask@[t]@,
                    ),
                forall|t: int| c <= t < k ==> (#[trigger] acc.mask@[t])@ == mask_pre[t],
            decreases k - c,
        {
            assert(acc.mask@[c as int]@.len() == n);
            assert(key.mask@[c as int]@.len() == n);
            let key_poly = &key.mask[c];
            let acc_poly = &mut acc.mask[c];
            polynomial_wrapping_sub_mul_assign(acc_poly, &d, key_poly);
            c = c + 1;
        }
        polynomial_wrapping_sub_mul_assign(&mut acc.body, &d, &key.body);
        proof {
            let step = ct_sub_mul_step(
                mask_pre,
                body_pre,
                digit_poly_spec(src@, base_log as nat, levels as nat, j as nat),
                glev@[j as int],
            );
            assert(glwe_maskv(*acc) =~= step.0);
            assert(acc.body@ == step.1);
        }
        j = j + 1;
    }
}

/// acc <- acc + sum over levels of digit_j(src) * glev[j]: the fold used by
/// the external product, which adds instead of subtracting.
pub open spec fn ks_add_fold(
    mask: Seq<Seq<u64>>,
    body: Seq<u64>,
    src: Seq<u64>,
    bl: nat,
    levels: nat,
    glev: Seq<GlweCiphertext>,
    upto: nat,
) -> (Seq<Seq<u64>>, Seq<u64>)
    decreases upto,
{
    if upto == 0 {
        (mask, body)
    } else {
        let prev = ks_add_fold(mask, body, src, bl, levels, glev, (upto - 1) as nat);
        ct_add_mul_step(
            prev.0,
            prev.1,
            digit_poly_spec(src, bl, levels, (upto - 1) as nat),
            glev[upto - 1],
        )
    }
}

/// acc <- acc + sum over levels of digit_j(src) * glev[j], exactly.
pub fn glev_scaled_add_assign(
    acc: &mut GlweCiphertext,
    src: &Vec<u64>,
    base_log: usize,
    levels: usize,
    glev: &Vec<GlweCiphertext>,
)
    requires
        old(acc).wf(),
        src@.len() == old(acc).poly_size(),
        1 <= base_log,
        1 <= levels,
        levels * base_log < 64,
        glev_wf(glev@, old(acc).glwe_dimension(), old(acc).poly_size(), levels as nat),
    ensures
        final(acc).wf(),
        final(acc).glwe_dimension() == old(acc).glwe_dimension(),
        final(acc).poly_size() == old(acc).poly_size(),
        (glwe_maskv(*final(acc)), final(acc).body@) == ks_add_fold(
            glwe_maskv(*old(acc)),
            old(acc).body@,
            src@,
            base_log as nat,
            levels as nat,
            glev@,
            levels as nat,
        ),
{
    let k = acc.mask.len();
    let n = acc.body.len();
    let mut j: usize = 0;
    while j < levels
        invariant
            acc.wf(),
            acc.glwe_dimension() == k,
            acc.poly_size() == n,
            old(acc).glwe_dimension() == k,
            old(acc).poly_size() == n,
            src@.len() == n,
            1 <= base_log,
            1 <= levels,
            levels * base_log < 64,
            glev_wf(glev@, k as nat, n as nat, levels as nat),
            j <= levels,
            (glwe_maskv(*acc), acc.body@) == ks_add_fold(
                glwe_maskv(*old(acc)),
                old(acc).body@,
                src@,
                base_log as nat,
                levels as nat,
                glev@,
                j as nat,
            ),
        decreases levels - j,
    {
        let ghost mask_pre = glwe_maskv(*acc);
        let ghost body_pre = acc.body@;
        let d = decompose_poly_level(src, base_log, levels, j);
        let key = &glev[j];
        let mut c: usize = 0;
        while c < k
            invariant
                acc.glwe_dimension() == k,
                acc.poly_size() == n,
                acc.wf(),
                key.wf(),
                key.glwe_dimension() == k,
                key.poly_size() == n,
                d@.len() == n,
                1 <= n <= 0x1000_0000,
                c <= k,
                acc.body@ == body_pre,
                mask_pre.len() == k,
                forall|t: int| 0 <= t < mask_pre.len() ==> (#[trigger] mask_pre[t]).len() == n,
                forall|t: int|
                    0 <= t < c ==> (#[trigger] acc.mask@[t])@ == padd_mul(
                        mask_pre[t],
                        d@,
                        key.mask@[t]@,
                    ),
                forall|t: int| c <= t < k ==> (#[trigger] acc.mask@[t])@ == mask_pre[t],
            decreases k - c,
        {
            assert(acc.mask@[c as int]@.len() == n);
            assert(key.mask@[c as int]@.len() == n);
            let key_poly = &key.mask[c];
            let acc_poly = &mut acc.mask[c];
            polynomial_wrapping_add_mul_assign(acc_poly, &d, key_poly);
            c = c + 1;
        }
        polynomial_wrapping_add_mul_assign(&mut acc.body, &d, &key.body);
        proof {
            let step = ct_add_mul_step(
                mask_pre,
                body_pre,
                digit_poly_spec(src@, base_log as nat, levels as nat, j as nat),
                glev@[j as int],
            );
            assert(glwe_maskv(*acc) =~= step.0);
            assert(acc.body@ == step.1);
        }
        j = j + 1;
    }
}

/// A fold over a zero source polynomial changes nothing.
pub proof fn lemma_ks_sub_fold_zero_src(
    mask: Seq<Seq<u64>>,
    body: Seq<u64>,
    src: Seq<u64>,
    bl: nat,
    levels: nat,
    glev: Seq<GlweCiphertext>,
    upto: nat,
)
    requires
        is_zero_poly(src),
        1 <= bl,
        1 <= levels,
        levels * bl < 64,
        upto <= levels,
        forall|t: int| 0 <= t < mask.len() ==> (#[trigger] mask[t]).len() == src.len(),
        body.len() == src.len(),
    ensures
        ks_sub_fold(mask, body, src, bl, levels, glev, upto) == (mask, body),
    decreases upto,
{
    if upto > 0 {
        lemma_ks_sub_fold_zero_src(mask, body, src, bl, levels, glev, (upto - 1) as nat);
        let d = digit_poly_spec(src, bl, levels, (upto - 1) as nat);
        lemma_digit_poly_zero(src, bl, levels, (upto - 1) as nat);
        let step = ct_sub_mul_step(mask, body, d, glev[upto - 1]);
        assert forall|c: int| 0 <= c < mask.len() implies step.0[c] == mask[c] by {
            lemma_psub_mul_zero(mask[c], d, glev[upto - 1].mask@[c]@);
        }
        assert(step.0 =~= mask);
        lemma_psub_mul_zero(body, d, glev[upto - 1].body@);
        assert(step.1 == body);
    }
}

/// A fold over rows whose source polynomials are all zero changes nothing.
pub proof fn lemma_ks_sub_fold_rows_zero_srcs(
    mask: Seq<Seq<u64>>,
    body: Seq<u64>,
    srcs: Seq<Seq<u64>>,
    bl: nat,
    levels: nat,
    keys: Seq<Seq<GlweCiphertext>>,
    upto_r: nat,
)
    requires
        forall|t: int| 0 <= t < upto_r ==> is_zero_poly(#[trigger] srcs[t]),
        forall|t: int| 0 <= t < upto_r ==> (#[trigger] srcs[t]).len() == body.len(),
        forall|t: int| 0 <= t < mask.len() ==> (#[trigger] mask[t]).len() == body.len(),
        1 <= bl,
        1 <= levels,
        levels * bl < 64,
        upto_r <= srcs.len(),
    ensures
        ks_sub_fold_rows(mask, body, srcs, bl, levels, keys, upto_r) == (mask, body),
    decreases upto_r,
{
    if upto_r > 0 {
        lemma_ks_sub_fold_rows_zero_srcs(mask, body, srcs, bl, levels, keys, (upto_r - 1) as nat);
        lemma_ks_sub_fold_zero_src(
            mask,
            body,
            srcs[upto_r - 1],
            bl,
            levels,
            keys[upto_r - 1],
            levels,
        );
    }
}

/// Subtracting a product with a zero digit polynomial is the identity.
pub proof fn lemma_psub_mul_zero(acc: Seq<u64>, d: Seq<u64>, key: Seq<u64>)
    requires
        is_zero_poly(d),
        d.len() == acc.len(),
    ensures
        psub_mul(acc, d, key) == acc,
{
    assert forall|j: int| 0 <= j < acc.len() implies psub_mul(acc, d, key)[j] == acc[j] by {
        lemma_poly_mul_coeff_zero_left(d, key, j);
        lemma_wrap_id(acc[j]);
    }
    assert(psub_mul(acc, d, key) =~= acc);
}

} // verus!
