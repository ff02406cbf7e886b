//! GGSW ciphertexts and the external product.
//!
//! A GGSW ciphertext is stored as k+1 GLev ladders (one per GLWE column):
//! ladder c holds, for each decomposition level j, the GLWE row of level
//! j+1 and column c. The external product decomposes every polynomial of a
//! GLWE ciphertext and folds the digits against the matching ladder.
use vstd::prelude::*;
use crate::glwe::GlweCiphertext;
use crate::gadget::glwe_maskv;
use crate::gadget::glev_wf;
use crate::gadget::ks_add_fold;
use crate::gadget::glev_scaled_add_assign;

verus! {

/// A GGSW ciphertext: k+1 GLev ladders of GLWE rows.
pub struct GgswCiphertext {
    pub base_log: usize,
    pub levels: usize,
    pub cols: Vec<Vec<GlweCiphertext>>,
}

impl GgswCiphertext {
    pub open spec fn glwe_dimension(&self) -> nat {
        (self.cols@.len() - 1) as nat
    }

    pub open spec fn poly_size(&self) -> nat {
        if self.cols@.len() == 0 || self.cols@[0]@.len() == 0 {
            0
        } else {
            self.cols@[0]@[0].poly_size()
        }
    }

    pub open spec fn wf(&self) -> bool {
        &&& self.cols@.len() >= 2
        &&& 1 <= self.base_log
        &&& 1 <= self.levels
        &&& self.levels * self.base_log < 64
        &&& 1 <= self.poly_size() <= 0x1000_0000
        &&& forall|c: int|
            0 <= c < self.cols@.len() ==> glev_wf(
                (#[trigger] self.cols@[c])@,
                self.glwe_dimension(),
                self.poly_size(),
                self.levels as nat,
            )
    }
}

/// Copy a polynomial.
pub fn copy_poly(src: &Vec<u64>) -> (out: Vec<u64>)
    ensures
        out@ == src@,
{
    let n = src.len();
    let mut out: Vec<u64> = Vec::new();
    let mut j: usize = 0;
    while j < n
        invariant
            src@.len() == n,
            j <= n,
            out@.len() == j,
            forall|t: int| 0 <= t < j ==> out@[t] == src@[t],
        decreases n - j,
    {
        out.push(src[j]);
        j = j + 1;
    }
    assert(out@ =~= src@);
    out
}

/// Copy a GLWE ciphertext.
pub fn glwe_clone(src: &GlweCiphertext) -> (out: GlweCiphertext)
    ensures
        out.mask@.len() == src.mask@.len(),
        forall|r: int| 0 <= r < src.mask@.len() ==> (#[trigger] out.mask@[r])@ == src.mask@[r]@,
        out.body@ == src.body@,
        out.glwe_dimension() == src.glwe_dimension(),
        out.poly_size() == src.poly_size(),
        src.wf() ==> out.wf(),
{
    let k = src.mask.len();
    let mut mask: Vec<Vec<u64>> = Vec::new();
    let mut r: usize = 0;
    while r < k
        invariant
            src.mask@.len() == k,
            r <= k,
            mask@.len() == r,
            forall|t: int| 0 <= t < r ==> (#[trigger] mask@[t])@ == src.mask@[t]@,
        decreases k - r,
    {
        let p = copy_poly(&src.mask[r]);
        mask.push(p);
        r = r + 1;
    }
    let body = copy_poly(&src.body);
    GlweCiphertext { mask, body }
}

/// The external product fold: every polynomial of the right-hand
/// ciphertext (the k mask polynomials, then the body) is digit-decomposed
/// and folded (added) against the matching GGSW ladder.
pub open spec fn ext_fold(
    mask: Seq<Seq<u64>>,
    body: Seq<u64>,
    rhs_mask: Seq<Seq<u64>>,
    rhs_body: Seq<u64>,
    bl: nat,
    levels: nat,
    cols: Seq<Vec<GlweCiphertext>>,
    upto_c: nat,
) -> (Seq<Seq<u64>>, Seq<u64>)
    decreases upto_c,
{
    if upto_c == 0 {
        (mask, body)
    } else {
        let prev = ext_fold(mask, body, rhs_mask, rhs_body, bl, levels, cols, (upto_c - 1) as nat);
        let src = if upto_c - 1 < rhs_mask.len() {
            rhs_mask[upto_c - 1]
        } else {
            rhs_body
        };
        ks_add_fold(prev.0, prev.1, src, bl, levels, cols[upto_c - 1]@, levels)
    }
}

/// out <- out + ggsw (x) rhs: the external product of a GGSW selector with
/// a GLWE ciphertext, added onto the accumulator, digit-exactly.
pub fn add_external_product_assign(
    out: &mut GlweCiphertext,
    ggsw: &GgswCiphertext,
    rhs: &GlweCiphertext,
)
    requires
        old(out).wf(),
        ggsw.wf(),
        rhs.wf(),
        old(out).glwe_dimension() == ggsw.glwe_dimension(),
        old(out).poly_size() == ggsw.poly_size(),
        rhs.glwe_dimension() == ggsw.glwe_dimension(),
        rhs.poly_size() == ggsw.poly_size(),
    ensures
        final(out).wf(),
        final(out).glwe_dimension() == old(out).glwe_dimension(),
        final(out).poly_size() == old(out).poly_size(),
        (glwe_maskv(*final(out)), final(out).body@) == ext_fold(
            glwe_maskv(*old(out)),
            old(out).body@,
            glwe_maskv(*rhs),
            rhs.body@,
            ggsw.base_log as nat,
            ggsw.levels as nat,
            ggsw.cols@,
            (ggsw.glwe_dimension() + 1) as nat,
        ),
{
    let k = rhs.mask.len();
    let n = rhs.body.len();
    let mut c: usize = 0;
    while c < k
        invariant
            out.wf(),
            out.glwe_dimension() == k,
            out.poly_size() == n,
            old(out).glwe_dimension() == k,
            old(out).poly_size() == n,
            ggsw.wf(),
            rhs.wf(),
            ggsw.glwe_dimension() == k,
            ggsw.poly_size() == n,
            rhs.glwe_dimension() == k,
            rhs.poly_size() == n,
            c <= k,
            (glwe_maskv(*out), out.body@) == ext_fold(
                glwe_maskv(*old(out)),
                old(out).body@,
                glwe_maskv(*rhs),
                rhs.body@,
                ggsw.base_log as nat,
                ggsw.levels as nat,
                ggsw.cols@,
                c as nat,
            ),
        decreases k - c,
    {
        assert(rhs.mask@[c as int]@.len() == n);
        assert(glev_wf(ggsw.cols@[c as int]@, k as nat, n as nat, ggsw.levels as nat));
        proof {
            assert(glwe_maskv(*rhs)[c as int] == rhs.mask@[c as int]@);
        }
        let src = &rhs.mask[c];
        let glev = &ggsw.cols[c];
        glev_scaled_add_assign(out, src, ggsw.base_log, ggsw.levels, glev);
        c = c + 1;
    }
    assert(glev_wf(ggsw.cols@[k as int]@, k as nat, n as nat, ggsw.levels as nat));
    glev_scaled_add_assign(out, &rhs.body, ggsw.base_log, ggsw.levels, &ggsw.cols[k]);
}

} // verus!
