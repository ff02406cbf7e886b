//! GLWE-to-GLWE keyswitching between (possibly different) GLWE dimensions:
//! each input mask polynomial is digit-decomposed and folded against a GLev
//! ladder encrypting the corresponding source key polynomial under the
//! destination key.
use vstd::prelude::*;
use crate::glwe::GlweCiphertext;
use crate::gadget::glwe_maskv;
use crate::gadget::glev_wf;
use crate::gadget::glev_scaled_sub_assign;
use crate::gadget::ks_sub_fold_rows;
use crate::gadget::lemma_ks_sub_fold_rows_zero_srcs;
use crate::automorphism::zero_mask_seq;
use crate::poly::is_zero_poly;
use crate::ggsw::copy_poly;

verus! {

/// A GLWE keyswitch key from a source key of input_glwe_dimension
/// polynomials to a destination key of output_glwe_dimension polynomials:
/// one GLev ladder (under the destination key) per source key polynomial.
pub struct GlweKeyswitchKey {
    pub base_log: usize,
    pub levels: usize,
    pub output_glwe_dimension: usize,
    pub keys: Vec<Vec<GlweCiphertext>>,
}

impl GlweKeyswitchKey {
    pub open spec fn input_glwe_dimension(&self) -> nat {
        self.keys@.len()
    }

    pub open spec fn poly_size(&self) -> nat {
        if self.keys@.len() == 0 || self.keys@[0]@.len() == 0 {
            0
        } else {
            self.keys@[0]@[0].poly_size()
        }
    }

    pub open spec fn wf(&self) -> bool {
        &&& self.keys@.len() >= 1
        &&& 1 <= self.base_log
        &&& 1 <= self.levels
        &&& self.levels * self.base_log < 64
        &&& 1 <= self.output_glwe_dimension
        &&& 1 <= self.poly_size() <= 0x1000_0000
        &&& forall|r: int|
            0 <= r < self.keys@.len() ==> glev_wf(
                (#[trigger] self.keys@[r])@,
                self.output_glwe_dimension as nat,
                self.poly_size(),
                self.levels as nat,
            )
    }
}

/// Keyswitch a GLWE ciphertext onto the destination key: starting from the
/// trivial destination-dimension ciphertext holding the input body, fold
/// (subtract) every decomposition level of every input mask polynomial
/// against the corresponding key ladder.
pub fn keyswitch_glwe_ciphertext(ksk: &GlweKeyswitchKey, input: &GlweCiphertext) -> (out:
    GlweCiphertext)
    requires
        ksk.wf(),
        input.wf(),
        input.glwe_dimension() == ksk.input_glwe_dimension(),
        input.poly_size() == ksk.poly_size(),
    ensures
        out.wf(),
        out.glwe_dimension() == ksk.output_glwe_dimension,
        out.poly_size() == input.poly_size(),
        (glwe_maskv(out), out.body@) == ks_sub_fold_rows(
            zero_mask_seq(ksk.output_glwe_dimension as nat, input.poly_size()),
            input.body@,
            glwe_maskv(*input),
            ksk.base_log as nat,
            ksk.levels as nat,
            ksk.keys@.map_values(|v: Vec<GlweCiphertext>| v@),
            input.glwe_dimension(),
        ),
        input.is_trivial() ==> (out.is_trivial() && out.body@ == input.body@),
{
    let kin = input.mask.len();
    let kout = ksk.output_glwe_dimension;
    let n = input.body.len();
    let mut zero_mask: Vec<Vec<u64>> = Vec::new();
    let mut r: usize = 0;
    while r < kout
        invariant
            r <= kout,
            zero_mask@.len() == r,
            n >= 1,
            forall|t: int|
                0 <= t < r ==> (#[trigger] zero_mask@[t])@ =~= Seq::<u64>::new(
                    n as nat,
                    |j: int| 0u64,
                ),
        decreases kout - r,
    {
        let mut p: Vec<u64> = Vec::new();
        p.resize(n, 0u64);
        assert(p@ =~= Seq::<u64>::new(n as nat, |j: int| 0u64));
        zero_mask.push(p);
        r = r + 1;
    }
    let body = copy_poly(&input.body);
    let mut out = GlweCiphertext { mask: zero_mask, body };
    proof {
        assert(glwe_maskv(out) =~= zero_mask_seq(kout as nat, n as nat)) by {
            assert forall|t: int| 0 <= t < kout implies glwe_maskv(out)[t] == zero_mask_seq(
                kout as nat,
                n as nat,
            )[t] by {
                assert(glwe_maskv(out)[t] == out.mask@[t]@);
                assert(out.mask@[t]@ =~= Seq::<u64>::new(n as nat, |j: int| 0u64));
            }
        }
        assert(out.wf());
    }
    let mut rr: usize = 0;
    while rr < kin
        invariant
            out.wf(),
            out.glwe_dimension() == kout,
            out.poly_size() == n,
            ksk.wf(),
            ksk.output_glwe_dimension == kout,
            ksk.input_glwe_dimension() == kin,
            ksk.poly_size() == n,
            input.wf(),
            input.glwe_dimension() == kin,
            input.poly_size() == n,
            rr <= kin,
            (glwe_maskv(out), out.body@) == ks_sub_fold_rows(
                zero_mask_seq(kout as nat, n as nat),
                input.body@,
                glwe_maskv(*input),
                ksk.base_log as nat,
                ksk.levels as nat,
                ksk.keys@.map_values(|v: Vec<GlweCiphertext>| v@),
                rr as nat,
            ),
        decreases kin - rr,
    {
        assert(input.mask@[rr as int]@.len() == n);
        assert(glev_wf(ksk.keys@[rr as int]@, kout as nat, n as nat, ksk.levels as nat));
        proof {
            let keysv = ksk.keys@.map_values(|v: Vec<GlweCiphertext>| v@);
            assert(keysv[rr as int] == ksk.keys@[rr as int]@);
            assert(glwe_maskv(*input)[rr as int] == input.mask@[rr as int]@);
        }
        let src = &input.mask[rr];
        let glev = &ksk.keys[rr];
        glev_scaled_sub_assign(&mut out, src, ksk.base_log, ksk.levels, glev);
        rr = rr + 1;
    }
    proof {
        if input.is_trivial() {
            assert forall|t: int| 0 <= t < kin implies is_zero_poly(
                #[trigger] glwe_maskv(*input)[t],
            ) by {
                assert(glwe_maskv(*input)[t] == input.mask@[t]@);
            }
            assert forall|t: int|
                0 <= t < kout implies (#[trigger] zero_mask_seq(kout as nat, n as nat)[t]).len()
                == n by {
            }
            assert forall|t: int| 0 <= t < kin implies (#[trigger] glwe_maskv(*input)[t]).len()
                == n by {
                assert(glwe_maskv(*input)[t] == input.mask@[t]@);
            }
            lemma_ks_sub_fold_rows_zero_srcs(
                zero_mask_seq(kout as nat, n as nat),
                input.body@,
                glwe_maskv(*input),
                ksk.base_log as nat,
                ksk.levels as nat,
                ksk.keys@.map_values(|v: Vec<GlweCiphertext>| v@),
                kin as nat,
            );
            assert(glwe_maskv(out) == zero_mask_seq(kout as nat, n as nat));
            assert(out.body@ == input.body@);
            assert forall|t: int| 0 <= t < out.mask@.len() implies is_zero_poly(
                (#[trigger] out.mask@[t])@,
            ) by {
                assert(glwe_maskv(out)[t] == out.mask@[t]@);
                assert(zero_mask_seq(kout as nat, n as nat)[t] == Seq::<u64>::new(
                    n as nat,
                    |j: int| 0u64,
                ));
            }
        }
    }
    out
}

} // verus!
