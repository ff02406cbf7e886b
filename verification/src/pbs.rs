//! Programmable bootstrapping primitives: the blind rotation of an
//! encrypted lookup table by a modulus-switched LWE ciphertext, lookup
//! table construction (including the interleaved multi-value layout), the
//! most-significant-bit extraction into a Lev ladder, and the noise
//! refresh bootstrap.
use vstd::prelude::*;
use vstd::arithmetic::power2::*;
use vstd::arithmetic::div_mod::*;
use vstd::arithmetic::mul::*;
use crate::wrap;
use crate::arith::pow2_u64;
use crate::arith::log2_exact;
use crate::poly::monomial_mul;
use crate::poly::monomial_div;
use crate::poly::psub;
use crate::poly::polynomial_wrapping_monic_monomial_mul_and_subtract;
use crate::glwe::GlweCiphertext;
use crate::glwe::glwe_ciphertext_monic_monomial_div_assign;
use crate::glwe::glwe_ciphertext_plaintext_add_assign;
use crate::lwe::LweCiphertext;
use crate::ggsw::GgswCiphertext;
use crate::ggsw::ext_fold;
use crate::ggsw::glwe_clone;
use crate::ggsw::add_external_product_assign;
use crate::gadget::glwe_maskv;
use crate::gadget::glev_wf;
use crate::automorphism::zero_mask_seq;
use crate::glwe::extract_lwe_sample_from_glwe_ciphertext;

verus! {

/// The modulus switch used by the blind rotation: reduce a torus value to
/// a rotation amount in [0, 2N], rounding at the cut and clearing
/// log_lut_count low bits to select a lane-aligned rotation.
pub open spec fn pbs_switch_spec(v: u64, logn: nat, llc: nat) -> int
    recommends
        1 <= logn <= 28,
        llc <= logn,
{
    let shift = (62 - logn + llc) as nat;
    (((v as int / pow2(shift) as int) + 1) / 2) * pow2(llc) as int
}

/// A bootstrap key: one GGSW selector (encrypting one input key bit) per
/// input LWE mask position.
pub struct BootstrapKey {
    pub ggsws: Vec<GgswCiphertext>,
}

impl BootstrapKey {
    pub open spec fn input_lwe_dimension(&self) -> nat {
        self.ggsws@.len()
    }

    pub open spec fn glwe_dimension(&self) -> nat {
        if self.ggsws@.len() == 0 {
            0
        } else {
            self.ggsws@[0].glwe_dimension()
        }
    }

    pub open spec fn poly_size(&self) -> nat {
        if self.ggsws@.len() == 0 {
            0
        } else {
            self.ggsws@[0].poly_size()
        }
    }

    pub open spec fn base_log(&self) -> nat {
        if self.ggsws@.len() == 0 {
            0
        } else {
            self.ggsws@[0].base_log as nat
        }
    }

    pub open spec fn levels(&self) -> nat {
        if self.ggsws@.len() == 0 {
            0
        } else {
            self.ggsws@[0].levels as nat
        }
    }

    /// The LWE dimension of samples extracted after a rotation.
    pub open spec fn output_lwe_dimension(&self) -> nat {
        self.glwe_dimension() * self.poly_size()
    }

    pub open spec fn wf(&self) -> bool {
        &&& self.ggsws@.len() >= 1
        &&& forall|i: int|
            0 <= i < self.ggsws@.len() ==> (#[trigger] self.ggsws@[i]).wf()
                && self.ggsws@[i].glwe_dimension() == self.glwe_dimension()
                && self.ggsws@[i].poly_size() == self.poly_size()
                && self.ggsws@[i].base_log == self.base_log()
                && self.ggsws@[i].levels == self.levels()
    }
}

/// One CMux-rotation step of the blind rotation: with rotation amount d,
/// acc <- acc + ggsw (x) (acc * X^d - acc).
pub open spec fn cmux_rot_step(
    mask: Seq<Seq<u64>>,
    body: Seq<u64>,
    d: nat,
    ggsw: GgswCiphertext,
) -> (Seq<Seq<u64>>, Seq<u64>) {
    let t1_mask = Seq::new(mask.len(), |c: int| psub(monomial_mul(mask[c], d), mask[c]));
    let t1_body = psub(monomial_mul(body, d), body);
    ext_fold(
        mask,
        body,
        t1_mask,
        t1_body,
        ggsw.base_log as nat,
        ggsw.levels as nat,
        ggsw.cols@,
        (ggsw.glwe_dimension() + 1) as nat,
    )
}

/// The blind rotation fold over the first `upto` LWE mask positions: zero
/// mask elements are skipped, every other one contributes one CMux
/// rotation by its modulus-switched amount.
pub open spec fn blind_rotate_fold(
    mask: Seq<Seq<u64>>,
    body: Seq<u64>,
    lwe_mask: Seq<u64>,
    logn: nat,
    llc: nat,
    ggsws: Seq<GgswCiphertext>,
    upto: nat,
) -> (Seq<Seq<u64>>, Seq<u64>)
    decreases upto,
{
    if upto == 0 {
        (mask, body)
    } else {
        let prev = blind_rotate_fold(mask, body, lwe_mask, logn, llc, ggsws, (upto - 1) as nat);
        if lwe_mask[upto - 1] == 0 {
            prev
        } else {
            cmux_rot_step(
                prev.0,
                prev.1,
                pbs_switch_spec(lwe_mask[upto - 1], logn, llc) as nat,
                ggsws[upto - 1],
            )
        }
    }
}

/// Modulus-switch a torus value to a (lane-aligned) rotation amount.
pub fn pbs_modulus_switch(input: u64, poly_size: usize, log_lut_count: usize) -> (r: usize)
    requires
        2 <= poly_size <= 0x1000_0000,
        exists|e: nat| e < 64 && poly_size == pow2(e),
        log_lut_count < 29,
        pow2(log_lut_count as nat) <= poly_size,
    ensures
        r == pbs_switch_spec(input, log2_spec_of(poly_size as nat), log_lut_count as nat),
        r <= 2 * poly_size,
{
    let logn = log2_exact(poly_size);
    proof {
        lemma2_to64();
        if logn == 0 {
            assert(pow2(0) == 1);
        }
        assert(logn >= 1);
        assert(pow2(logn as nat) <= pow2(28) ==> logn <= 28) by {
            if logn > 28 {
                lemma_pow2_strictly_increases(28, logn as nat);
            }
        }
        lemma2_to64_rest();
        assert(pow2(28) == 0x10000000);
        assert(logn <= 28);
        assert(log_lut_count <= logn) by {
            if log_lut_count > logn {
                lemma_pow2_strictly_increases(logn as nat, log_lut_count as nat);
            }
        }
        assert(log2_spec_of(poly_size as nat) == logn as nat) by {
            lemma_log2_spec_of(poly_size as nat, logn as nat);
        }
    }
    let shift = 62 - logn + log_lut_count;
    let p = pow2_u64(shift);
    let vp = input / p;
    proof {
        // vp < 2^(logn + 2 - llc), so the rounding and the lane product
        // stay small.
        assert((input as int) / (p as int) < (pow2((logn + 2 - log_lut_count) as nat) as int)) by {
            lemma_pow2_adds(shift as nat, (logn + 2 - log_lut_count) as nat);
            lemma_pow2_pos(shift as nat);
            lemma_pow2_pos((logn + 2 - log_lut_count) as nat);
            assert(pow2(64) == pow2(shift as nat) * pow2((logn + 2 - log_lut_count) as nat));
            assert((input as int) < pow2(64)) by {
                lemma2_to64_rest();
            }
            lemma_multiply_divide_lt(
                input as int,
                p as int,
                pow2((logn + 2 - log_lut_count) as nat) as int,
            );
        }
        assert(pow2((logn + 2 - log_lut_count) as nat) <= pow2(30)) by {
            if logn + 2 - log_lut_count < 30 {
                lemma_pow2_strictly_increases((logn + 2 - log_lut_count) as nat, 30);
            }
        }
        lemma2_to64_rest();
    }
    let half = vp + 1;
    let rounded = half / 2;
    let lane = pow2_u64(log_lut_count);
    proof {
        assert(rounded as int <= pow2((logn + 1 - log_lut_count) as nat) as int) by {
            lemma_pow2_unfold((logn + 2 - log_lut_count) as nat);
            lemma_div_is_ordered(
                half as int,
                2 * pow2((logn + 1 - log_lut_count) as nat) as int,
                2,
            );
            assert((2 * pow2((logn + 1 - log_lut_count) as nat) as int) / 2 == pow2(
                (logn + 1 - log_lut_count) as nat,
            ) as int) by {
                lemma_div_by_multiple(pow2((logn + 1 - log_lut_count) as nat) as int, 2);
                lemma_mul_is_commutative(2, pow2((logn + 1 - log_lut_count) as nat) as int);
            }
        }
        assert(rounded as int * lane as int <= 2 * poly_size) by {
            lemma_pow2_adds((logn + 1 - log_lut_count) as nat, log_lut_count as nat);
            lemma_mul_inequality(
                rounded as int,
                pow2((logn + 1 - log_lut_count) as nat) as int,
                lane as int,
            );
            lemma_pow2_unfold((logn + 1) as nat);
        }
    }
    let r = (rounded as usize) * (lane as usize);
    r
}

/// The base-two logarithm, as a specification value (the witness of the
/// power-of-two existential).
pub open spec fn log2_spec_of(n: nat) -> nat {
    choose|e: nat| n == pow2(e)
}

/// Any two exponents of the same power of two agree, so the chosen
/// logarithm equals any witnessed one.
pub proof fn lemma_log2_spec_of(n: nat, e: nat)
    requires
        n == pow2(e),
    ensures
        log2_spec_of(n) == e,
{
    let c = log2_spec_of(n);
    assert(n == pow2(c));
    if c < e {
        lemma_pow2_strictly_increases(c, e);
    }
    if e < c {
        lemma_pow2_strictly_increases(e, c);
    }
}

/// Rotate an encrypted lookup table by an encrypted amount: first divide by
/// X^(switch(body)), then fold in one CMux rotation per nonzero mask
/// element against the bootstrap key.
pub fn blind_rotate_assign(
    bsk: &BootstrapKey,
    lut: &mut GlweCiphertext,
    log_lut_count: usize,
    lwe: &LweCiphertext,
)
    requires
        bsk.wf(),
        old(lut).wf(),
        old(lut).glwe_dimension() == bsk.glwe_dimension(),
        old(lut).poly_size() == bsk.poly_size(),
        lwe.lwe_dimension() == bsk.input_lwe_dimension(),
        2 <= old(lut).poly_size(),
        exists|e: nat| e < 64 && old(lut).poly_size() == pow2(e),
        log_lut_count < 29,
        pow2(log_lut_count as nat) <= old(lut).poly_size(),
    ensures
        final(lut).wf(),
        final(lut).glwe_dimension() == old(lut).glwe_dimension(),
        final(lut).poly_size() == old(lut).poly_size(),
        (glwe_maskv(*final(lut)), final(lut).body@) == blind_rotate_fold(
            Seq::new(
                old(lut).glwe_dimension(),
                |c: int|
                    monomial_div(
                        glwe_maskv(*old(lut))[c],
                        pbs_switch_spec(
                            lwe.body,
                            log2_spec_of(old(lut).poly_size()),
                            log_lut_count as nat,
                        ) as nat,
                    ),
            ),
            monomial_div(
                old(lut).body@,
                pbs_switch_spec(
                    lwe.body,
                    log2_spec_of(old(lut).poly_size()),
                    log_lut_count as nat,
                ) as nat,
            ),
            lwe.mask@,
            log2_spec_of(old(lut).poly_size()),
            log_lut_count as nat,
            bsk.ggsws@,
            lwe.lwe_dimension(),
        ),
{
    let n = lut.body.len();
    let kdim = lut.mask.len();
    let ghost logn = log2_spec_of(n as nat);
    proof {
        let e = choose|e: nat| e < 64 && old(lut).poly_size() == pow2(e);
        lemma_log2_spec_of(n as nat, e);
    }
    let d0 = pbs_modulus_switch(lwe.body, n, log_lut_count);
    glwe_ciphertext_monic_monomial_div_assign(lut, d0);
    let ghost mask0 = Seq::new(
        kdim as nat,
        |c: int| monomial_div(glwe_maskv(*old(lut))[c], d0 as nat),
    );
    let ghost body0 = monomial_div(old(lut).body@, d0 as nat);
    proof {
        assert(glwe_maskv(*lut) =~= mask0) by {
            assert forall|c: int| 0 <= c < kdim implies glwe_maskv(*lut)[c] == mask0[c] by {
                assert(glwe_maskv(*lut)[c] == lut.mask@[c]@);
                assert(glwe_maskv(*old(lut))[c] == old(lut).mask@[c]@);
            }
        }
        assert(lut.body@ == body0);
    }
    let dim = lwe.mask.len();
    let mut i: usize = 0;
    while i < dim
        invariant
            lut.wf(),
            lut.glwe_dimension() == kdim,
            lut.poly_size() == n,
            bsk.wf(),
            bsk.glwe_dimension() == kdim,
            bsk.poly_size() == n,
            bsk.input_lwe_dimension() == dim,
            lwe.mask@.len() == dim,
            2 <= n <= 0x1000_0000,
            n == pow2(logn),
            logn < 64,
            log_lut_count < 29,
            pow2(log_lut_count as nat) <= n,
            i <= dim,
            mask0.len() == kdim,
            body0.len() == n,
            (glwe_maskv(*lut), lut.body@) == blind_rotate_fold(
                mask0,
                body0,
                lwe.mask@,
                logn,
                log_lut_count as nat,
                bsk.ggsws@,
                i as nat,
            ),
        decreases dim - i,
    {
        let a_i = lwe.mask[i];
        if a_i != 0 {
            let d = pbs_modulus_switch(a_i, n, log_lut_count);
            proof {
                lemma_log2_spec_of(n as nat, logn);
            }
            let ghost mask_pre = glwe_maskv(*lut);
            let ghost body_pre = lut.body@;
            // ct1 = lut * X^d - lut, polynomial by polynomial.
            let mut t1_mask: Vec<Vec<u64>> = Vec::new();
            let mut c: usize = 0;
            while c < kdim
                invariant
                    lut.wf(),
                    lut.glwe_dimension() == kdim,
                    lut.poly_size() == n,
                    2 <= n <= 0x1000_0000,
                    c <= kdim,
                    t1_mask@.len() == c,
                    forall|t: int|
                        0 <= t < c ==> (#[trigger] t1_mask@[t])@ == psub(
                            monomial_mul(lut.mask@[t]@, d as nat),
                            lut.mask@[t]@,
                        ),
                decreases kdim - c,
            {
                assert(lut.mask@[c as int]@.len() == n);
                let mut buf: Vec<u64> = Vec::new();
                buf.resize(n, 0u64);
                polynomial_wrapping_monic_monomial_mul_and_subtract(&mut buf, &lut.mask[c], d);
                t1_mask.push(buf);
                c = c + 1;
            }
            let mut t1_body: Vec<u64> = Vec::new();
            t1_body.resize(n, 0u64);
            polynomial_wrapping_monic_monomial_mul_and_subtract(&mut t1_body, &lut.body, d);
            let t1 = GlweCiphertext { mask: t1_mask, body: t1_body };
            let ggsw = &bsk.ggsws[i];
            add_external_product_assign(lut, ggsw, &t1);
            proof {
                let step = cmux_rot_step(
                    mask_pre,
                    body_pre,
                    pbs_switch_spec(lwe.mask@[i as int], logn, log_lut_count as nat) as nat,
                    bsk.ggsws@[i as int],
                );
                assert(glwe_maskv(t1) =~= Seq::new(
                    mask_pre.len(),
                    |c: int| psub(monomial_mul(mask_pre[c], d as nat), mask_pre[c]),
                )) by {
                    assert forall|t: int| 0 <= t < kdim implies glwe_maskv(t1)[t] == psub(
                        monomial_mul(mask_pre[t], d as nat),
                        mask_pre[t],
                    ) by {
                        assert(glwe_maskv(t1)[t] == t1.mask@[t]@);
                    }
                }
                assert((glwe_maskv(*lut), lut.body@) == step);
            }
        }
        i = i + 1;
    }
}


/// One coefficient of the interleaved multi-value lookup accumulator:
/// position i serves level acc_idx*lut_count + (i mod lut_count) + 1, whose
/// target value is +-2^(log_scale - 1); the sign realizes the negacyclic
/// redundancy box (negative on the first half before the half-box
/// rotation, which this closed form already includes).
pub open spec fn msb_lut_coeff(n: nat, lc: nat, acc_idx: nat, bl: nat, i: int) -> u64
    recommends
        1 <= lc,
        1 <= bl,
        (acc_idx * lc + lc) * bl < 64,
{
    let ls = 64 - (acc_idx * lc + (i % (lc as int)) + 1) * bl;
    let half = pow2((ls - 1) as nat) as int;
    if i >= n / 2 {
        wrap(half)
    } else {
        wrap(-half)
    }
}

/// The interleaved multi-value lookup accumulator polynomial.
pub open spec fn msb_lut_body(n: nat, lc: nat, acc_idx: nat, bl: nat) -> Seq<u64> {
    Seq::new(n, |i: int| msb_lut_coeff(n, lc, acc_idx, bl, i))
}

/// Build the trivial GLWE holding the interleaved multi-value accumulator
/// for one chunk of levels.
pub fn build_msb_lut(
    glwe_dimension: usize,
    poly_size: usize,
    lut_count: usize,
    acc_idx: usize,
    base_log: usize,
) -> (out: GlweCiphertext)
    requires
        2 <= poly_size <= 0x1000_0000,
        1 <= lut_count,
        1 <= base_log,
        (acc_idx * lut_count + lut_count) * base_log < 64,
    ensures
        out.wf(),
        out.glwe_dimension() == glwe_dimension,
        out.poly_size() == poly_size,
        out.is_trivial(),
        glwe_maskv(out) == zero_mask_seq(glwe_dimension as nat, poly_size as nat),
        out.body@ == msb_lut_body(
            poly_size as nat,
            lut_count as nat,
            acc_idx as nat,
            base_log as nat,
        ),
{
    let n = poly_size;
    let mut body: Vec<u64> = Vec::new();
    let mut i: usize = 0;
    while i < n
        invariant
            2 <= n <= 0x1000_0000,
            1 <= lut_count,
            1 <= base_log,
            (acc_idx * lut_count + lut_count) * base_log < 64,
            i <= n,
            body@.len() == i,
            forall|t: int|
                0 <= t < i ==> body@[t] == msb_lut_coeff(
                    n as nat,
                    lut_count as nat,
                    acc_idx as nat,
                    base_log as nat,
                    t,
                ),
        decreases n - i,
    {
        let lane = i % lut_count;
        proof {
            lemma_mod_bound(i as int, lut_count as int);
            assert((acc_idx * lut_count + lane + 1) * base_log < 64) by (nonlinear_arith)
                requires
                    lane < lut_count,
                    base_log >= 1,
                    (acc_idx * lut_count + lut_count) * base_log < 64,
                    acc_idx >= 0,
                    lut_count >= 1,
            ;
            assert((acc_idx * lut_count + lane + 1) * base_log >= 1) by (nonlinear_arith)
                requires
                    lane >= 0,
                    base_log >= 1,
                    acc_idx >= 0,
                    lut_count >= 1,
            ;
            assert(acc_idx * lut_count + lane + 1 <= 63) by (nonlinear_arith)
                requires
                    (acc_idx * lut_count + lane + 1) * base_log < 64,
                    base_log >= 1,
                    acc_idx >= 0,
                    lut_count >= 1,
                    lane >= 0,
            ;
        }
        let ls = 64 - (acc_idx * lut_count + lane + 1) * base_log;
        let half = pow2_u64(ls - 1);
        let v = if i >= n / 2 {
            proof {
                crate::arith::lemma_wrap_id(half);
            }
            half
        } else {
            crate::poly::torus_neg(half)
        };
        body.push(v);
        i = i + 1;
    }
    let mut mask: Vec<Vec<u64>> = Vec::new();
    let mut r: usize = 0;
    while r < glwe_dimension
        invariant
            r <= glwe_dimension,
            mask@.len() == r,
            n >= 1,
            forall|t: int|
                0 <= t < r ==> (#[trigger] mask@[t])@ =~= Seq::<u64>::new(
                    n as nat,
                    |j: int| 0u64,
                ),
        decreases glwe_dimension - r,
    {
        let mut p: Vec<u64> = Vec::new();
        p.resize(n, 0u64);
        assert(p@ =~= Seq::<u64>::new(n as nat, |j: int| 0u64));
        mask.push(p);
        r = r + 1;
    }
    let out = GlweCiphertext { mask, body };
    proof {
        assert(out.body@ =~= msb_lut_body(
            poly_size as nat,
            lut_count as nat,
            acc_idx as nat,
            base_log as nat,
        ));
        assert(glwe_maskv(out) =~= zero_mask_seq(glwe_dimension as nat, poly_size as nat)) by {
            assert forall|t: int| 0 <= t < glwe_dimension implies glwe_maskv(out)[t]
                == zero_mask_seq(glwe_dimension as nat, poly_size as nat)[t] by {
                assert(glwe_maskv(out)[t] == out.mask@[t]@);
                assert(out.mask@[t]@ =~= Seq::<u64>::new(n as nat, |j: int| 0u64));
            }
        }
        assert forall|t: int| 0 <= t < out.mask@.len() implies crate::poly::is_zero_poly(
            (#[trigger] out.mask@[t])@,
        ) by {
            assert(out.mask@[t]@ =~= Seq::<u64>::new(n as nat, |j: int| 0u64));
        }
    }
    out
}

/// The rotated multi-value accumulator of one chunk: the trivial
/// accumulator blind-rotated by the input ciphertext.
pub open spec fn msb_rotated(
    lwe: LweCiphertext,
    kdim: nat,
    n: nat,
    llc: nat,
    ggsws: Seq<GgswCiphertext>,
    lc: nat,
    acc_idx: nat,
    bl: nat,
) -> (Seq<Seq<u64>>, Seq<u64>) {
    let logn = log2_spec_of(n);
    let d0 = pbs_switch_spec(lwe.body, logn, llc) as nat;
    blind_rotate_fold(
        Seq::new(kdim, |c: int| monomial_div(zero_mask_seq(kdim, n)[c], d0)),
        monomial_div(msb_lut_body(n, lc, acc_idx, bl), d0),
        lwe.mask@,
        logn,
        llc,
        ggsws,
        lwe.mask@.len(),
    )
}

/// The mask of the LWE sample extracted at coefficient 0 of a GLWE
/// ciphertext with the given mask polynomials.
pub open spec fn extract0_mask(mask: Seq<Seq<u64>>, n: nat) -> Seq<u64> {
    Seq::new(
        mask.len() * n,
        |idx: int|
            {
                let r = idx / (n as int);
                let i = idx % (n as int);
                if i == 0 {
                    mask[r][0]
                } else {
                    wrap(-(mask[r][n + 0 - i] as int))
                }
            },
    )
}


/// The mask of ladder entry l of the multi-value extraction, as a function
/// of the input ciphertext and the bootstrap key.
pub open spec fn msb_lev_entry_mask(
    lwe: LweCiphertext,
    kdim: nat,
    n: nat,
    llc: nat,
    ggsws: Seq<GgswCiphertext>,
    bl: nat,
    l: int,
) -> Seq<u64> {
    let lc = pow2(llc) as int;
    let rot = msb_rotated(lwe, kdim, n, llc, ggsws, pow2(llc), (l / lc) as nat, bl);
    extract0_mask(Seq::new(kdim, |c: int| monomial_div(rot.0[c], (l % lc) as nat)), n)
}

/// The body of ladder entry l of the multi-value extraction.
pub open spec fn msb_lev_entry_body(
    lwe: LweCiphertext,
    kdim: nat,
    n: nat,
    llc: nat,
    ggsws: Seq<GgswCiphertext>,
    bl: nat,
    l: int,
) -> u64 {
    let lc = pow2(llc) as int;
    let rot = msb_rotated(lwe, kdim, n, llc, ggsws, pow2(llc), (l / lc) as nat, bl);
    wrap(monomial_div(rot.1, (l % lc) as nat)[0] + pow2((63 - (l + 1) * bl) as nat))
}

/// Extract the levels of the most-significant-bit ladder of an encrypted
/// bit: one blind rotation per chunk of lut_count levels, then one
/// lane-shifted sample extraction per level, each re-centered by the
/// level's half step.
pub fn lwe_msb_bit_to_lev(
    lwe: &LweCiphertext,
    bsk: &BootstrapKey,
    lev_base_log: usize,
    lev_level: usize,
    log_lut_count: usize,
) -> (out: Vec<LweCiphertext>)
    requires
        bsk.wf(),
        lwe.lwe_dimension() == bsk.input_lwe_dimension(),
        2 <= bsk.poly_size() <= 0x1000_0000,
        exists|e: nat| e < 64 && bsk.poly_size() == pow2(e),
        log_lut_count < 29,
        2 * pow2(log_lut_count as nat) <= bsk.poly_size(),
        1 <= lev_base_log,
        1 <= lev_level,
        lev_level * lev_base_log < 64,
        ((lev_level + pow2(log_lut_count as nat) - 1) as int / (pow2(log_lut_count as nat) as int))
            * (pow2(log_lut_count as nat) as int) * (lev_base_log as int) < 64,
        bsk.glwe_dimension() * bsk.poly_size() <= 0x4000_0000,
    ensures
        out@.len() == lev_level,
        forall|l: int|
            0 <= l < lev_level ==> {
                let lc = pow2(log_lut_count as nat) as int;
                let rot = msb_rotated(
                    *lwe,
                    bsk.glwe_dimension(),
                    bsk.poly_size(),
                    log_lut_count as nat,
                    bsk.ggsws@,
                    lc as nat,
                    (l / lc) as nat,
                    lev_base_log as nat,
                );
                (#[trigger] out@[l]).mask@ == extract0_mask(
                    Seq::new(
                        bsk.glwe_dimension(),
                        |c: int| monomial_div(rot.0[c], (l % lc) as nat),
                    ),
                    bsk.poly_size(),
                ) && out@[l].body == wrap(
                    monomial_div(rot.1, (l % lc) as nat)[0] + pow2(
                        (63 - (l + 1) * lev_base_log) as nat,
                    ),
                )
            },
        forall|l: int|
            0 <= l < lev_level ==> (#[trigger] out@[l]).mask@ == msb_lev_entry_mask(
                *lwe,
                bsk.glwe_dimension(),
                bsk.poly_size(),
                log_lut_count as nat,
                bsk.ggsws@,
                lev_base_log as nat,
                l,
            ) && out@[l].body == msb_lev_entry_body(
                *lwe,
                bsk.glwe_dimension(),
                bsk.poly_size(),
                log_lut_count as nat,
                bsk.ggsws@,
                lev_base_log as nat,
                l,
            ),
{
    let n = bsk.ggsws[0].cols[0][0].body.len();
    let kdim = bsk.ggsws[0].cols.len() - 1;
    proof {
        assert(bsk.ggsws@[0].cols@[0]@[0].poly_size() == bsk.poly_size());
        assert(glev_wf(
            bsk.ggsws@[0].cols@[0]@,
            bsk.glwe_dimension(),
            bsk.poly_size(),
            bsk.ggsws@[0].levels as nat,
        ));
    }
    proof {
        assert(pow2(log_lut_count as nat) <= 0x1000_0000);
    }
    let lut_count = pow2_u64(log_lut_count) as usize;
    proof {
        assert(lut_count == pow2(log_lut_count as nat));
        assert(1 <= lut_count);
    }
    let mut out: Vec<LweCiphertext> = Vec::new();
    let mut l: usize = 0;
    while l < lev_level
        invariant
            bsk.wf(),
            lwe.lwe_dimension() == bsk.input_lwe_dimension(),
            n == bsk.poly_size(),
            kdim == bsk.glwe_dimension(),
            2 <= n <= 0x1000_0000,
            exists|e: nat| e < 64 && n == pow2(e),
            log_lut_count < 29,
            lut_count == pow2(log_lut_count as nat),
            1 <= lut_count,
            2 * lut_count <= n,
            1 <= lev_base_log,
            1 <= lev_level,
            lev_level * lev_base_log < 64,
            ((lev_level + lut_count - 1) as int / (lut_count as int)) * (lut_count as int)
                * (lev_base_log as int) < 64,
            kdim * n <= 0x4000_0000,
            l <= lev_level,
            l == lev_level || (l as int) % (lut_count as int) == 0,
            out@.len() == l,
            forall|t: int|
                0 <= t < l ==> {
                    let lc = lut_count as int;
                    let rot = msb_rotated(
                        *lwe,
                        kdim as nat,
                        n as nat,
                        log_lut_count as nat,
                        bsk.ggsws@,
                        lc as nat,
                        (t / lc) as nat,
                        lev_base_log as nat,
                    );
                    (#[trigger] out@[t]).mask@ == extract0_mask(
                        Seq::new(kdim as nat, |c: int| monomial_div(rot.0[c], (t % lc) as nat)),
                        n as nat,
                    ) && out@[t].body == wrap(
                        monomial_div(rot.1, (t % lc) as nat)[0] + pow2(
                            (63 - (t + 1) * lev_base_log) as nat,
                        ),
                    )
                },
        decreases lev_level - l,
    {
        let acc_idx = l / lut_count;
        proof {
            lemma_fundamental_div_mod(l as int, lut_count as int);
            assert(l == acc_idx * lut_count) by (nonlinear_arith)
                requires
                    l as int == (lut_count as int) * (acc_idx as int) + (l as int) % (
                    lut_count as int),
                    (l as int) % (lut_count as int) == 0,
            ;
            let lc = lut_count as int;
            let ceil = (lev_level + lc - 1) / lc;
            // acc_idx is at most the index of the last chunk.
            lemma_div_is_ordered(l as int, lev_level - 1, lc);
            lemma_div_plus_one(lev_level - 1, lc);
            assert(ceil == (lev_level - 1) / lc + 1);
            assert(acc_idx + 1 <= ceil);
            assert((acc_idx * lut_count + lut_count) * lev_base_log < 64) by (nonlinear_arith)
                requires
                    acc_idx + 1 <= ceil,
                    ceil * lc * lev_base_log < 64,
                    lc == lut_count as int,
                    1 <= lut_count,
                    1 <= lev_base_log,
                    acc_idx >= 0,
            ;
        }
        // One blind rotation serves the whole chunk: each of the chunk's
        // lut_count lanes is then shifted down, re-centered and extracted
        // without rotating again.
        let mut acc = build_msb_lut(kdim, n, lut_count, acc_idx, lev_base_log);
        let ghost acc0 = acc;
        blind_rotate_assign(bsk, &mut acc, log_lut_count, lwe);
        proof {
            let logn = log2_spec_of(n as nat);
            let d0 = pbs_switch_spec(lwe.body, logn, log_lut_count as nat) as nat;
            assert(Seq::new(
                kdim as nat,
                |c: int| monomial_div(glwe_maskv(acc0)[c], d0),
            ) =~= Seq::new(
                kdim as nat,
                |c: int| monomial_div(zero_mask_seq(kdim as nat, n as nat)[c], d0),
            ));
            assert((glwe_maskv(acc), acc.body@) == msb_rotated(
                *lwe,
                kdim as nat,
                n as nat,
                log_lut_count as nat,
                bsk.ggsws@,
                lut_count as nat,
                acc_idx as nat,
                lev_base_log as nat,
            ));
        }
        let ghost l0 = l as int;
        let mut kk: usize = 0;
        while kk < lut_count && l < lev_level
            invariant
                2 <= n <= 0x1000_0000,
                kdim * n <= 0x4000_0000,
                1 <= lut_count,
                2 * lut_count <= n,
                1 <= lev_base_log,
                1 <= lev_level,
                lev_level * lev_base_log < 64,
                acc.wf(),
                acc.glwe_dimension() == kdim,
                acc.poly_size() == n,
                (glwe_maskv(acc), acc.body@) == msb_rotated(
                    *lwe,
                    kdim as nat,
                    n as nat,
                    log_lut_count as nat,
                    bsk.ggsws@,
                    lut_count as nat,
                    acc_idx as nat,
                    lev_base_log as nat,
                ),
                kk <= lut_count,
                l <= lev_level,
                l == acc_idx * lut_count + kk,
                l0 == acc_idx * lut_count,
                out@.len() == l,
                forall|t: int|
                    0 <= t < l ==> {
                        let lc = lut_count as int;
                        let rot = msb_rotated(
                            *lwe,
                            kdim as nat,
                            n as nat,
                            log_lut_count as nat,
                            bsk.ggsws@,
                            lc as nat,
                            (t / lc) as nat,
                            lev_base_log as nat,
                        );
                        (#[trigger] out@[t]).mask@ == extract0_mask(
                            Seq::new(
                                kdim as nat,
                                |c: int| monomial_div(rot.0[c], (t % lc) as nat),
                            ),
                            n as nat,
                        ) && out@[t].body == wrap(
                            monomial_div(rot.1, (t % lc) as nat)[0] + pow2(
                                (63 - (t + 1) * lev_base_log) as nat,
                            ),
                        )
                    },
            decreases lev_level - l,
        {
            let ghost rot = msb_rotated(
                *lwe,
                kdim as nat,
                n as nat,
                log_lut_count as nat,
                bsk.ggsws@,
                lut_count as nat,
                acc_idx as nat,
                lev_base_log as nat,
            );
            proof {
                lemma_fundamental_div_mod_converse(
                    l as int,
                    lut_count as int,
                    acc_idx as int,
                    kk as int,
                );
                assert((l + 1) * lev_base_log <= lev_level * lev_base_log) by (nonlinear_arith)
                    requires
                        l + 1 <= lev_level,
                        lev_base_log >= 0,
                ;
            }
            // Shift to the level's lane, re-center, and extract coefficient 0.
            let mut buf = glwe_clone(&acc);
            proof {
                assert(glwe_maskv(buf) =~= glwe_maskv(acc));
            }
            glwe_ciphertext_monic_monomial_div_assign(&mut buf, kk);
            let ls = 64 - (l + 1) * lev_base_log;
            let half = pow2_u64(ls - 1);
            glwe_ciphertext_plaintext_add_assign(&mut buf, half);
            let sample = extract_lwe_sample_from_glwe_ciphertext(&buf, 0);
            proof {
                assert(sample.mask@ =~= extract0_mask(
                    Seq::new(kdim as nat, |c: int| monomial_div(rot.0[c], kk as nat)),
                    n as nat,
                )) by {
                    let divd = Seq::new(kdim as nat, |c: int| monomial_div(rot.0[c], kk as nat));
                    assert forall|idx: int|
                        0 <= idx < kdim * n implies sample.mask@[idx] == extract0_mask(
                        divd,
                        n as nat,
                    )[idx] by {
                        let r = idx / (n as int);
                        let i = idx % (n as int);
                        lemma_fundamental_div_mod(idx, n as int);
                        lemma_mod_bound(idx, n as int);
                        assert(0 <= r < kdim) by (nonlinear_arith)
                            requires
                                idx == (n as int) * r + i,
                                0 <= i < n,
                                0 <= idx < kdim * n,
                                n >= 1,
                        ;
                        assert(sample.mask@[r * (n as int) + i] == (if i <= 0 {
                            buf.mask@[r]@[0 - i]
                        } else {
                            wrap(-(buf.mask@[r]@[n + 0 - i] as int))
                        }));
                        assert(buf.mask@[r]@ == divd[r]);
                        assert(r * (n as int) + i == idx) by (nonlinear_arith)
                            requires
                                idx == (n as int) * r + i,
                        ;
                    }
                }
                assert(sample.body == wrap(
                    monomial_div(rot.1, kk as nat)[0] + pow2(
                        (63 - (l + 1) * lev_base_log) as nat,
                    ),
                )) by {
                    assert(buf.body@[0] == wrap(
                        monomial_div(rot.1, kk as nat)[0] + half,
                    ));
                }
            }
            out.push(sample);
            l = l + 1;
            kk = kk + 1;
        }
        proof {
            if l != lev_level {
                assert(kk == lut_count);
                assert(l as int == (acc_idx as int + 1) * (lut_count as int)) by (nonlinear_arith)
                    requires
                        l == acc_idx * lut_count + kk,
                        kk == lut_count,
                ;
                lemma_fundamental_div_mod_converse(
                    l as int,
                    lut_count as int,
                    acc_idx as int + 1,
                    0,
                );
            }
            assert(l > l0);
        }
    }
    out
}

/// Re-bootstrap an encrypted bit to reduce its noise: a single-value blind
/// rotation against the refresh key, extracting the re-encrypted bit at
/// the top-bit scale.
pub fn lwe_msb_bit_refresh(input: &LweCiphertext, refresh_bsk: &BootstrapKey) -> (out:
    LweCiphertext)
    requires
        refresh_bsk.wf(),
        input.lwe_dimension() == refresh_bsk.input_lwe_dimension(),
        2 <= refresh_bsk.poly_size() <= 0x1000_0000,
        exists|e: nat| e < 64 && refresh_bsk.poly_size() == pow2(e),
        refresh_bsk.glwe_dimension() * refresh_bsk.poly_size() <= 0x4000_0000,
    ensures
        ({
            let rot = msb_rotated(
                *input,
                refresh_bsk.glwe_dimension(),
                refresh_bsk.poly_size(),
                0,
                refresh_bsk.ggsws@,
                1,
                0,
                1,
            );
            out.mask@ == extract0_mask(
                Seq::new(refresh_bsk.glwe_dimension(), |c: int| monomial_div(rot.0[c], 0)),
                refresh_bsk.poly_size(),
            ) && out.body == wrap(monomial_div(rot.1, 0)[0] + pow2(62))
        }),
{
    proof {
        lemma2_to64();
        assert(pow2(0) == 1);
    }
    let mut lev = lwe_msb_bit_to_lev(input, refresh_bsk, 1, 1, 0);
    let out = match lev.pop() {
        Some(s) => s,
        None => {
            proof {
                assert(false);
            }
            vstd::pervasive::unreached()
        },
    };
    out
}


/// Build the box-redundant lookup accumulator for a general function: the
/// table value of box i fills coefficients [i*box, (i+1)*box), the first
/// half box is negated and the whole polynomial is rotated by a half box
/// to realize the negacyclic redundancy.
pub open spec fn accumulator_coeff(
    table: Seq<u64>,
    n: nat,
    delta: u64,
    i: int,
) -> u64 {
    let box_size = (n as int) / (table.len() as int);
    let shifted = (i + (box_size / 2)) % (n as int);
    let v = wrap((table[shifted / box_size] as int) * (delta as int));
    if shifted < box_size / 2 {
        wrap(-(v as int))
    } else {
        v
    }
}

/// Build the trivial GLWE holding the lookup accumulator of a message
/// function given by its value table.
pub fn generate_accumulator(
    poly_size: usize,
    glwe_dimension: usize,
    message_modulus: usize,
    delta: u64,
    table: &Vec<u64>,
) -> (out: GlweCiphertext)
    requires
        2 <= poly_size <= 0x1000_0000,
        1 <= message_modulus <= poly_size,
        table@.len() == message_modulus,
        poly_size as int % (message_modulus as int) == 0,
    ensures
        out.wf(),
        out.glwe_dimension() == glwe_dimension,
        out.poly_size() == poly_size,
        out.is_trivial(),
        forall|i: int|
            0 <= i < poly_size ==> out.body@[i] == accumulator_coeff(
                table@,
                poly_size as nat,
                delta,
                i,
            ),
{
    let n = poly_size;
    let box_size = n / message_modulus;
    proof {
        lemma_div_pos_is_pos(n as int, message_modulus as int);
        vstd::arithmetic::div_mod::lemma_fundamental_div_mod(n as int, message_modulus as int);
        assert(box_size >= 1) by {
            if box_size == 0 {
                assert(n as int == (message_modulus as int) * 0 + 0);
            }
        }
    }
    let mut body: Vec<u64> = Vec::new();
    let mut i: usize = 0;
    while i < n
        invariant
            2 <= n <= 0x1000_0000,
            1 <= message_modulus <= n,
            table@.len() == message_modulus,
            box_size == n / message_modulus,
            n as int % (message_modulus as int) == 0,
            box_size >= 1,
            i <= n,
            body@.len() == i,
            forall|t: int|
                0 <= t < i ==> body@[t] == accumulator_coeff(table@, n as nat, delta, t),
        decreases n - i,
    {
        let shifted = (i + box_size / 2) % n;
        let idx = shifted / box_size;
        proof {
            lemma_mod_bound((i + box_size / 2) as int, n as int);
            // shifted / box_size < message_modulus because shifted < n ==
            // message_modulus * box_size.
            assert(n as int == (message_modulus as int) * (box_size as int)) by {
                vstd::arithmetic::div_mod::lemma_fundamental_div_mod(
                    n as int,
                    message_modulus as int,
                );
            }
            lemma_multiply_divide_lt(shifted as int, box_size as int, message_modulus as int);
            crate::arith::lemma_wrapping_mul(table@[idx as int], delta);
        }
        let v = table[idx].wrapping_mul(delta);
        let c = if shifted < box_size / 2 {
            crate::poly::torus_neg(v)
        } else {
            v
        };
        body.push(c);
        i = i + 1;
    }
    let mut out = GlweCiphertext::new_zero(glwe_dimension, n);
    out.body = body;
    proof {
        assert(out.wf());
    }
    out
}

} // verus!
