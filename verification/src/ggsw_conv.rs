//! Scheme switching and circuit bootstrapping: lift a GLev ladder
//! (level-decomposed additive encryptions of a bit) into a full GGSW
//! selector, either through the scheme-switching relation key or through a
//! packing keyswitch, and the end-to-end circuit bootstrap of a single
//! encrypted bit.
use vstd::prelude::*;
use vstd::arithmetic::power2::*;
use crate::glwe::GlweCiphertext;
use crate::glwe::glwe_phase;
use crate::lwe::LweCiphertext;
use crate::ggsw::GgswCiphertext;
use crate::ggsw::glwe_clone;
use crate::ggsw::add_external_product_assign;
use crate::ggsw::ext_fold;
use crate::gadget::glwe_maskv;
use crate::gadget::glev_wf;
use crate::gadget::glev_scaled_sub_assign;
use crate::gadget::ks_sub_fold_rows;
use crate::automorphism::zero_mask_seq;
use crate::automorphism::AutomorphKeyMap;
use crate::pbs::BootstrapKey;
use crate::pbs::lwe_msb_bit_to_lev;
use crate::pbs::msb_lev_entry_mask;
use crate::pbs::msb_lev_entry_body;
use crate::glwe_conv::convert_lwe_to_glwe_by_trace_with_preprocessing;
use crate::glwe_conv::convert_pipeline_pair;
use crate::automorphism::AutomorphKey;

verus! {

/// The all-zero polynomial of length n, as a specification value.
pub open spec fn zero_poly_seq(n: nat) -> Seq<u64> {
    Seq::new(n, |j: int| 0u64)
}

/// The constant polynomial v * X^0 of length n.
pub open spec fn const_poly_seq(v: u64, n: nat) -> Seq<u64> {
    Seq::new(n, |j: int| if j == 0 { v } else { 0u64 })
}


/// The packing keyswitch of an LWE value pair, as a function of the key:
/// the fold of the constant-embedded mask coefficients against the key
/// ladders, starting from the trivial ciphertext holding the body.
pub open spec fn pksk_packed_pair(
    lwe_mask: Seq<u64>,
    lwe_body: u64,
    pksk: LwePackingKeyswitchKey,
) -> (Seq<Seq<u64>>, Seq<u64>) {
    ks_sub_fold_rows(
        zero_mask_seq(pksk.output_glwe_dimension as nat, pksk.poly_size()),
        const_poly_seq(lwe_body, pksk.poly_size()),
        Seq::new(lwe_mask.len(), |i: int| const_poly_seq(lwe_mask[i], pksk.poly_size())),
        pksk.base_log as nat,
        pksk.levels as nat,
        pksk.keys@.map_values(|v: Vec<GlweCiphertext>| v@),
        lwe_mask.len(),
    )
}

/// GLev entry l of the trace-path circuit bootstrap, as a function of the
/// input bit ciphertext, the bootstrap key and the automorphism keys: the
/// multi-value ladder sample of level l, run through the preprocess /
/// re-embed / trace pipeline.
pub open spec fn cbs_trace_glev_pair(
    lwe: LweCiphertext,
    bsk: BootstrapKey,
    entries: Seq<AutomorphKey>,
    bl: nat,
    llc: nat,
    l: int,
) -> (Seq<Seq<u64>>, Seq<u64>) {
    convert_pipeline_pair(
        msb_lev_entry_mask(lwe, bsk.glwe_dimension(), bsk.poly_size(), llc, bsk.ggsws@, bl, l),
        msb_lev_entry_body(lwe, bsk.glwe_dimension(), bsk.poly_size(), llc, bsk.ggsws@, bl, l),
        bsk.glwe_dimension(),
        bsk.poly_size(),
        entries,
    )
}

/// GLev entry l of the packing-keyswitch circuit bootstrap.
pub open spec fn cbs_pksk_glev_pair(
    lwe: LweCiphertext,
    bsk: BootstrapKey,
    pksk: LwePackingKeyswitchKey,
    bl: nat,
    llc: nat,
    l: int,
) -> (Seq<Seq<u64>>, Seq<u64>) {
    pksk_packed_pair(
        msb_lev_entry_mask(lwe, bsk.glwe_dimension(), bsk.poly_size(), llc, bsk.ggsws@, bl, l),
        msb_lev_entry_body(lwe, bsk.glwe_dimension(), bsk.poly_size(), llc, bsk.ggsws@, bl, l),
        pksk,
    )
}

/// The output of the trace-path circuit bootstrap: a GGSW whose body rows
/// are the GLev entries of the input bit and whose mask rows are their
/// external products against the scheme-switching relation keys.
pub open spec fn cbs_trace_rel(
    lwe: LweCiphertext,
    bsk: BootstrapKey,
    entries: Seq<AutomorphKey>,
    ss_key: Seq<GgswCiphertext>,
    bl: nat,
    lvls: nat,
    llc: nat,
    out: GgswCiphertext,
) -> bool {
    &&& out.wf()
    &&& out.glwe_dimension() == bsk.glwe_dimension()
    &&& out.poly_size() == bsk.poly_size()
    &&& out.base_log == bl
    &&& out.levels == lvls
    &&& forall|c: int|
        0 <= c < lvls ==> {
            let gp = cbs_trace_glev_pair(lwe, bsk, entries, bl, llc, c);
            let row = #[trigger] out.cols@[ss_key.len() as int]@[c];
            glwe_maskv(row) == gp.0 && row.body@ == gp.1
        }
    &&& forall|r: int, c: int|
        0 <= r < ss_key.len() && 0 <= c < lvls ==> {
            let gp = cbs_trace_glev_pair(lwe, bsk, entries, bl, llc, c);
            let row = #[trigger] out.cols@[r]@[c];
            (glwe_maskv(row), row.body@) == ext_fold(
                zero_mask_seq(ss_key.len(), bsk.poly_size()),
                zero_poly_seq(bsk.poly_size()),
                gp.0,
                gp.1,
                ss_key[r].base_log as nat,
                ss_key[r].levels as nat,
                ss_key[r].cols@,
                (ss_key.len() + 1) as nat,
            )
        }
}

/// The circuit-bootstrap relation depends only on the input ciphertext's
/// value: it transfers between ciphertexts with equal mask and body.
pub proof fn lemma_cbs_trace_rel_value(
    l1: LweCiphertext,
    l2: LweCiphertext,
    bsk: BootstrapKey,
    entries: Seq<AutomorphKey>,
    ss_key: Seq<GgswCiphertext>,
    bl: nat,
    lvls: nat,
    llc: nat,
    out: GgswCiphertext,
)
    requires
        l1.mask@ == l2.mask@,
        l1.body == l2.body,
        cbs_trace_rel(l1, bsk, entries, ss_key, bl, lvls, llc, out),
    ensures
        cbs_trace_rel(l2, bsk, entries, ss_key, bl, lvls, llc, out),
{
    assert forall|c: int| true implies #[trigger] cbs_trace_glev_pair(l2, bsk, entries, bl, llc, c)
        == cbs_trace_glev_pair(l1, bsk, entries, bl, llc, c) by {
        assert(msb_lev_entry_mask(
            l2,
            bsk.glwe_dimension(),
            bsk.poly_size(),
            llc,
            bsk.ggsws@,
            bl,
            c,
        ) == msb_lev_entry_mask(
            l1,
            bsk.glwe_dimension(),
            bsk.poly_size(),
            llc,
            bsk.ggsws@,
            bl,
            c,
        )) by {
            assert(crate::pbs::msb_rotated(
                l2,
                bsk.glwe_dimension(),
                bsk.poly_size(),
                llc,
                bsk.ggsws@,
                pow2(llc),
                (c / (pow2(llc) as int)) as nat,
                bl,
            ) == crate::pbs::msb_rotated(
                l1,
                bsk.glwe_dimension(),
                bsk.poly_size(),
                llc,
                bsk.ggsws@,
                pow2(llc),
                (c / (pow2(llc) as int)) as nat,
                bl,
            ));
        }
        assert(msb_lev_entry_body(
            l2,
            bsk.glwe_dimension(),
            bsk.poly_size(),
            llc,
            bsk.ggsws@,
            bl,
            c,
        ) == msb_lev_entry_body(
            l1,
            bsk.glwe_dimension(),
            bsk.poly_size(),
            llc,
            bsk.ggsws@,
            bl,
            c,
        )) by {
            assert(crate::pbs::msb_rotated(
                l2,
                bsk.glwe_dimension(),
                bsk.poly_size(),
                llc,
                bsk.ggsws@,
                pow2(llc),
                (c / (pow2(llc) as int)) as nat,
                bl,
            ) == crate::pbs::msb_rotated(
                l1,
                bsk.glwe_dimension(),
                bsk.poly_size(),
                llc,
                bsk.ggsws@,
                pow2(llc),
                (c / (pow2(llc) as int)) as nat,
                bl,
            ));
        }
    }
}

/// The output of the packing-keyswitch circuit bootstrap.
pub open spec fn cbs_pksk_rel(
    lwe: LweCiphertext,
    bsk: BootstrapKey,
    pksk: LwePackingKeyswitchKey,
    ss_key: Seq<GgswCiphertext>,
    bl: nat,
    lvls: nat,
    llc: nat,
    out: GgswCiphertext,
) -> bool {
    &&& out.wf()
    &&& out.glwe_dimension() == bsk.glwe_dimension()
    &&& out.poly_size() == bsk.poly_size()
    &&& out.base_log == bl
    &&& out.levels == lvls
    &&& forall|c: int|
        0 <= c < lvls ==> {
            let gp = cbs_pksk_glev_pair(lwe, bsk, pksk, bl, llc, c);
            let row = #[trigger] out.cols@[ss_key.len() as int]@[c];
            glwe_maskv(row) == gp.0 && row.body@ == gp.1
        }
    &&& forall|r: int, c: int|
        0 <= r < ss_key.len() && 0 <= c < lvls ==> {
            let gp = cbs_pksk_glev_pair(lwe, bsk, pksk, bl, llc, c);
            let row = #[trigger] out.cols@[r]@[c];
            (glwe_maskv(row), row.body@) == ext_fold(
                zero_mask_seq(ss_key.len(), bsk.poly_size()),
                zero_poly_seq(bsk.poly_size()),
                gp.0,
                gp.1,
                ss_key[r].base_log as nat,
                ss_key[r].levels as nat,
                ss_key[r].cols@,
                (ss_key.len() + 1) as nat,
            )
        }
}

/// Scheme switching: convert a GLev ladder encrypting a bit into a full
/// GGSW selector. For every level, the k mask rows are the external
/// products of the ladder entry with the per-key-polynomial relation keys,
/// and the body row is the ladder entry copied verbatim.
pub fn switch_scheme(
    glev: &Vec<GlweCiphertext>,
    ss_key: &Vec<GgswCiphertext>,
    ggsw_base_log: usize,
    ggsw_levels: usize,
) -> (out: GgswCiphertext)
    requires
        glev@.len() == ggsw_levels,
        1 <= ggsw_base_log,
        1 <= ggsw_levels,
        ggsw_levels * ggsw_base_log < 64,
        ss_key@.len() >= 1,
        forall|r: int|
            0 <= r < ss_key@.len() ==> (#[trigger] ss_key@[r]).wf() && ss_key@[r].glwe_dimension()
                == ss_key@.len() && ss_key@[r].poly_size() == ss_key@[0].poly_size(),
        forall|c: int|
            0 <= c < glev@.len() ==> (#[trigger] glev@[c]).wf() && glev@[c].glwe_dimension()
                == ss_key@.len() && glev@[c].poly_size() == ss_key@[0].poly_size(),
        1 <= ss_key@[0].poly_size() <= 0x1000_0000,
    ensures
        out.wf(),
        out.glwe_dimension() == ss_key@.len(),
        out.poly_size() == ss_key@[0].poly_size(),
        out.base_log == ggsw_base_log,
        out.levels == ggsw_levels,
        // Body rows: the ladder entries, copied verbatim.
        forall|c: int|
            0 <= c < ggsw_levels ==> {
                let row = #[trigger] out.cols@[ss_key@.len() as int]@[c];
                glwe_maskv(row) == glwe_maskv(glev@[c]) && row.body@ == glev@[c].body@
            },
        // Mask rows: the external product of the ladder entry against the
        // relation key of the corresponding key polynomial.
        forall|r: int, c: int|
            0 <= r < ss_key@.len() && 0 <= c < ggsw_levels ==> {
                let row = #[trigger] out.cols@[r]@[c];
                (glwe_maskv(row), row.body@) == ext_fold(
                    zero_mask_seq(ss_key@.len() as nat, ss_key@[0].poly_size()),
                    zero_poly_seq(ss_key@[0].poly_size()),
                    glwe_maskv(glev@[c]),
                    glev@[c].body@,
                    ss_key@[r].base_log as nat,
                    ss_key@[r].levels as nat,
                    ss_key@[r].cols@,
                    (ss_key@.len() + 1) as nat,
                )
            },
{
    let k = ss_key.len();
    let n = ss_key[0].cols[0][0].body.len();
    proof {
        assert(glev_wf(
            ss_key@[0].cols@[0]@,
            ss_key@[0].glwe_dimension(),
            ss_key@[0].poly_size(),
            ss_key@[0].levels as nat,
        ));
        assert(n == ss_key@[0].poly_size());
    }
    let mut cols: Vec<Vec<GlweCiphertext>> = Vec::new();
    let mut r: usize = 0;
    while r < k
        invariant
            glev@.len() == ggsw_levels,
            ss_key@.len() == k,
            k >= 1,
            n == ss_key@[0].poly_size(),
            1 <= n <= 0x1000_0000,
            forall|t: int|
                0 <= t < k ==> (#[trigger] ss_key@[t]).wf() && ss_key@[t].glwe_dimension()
                    == k && ss_key@[t].poly_size() == n,
            forall|c: int|
                0 <= c < glev@.len() ==> (#[trigger] glev@[c]).wf() && glev@[c].glwe_dimension()
                    == k && glev@[c].poly_size() == n,
            r <= k,
            cols@.len() == r,
            forall|t: int| 0 <= t < r ==> (#[trigger] cols@[t])@.len() == ggsw_levels,
            forall|t: int, c: int|
                0 <= t < r && 0 <= c < ggsw_levels ==> {
                    let row = #[trigger] cols@[t]@[c];
                    row.wf() && row.glwe_dimension() == k && row.poly_size() == n && (glwe_maskv(
                        row,
                    ), row.body@) == ext_fold(
                        zero_mask_seq(k as nat, n as nat),
                        zero_poly_seq(n as nat),
                        glwe_maskv(glev@[c]),
                        glev@[c].body@,
                        ss_key@[t].base_log as nat,
                        ss_key@[t].levels as nat,
                        ss_key@[t].cols@,
                        (k + 1) as nat,
                    )
                },
        decreases k - r,
    {
        let mut ladder: Vec<GlweCiphertext> = Vec::new();
        let mut c: usize = 0;
        while c < ggsw_levels
            invariant
                glev@.len() == ggsw_levels,
                ss_key@.len() == k,
                k >= 1,
                r < k,
                n == ss_key@[0].poly_size(),
                1 <= n <= 0x1000_0000,
                forall|t: int|
                    0 <= t < k ==> (#[trigger] ss_key@[t]).wf() && ss_key@[t].glwe_dimension()
                        == k && ss_key@[t].poly_size() == n,
                forall|cc: int|
                    0 <= cc < glev@.len() ==> (#[trigger] glev@[cc]).wf()
                        && glev@[cc].glwe_dimension() == k && glev@[cc].poly_size() == n,
                c <= ggsw_levels,
                ladder@.len() == c,
                forall|cc: int|
                    0 <= cc < c ==> {
                        let row = #[trigger] ladder@[cc];
                        row.wf() && row.glwe_dimension() == k && row.poly_size() == n && (
                        glwe_maskv(row), row.body@) == ext_fold(
                            zero_mask_seq(k as nat, n as nat),
                            zero_poly_seq(n as nat),
                            glwe_maskv(glev@[cc]),
                            glev@[cc].body@,
                            ss_key@[r as int].base_log as nat,
                            ss_key@[r as int].levels as nat,
                            ss_key@[r as int].cols@,
                            (k + 1) as nat,
                        )
                    },
            decreases ggsw_levels - c,
        {
            let mut acc = GlweCiphertext::new_zero(k, n);
            proof {
                assert(glwe_maskv(acc) =~= zero_mask_seq(k as nat, n as nat)) by {
                    assert forall|t: int| 0 <= t < k implies glwe_maskv(acc)[t] == zero_mask_seq(
                        k as nat,
                        n as nat,
                    )[t] by {
                        assert(glwe_maskv(acc)[t] == acc.mask@[t]@);
                        assert(crate::poly::is_zero_poly(acc.mask@[t]@));
                        assert(glwe_maskv(acc)[t] =~= zero_mask_seq(k as nat, n as nat)[t]);
                    }
                }
                assert(acc.body@ =~= zero_poly_seq(n as nat));
            }
            add_external_product_assign(&mut acc, &ss_key[r], &glev[c]);
            ladder.push(acc);
            c = c + 1;
        }
        cols.push(ladder);
        r = r + 1;
    }
    // The body column: the ladder entries themselves.
    let mut body_col: Vec<GlweCiphertext> = Vec::new();
    let mut c: usize = 0;
    while c < ggsw_levels
        invariant
            glev@.len() == ggsw_levels,
            k >= 1,
            1 <= n <= 0x1000_0000,
            forall|cc: int|
                0 <= cc < glev@.len() ==> (#[trigger] glev@[cc]).wf() && glev@[cc].glwe_dimension()
                    == k && glev@[cc].poly_size() == n,
            c <= ggsw_levels,
            body_col@.len() == c,
            forall|cc: int|
                0 <= cc < c ==> {
                    let row = #[trigger] body_col@[cc];
                    row.wf() && row.glwe_dimension() == k && row.poly_size() == n && glwe_maskv(
                        row,
                    ) == glwe_maskv(glev@[cc]) && row.body@ == glev@[cc].body@
                },
        decreases ggsw_levels - c,
    {
        let row = glwe_clone(&glev[c]);
        proof {
            assert(glwe_maskv(row) =~= glwe_maskv(glev@[c as int]));
        }
        body_col.push(row);
        c = c + 1;
    }
    cols.push(body_col);
    let out = GgswCiphertext { base_log: ggsw_base_log, levels: ggsw_levels, cols };
    proof {
        assert(out.cols@.len() == k + 1);
        assert(out.glwe_dimension() == k);
        assert(out.cols@[0]@.len() == ggsw_levels);
        if ggsw_levels > 0 {
            assert(out.poly_size() == n);
        }
        assert forall|t: int| 0 <= t < out.cols@.len() implies glev_wf(
            (#[trigger] out.cols@[t])@,
            out.glwe_dimension(),
            out.poly_size(),
            out.levels as nat,
        ) by {
            if t < k {
                assert(out.cols@[t] == cols@[t]);
            } else {
                assert(out.cols@[t] == body_col);
            }
        }
    }
    out
}

/// The phase of the copied body rows is the phase of the ladder entries:
/// the scheme switch preserves the body encryption verbatim.
pub proof fn lemma_switch_scheme_body_phase(
    key: Seq<Seq<u64>>,
    row: GlweCiphertext,
    entry: GlweCiphertext,
)
    requires
        glwe_maskv(row) == glwe_maskv(entry),
        row.body@ == entry.body@,
    ensures
        glwe_phase(key, row) == glwe_phase(key, entry),
{
    assert(row.mask@.map_values(|p: Vec<u64>| p@) == entry.mask@.map_values(|p: Vec<u64>| p@));
    assert(glwe_phase(key, row) =~= glwe_phase(key, entry));
}

/// A packing keyswitch key from an LWE key to a GLWE key: one GLev ladder
/// per LWE key coefficient.
pub struct LwePackingKeyswitchKey {
    pub base_log: usize,
    pub levels: usize,
    pub output_glwe_dimension: usize,
    pub keys: Vec<Vec<GlweCiphertext>>,
}

impl LwePackingKeyswitchKey {
    pub open spec fn input_lwe_dimension(&self) -> nat {
        self.keys@.len()
    }

    pub open spec fn poly_size(&self) -> nat {
        if self.keys@.len() == 0 || self.keys@[0]@.len() == 0 {
            0
        } else {
            self.keys@[0]@[0].poly_size()
        }
    }

    pub open spec fn wf(&self) -> bool {
        &&& self.keys@.len() >= 1
        &&& 1 <= self.base_log
        &&& 1 <= self.levels
        &&& self.levels * self.base_log < 64
        &&& 1 <= self.output_glwe_dimension
        &&& 1 <= self.poly_size() <= 0x1000_0000
        &&& forall|i: int|
            0 <= i < self.keys@.len() ==> glev_wf(
                (#[trigger] self.keys@[i])@,
                self.output_glwe_dimension as nat,
                self.poly_size(),
                self.levels as nat,
            )
    }
}

/// Keyswitch an LWE ciphertext into a GLWE ciphertext at coefficient 0:
/// starting from the trivial ciphertext with the LWE body at coefficient
/// 0, fold (subtract) every decomposition level of every (constant-
/// polynomial-embedded) mask coefficient against its key ladder.
pub fn keyswitch_lwe_ciphertext_into_glwe_ciphertext(
    pksk: &LwePackingKeyswitchKey,
    lwe: &LweCiphertext,
) -> (out: GlweCiphertext)
    requires
        pksk.wf(),
        lwe.lwe_dimension() == pksk.input_lwe_dimension(),
    ensures
        out.wf(),
        out.glwe_dimension() == pksk.output_glwe_dimension,
        out.poly_size() == pksk.poly_size(),
        (glwe_maskv(out), out.body@) == ks_sub_fold_rows(
            zero_mask_seq(pksk.output_glwe_dimension as nat, pksk.poly_size()),
            const_poly_seq(lwe.body, pksk.poly_size()),
            Seq::new(lwe.mask@.len(), |i: int| const_poly_seq(lwe.mask@[i], pksk.poly_size())),
            pksk.base_log as nat,
            pksk.levels as nat,
            pksk.keys@.map_values(|v: Vec<GlweCiphertext>| v@),
            lwe.mask@.len(),
        ),
{
    let dim = lwe.mask.len();
    let kout = pksk.output_glwe_dimension;
    let n = pksk.keys[0][0].body.len();
    proof {
        assert(glev_wf(
            pksk.keys@[0]@,
            pksk.output_glwe_dimension as nat,
            pksk.poly_size(),
            pksk.levels as nat,
        ));
        assert(n == pksk.poly_size());
    }
    // Trivial ciphertext holding the LWE body at coefficient 0.
    let mut body: Vec<u64> = Vec::new();
    body.push(lwe.body);
    let mut j: usize = 1;
    while j < n
        invariant
            1 <= j <= n,
            body@.len() == j,
            body@[0] == lwe.body,
            forall|t: int| 1 <= t < j ==> body@[t] == 0,
        decreases n - j,
    {
        body.push(0u64);
        j = j + 1;
    }
    let mut zero_mask: Vec<Vec<u64>> = Vec::new();
    let mut r: usize = 0;
    while r < kout
        invariant
            r <= kout,
            zero_mask@.len() == r,
            n >= 1,
            forall|t: int|
                0 <= t < r ==> (#[trigger] zero_mask@[t])@ =~= Seq::<u64>::new(
                    n as nat,
                    |j: int| 0u64,
                ),
        decreases kout - r,
    {
        let mut p: Vec<u64> = Vec::new();
        p.resize(n, 0u64);
        assert(p@ =~= Seq::<u64>::new(n as nat, |j: int| 0u64));
        zero_mask.push(p);
        r = r + 1;
    }
    let mut out = GlweCiphertext { mask: zero_mask, body };
    let ghost srcs = Seq::new(lwe.mask@.len(), |i: int| const_poly_seq(lwe.mask@[i], n as nat));
    proof {
        assert(glwe_maskv(out) =~= zero_mask_seq(kout as nat, n as nat)) by {
            assert forall|t: int| 0 <= t < kout implies glwe_maskv(out)[t] == zero_mask_seq(
                kout as nat,
                n as nat,
            )[t] by {
                assert(glwe_maskv(out)[t] == out.mask@[t]@);
                assert(out.mask@[t]@ =~= Seq::<u64>::new(n as nat, |j: int| 0u64));
            }
        }
        assert(out.body@ =~= const_poly_seq(lwe.body, n as nat));
        assert(out.wf());
    }
    let mut i: usize = 0;
    while i < dim
        invariant
            out.wf(),
            out.glwe_dimension() == kout,
            out.poly_size() == n,
            pksk.wf(),
            pksk.output_glwe_dimension == kout,
            pksk.input_lwe_dimension() == dim,
            pksk.poly_size() == n,
            lwe.mask@.len() == dim,
            1 <= n <= 0x1000_0000,
            srcs == Seq::new(lwe.mask@.len(), |t: int| const_poly_seq(lwe.mask@[t], n as nat)),
            i <= dim,
            (glwe_maskv(out), out.body@) == ks_sub_fold_rows(
                zero_mask_seq(kout as nat, n as nat),
                const_poly_seq(lwe.body, n as nat),
                srcs,
                pksk.base_log as nat,
                pksk.levels as nat,
                pksk.keys@.map_values(|v: Vec<GlweCiphertext>| v@),
                i as nat,
            ),
        decreases dim - i,
    {
        // Embed the LWE mask coefficient as a constant polynomial.
        let mut src: Vec<u64> = Vec::new();
        src.push(lwe.mask[i]);
        let mut j: usize = 1;
        while j < n
            invariant
                lwe.mask@.len() == dim,
                i < dim,
                1 <= j <= n,
                src@.len() == j,
                src@[0] == lwe.mask@[i as int],
                forall|t: int| 1 <= t < j ==> src@[t] == 0,
            decreases n - j,
        {
            src.push(0u64);
            j = j + 1;
        }
        proof {
            assert(src@ =~= const_poly_seq(lwe.mask@[i as int], n as nat));
            assert(srcs[i as int] == const_poly_seq(lwe.mask@[i as int], n as nat));
            assert(glev_wf(pksk.keys@[i as int]@, kout as nat, n as nat, pksk.levels as nat));
            let keysv = pksk.keys@.map_values(|v: Vec<GlweCiphertext>| v@);
            assert(keysv[i as int] == pksk.keys@[i as int]@);
        }
        glev_scaled_sub_assign(&mut out, &src, pksk.base_log, pksk.levels, &pksk.keys[i]);
        i = i + 1;
    }
    out
}

/// Extract the GLev ladder of an encrypted bit through the trace-based
/// packing: one multi-value bootstrap ladder, each entry preprocessed,
/// re-embedded and traced into a GLWE ciphertext.
pub fn lwe_msb_bit_to_glev_by_trace_with_preprocessing(
    lwe_in: &LweCiphertext,
    bsk: &BootstrapKey,
    auto_keys: &AutomorphKeyMap,
    glev_base_log: usize,
    glev_level: usize,
    log_lut_count: usize,
) -> (out: Vec<GlweCiphertext>)
    requires
        bsk.wf(),
        lwe_in.lwe_dimension() == bsk.input_lwe_dimension(),
        2 <= bsk.poly_size() <= 0x1000_0000,
        exists|e: nat| e < 64 && bsk.poly_size() == pow2(e),
        log_lut_count < 29,
        2 * pow2(log_lut_count as nat) <= bsk.poly_size(),
        1 <= glev_base_log,
        1 <= glev_level,
        glev_level * glev_base_log < 64,
        ((glev_level + pow2(log_lut_count as nat) - 1) as int / (pow2(
            log_lut_count as nat,
        ) as int)) * (pow2(log_lut_count as nat) as int) * (glev_base_log as int) < 64,
        bsk.glwe_dimension() * bsk.poly_size() <= 0x4000_0000,
        auto_keys.wf_for(bsk.glwe_dimension(), bsk.poly_size()),
        forall|st: int|
            1 <= st && (exists|e: nat| st == pow2(e)) && 2 * st <= bsk.poly_size()
                ==> #[trigger] auto_keys.contains_exponent(bsk.poly_size() as int / st + 1),
    ensures
        out@.len() == glev_level,
        forall|l: int|
            0 <= l < glev_level ==> (#[trigger] out@[l]).wf() && out@[l].glwe_dimension()
                == bsk.glwe_dimension() && out@[l].poly_size() == bsk.poly_size(),
        forall|l: int|
            0 <= l < glev_level ==> (glwe_maskv(#[trigger] out@[l]), out@[l].body@)
                == cbs_trace_glev_pair(
                *lwe_in,
                *bsk,
                auto_keys.entries@,
                glev_base_log as nat,
                log_lut_count as nat,
                l,
            ),
{
    let n = bsk.ggsws[0].cols[0][0].body.len();
    let kdim = bsk.ggsws[0].cols.len() - 1;
    proof {
        assert(bsk.ggsws@[0].cols@[0]@[0].poly_size() == bsk.poly_size());
        assert(glev_wf(
            bsk.ggsws@[0].cols@[0]@,
            bsk.glwe_dimension(),
            bsk.poly_size(),
            bsk.ggsws@[0].levels as nat,
        ));
    }
    let lev = lwe_msb_bit_to_lev(lwe_in, bsk, glev_base_log, glev_level, log_lut_count);
    let mut out: Vec<GlweCiphertext> = Vec::new();
    let mut l: usize = 0;
    while l < glev_level
        invariant
            lev@.len() == glev_level,
            n == bsk.poly_size(),
            kdim == bsk.glwe_dimension(),
            2 <= n <= 0x1000_0000,
            exists|e: nat| e < 64 && n == pow2(e),
            kdim * n <= 0x4000_0000,
            forall|t: int| 0 <= t < glev_level ==> (#[trigger] lev@[t]).lwe_dimension() == kdim
                * n,
            forall|t: int|
                0 <= t < glev_level ==> (#[trigger] lev@[t]).mask@ == msb_lev_entry_mask(
                    *lwe_in,
                    kdim as nat,
                    n as nat,
                    log_lut_count as nat,
                    bsk.ggsws@,
                    glev_base_log as nat,
                    t,
                ) && lev@[t].body == msb_lev_entry_body(
                    *lwe_in,
                    kdim as nat,
                    n as nat,
                    log_lut_count as nat,
                    bsk.ggsws@,
                    glev_base_log as nat,
                    t,
                ),
            kdim == bsk.glwe_dimension(),
            n == bsk.poly_size(),
            auto_keys.wf_for(kdim as nat, n as nat),
            forall|st: int|
                1 <= st && (exists|e: nat| st == pow2(e)) && 2 * st <= n
                    ==> #[trigger] auto_keys.contains_exponent(n as int / st + 1),
            l <= glev_level,
            out@.len() == l,
            forall|t: int|
                0 <= t < l ==> (#[trigger] out@[t]).wf() && out@[t].glwe_dimension() == kdim
                    && out@[t].poly_size() == n,
            forall|t: int|
                0 <= t < l ==> (glwe_maskv(#[trigger] out@[t]), out@[t].body@)
                    == cbs_trace_glev_pair(
                    *lwe_in,
                    *bsk,
                    auto_keys.entries@,
                    glev_base_log as nat,
                    log_lut_count as nat,
                    t,
                ),
        decreases glev_level - l,
    {
        let glwe = convert_lwe_to_glwe_by_trace_with_preprocessing(&lev[l], kdim, n, auto_keys);
        proof {
            assert((glwe_maskv(glwe), glwe.body@) == cbs_trace_glev_pair(
                *lwe_in,
                *bsk,
                auto_keys.entries@,
                glev_base_log as nat,
                log_lut_count as nat,
                l as int,
            ));
        }
        out.push(glwe);
        l = l + 1;
    }
    out
}

/// Extract the GLev ladder of an encrypted bit through a packing
/// keyswitch: one multi-value bootstrap ladder, each entry packed into a
/// GLWE ciphertext by the packing keyswitch key.
pub fn lwe_msb_bit_to_glev_by_pksk(
    lwe_in: &LweCiphertext,
    bsk: &BootstrapKey,
    pksk: &LwePackingKeyswitchKey,
    glev_base_log: usize,
    glev_level: usize,
    log_lut_count: usize,
) -> (out: Vec<GlweCiphertext>)
    requires
        bsk.wf(),
        lwe_in.lwe_dimension() == bsk.input_lwe_dimension(),
        2 <= bsk.poly_size() <= 0x1000_0000,
        exists|e: nat| e < 64 && bsk.poly_size() == pow2(e),
        log_lut_count < 29,
        2 * pow2(log_lut_count as nat) <= bsk.poly_size(),
        1 <= glev_base_log,
        1 <= glev_level,
        glev_level * glev_base_log < 64,
        ((glev_level + pow2(log_lut_count as nat) - 1) as int / (pow2(
            log_lut_count as nat,
        ) as int)) * (pow2(log_lut_count as nat) as int) * (glev_base_log as int) < 64,
        bsk.glwe_dimension() * bsk.poly_size() <= 0x4000_0000,
        pksk.wf(),
        pksk.input_lwe_dimension() == bsk.glwe_dimension() * bsk.poly_size(),
    ensures
        out@.len() == glev_level,
        forall|l: int|
            0 <= l < glev_level ==> (#[trigger] out@[l]).wf() && out@[l].glwe_dimension()
                == pksk.output_glwe_dimension && out@[l].poly_size() == pksk.poly_size(),
        forall|l: int|
            0 <= l < glev_level ==> (glwe_maskv(#[trigger] out@[l]), out@[l].body@)
                == cbs_pksk_glev_pair(
                *lwe_in,
                *bsk,
                *pksk,
                glev_base_log as nat,
                log_lut_count as nat,
                l,
            ),
{
    let lev = lwe_msb_bit_to_lev(lwe_in, bsk, glev_base_log, glev_level, log_lut_count);
    let ghost kdim = bsk.glwe_dimension();
    let ghost n = bsk.poly_size();
    let mut out: Vec<GlweCiphertext> = Vec::new();
    let mut l: usize = 0;
    while l < glev_level
        invariant
            lev@.len() == glev_level,
            pksk.wf(),
            pksk.input_lwe_dimension() == kdim * n,
            kdim == bsk.glwe_dimension(),
            n == bsk.poly_size(),
            forall|t: int| 0 <= t < glev_level ==> (#[trigger] lev@[t]).lwe_dimension() == kdim
                * n,
            forall|t: int|
                0 <= t < glev_level ==> (#[trigger] lev@[t]).mask@ == msb_lev_entry_mask(
                    *lwe_in,
                    kdim as nat,
                    n as nat,
                    log_lut_count as nat,
                    bsk.ggsws@,
                    glev_base_log as nat,
                    t,
                ) && lev@[t].body == msb_lev_entry_body(
                    *lwe_in,
                    kdim as nat,
                    n as nat,
                    log_lut_count as nat,
                    bsk.ggsws@,
                    glev_base_log as nat,
                    t,
                ),
            l <= glev_level,
            out@.len() == l,
            forall|t: int|
                0 <= t < l ==> (#[trigger] out@[t]).wf() && out@[t].glwe_dimension()
                    == pksk.output_glwe_dimension && out@[t].poly_size() == pksk.poly_size(),
            forall|t: int|
                0 <= t < l ==> (glwe_maskv(#[trigger] out@[t]), out@[t].body@)
                    == cbs_pksk_glev_pair(
                    *lwe_in,
                    *bsk,
                    *pksk,
                    glev_base_log as nat,
                    log_lut_count as nat,
                    t,
                ),
        decreases glev_level - l,
    {
        let glwe = keyswitch_lwe_ciphertext_into_glwe_ciphertext(pksk, &lev[l]);
        out.push(glwe);
        l = l + 1;
    }
    out
}

/// Circuit bootstrap through the trace-based packing: extract the GLev
/// ladder of the bit, then lift it into a GGSW selector with the
/// scheme-switching key.
pub fn circuit_bootstrap_lwe_ciphertext_by_trace_with_preprocessing(
    lwe_in: &LweCiphertext,
    bsk: &BootstrapKey,
    auto_keys: &AutomorphKeyMap,
    ss_key: &Vec<GgswCiphertext>,
    ggsw_base_log: usize,
    ggsw_level: usize,
    log_lut_count: usize,
) -> (out: GgswCiphertext)
    requires
        bsk.wf(),
        lwe_in.lwe_dimension() == bsk.input_lwe_dimension(),
        2 <= bsk.poly_size() <= 0x1000_0000,
        exists|e: nat| e < 64 && bsk.poly_size() == pow2(e),
        log_lut_count < 29,
        2 * pow2(log_lut_count as nat) <= bsk.poly_size(),
        1 <= ggsw_base_log,
        1 <= ggsw_level,
        ggsw_level * ggsw_base_log < 64,
        ((ggsw_level + pow2(log_lut_count as nat) - 1) as int / (pow2(
            log_lut_count as nat,
        ) as int)) * (pow2(log_lut_count as nat) as int) * (ggsw_base_log as int) < 64,
        bsk.glwe_dimension() * bsk.poly_size() <= 0x4000_0000,
        auto_keys.wf_for(bsk.glwe_dimension(), bsk.poly_size()),
        forall|st: int|
            1 <= st && (exists|e: nat| st == pow2(e)) && 2 * st <= bsk.poly_size()
                ==> #[trigger] auto_keys.contains_exponent(bsk.poly_size() as int / st + 1),
        ss_key@.len() == bsk.glwe_dimension(),
        ss_key@.len() >= 1,
        forall|r: int|
            0 <= r < ss_key@.len() ==> (#[trigger] ss_key@[r]).wf() && ss_key@[r].glwe_dimension()
                == ss_key@.len() && ss_key@[r].poly_size() == bsk.poly_size(),
    ensures
        out.wf(),
        out.glwe_dimension() == bsk.glwe_dimension(),
        out.poly_size() == bsk.poly_size(),
        out.base_log == ggsw_base_log,
        out.levels == ggsw_level,
        cbs_trace_rel(
            *lwe_in,
            *bsk,
            auto_keys.entries@,
            ss_key@,
            ggsw_base_log as nat,
            ggsw_level as nat,
            log_lut_count as nat,
            out,
        ),
{
    let glev = lwe_msb_bit_to_glev_by_trace_with_preprocessing(
        lwe_in,
        bsk,
        auto_keys,
        ggsw_base_log,
        ggsw_level,
        log_lut_count,
    );
    proof {
        assert(ss_key@[0].poly_size() == bsk.poly_size());
    }
    let out = switch_scheme(&glev, ss_key, ggsw_base_log, ggsw_level);
    proof {
        assert forall|c: int| 0 <= c < ggsw_level implies ({
            let gp = cbs_trace_glev_pair(
                *lwe_in,
                *bsk,
                auto_keys.entries@,
                ggsw_base_log as nat,
                log_lut_count as nat,
                c,
            );
            let row = #[trigger] out.cols@[ss_key@.len() as int]@[c];
            glwe_maskv(row) == gp.0 && row.body@ == gp.1
        }) by {
            assert((glwe_maskv(glev@[c]), glev@[c].body@) == cbs_trace_glev_pair(
                *lwe_in,
                *bsk,
                auto_keys.entries@,
                ggsw_base_log as nat,
                log_lut_count as nat,
                c,
            ));
        }
        assert forall|r: int, c: int|
            0 <= r < ss_key@.len() && 0 <= c < ggsw_level implies ({
            let gp = cbs_trace_glev_pair(
                *lwe_in,
                *bsk,
                auto_keys.entries@,
                ggsw_base_log as nat,
                log_lut_count as nat,
                c,
            );
            let row = #[trigger] out.cols@[r]@[c];
            (glwe_maskv(row), row.body@) == ext_fold(
                zero_mask_seq(ss_key@.len(), bsk.poly_size()),
                zero_poly_seq(bsk.poly_size()),
                gp.0,
                gp.1,
                ss_key@[r].base_log as nat,
                ss_key@[r].levels as nat,
                ss_key@[r].cols@,
                (ss_key@.len() + 1) as nat,
            )
        }) by {
            assert((glwe_maskv(glev@[c]), glev@[c].body@) == cbs_trace_glev_pair(
                *lwe_in,
                *bsk,
                auto_keys.entries@,
                ggsw_base_log as nat,
                log_lut_count as nat,
                c,
            ));
        }
    }
    out
}

/// Circuit bootstrap through the packing keyswitch.
pub fn circuit_bootstrap_lwe_ciphertext_by_pksk(
    lwe_in: &LweCiphertext,
    bsk: &BootstrapKey,
    pksk: &LwePackingKeyswitchKey,
    ss_key: &Vec<GgswCiphertext>,
    ggsw_base_log: usize,
    ggsw_level: usize,
    log_lut_count: usize,
) -> (out: GgswCiphertext)
    requires
        bsk.wf(),
        lwe_in.lwe_dimension() == bsk.input_lwe_dimension(),
        2 <= bsk.poly_size() <= 0x1000_0000,
        exists|e: nat| e < 64 && bsk.poly_size() == pow2(e),
        log_lut_count < 29,
        2 * pow2(log_lut_count as nat) <= bsk.poly_size(),
        1 <= ggsw_base_log,
        1 <= ggsw_level,
        ggsw_level * ggsw_base_log < 64,
        ((ggsw_level + pow2(log_lut_count as nat) - 1) as int / (pow2(
            log_lut_count as nat,
        ) as int)) * (pow2(log_lut_count as nat) as int) * (ggsw_base_log as int) < 64,
        bsk.glwe_dimension() * bsk.poly_size() <= 0x4000_0000,
        pksk.wf(),
        pksk.input_lwe_dimension() == bsk.glwe_dimension() * bsk.poly_size(),
        pksk.output_glwe_dimension == bsk.glwe_dimension(),
        pksk.poly_size() == bsk.poly_size(),
        ss_key@.len() == bsk.glwe_dimension(),
        ss_key@.len() >= 1,
        forall|r: int|
            0 <= r < ss_key@.len() ==> (#[trigger] ss_key@[r]).wf() && ss_key@[r].glwe_dimension()
                == ss_key@.len() && ss_key@[r].poly_size() == bsk.poly_size(),
    ensures
        out.wf(),
        out.glwe_dimension() == bsk.glwe_dimension(),
        out.poly_size() == bsk.poly_size(),
        out.base_log == ggsw_base_log,
        out.levels == ggsw_level,
        cbs_pksk_rel(
            *lwe_in,
            *bsk,
            *pksk,
            ss_key@,
            ggsw_base_log as nat,
            ggsw_level as nat,
            log_lut_count as nat,
            out,
        ),
{
    let glev = lwe_msb_bit_to_glev_by_pksk(
        lwe_in,
        bsk,
        pksk,
        ggsw_base_log,
        ggsw_level,
        log_lut_count,
    );
    proof {
        assert(ss_key@[0].poly_size() == bsk.poly_size());
    }
    let out = switch_scheme(&glev, ss_key, ggsw_base_log, ggsw_level);
    proof {
        assert forall|c: int| 0 <= c < ggsw_level implies ({
            let gp = cbs_pksk_glev_pair(
                *lwe_in,
                *bsk,
                *pksk,
                ggsw_base_log as nat,
                log_lut_count as nat,
                c,
            );
            let row = #[trigger] out.cols@[ss_key@.len() as int]@[c];
            glwe_maskv(row) == gp.0 && row.body@ == gp.1
        }) by {
            assert((glwe_maskv(glev@[c]), glev@[c].body@) == cbs_pksk_glev_pair(
                *lwe_in,
                *bsk,
                *pksk,
                ggsw_base_log as nat,
                log_lut_count as nat,
                c,
            ));
        }
        assert forall|r: int, c: int|
            0 <= r < ss_key@.len() && 0 <= c < ggsw_level implies ({
            let gp = cbs_pksk_glev_pair(
                *lwe_in,
                *bsk,
                *pksk,
                ggsw_base_log as nat,
                log_lut_count as nat,
                c,
            );
            let row = #[trigger] out.cols@[r]@[c];
            (glwe_maskv(row), row.body@) == ext_fold(
                zero_mask_seq(ss_key@.len(), bsk.poly_size()),
                zero_poly_seq(bsk.poly_size()),
                gp.0,
                gp.1,
                ss_key@[r].base_log as nat,
                ss_key@[r].levels as nat,
                ss_key@[r].cols@,
                (ss_key@.len() + 1) as nat,
            )
        }) by {
            assert((glwe_maskv(glev@[c]), glev@[c].body@) == cbs_pksk_glev_pair(
                *lwe_in,
                *bsk,
                *pksk,
                ggsw_base_log as nat,
                log_lut_count as nat,
                c,
            ));
        }
    }
    out
}

/// Circuit bootstrap through a list of private functional packing
/// keyswitch keys (the baseline construction): extract the Lev ladder of
/// the bit, then pack each ladder entry into every GGSW column through the
/// column's own packing key (which encodes the multiplication by the
/// negated key polynomial, or the identity for the body column).
pub fn lwe_msb_bit_to_ggsw_by_pfpks(
    input: &LweCiphertext,
    bsk: &BootstrapKey,
    pfpksk_list: &Vec<LwePackingKeyswitchKey>,
    ggsw_base_log: usize,
    ggsw_level: usize,
    log_lut_count: usize,
) -> (out: crate::ggsw::GgswCiphertext)
    requires
        bsk.wf(),
        input.lwe_dimension() == bsk.input_lwe_dimension(),
        2 <= bsk.poly_size() <= 0x1000_0000,
        exists|e: nat| e < 64 && bsk.poly_size() == pow2(e),
        log_lut_count < 29,
        2 * pow2(log_lut_count as nat) <= bsk.poly_size(),
        1 <= ggsw_base_log,
        1 <= ggsw_level,
        ggsw_level * ggsw_base_log < 64,
        ((ggsw_level + pow2(log_lut_count as nat) - 1) as int / (pow2(
            log_lut_count as nat,
        ) as int)) * (pow2(log_lut_count as nat) as int) * (ggsw_base_log as int) < 64,
        bsk.glwe_dimension() * bsk.poly_size() <= 0x4000_0000,
        pfpksk_list@.len() == bsk.glwe_dimension() + 1,
        forall|c: int|
            0 <= c < pfpksk_list@.len() ==> (#[trigger] pfpksk_list@[c]).wf()
                && pfpksk_list@[c].input_lwe_dimension() == bsk.glwe_dimension()
                    * bsk.poly_size() && pfpksk_list@[c].output_glwe_dimension
                == bsk.glwe_dimension() && pfpksk_list@[c].poly_size() == bsk.poly_size(),
    ensures
        out.wf(),
        out.glwe_dimension() == bsk.glwe_dimension(),
        out.poly_size() == bsk.poly_size(),
        out.base_log == ggsw_base_log,
        out.levels == ggsw_level,
        forall|c: int, j: int|
            0 <= c < bsk.glwe_dimension() + 1 && 0 <= j < ggsw_level ==> ({
                let row = #[trigger] out.cols@[c]@[j];
                (glwe_maskv(row), row.body@) == pksk_packed_pair(
                    msb_lev_entry_mask(
                        *input,
                        bsk.glwe_dimension(),
                        bsk.poly_size(),
                        log_lut_count as nat,
                        bsk.ggsws@,
                        ggsw_base_log as nat,
                        j,
                    ),
                    msb_lev_entry_body(
                        *input,
                        bsk.glwe_dimension(),
                        bsk.poly_size(),
                        log_lut_count as nat,
                        bsk.ggsws@,
                        ggsw_base_log as nat,
                        j,
                    ),
                    pfpksk_list@[c],
                )
            }),
{
    let ghost kdim = bsk.glwe_dimension();
    let ghost n = bsk.poly_size();
    let lev = lwe_msb_bit_to_lev(input, bsk, ggsw_base_log, ggsw_level, log_lut_count);
    let kp1 = pfpksk_list.len();
    let mut cols: Vec<Vec<GlweCiphertext>> = Vec::new();
    let mut c: usize = 0;
    while c < kp1
        invariant
            lev@.len() == ggsw_level,
            forall|t: int| 0 <= t < ggsw_level ==> (#[trigger] lev@[t]).lwe_dimension() == kdim
                * n,
            forall|t: int|
                0 <= t < ggsw_level ==> (#[trigger] lev@[t]).mask@ == msb_lev_entry_mask(
                    *input,
                    kdim,
                    n,
                    log_lut_count as nat,
                    bsk.ggsws@,
                    ggsw_base_log as nat,
                    t,
                ) && lev@[t].body == msb_lev_entry_body(
                    *input,
                    kdim,
                    n,
                    log_lut_count as nat,
                    bsk.ggsws@,
                    ggsw_base_log as nat,
                    t,
                ),
            kdim == bsk.glwe_dimension(),
            n == bsk.poly_size(),
            kp1 == kdim + 1,
            pfpksk_list@.len() == kp1,
            1 <= n <= 0x1000_0000,
            forall|t: int|
                0 <= t < kp1 ==> (#[trigger] pfpksk_list@[t]).wf()
                    && pfpksk_list@[t].input_lwe_dimension() == kdim * n
                    && pfpksk_list@[t].output_glwe_dimension == kdim && pfpksk_list@[t].poly_size()
                    == n,
            c <= kp1,
            cols@.len() == c,
            forall|t: int|
                0 <= t < c ==> glev_wf(
                    (#[trigger] cols@[t])@,
                    kdim,
                    n,
                    ggsw_level as nat,
                ),
            forall|t: int, j: int|
                0 <= t < c && 0 <= j < ggsw_level ==> ({
                    let row = #[trigger] cols@[t]@[j];
                    (glwe_maskv(row), row.body@) == pksk_packed_pair(
                        msb_lev_entry_mask(
                            *input,
                            kdim,
                            n,
                            log_lut_count as nat,
                            bsk.ggsws@,
                            ggsw_base_log as nat,
                            j,
                        ),
                        msb_lev_entry_body(
                            *input,
                            kdim,
                            n,
                            log_lut_count as nat,
                            bsk.ggsws@,
                            ggsw_base_log as nat,
                            j,
                        ),
                        pfpksk_list@[t],
                    )
                }),
        decreases kp1 - c,
    {
        let mut ladder: Vec<GlweCiphertext> = Vec::new();
        let mut j: usize = 0;
        while j < ggsw_level
            invariant
                lev@.len() == ggsw_level,
                forall|t: int| 0 <= t < ggsw_level ==> (#[trigger] lev@[t]).lwe_dimension()
                    == kdim * n,
                kp1 == kdim + 1,
                pfpksk_list@.len() == kp1,
                1 <= n <= 0x1000_0000,
                c < kp1,
                forall|t: int|
                    0 <= t < kp1 ==> (#[trigger] pfpksk_list@[t]).wf()
                        && pfpksk_list@[t].input_lwe_dimension() == kdim * n
                        && pfpksk_list@[t].output_glwe_dimension == kdim
                        && pfpksk_list@[t].poly_size() == n,
                j <= ggsw_level,
                ladder@.len() == j,
                kdim == bsk.glwe_dimension(),
                n == bsk.poly_size(),
                forall|t: int|
                    0 <= t < ggsw_level ==> (#[trigger] lev@[t]).mask@ == msb_lev_entry_mask(
                        *input,
                        kdim,
                        n,
                        log_lut_count as nat,
                        bsk.ggsws@,
                        ggsw_base_log as nat,
                        t,
                    ) && lev@[t].body == msb_lev_entry_body(
                        *input,
                        kdim,
                        n,
                        log_lut_count as nat,
                        bsk.ggsws@,
                        ggsw_base_log as nat,
                        t,
                    ),
                forall|t: int|
                    0 <= t < j ==> (#[trigger] ladder@[t]).wf() && ladder@[t].glwe_dimension()
                        == kdim && ladder@[t].poly_size() == n,
                forall|t: int|
                    0 <= t < j ==> ({
                        let row = #[trigger] ladder@[t];
                        (glwe_maskv(row), row.body@) == pksk_packed_pair(
                            msb_lev_entry_mask(
                                *input,
                                kdim,
                                n,
                                log_lut_count as nat,
                                bsk.ggsws@,
                                ggsw_base_log as nat,
                                t,
                            ),
                            msb_lev_entry_body(
                                *input,
                                kdim,
                                n,
                                log_lut_count as nat,
                                bsk.ggsws@,
                                ggsw_base_log as nat,
                                t,
                            ),
                            pfpksk_list@[c as int],
                        )
                    }),
            decreases ggsw_level - j,
        {
            proof {
                assert(pfpksk_list@[c as int].wf());
                assert(lev@[j as int].lwe_dimension() == kdim * n);
                assert(pfpksk_list@[c as int].input_lwe_dimension() == kdim * n);
            }
            let glwe = keyswitch_lwe_ciphertext_into_glwe_ciphertext(&pfpksk_list[c], &lev[j]);
            ladder.push(glwe);
            j = j + 1;
        }
        cols.push(ladder);
        c = c + 1;
    }
    let out = crate::ggsw::GgswCiphertext { base_log: ggsw_base_log, levels: ggsw_level, cols };
    proof {
        assert(out.cols@.len() == kdim + 1);
        assert(out.glwe_dimension() == kdim);
        assert(glev_wf(out.cols@[0]@, kdim, n, ggsw_level as nat));
        assert(out.cols@[0]@[0].poly_size() == n);
        assert(out.poly_size() == n);
    }
    out
}

} // verus!
