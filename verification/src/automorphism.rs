//! Ring automorphisms and the trace operator on GLWE ciphertexts.
//!
//! An automorphism key for an odd exponent k carries, for every secret-key
//! polynomial, a GLev ladder encrypting that polynomial's image under
//! X |-> X^k. Applying the automorphism substitutes X^k into every
//! polynomial of the ciphertext and then corrects the key relation by a
//! digit-decomposed keyswitch against the ladder.
//!
//! The trace operator repeatedly adds the image of the ciphertext under the
//! doubling chain of exponents N/step + 1 (step = 1, 2, 4, ...), halving
//! the surviving frequency components each stage. On a trivial ciphertext
//! holding a constant polynomial it multiplies the constant by exactly
//! N / count and leaves every other coefficient zero.
use vstd::prelude::*;
use vstd::arithmetic::power2::*;
use crate::wrap;
use crate::arith::lemma_wrap_id;
use crate::arith::lemma_wrap_add_absorb;
use crate::arith::log2_exact;
use crate::poly::auto_image_rel;
use crate::poly::auto_image_fn;
use crate::poly::eval_x_k;
use crate::poly::is_zero_poly;
use crate::poly::lemma_auto_image_constant;
use crate::poly::lemma_auto_image_zero;
use crate::glwe::GlweCiphertext;
use crate::glwe::glwe_ciphertext_add_assign;
use crate::gadget::glwe_maskv;
use crate::gadget::glev_wf;
use crate::gadget::glev_scaled_sub_assign;
use crate::gadget::ks_sub_fold_rows;
use crate::gadget::lemma_ks_sub_fold_rows_zero_srcs;
use crate::pbs::log2_spec_of;
use crate::pbs::lemma_log2_spec_of;

verus! {

/// Keyswitch material for the ring automorphism X |-> X^exponent: one GLev
/// ladder per secret-key polynomial.
pub struct AutomorphKey {
    pub exponent: usize,
    pub base_log: usize,
    pub levels: usize,
    pub keys: Vec<Vec<GlweCiphertext>>,
}

impl AutomorphKey {
    pub open spec fn glwe_dimension(&self) -> nat {
        self.keys@.len()
    }

    pub open spec fn poly_size(&self) -> nat {
        if self.keys@.len() == 0 || self.keys@[0]@.len() == 0 {
            0
        } else {
            self.keys@[0]@[0].poly_size()
        }
    }

    pub open spec fn wf(&self) -> bool {
        &&& self.keys@.len() >= 1
        &&& 1 <= self.base_log
        &&& 1 <= self.levels
        &&& self.levels * self.base_log < 64
        &&& self.exponent % 2 == 1
        &&& self.exponent <= 0x2000_0000
        &&& 1 <= self.poly_size() <= 0x1000_0000
        &&& forall|r: int|
            0 <= r < self.keys@.len() ==> glev_wf(
                (#[trigger] self.keys@[r])@,
                self.keys@.len(),
                self.poly_size(),
                self.levels as nat,
            )
    }
}

/// A glwe_dimension x poly_size block of zero polynomials.
pub open spec fn zero_mask_seq(k: nat, n: nat) -> Seq<Seq<u64>> {
    Seq::new(k, |r: int| Seq::new(n, |j: int| 0u64))
}

/// mid is the coefficient-level image of input under X |-> X^k: every mask
/// polynomial and the body are substituted.
pub open spec fn substituted_rel(input: GlweCiphertext, k: nat, mid: GlweCiphertext) -> bool {
    &&& mid.wf()
    &&& mid.glwe_dimension() == input.glwe_dimension()
    &&& mid.poly_size() == input.poly_size()
    &&& forall|r: int|
        0 <= r < input.mask@.len() ==> auto_image_rel(
            (#[trigger] input.mask@[r])@,
            k,
            mid.mask@[r]@,
        )
    &&& auto_image_rel(input.body@, k, mid.body@)
}

/// out is the digit-decomposed keyswitch of mid onto the key ladders:
/// starting from the trivial ciphertext holding mid's body, every
/// decomposition level of every substituted mask polynomial is folded
/// (subtracted) against the corresponding ladder entry.
pub open spec fn keyswitched_rel(
    mid: GlweCiphertext,
    bl: nat,
    levels: nat,
    keys: Seq<Vec<GlweCiphertext>>,
    out: GlweCiphertext,
) -> bool {
    (glwe_maskv(out), out.body@) == ks_sub_fold_rows(
        zero_mask_seq(mid.glwe_dimension(), mid.poly_size()),
        mid.body@,
        glwe_maskv(mid),
        bl,
        levels,
        keys.map_values(|v: Vec<GlweCiphertext>| v@),
        mid.glwe_dimension(),
    )
}

/// The applied automorphism, as a function of the ciphertext value: every
/// polynomial is replaced by its image under X |-> X^exponent, and the
/// substituted mask is keyswitched away against the key ladders, starting
/// from the trivial ciphertext holding the substituted body.
pub open spec fn auto_applied_pair(
    mask: Seq<Seq<u64>>,
    body: Seq<u64>,
    exponent: nat,
    bl: nat,
    levels: nat,
    keys: Seq<Vec<GlweCiphertext>>,
) -> (Seq<Seq<u64>>, Seq<u64>) {
    ks_sub_fold_rows(
        zero_mask_seq(mask.len(), body.len()),
        auto_image_fn(body, exponent),
        Seq::new(mask.len(), |r: int| auto_image_fn(mask[r], exponent)),
        bl,
        levels,
        keys.map_values(|v: Vec<GlweCiphertext>| v@),
        mask.len(),
    )
}

/// Substitute X^k for X in every polynomial of a GLWE ciphertext. The
/// result decrypts, under the equally substituted key, to the substituted
/// message.
pub fn glwe_apply_substitution(input: &GlweCiphertext, k: usize) -> (out: GlweCiphertext)
    requires
        input.wf(),
        k % 2 == 1,
        k <= 0x2000_0000,
        exists|e: nat| input.poly_size() == pow2(e),
    ensures
        out.wf(),
        out.glwe_dimension() == input.glwe_dimension(),
        out.poly_size() == input.poly_size(),
        substituted_rel(*input, k as nat, out),
        forall|r: int|
            0 <= r < input.mask@.len() ==> (#[trigger] out.mask@[r])@ == auto_image_fn(
                input.mask@[r]@,
                k as nat,
            ),
        out.body@ == auto_image_fn(input.body@, k as nat),
{
    let kdim = input.mask.len();
    let n = input.body.len();
    let mut mask: Vec<Vec<u64>> = Vec::new();
    let mut r: usize = 0;
    while r < kdim
        invariant
            input.wf(),
            k % 2 == 1,
            k <= 0x2000_0000,
            exists|e: nat| input.poly_size() == pow2(e),
            input.mask@.len() == kdim,
            input.body@.len() == n,
            r <= kdim,
            mask@.len() == r,
            forall|t: int|
                0 <= t < r ==> auto_image_rel(input.mask@[t]@, k as nat, (#[trigger] mask@[t])@),
            forall|t: int|
                0 <= t < r ==> (#[trigger] mask@[t])@ == auto_image_fn(input.mask@[t]@, k as nat),
            forall|t: int| 0 <= t < r ==> (#[trigger] mask@[t])@.len() == n,
        decreases kdim - r,
    {
        assert(input.mask@[r as int]@.len() == n);
        let p = eval_x_k(&input.mask[r], k);
        mask.push(p);
        r = r + 1;
    }
    let body = eval_x_k(&input.body, k);
    GlweCiphertext { mask, body }
}

/// Apply the automorphism X |-> X^exponent homomorphically: substitute into
/// every polynomial, then keyswitch the substituted mask back onto the
/// ciphertext's own key using the encrypted key material.
pub fn apply_automorphism(key: &AutomorphKey, input: &GlweCiphertext) -> (out: GlweCiphertext)
    requires
        key.wf(),
        input.wf(),
        input.glwe_dimension() == key.glwe_dimension(),
        input.poly_size() == key.poly_size(),
        exists|e: nat| input.poly_size() == pow2(e),
    ensures
        out.wf(),
        out.glwe_dimension() == input.glwe_dimension(),
        out.poly_size() == input.poly_size(),
        exists|mid: GlweCiphertext|
            substituted_rel(*input, key.exponent as nat, mid) && #[trigger] keyswitched_rel(
                mid,
                key.base_log as nat,
                key.levels as nat,
                key.keys@,
                out,
            ),
        (glwe_maskv(out), out.body@) == auto_applied_pair(
            glwe_maskv(*input),
            input.body@,
            key.exponent as nat,
            key.base_log as nat,
            key.levels as nat,
            key.keys@,
        ),
{
    let mid = glwe_apply_substitution(input, key.exponent);
    let ghost midg = mid;
    let kdim = input.mask.len();
    let n = input.body.len();
    let GlweCiphertext { mask: mid_mask, body: mid_body } = mid;
    let mut zero_mask: Vec<Vec<u64>> = Vec::new();
    let mut r: usize = 0;
    while r < kdim
        invariant
            r <= kdim,
            zero_mask@.len() == r,
            n >= 1,
            forall|t: int|
                0 <= t < r ==> (#[trigger] zero_mask@[t])@ =~= Seq::<u64>::new(
                    n as nat,
                    |j: int| 0u64,
                ),
        decreases kdim - r,
    {
        let mut p: Vec<u64> = Vec::new();
        p.resize(n, 0u64);
        assert(p@ =~= Seq::<u64>::new(n as nat, |j: int| 0u64));
        zero_mask.push(p);
        r = r + 1;
    }
    let mut out = GlweCiphertext { mask: zero_mask, body: mid_body };
    proof {
        assert(glwe_maskv(out) =~= zero_mask_seq(kdim as nat, n as nat)) by {
            assert forall|t: int| 0 <= t < kdim implies glwe_maskv(out)[t] == zero_mask_seq(
                kdim as nat,
                n as nat,
            )[t] by {
                assert(glwe_maskv(out)[t] == out.mask@[t]@);
                assert(out.mask@[t]@ =~= Seq::<u64>::new(n as nat, |j: int| 0u64));
            }
        }
        assert(out.wf());
    }
    let mut rr: usize = 0;
    while rr < kdim
        invariant
            out.wf(),
            out.glwe_dimension() == kdim,
            out.poly_size() == n,
            key.wf(),
            key.glwe_dimension() == kdim,
            key.poly_size() == n,
            midg.wf(),
            midg.glwe_dimension() == kdim,
            midg.poly_size() == n,
            mid_mask@ == midg.mask@,
            rr <= kdim,
            (glwe_maskv(out), out.body@) == ks_sub_fold_rows(
                zero_mask_seq(kdim as nat, n as nat),
                midg.body@,
                glwe_maskv(midg),
                key.base_log as nat,
                key.levels as nat,
                key.keys@.map_values(|v: Vec<GlweCiphertext>| v@),
                rr as nat,
            ),
        decreases kdim - rr,
    {
        assert(mid_mask@[rr as int]@.len() == n) by {
            assert(glwe_maskv(midg)[rr as int] == midg.mask@[rr as int]@);
        }
        assert(glev_wf(key.keys@[rr as int]@, kdim as nat, n as nat, key.levels as nat));
        let src = &mid_mask[rr];
        let glev = &key.keys[rr];
        glev_scaled_sub_assign(&mut out, src, key.base_log, key.levels, glev);
        proof {
            let keysv = key.keys@.map_values(|v: Vec<GlweCiphertext>| v@);
            assert(keysv[rr as int] == key.keys@[rr as int]@);
            assert(glwe_maskv(midg)[rr as int] == midg.mask@[rr as int]@);
            assert(midg.mask@[rr as int]@ == mid_mask@[rr as int]@);
        }
        rr = rr + 1;
    }
    proof {
        assert(substituted_rel(*input, key.exponent as nat, midg));
        assert(keyswitched_rel(
            midg,
            key.base_log as nat,
            key.levels as nat,
            key.keys@,
            out,
        ));
        // The substituted views equal the image function, so the fold is
        // the functional applied automorphism.
        assert(glwe_maskv(midg) =~= Seq::new(
            glwe_maskv(*input).len(),
            |r: int| auto_image_fn(glwe_maskv(*input)[r], key.exponent as nat),
        )) by {
            assert forall|r: int| 0 <= r < kdim implies glwe_maskv(midg)[r] == auto_image_fn(
                glwe_maskv(*input)[r],
                key.exponent as nat,
            ) by {
                assert(glwe_maskv(midg)[r] == midg.mask@[r]@);
                assert(glwe_maskv(*input)[r] == input.mask@[r]@);
            }
        }
        assert(midg.body@ == auto_image_fn(input.body@, key.exponent as nat));
    }
    out
}

/// A trivial input stays trivial under the automorphism, and a constant
/// body is carried over unchanged.
pub proof fn lemma_apply_automorphism_trivial_constant(
    input: GlweCiphertext,
    k: nat,
    bl: nat,
    levels: nat,
    keys: Seq<Vec<GlweCiphertext>>,
    mid: GlweCiphertext,
    out: GlweCiphertext,
)
    requires
        input.wf(),
        input.is_trivial(),
        forall|j: int| 1 <= j < input.body@.len() ==> input.body@[j] == 0,
        substituted_rel(input, k, mid),
        keyswitched_rel(mid, bl, levels, keys, out),
        1 <= bl,
        1 <= levels,
        levels * bl < 64,
        keys.len() >= input.glwe_dimension(),
    ensures
        out.is_trivial(),
        out.body@.len() == input.body@.len(),
        out.body@[0] == input.body@[0],
        forall|j: int| 1 <= j < out.body@.len() ==> out.body@[j] == 0,
{
    let kdim = input.glwe_dimension();
    let n = input.poly_size();
    // The substituted mask polynomials are all zero.
    assert forall|t: int| 0 <= t < kdim implies is_zero_poly(#[trigger] glwe_maskv(mid)[t]) by {
        assert(glwe_maskv(mid)[t] == mid.mask@[t]@);
        assert(is_zero_poly(input.mask@[t]@));
        lemma_auto_image_zero(input.mask@[t]@, k, mid.mask@[t]@);
    }
    // The substituted body is the same constant polynomial.
    lemma_auto_image_constant(input.body@, k, mid.body@);
    // A keyswitch over zero sources is the identity.
    let zm = zero_mask_seq(kdim, n);
    assert forall|t: int| 0 <= t < zm.len() implies (#[trigger] zm[t]).len()
        == mid.body@.len() by {
    }
    assert forall|t: int| 0 <= t < kdim implies (#[trigger] glwe_maskv(mid)[t]).len()
        == mid.body@.len() by {
        assert(glwe_maskv(mid)[t] == mid.mask@[t]@);
    }
    lemma_ks_sub_fold_rows_zero_srcs(
        zm,
        mid.body@,
        glwe_maskv(mid),
        bl,
        levels,
        keys.map_values(|v: Vec<GlweCiphertext>| v@),
        kdim,
    );
    assert(glwe_maskv(out) == zm);
    assert(out.body@ == mid.body@);
    assert forall|t: int| 0 <= t < out.mask@.len() implies is_zero_poly(
        (#[trigger] out.mask@[t])@,
    ) by {
        assert(glwe_maskv(out)[t] == out.mask@[t]@);
        assert(zm[t] == Seq::<u64>::new(n, |j: int| 0u64));
    }
}

/// The first stored key with the given exponent (the value exact-match
/// lookup returns).
pub open spec fn spec_get_key(entries: Seq<AutomorphKey>, e: int) -> AutomorphKey
    decreases entries.len(),
{
    if entries.len() == 0 {
        vstd::pervasive::arbitrary()
    } else if entries[0].exponent == e {
        entries[0]
    } else {
        spec_get_key(entries.drop_first(), e)
    }
}

/// Skipping entries that do not match leaves the lookup unchanged.
pub proof fn lemma_spec_get_key_skip(entries: Seq<AutomorphKey>, e: int, i: nat)
    requires
        i <= entries.len(),
        forall|t: int| 0 <= t < i ==> (#[trigger] entries[t].exponent) != e,
    ensures
        spec_get_key(entries, e) == spec_get_key(entries.skip(i as int), e),
    decreases i,
{
    if i > 0 {
        assert(entries[0].exponent != e);
        lemma_spec_get_key_skip(entries.drop_first(), e, (i - 1) as nat);
        assert(entries.drop_first().skip(i as int - 1) =~= entries.skip(i as int));
    } else {
        assert(entries.skip(0) =~= entries);
    }
}

/// Coefficient-wise wrapping sum of two ciphertext value pairs.
pub open spec fn ct_add_pair(
    a: (Seq<Seq<u64>>, Seq<u64>),
    b: (Seq<Seq<u64>>, Seq<u64>),
) -> (Seq<Seq<u64>>, Seq<u64>) {
    (Seq::new(a.0.len(), |r: int| crate::poly::padd(a.0[r], b.0[r])), crate::poly::padd(a.1, b.1))
}

/// One trace stage: add the applied automorphism of the running ciphertext
/// to itself.
pub open spec fn trace_step_pair(
    mask: Seq<Seq<u64>>,
    body: Seq<u64>,
    key: AutomorphKey,
) -> (Seq<Seq<u64>>, Seq<u64>) {
    ct_add_pair(
        (mask, body),
        auto_applied_pair(
            mask,
            body,
            key.exponent as nat,
            key.base_log as nat,
            key.levels as nat,
            key.keys@,
        ),
    )
}

/// The first `upto` trace stages: stage t (0-based) uses the stored key for
/// exponent N / 2^t + 1.
pub open spec fn trace_fold_pair(
    mask: Seq<Seq<u64>>,
    body: Seq<u64>,
    n: nat,
    entries: Seq<AutomorphKey>,
    upto: nat,
) -> (Seq<Seq<u64>>, Seq<u64>)
    decreases upto,
{
    if upto == 0 {
        (mask, body)
    } else {
        let prev = trace_fold_pair(mask, body, n, entries, (upto - 1) as nat);
        trace_step_pair(
            prev.0,
            prev.1,
            spec_get_key(entries, n as int / pow2((upto - 1) as nat) as int + 1),
        )
    }
}

/// A mapping from automorphism exponents to their keys; lookup is by exact
/// exponent match.
pub struct AutomorphKeyMap {
    pub entries: Vec<AutomorphKey>,
}

impl AutomorphKeyMap {
    pub open spec fn contains_exponent(&self, e: int) -> bool {
        exists|i: int|
            0 <= i < self.entries@.len() && (#[trigger] self.entries@[i]).exponent == e
    }

    /// Every entry is a well-formed key for the given dimensions.
    pub open spec fn wf_for(&self, kdim: nat, n: nat) -> bool {
        forall|i: int|
            0 <= i < self.entries@.len() ==> (#[trigger] self.entries@[i]).wf()
                && self.entries@[i].glwe_dimension() == kdim && self.entries@[i].poly_size() == n
    }

    /// Look an automorphism key up by its exponent.
    pub fn get(&self, exponent: usize) -> (r: Option<&AutomorphKey>)
        ensures
            match r {
                Some(key) => key.exponent == exponent && *key == spec_get_key(
                    self.entries@,
                    exponent as int,
                ) && exists|i: int|
                    0 <= i < self.entries@.len() && (#[trigger] self.entries@[i]) == *key,
                None => !self.contains_exponent(exponent as int),
            },
    {
        let m = self.entries.len();
        let mut i: usize = 0;
        while i < m
            invariant
                self.entries@.len() == m,
                i <= m,
                forall|t: int| 0 <= t < i ==> (#[trigger] self.entries@[t]).exponent != exponent,
            decreases m - i,
        {
            if self.entries[i].exponent == exponent {
                proof {
                    lemma_spec_get_key_skip(self.entries@, exponent as int, i as nat);
                    assert(self.entries@.skip(i as int)[0] == self.entries@[i as int]);
                }
                return Some(&self.entries[i]);
            }
            i = i + 1;
        }
        None
    }
}

/// The trace stages for packing `count` values: ciphertext <- ciphertext +
/// automorphism(N/step + 1) for step = 1, 2, 4, ..., N/(2*count). On a
/// trivial ciphertext with a constant body the constant is multiplied by
/// exactly N/count and every other coefficient stays zero.
pub fn trace_partial_assign(c: &mut GlweCiphertext, keys: &AutomorphKeyMap, count: usize)
    requires
        old(c).wf(),
        exists|e: nat| e < 64 && old(c).poly_size() == pow2(e),
        1 <= count <= old(c).poly_size(),
        exists|e: nat| e < 64 && count == pow2(e),
        keys.wf_for(old(c).glwe_dimension(), old(c).poly_size()),
        forall|st: int|
            1 <= st && (exists|e: nat| st == pow2(e)) && 2 * count * st <= old(c).poly_size()
                ==> #[trigger] keys.contains_exponent(old(c).poly_size() as int / st + 1),
    ensures
        final(c).wf(),
        final(c).glwe_dimension() == old(c).glwe_dimension(),
        final(c).poly_size() == old(c).poly_size(),
        (old(c).is_trivial() && (forall|j: int| 1 <= j < old(c).body@.len() ==> old(c).body@[j]
            == 0)) ==> (final(c).is_trivial() && final(c).body@[0] == wrap(
            old(c).body@[0] * (old(c).poly_size() as int / count as int),
        ) && (forall|j: int| 1 <= j < final(c).body@.len() ==> final(c).body@[j] == 0)),
        (glwe_maskv(*final(c)), final(c).body@) == trace_fold_pair(
            glwe_maskv(*old(c)),
            old(c).body@,
            old(c).poly_size(),
            keys.entries@,
            (log2_spec_of(old(c).poly_size()) - log2_spec_of(count as nat)) as nat,
        ),
{
    let n = c.body.len();
    let ghost kdim = c.glwe_dimension();
    let logn = log2_exact(n);
    let logc = log2_exact(count);
    proof {
        if logc > logn {
            lemma_pow2_strictly_increases(logn as nat, logc as nat);
        }
    }
    let m = logn - logc;
    proof {
        lemma_log2_spec_of(n as nat, logn as nat);
        lemma_log2_spec_of(count as nat, logc as nat);
    }
    let ghost cond = old(c).is_trivial() && (forall|j: int|
        1 <= j < old(c).body@.len() ==> old(c).body@[j] == 0);
    let mut t: usize = 0;
    let mut step: usize = 1;
    proof {
        lemma2_to64();
        lemma_pow2_pos(0);
        lemma_wrap_id(old(c).body@[0]);
    }
    while t < m
        invariant
            c.wf(),
            c.glwe_dimension() == kdim,
            c.poly_size() == n,
            old(c).glwe_dimension() == kdim,
            old(c).poly_size() == n,
            n == pow2(logn as nat),
            count == pow2(logc as nat),
            logn < 64,
            logc <= logn,
            m == logn - logc,
            n <= 0x1000_0000,
            keys.wf_for(kdim, n as nat),
            forall|st: int|
                1 <= st && (exists|e: nat| st == pow2(e)) && 2 * count * st <= n
                    ==> #[trigger] keys.contains_exponent(n as int / st + 1),
            t <= m,
            step == pow2(t as nat),
            cond == (old(c).is_trivial() && (forall|j: int|
                1 <= j < old(c).body@.len() ==> old(c).body@[j] == 0)),
            cond ==> (c.is_trivial() && c.body@[0] == wrap(old(c).body@[0] * pow2(t as nat))
                && (forall|j: int| 1 <= j < c.body@.len() ==> c.body@[j] == 0)),
            (glwe_maskv(*c), c.body@) == trace_fold_pair(
                glwe_maskv(*old(c)),
                old(c).body@,
                n as nat,
                keys.entries@,
                t as nat,
            ),
        decreases m - t,
    {
        proof {
            // step is a power of two within the chain bound: 2*count*step <= n.
            lemma_pow2_adds(logc as nat, (t + 1) as nat);
            lemma_pow2_adds(t as nat, 1);
            lemma2_to64();
            assert(2 * count * step == pow2((logc + t + 1) as nat)) by {
                assert(count * step == pow2((logc + t) as nat)) by {
                    lemma_pow2_adds(logc as nat, t as nat);
                }
                assert(2 * count * step == 2 * (count * step)) by (nonlinear_arith);
                assert(2 * (count * step) == 2 * pow2((logc + t) as nat));
                lemma_pow2_unfold((logc + t + 1) as nat);
            }
            if logc + t + 1 <= logn {
                lemma_pow2_subtracts((logc + t + 1) as nat, logn as nat);
                if logc + t + 1 < logn {
                    lemma_pow2_strictly_increases((logc + t + 1) as nat, logn as nat);
                }
            }
            assert(2 * count * step <= n);
            assert(step as int == pow2(t as nat));
            lemma_pow2_pos(t as nat);
            assert(step >= 1);
            assert(exists|e: nat| step as int == pow2(e));
            assert(keys.contains_exponent(n as int / step as int + 1));
        }
        // The surviving chain exponent for this stage.
        let exp = n / step + 1;
        proof {
            lemma_pow2_subtracts(t as nat, logn as nat);
            assert(n as int / step as int == pow2((logn - t) as nat)) by {
                lemma_pow2_adds(t as nat, (logn - t) as nat);
                lemma_pow2_pos(t as nat);
                lemma_pow2_pos((logn - t) as nat);
                assert(n as int == (pow2((logn - t) as nat) as int) * (step as int) + 0) by {
                    vstd::arithmetic::mul::lemma_mul_is_commutative(
                        step as int,
                        pow2((logn - t) as nat) as int,
                    );
                }
                vstd::arithmetic::div_mod::lemma_fundamental_div_mod_converse(
                    n as int,
                    step as int,
                    pow2((logn - t) as nat) as int,
                    0,
                );
            }
            // The exponent is odd: a positive power of two plus one.
            assert(pow2((logn - t) as nat) % 2 == 0) by {
                lemma_pow2_unfold((logn - t) as nat);
                vstd::arithmetic::div_mod::lemma_mod_multiples_basic(
                    pow2((logn - t - 1) as nat) as int,
                    2,
                );
                vstd::arithmetic::mul::lemma_mul_is_commutative(
                    2,
                    pow2((logn - t - 1) as nat) as int,
                );
            }
        }
        let key = match keys.get(exp) {
            Some(key) => key,
            None => {
                proof {
                    assert(false);
                }
                vstd::pervasive::unreached()
            },
        };
        let ghost c_pre = *c;
        let a = apply_automorphism(key, c);
        glwe_ciphertext_add_assign(c, &a);
        proof {
            // One fold stage: the stored key for exponent n/2^t + 1 was
            // applied and added on.
            assert(n as int / (step as int) == n as int / (pow2(t as nat) as int));
            assert(*key == spec_get_key(keys.entries@, n as int / pow2(t as nat) as int + 1));
            let prev = trace_fold_pair(
                glwe_maskv(*old(c)),
                old(c).body@,
                n as nat,
                keys.entries@,
                t as nat,
            );
            assert(prev == (glwe_maskv(c_pre), c_pre.body@));
            let stepped = trace_step_pair(prev.0, prev.1, *key);
            assert((glwe_maskv(*c), c.body@) == stepped) by {
                let av = auto_applied_pair(
                    glwe_maskv(c_pre),
                    c_pre.body@,
                    key.exponent as nat,
                    key.base_log as nat,
                    key.levels as nat,
                    key.keys@,
                );
                assert((glwe_maskv(a), a.body@) == av);
                assert(glwe_maskv(*c) =~= stepped.0) by {
                    assert forall|r: int| 0 <= r < kdim implies glwe_maskv(*c)[r]
                        == stepped.0[r] by {
                        assert(glwe_maskv(*c)[r] == c.mask@[r]@);
                        assert(c.mask@[r]@ == crate::poly::padd(c_pre.mask@[r]@, a.mask@[r]@));
                        assert(glwe_maskv(c_pre)[r] == c_pre.mask@[r]@);
                        assert(glwe_maskv(a)[r] == a.mask@[r]@);
                    }
                }
                assert(c.body@ == crate::poly::padd(c_pre.body@, a.body@));
            }
            assert((glwe_maskv(*c), c.body@) == trace_fold_pair(
                glwe_maskv(*old(c)),
                old(c).body@,
                n as nat,
                keys.entries@,
                (t + 1) as nat,
            ));
        }
        proof {
            if cond {
                let mid = choose|mid: GlweCiphertext|
                    substituted_rel(c_pre, key.exponent as nat, mid) && #[trigger] keyswitched_rel(
                        mid,
                        key.base_log as nat,
                        key.levels as nat,
                        key.keys@,
                        a,
                    );
                lemma_apply_automorphism_trivial_constant(
                    c_pre,
                    key.exponent as nat,
                    key.base_log as nat,
                    key.levels as nat,
                    key.keys@,
                    mid,
                    a,
                );
                // The sum doubles the constant coefficient and keeps the
                // rest zero.
                assert(c.body@[0] == wrap(c_pre.body@[0] + a.body@[0]));
                assert(c_pre.body@[0] == wrap(old(c).body@[0] * pow2(t as nat)));
                assert(c.body@[0] == wrap(old(c).body@[0] * pow2((t + 1) as nat))) by {
                    let base = old(c).body@[0] as int;
                    lemma_wrap_add_absorb(base * pow2(t as nat), c_pre.body@[0] as int);
                    lemma_wrap_add_absorb(base * pow2(t as nat), base * pow2(t as nat));
                    assert(base * pow2(t as nat) + base * pow2(t as nat) == base * pow2(
                        (t + 1) as nat,
                    )) by {
                        lemma_pow2_adds(t as nat, 1);
                        lemma2_to64();
                        assert(base * pow2(t as nat) + base * pow2(t as nat) == base * (2 * pow2(
                            t as nat,
                        ))) by (nonlinear_arith);
                        assert(2 * pow2(t as nat) == pow2((t + 1) as nat));
                    }
                }
                assert forall|j: int| 1 <= j < c.body@.len() implies c.body@[j] == 0 by {
                    assert(c.body@[j] == wrap(c_pre.body@[j] + a.body@[j]));
                    lemma_wrap_id(0u64);
                }
                assert forall|r: int| 0 <= r < c.mask@.len() implies is_zero_poly(
                    (#[trigger] c.mask@[r])@,
                ) by {
                    assert(c.mask@[r]@ == crate::poly::padd(c_pre.mask@[r]@, a.mask@[r]@));
                    assert forall|j: int| 0 <= j < c.mask@[r]@.len() implies c.mask@[r]@[j]
                        == 0u64 by {
                        assert(c_pre.mask@[r]@[j] == 0);
                        assert(a.mask@[r]@[j] == 0);
                        lemma_wrap_id(0u64);
                    }
                }
            }
        }
        proof {
            lemma_pow2_adds(t as nat, 1);
            lemma2_to64();
            lemma_pow2_strictly_increases(t as nat, logn as nat);
        }
        step = step * 2;
        t = t + 1;
    }
    proof {
        assert(t == m);
        lemma_pow2_subtracts(logc as nat, logn as nat);
        assert(pow2(m as nat) == n as int / count as int);
        assert(m as nat == (log2_spec_of(old(c).poly_size()) - log2_spec_of(count as nat)) as nat);
    }
}

/// The full trace: clears every non-constant coefficient; on a trivial
/// ciphertext with a constant body it multiplies the constant by exactly N.
pub fn trace_assign(c: &mut GlweCiphertext, keys: &AutomorphKeyMap)
    requires
        old(c).wf(),
        exists|e: nat| e < 64 && old(c).poly_size() == pow2(e),
        keys.wf_for(old(c).glwe_dimension(), old(c).poly_size()),
        forall|st: int|
            1 <= st && (exists|e: nat| st == pow2(e)) && 2 * st <= old(c).poly_size()
                ==> #[trigger] keys.contains_exponent(old(c).poly_size() as int / st + 1),
    ensures
        final(c).wf(),
        final(c).glwe_dimension() == old(c).glwe_dimension(),
        final(c).poly_size() == old(c).poly_size(),
        (old(c).is_trivial() && (forall|j: int| 1 <= j < old(c).body@.len() ==> old(c).body@[j]
            == 0)) ==> (final(c).is_trivial() && final(c).body@[0] == wrap(
            old(c).body@[0] * old(c).poly_size() as int,
        ) && (forall|j: int| 1 <= j < final(c).body@.len() ==> final(c).body@[j] == 0)),
        (glwe_maskv(*final(c)), final(c).body@) == trace_fold_pair(
            glwe_maskv(*old(c)),
            old(c).body@,
            old(c).poly_size(),
            keys.entries@,
            log2_spec_of(old(c).poly_size()),
        ),
{
    proof {
        lemma2_to64();
        lemma_pow2_pos(0);
        assert(1 == pow2(0));
    }
    trace_partial_assign(c, keys, 1);
    proof {
        assert(old(c).poly_size() as int / 1int == old(c).poly_size() as int);
        lemma_log2_spec_of(1, 0);
    }
}

} // verus!
