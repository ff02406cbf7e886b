//! LWE-to-GLWE conversion: the exact coefficient re-embedding of an LWE
//! ciphertext into a GLWE ciphertext, the standard preprocessing + trace
//! pipeline, and the high-precision variant through a larger GLWE
//! dimension.
use vstd::prelude::*;
use vstd::arithmetic::power2::*;
use crate::wrap;
use crate::torus_modulus;
use crate::arith::lemma_wrap_id;
use crate::arith::lemma_wrap_multiple;
use crate::lwe::lwe_phase;
use crate::lwe::lwe_dot_prefix;
use crate::glwe::glwe_phase_coeff;
use crate::glwe::mask_dot_prefix;
use crate::polymul::poly_mul_coeff;
use crate::polymul::pm_prefix;
use crate::polymul::negacyclic_term;
use vstd::arithmetic::div_mod::lemma_fundamental_div_mod;
use vstd::arithmetic::div_mod::lemma_mod_multiples_basic;
use vstd::arithmetic::div_mod::lemma_mod_bound;
use crate::lwe::LweCiphertext;
use crate::glwe::GlweCiphertext;
use crate::glwe_keyswitch::GlweKeyswitchKey;
use crate::glwe_keyswitch::keyswitch_glwe_ciphertext;
use crate::mod_switch::lwe_preprocessing;
use crate::mod_switch::glwe_preprocessing_assign;
use crate::automorphism::AutomorphKeyMap;
use crate::automorphism::AutomorphKey;
use crate::automorphism::trace_assign;
use crate::automorphism::trace_fold_pair;
use crate::automorphism::auto_applied_pair;
use crate::automorphism::spec_get_key;
use crate::automorphism::ct_add_pair;
use crate::automorphism::zero_mask_seq;
use crate::gadget::glwe_maskv;
use crate::gadget::ks_sub_fold_rows;
use crate::pbs::log2_spec_of;
use crate::pbs::lemma_log2_spec_of;
use crate::poly::monomial_mul;
use crate::poly::pneg;
use crate::poly::padd;
use crate::poly::psub;
use crate::poly::torus_neg;
use crate::poly::is_zero_poly;

verus! {

/// The GLWE mask polynomial rebuilt from one LWE mask chunk by the exact
/// re-embedding: position 0 keeps the chunk's first entry, position j >= 1
/// holds the negation of entry N - j.
pub open spec fn embed_mask_coeff(lwe_mask: Seq<u64>, r: int, n: int, j: int) -> u64 {
    if j == 0 {
        lwe_mask[r * n]
    } else {
        wrap(-(lwe_mask[r * n + n - j] as int))
    }
}


/// The preprocessing of an LWE value pair: floor division of every
/// coefficient by the ring size.
pub open spec fn preprocess_lwe_pair(mask: Seq<u64>, body: u64, n: nat) -> (Seq<u64>, u64) {
    (
        Seq::new(mask.len(), |i: int| (((mask[i]) as int) / (n as int)) as u64),
        (((body) as int) / (n as int)) as u64,
    )
}

/// The exact re-embedding of an LWE value pair as a GLWE value pair.
pub open spec fn embed_pair(mask: Seq<u64>, body: u64, kdim: nat, n: nat) -> (
    Seq<Seq<u64>>,
    Seq<u64>,
) {
    (
        Seq::new(kdim, |r: int| Seq::new(n as int as nat, |j: int| embed_mask_coeff(mask, r, n as int, j))),
        Seq::new(n, |j: int| if j == 0 { body } else { 0u64 }),
    )
}

/// The standard LWE-to-GLWE pipeline as a function of the input value:
/// preprocess, re-embed, then run the full trace chain.
pub open spec fn convert_pipeline_pair(
    mask: Seq<u64>,
    body: u64,
    kdim: nat,
    n: nat,
    entries: Seq<AutomorphKey>,
) -> (Seq<Seq<u64>>, Seq<u64>) {
    let pre = preprocess_lwe_pair(mask, body, n);
    let emb = embed_pair(pre.0, pre.1, kdim, n);
    trace_fold_pair(emb.0, emb.1, n, entries, log2_spec_of(n))
}

/// The preprocessing of a GLWE value pair.
pub open spec fn preprocess_glwe_pair(mask: Seq<Seq<u64>>, body: Seq<u64>, n: nat) -> (
    Seq<Seq<u64>>,
    Seq<u64>,
) {
    (
        Seq::new(
            mask.len(),
            |r: int| Seq::new(mask[r].len(), |j: int| (((mask[r][j]) as int) / (n as int)) as u64),
        ),
        Seq::new(body.len(), |j: int| (((body[j]) as int) / (n as int)) as u64),
    )
}

/// The high-precision pipeline as a function of the input value: re-embed,
/// keyswitch up, preprocess, trace, keyswitch back down.
pub open spec fn high_prec_pipeline_pair(
    mask: Seq<u64>,
    body: u64,
    kdim: nat,
    n: nat,
    ksk_up: GlweKeyswitchKey,
    entries: Seq<AutomorphKey>,
    ksk_down: GlweKeyswitchKey,
) -> (Seq<Seq<u64>>, Seq<u64>) {
    let emb = embed_pair(mask, body, kdim, n);
    let up = ks_sub_fold_rows(
        zero_mask_seq(ksk_up.output_glwe_dimension as nat, n),
        emb.1,
        emb.0,
        ksk_up.base_log as nat,
        ksk_up.levels as nat,
        ksk_up.keys@.map_values(|v: Vec<GlweCiphertext>| v@),
        kdim,
    );
    let pre = preprocess_glwe_pair(up.0, up.1, n);
    let tr = trace_fold_pair(pre.0, pre.1, n, entries, log2_spec_of(n));
    ks_sub_fold_rows(
        zero_mask_seq(ksk_down.output_glwe_dimension as nat, n),
        tr.1,
        tr.0,
        ksk_down.base_log as nat,
        ksk_down.levels as nat,
        ksk_down.keys@.map_values(|v: Vec<GlweCiphertext>| v@),
        ksk_up.output_glwe_dimension as nat,
    )
}

/// The ciphertext value pairs of a list of GLWE ciphertexts.
pub open spec fn pairs_of(cts: Seq<GlweCiphertext>) -> Seq<(Seq<Seq<u64>>, Seq<u64>)> {
    cts.map_values(|c: GlweCiphertext| (glwe_maskv(c), c.body@))
}

/// Coefficient-wise negation of a ciphertext value pair.
pub open spec fn ct_neg_pair(a: (Seq<Seq<u64>>, Seq<u64>)) -> (Seq<Seq<u64>>, Seq<u64>) {
    (Seq::new(a.0.len(), |r: int| pneg(a.0[r])), pneg(a.1))
}

/// Monomial multiplication of a ciphertext value pair by X^d.
pub open spec fn ct_monomial_mul_pair(a: (Seq<Seq<u64>>, Seq<u64>), d: nat) -> (
    Seq<Seq<u64>>,
    Seq<u64>,
) {
    (Seq::new(a.0.len(), |r: int| monomial_mul(a.0[r], d)), monomial_mul(a.1, d))
}

/// The recursive lane packing of a power-of-two list of re-embedded value
/// pairs: the halves are packed separately, the odd half is rotated into
/// the spare lanes (both negated-before and plain-after the automorphism),
/// and one stored automorphism folds the pair together.
pub open spec fn pack_pairs_spec(
    inputs: Seq<(Seq<Seq<u64>>, Seq<u64>)>,
    kdim: nat,
    n: nat,
    entries: Seq<AutomorphKey>,
) -> (Seq<Seq<u64>>, Seq<u64>)
    decreases inputs.len(),
{
    if inputs.len() <= 1 {
        if inputs.len() == 1 {
            inputs[0]
        } else {
            (zero_mask_seq(kdim, n), Seq::new(n, |j: int| 0u64))
        }
    } else {
        let half = inputs.len() / 2;
        let pe = pack_pairs_spec(Seq::new(half, |i: int| inputs[2 * i]), kdim, n, entries);
        let po = pack_pairs_spec(Seq::new(half, |i: int| inputs[2 * i + 1]), kdim, n, entries);
        let d = n / inputs.len();
        let buf = ct_add_pair(ct_monomial_mul_pair(ct_neg_pair(po), d), pe);
        let key = spec_get_key(entries, inputs.len() as int + 1);
        let a = auto_applied_pair(
            buf.0,
            buf.1,
            key.exponent as nat,
            key.base_log as nat,
            key.levels as nat,
            key.keys@,
        );
        ct_add_pair(a, ct_add_pair(ct_monomial_mul_pair(po, d), pe))
    }
}

/// Two integers that agree modulo the torus modulus.
spec fn cong(a: int, b: int) -> bool {
    (a - b) % torus_modulus() == 0
}

proof fn lemma_cong_wrap(x: int, a: int, b: int)
    requires
        cong(a, b),
    ensures
        wrap(x - a) == wrap(x - b),
{
    let q = torus_modulus();
    lemma_fundamental_div_mod(a - b, q);
    let t = (a - b) / q;
    lemma_wrap_multiple(x - a, t);
    assert(x - a + t * q == x - b) by (nonlinear_arith)
        requires
            a - b == q * t,
    ;
}

proof fn lemma_cong_add(a: int, b: int, c: int, d: int)
    requires
        cong(a, b),
        cong(c, d),
    ensures
        cong(a + c, b + d),
{
    let q = torus_modulus();
    lemma_fundamental_div_mod(a - b, q);
    lemma_fundamental_div_mod(c - d, q);
    let t1 = (a - b) / q;
    let t2 = (c - d) / q;
    assert((a + c) - (b + d) == (t1 + t2) * q) by (nonlinear_arith)
        requires
            a - b == q * t1,
            c - d == q * t2,
    ;
    lemma_mod_multiples_basic(t1 + t2, q);
}

proof fn lemma_cong_neg_term(x: u64, s: u64)
    ensures
        cong(-((wrap(-(x as int)) as int) * (s as int)), (x as int) * (s as int)),
{
    let q = torus_modulus();
    lemma_fundamental_div_mod(-(x as int), q);
    lemma_mod_bound(-(x as int), q);
    let t = (-(x as int)) / q;
    let w = wrap(-(x as int)) as int;
    assert(-(w * (s as int)) - (x as int) * (s as int) == (t * (s as int)) * q) by (nonlinear_arith)
        requires
            -(x as int) == q * t + w,
    ;
    lemma_mod_multiples_basic(t * (s as int), q);
}

/// The ascending dot product of LWE mask chunk r against a key polynomial:
/// the first k products m[r*n + i] * s[i].
spec fn chunk_dot(m: Seq<u64>, s: Seq<u64>, r: int, n: int, k: nat) -> int
    decreases k,
{
    if k == 0 {
        0
    } else {
        chunk_dot(m, s, r, n, (k - 1) as nat) + (m[r * n + k - 1] as int) * (s[k - 1] as int)
    }
}

proof fn lemma_embed_chunk_cong(m: Seq<u64>, s: Seq<u64>, emb: Seq<u64>, r: int, n: int, k: nat)
    requires
        1 <= n,
        k <= n,
        emb.len() == n,
        forall|j: int| 0 <= j < n ==> emb[j] == embed_mask_coeff(m, r, n, j),
    ensures
        k == 0 ==> pm_prefix(emb, s, 0, k) == 0,
        k >= 1 ==> cong(
            pm_prefix(emb, s, 0, k),
            chunk_dot(m, s, r, n, 1) + chunk_dot(m, s, r, n, n as nat) - chunk_dot(
                m,
                s,
                r,
                n,
                (n - k + 1) as nat,
            ),
        ),
    decreases k,
{
    if k == 0 {
    } else if k == 1 {
        assert(pm_prefix(emb, s, 0, 0) == 0);
        assert(chunk_dot(m, s, r, n, 0) == 0);
        assert(emb[0] == m[r * n]);
        assert(negacyclic_term(emb, s, 0, 0) == (m[r * n] as int) * (s[0] as int));
        assert(pm_prefix(emb, s, 0, 1) == (m[r * n] as int) * (s[0] as int));
        assert(chunk_dot(m, s, r, n, 1) == (m[r * n] as int) * (s[0] as int));
        assert((n - k + 1) as nat == n as nat);
        lemma_mod_multiples_basic(0, torus_modulus());
        assert(cong(pm_prefix(emb, s, 0, 1), chunk_dot(m, s, r, n, 1)));
    } else {
        lemma_embed_chunk_cong(m, s, emb, r, n, (k - 1) as nat);
        let i = k - 1;
        let x = m[r * n + n - i];
        let sv = s[n - i];
        lemma_cong_neg_term(x, sv);
        assert(negacyclic_term(emb, s, 0, i) == -((wrap(-(x as int)) as int) * (sv as int)));
        assert(chunk_dot(m, s, r, n, (n - k + 2) as nat) == chunk_dot(m, s, r, n, (n - k
            + 1) as nat) + (x as int) * (sv as int));
        lemma_cong_add(
            pm_prefix(emb, s, 0, (k - 1) as nat),
            chunk_dot(m, s, r, n, 1) + chunk_dot(m, s, r, n, n as nat) - chunk_dot(
                m,
                s,
                r,
                n,
                (n - k + 2) as nat,
            ),
            negacyclic_term(emb, s, 0, i),
            (x as int) * (sv as int),
        );
        assert(pm_prefix(emb, s, 0, k) == pm_prefix(emb, s, 0, (k - 1) as nat)
            + negacyclic_term(emb, s, 0, i));
    }
}

proof fn lemma_flat_chunk(m: Seq<u64>, flat: Seq<u64>, s: Seq<u64>, r: int, n: int, k: nat)
    requires
        1 <= n,
        0 <= r,
        k <= n,
        forall|j: int| 0 <= j < n ==> flat[r * n + j] == s[j],
    ensures
        lwe_dot_prefix(m, flat, (r * n + k) as nat) == lwe_dot_prefix(m, flat, (r * n) as nat)
            + chunk_dot(m, s, r, n, k),
    decreases k,
{
    assert(r * n >= 0) by (nonlinear_arith)
        requires
            r >= 0,
            n >= 1,
    ;
    if k == 0 {
    } else {
        lemma_flat_chunk(m, flat, s, r, n, (k - 1) as nat);
        assert(flat[r * n + k - 1] == s[k - 1]);
    }
}

proof fn lemma_embed_dot_cong(
    m: Seq<u64>,
    maskv: Seq<Seq<u64>>,
    key: Seq<Seq<u64>>,
    flat: Seq<u64>,
    n: int,
    r: nat,
)
    requires
        1 <= n,
        r <= key.len(),
        maskv.len() == key.len(),
        forall|t: int| 0 <= t < maskv.len() ==> (#[trigger] maskv[t]).len() == n,
        forall|t: int, j: int|
            0 <= t < maskv.len() && 0 <= j < n ==> maskv[t][j] == embed_mask_coeff(m, t, n, j),
        forall|t: int, j: int| 0 <= t < key.len() && 0 <= j < n ==> flat[t * n + j] == key[t][j],
    ensures
        cong(mask_dot_prefix(maskv, key, 0, r), lwe_dot_prefix(m, flat, (r * n) as nat)),
    decreases r,
{
    if r == 0 {
        assert(mask_dot_prefix(maskv, key, 0, 0) == 0);
        assert(lwe_dot_prefix(m, flat, 0) == 0);
        lemma_mod_multiples_basic(0, torus_modulus());
    } else {
        lemma_embed_dot_cong(m, maskv, key, flat, n, (r - 1) as nat);
        let t = r - 1;
        lemma_embed_chunk_cong(m, key[t], maskv[t], t, n, n as nat);
        assert(cong(
            pm_prefix(maskv[t], key[t], 0, n as nat),
            chunk_dot(m, key[t], t, n, n as nat),
        ));
        assert(maskv[t].len() == n);
        assert(poly_mul_coeff(maskv[t], key[t], 0) == pm_prefix(maskv[t], key[t], 0, n as nat));
        lemma_flat_chunk(m, flat, key[t], t, n, n as nat);
        assert(t * n + n == r * n) by (nonlinear_arith)
            requires
                t == r - 1,
        ;
        lemma_cong_add(
            mask_dot_prefix(maskv, key, 0, (r - 1) as nat),
            lwe_dot_prefix(m, flat, ((r - 1) * n) as nat),
            poly_mul_coeff(maskv[t], key[t], 0),
            chunk_dot(m, key[t], t, n, n as nat),
        );
        assert(mask_dot_prefix(maskv, key, 0, r) == mask_dot_prefix(maskv, key, 0, (r - 1) as nat)
            + poly_mul_coeff(maskv[t], key[t], 0));
        assert(lwe_dot_prefix(m, flat, (r * n) as nat) == lwe_dot_prefix(
            m,
            flat,
            ((r - 1) * n) as nat,
        ) + chunk_dot(m, key[t], t, n, n as nat));
    }
}

/// The constant re-embedding is phase-exact: under any GLWE key whose
/// flattened form is `flat`, phase coefficient 0 of the embedded GLWE
/// ciphertext equals the LWE phase of the input. This is what makes the
/// packing pipelines meaning-preserving: embedding moves the encrypted
/// value into the constant coefficient without changing it.
pub proof fn lemma_embed_const_phase(
    input: LweCiphertext,
    out: GlweCiphertext,
    key: Seq<Seq<u64>>,
    flat: Seq<u64>,
)
    requires
        1 <= out.poly_size(),
        out.mask@.len() == key.len(),
        out.body@.len() == out.poly_size(),
        forall|t: int|
            0 <= t < out.mask@.len() ==> (#[trigger] out.mask@[t])@.len() == out.poly_size(),
        input.mask@.len() == key.len() * out.poly_size(),
        out.body@[0] == input.body,
        forall|t: int, j: int|
            0 <= t < out.mask@.len() && 0 <= j < out.poly_size() ==> out.mask@[t]@[j]
                == embed_mask_coeff(input.mask@, t, out.poly_size() as int, j),
        forall|t: int, j: int|
            0 <= t < key.len() && 0 <= j < out.poly_size() ==> flat[t * (out.poly_size() as int)
                + j] == key[t][j],
    ensures
        glwe_phase_coeff(key, out, 0) == lwe_phase(flat, input),
{
    let n = out.poly_size() as int;
    let maskv = out.mask@.map_values(|p: Vec<u64>| p@);
    assert(forall|t: int| 0 <= t < maskv.len() ==> (#[trigger] maskv[t]).len() == n);
    assert(forall|t: int, j: int|
        0 <= t < maskv.len() && 0 <= j < n ==> maskv[t][j] == embed_mask_coeff(
            input.mask@,
            t,
            n,
            j,
        ));
    lemma_embed_dot_cong(input.mask@, maskv, key, flat, n, key.len());
    lemma_cong_wrap(
        input.body as int,
        mask_dot_prefix(maskv, key, 0, out.mask@.len()),
        lwe_dot_prefix(input.mask@, flat, input.mask@.len()),
    );
}

/// Re-embed an LWE ciphertext of dimension k*N as a GLWE ciphertext whose
/// constant phase coefficient equals the LWE phase: the body scalar lands
/// at body coefficient 0, and each N-chunk of the LWE mask is reversed and
/// negated (except its first entry) into one GLWE mask polynomial. This is
/// an exact re-expression; no noise is added.
pub fn convert_lwe_to_glwe_const(
    input: &LweCiphertext,
    glwe_dimension: usize,
    poly_size: usize,
) -> (out: GlweCiphertext)
    requires
        input.lwe_dimension() == glwe_dimension * poly_size,
        1 <= poly_size <= 0x1000_0000,
        glwe_dimension * poly_size <= 0x4000_0000,
    ensures
        out.wf(),
        out.glwe_dimension() == glwe_dimension,
        out.poly_size() == poly_size,
        out.body@[0] == input.body,
        forall|j: int| 1 <= j < poly_size ==> out.body@[j] == 0,
        forall|r: int, j: int|
            0 <= r < glwe_dimension && 0 <= j < poly_size ==> out.mask@[r]@[j] == embed_mask_coeff(
                input.mask@,
                r,
                poly_size as int,
                j,
            ),
        input.is_trivial() ==> out.is_trivial(),
{
    let n = poly_size;
    let mut mask: Vec<Vec<u64>> = Vec::new();
    let mut r: usize = 0;
    while r < glwe_dimension
        invariant
            input.mask@.len() == glwe_dimension * poly_size,
            n == poly_size,
            1 <= n <= 0x1000_0000,
            glwe_dimension * poly_size <= 0x4000_0000,
            r <= glwe_dimension,
            mask@.len() == r,
            forall|t: int| 0 <= t < r ==> (#[trigger] mask@[t])@.len() == n,
            forall|t: int, j: int|
                0 <= t < r && 0 <= j < n ==> mask@[t]@[j] == embed_mask_coeff(
                    input.mask@,
                    t,
                    n as int,
                    j,
                ),
        decreases glwe_dimension - r,
    {
        proof {
            assert((r + 1) * n <= glwe_dimension * n) by (nonlinear_arith)
                requires
                    r + 1 <= glwe_dimension,
                    n >= 0,
            ;
            assert(r * n + n == (r + 1) * n) by (nonlinear_arith);
            assert(r * n >= 0) by (nonlinear_arith)
                requires
                    r >= 0,
                    n >= 0,
            ;
        }
        let mut p: Vec<u64> = Vec::new();
        let base = r * n;
        let mut j: usize = 0;
        while j < n
            invariant
                input.mask@.len() == glwe_dimension * poly_size,
                glwe_dimension * poly_size <= 0x4000_0000,
                n == poly_size,
                1 <= n <= 0x1000_0000,
                base == r * n,
                base + n <= input.mask@.len(),
                j <= n,
                p@.len() == j,
                forall|t: int|
                    0 <= t < j ==> p@[t] == embed_mask_coeff(input.mask@, r as int, n as int, t),
            decreases n - j,
        {
            if j == 0 {
                p.push(input.mask[base]);
            } else {
                p.push(torus_neg(input.mask[base + (n - j)]));
            }
            j = j + 1;
        }
        mask.push(p);
        r = r + 1;
    }
    let mut body: Vec<u64> = Vec::new();
    body.push(input.body);
    let mut j: usize = 1;
    while j < n
        invariant
            1 <= j <= n,
            body@.len() == j,
            body@[0] == input.body,
            forall|t: int| 1 <= t < j ==> body@[t] == 0,
        decreases n - j,
    {
        body.push(0u64);
        j = j + 1;
    }
    let out = GlweCiphertext { mask, body };
    proof {
        if input.is_trivial() {
            assert forall|t: int| 0 <= t < out.mask@.len() implies is_zero_poly(
                (#[trigger] out.mask@[t])@,
            ) by {
                assert forall|j: int| 0 <= j < n implies out.mask@[t]@[j] == 0u64 by {
                    assert(out.mask@[t]@[j] == embed_mask_coeff(
                        input.mask@,
                        t,
                        n as int,
                        j,
                    ));
                    if j == 0 {
                        assert(t * (n as int) < glwe_dimension * n) by (nonlinear_arith)
                            requires
                                0 <= t < glwe_dimension,
                                n >= 1,
                        ;
                        assert(t * (n as int) >= 0) by (nonlinear_arith)
                            requires
                                t >= 0,
                                n >= 0,
                        ;
                        assert(input.mask@[t * (n as int)] == 0);
                    } else {
                        assert(0 <= t * (n as int) + n - j < glwe_dimension * n)
                            by (nonlinear_arith)
                            requires
                                0 <= t < glwe_dimension,
                                1 <= j < n,
                        ;
                        assert(input.mask@[t * (n as int) + n - j] == 0);
                        lemma_wrap_id(0u64);
                    }
                }
            }
        }
    }
    out
}

/// The standard LWE-to-GLWE pipeline: preprocess (floor-divide every
/// coefficient by N), re-embed, then clear the non-constant coefficients
/// with the trace. On a trivial input encrypting m, the result is exactly
/// the trivial GLWE with constant coefficient N * floor(m / N).
pub fn convert_lwe_to_glwe_by_trace_with_preprocessing(
    input: &LweCiphertext,
    glwe_dimension: usize,
    poly_size: usize,
    auto_keys: &AutomorphKeyMap,
) -> (out: GlweCiphertext)
    requires
        input.lwe_dimension() == glwe_dimension * poly_size,
        1 <= poly_size <= 0x1000_0000,
        glwe_dimension * poly_size <= 0x4000_0000,
        exists|e: nat| e < 64 && poly_size == pow2(e),
        auto_keys.wf_for(glwe_dimension as nat, poly_size as nat),
        forall|st: int|
            1 <= st && (exists|e: nat| st == pow2(e)) && 2 * st <= poly_size
                ==> #[trigger] auto_keys.contains_exponent(poly_size as int / st + 1),
    ensures
        out.wf(),
        out.glwe_dimension() == glwe_dimension,
        out.poly_size() == poly_size,
        input.is_trivial() ==> (out.is_trivial() && out.body@[0] == wrap(
            (input.body as int / poly_size as int) * poly_size as int,
        ) && (forall|j: int| 1 <= j < poly_size ==> out.body@[j] == 0)),
        (glwe_maskv(out), out.body@) == convert_pipeline_pair(
            input.mask@,
            input.body,
            glwe_dimension as nat,
            poly_size as nat,
            auto_keys.entries@,
        ),
{
    let buf = lwe_preprocessing(input, poly_size);
    proof {
        if input.is_trivial() {
            assert forall|i: int| 0 <= i < buf.mask@.len() implies buf.mask@[i] == 0u64 by {
                assert(buf.mask@[i] as int == (input.mask@[i]) as int / poly_size as int);
                assert(input.mask@[i] == 0);
                vstd::arithmetic::div_mod::lemma_div_of0(poly_size as int);
            }
        }
    }
    proof {
        assert(buf.mask@ =~= preprocess_lwe_pair(input.mask@, input.body, poly_size as nat).0);
    }
    let mut out = convert_lwe_to_glwe_const(&buf, glwe_dimension, poly_size);
    proof {
        let pre = preprocess_lwe_pair(input.mask@, input.body, poly_size as nat);
        let emb = embed_pair(pre.0, pre.1, glwe_dimension as nat, poly_size as nat);
        assert(glwe_maskv(out) =~= emb.0) by {
            assert forall|r: int| 0 <= r < glwe_dimension implies glwe_maskv(out)[r]
                == emb.0[r] by {
                assert(glwe_maskv(out)[r] == out.mask@[r]@);
                assert(out.mask@[r]@ =~= emb.0[r]);
            }
        }
        assert(out.body@ =~= emb.1);
        let e = choose|e: nat| e < 64 && poly_size == pow2(e);
        lemma_log2_spec_of(poly_size as nat, e);
    }
    trace_assign(&mut out, auto_keys);
    proof {
        vstd::arithmetic::mul::lemma_mul_is_commutative(
            input.body as int / poly_size as int,
            poly_size as int,
        );
    }
    out
}

/// The high-precision LWE-to-GLWE pipeline: re-embed, keyswitch up to a
/// larger GLWE dimension, preprocess and trace there (where the
/// automorphism keys carry less relative noise), then keyswitch back down.
pub fn convert_lwe_to_glwe_by_trace_with_preprocessing_high_prec(
    input: &LweCiphertext,
    glwe_dimension: usize,
    poly_size: usize,
    glwe_ksk_to_large: &GlweKeyswitchKey,
    glwe_ksk_from_large: &GlweKeyswitchKey,
    auto_keys: &AutomorphKeyMap,
) -> (out: GlweCiphertext)
    requires
        input.lwe_dimension() == glwe_dimension * poly_size,
        1 <= poly_size <= 0x1000_0000,
        glwe_dimension * poly_size <= 0x4000_0000,
        exists|e: nat| e < 64 && poly_size == pow2(e),
        glwe_ksk_to_large.wf(),
        glwe_ksk_from_large.wf(),
        glwe_ksk_to_large.input_glwe_dimension() == glwe_dimension,
        glwe_ksk_to_large.poly_size() == poly_size,
        glwe_ksk_from_large.input_glwe_dimension() == glwe_ksk_to_large.output_glwe_dimension,
        glwe_ksk_from_large.poly_size() == poly_size,
        auto_keys.wf_for(glwe_ksk_to_large.output_glwe_dimension as nat, poly_size as nat),
        forall|st: int|
            1 <= st && (exists|e: nat| st == pow2(e)) && 2 * st <= poly_size
                ==> #[trigger] auto_keys.contains_exponent(poly_size as int / st + 1),
    ensures
        out.wf(),
        out.glwe_dimension() == glwe_ksk_from_large.output_glwe_dimension,
        out.poly_size() == poly_size,
        (glwe_maskv(out), out.body@) == high_prec_pipeline_pair(
            input.mask@,
            input.body,
            glwe_dimension as nat,
            poly_size as nat,
            *glwe_ksk_to_large,
            auto_keys.entries@,
            *glwe_ksk_from_large,
        ),
{
    let buf = convert_lwe_to_glwe_const(input, glwe_dimension, poly_size);
    proof {
        let emb = embed_pair(input.mask@, input.body, glwe_dimension as nat, poly_size as nat);
        assert(glwe_maskv(buf) =~= emb.0) by {
            assert forall|r: int| 0 <= r < glwe_dimension implies glwe_maskv(buf)[r]
                == emb.0[r] by {
                assert(glwe_maskv(buf)[r] == buf.mask@[r]@);
                assert(buf.mask@[r]@ =~= emb.0[r]);
            }
        }
        assert(buf.body@ =~= emb.1);
    }
    let mut buf_large = keyswitch_glwe_ciphertext(glwe_ksk_to_large, &buf);
    let ghost up = (glwe_maskv(buf_large), buf_large.body@);
    glwe_preprocessing_assign(&mut buf_large);
    proof {
        let pre = preprocess_glwe_pair(up.0, up.1, poly_size as nat);
        assert(glwe_maskv(buf_large) =~= pre.0) by {
            assert forall|r: int|
                0 <= r < glwe_ksk_to_large.output_glwe_dimension implies glwe_maskv(
                buf_large,
            )[r] == pre.0[r] by {
                assert(glwe_maskv(buf_large)[r] == buf_large.mask@[r]@);
                assert(up.0[r].len() == poly_size);
                assert(buf_large.mask@[r]@ =~= pre.0[r]);
            }
        }
        assert(buf_large.body@ =~= pre.1);
        let e = choose|e: nat| e < 64 && poly_size == pow2(e);
        lemma_log2_spec_of(poly_size as nat, e);
    }
    trace_assign(&mut buf_large, auto_keys);
    keyswitch_glwe_ciphertext(glwe_ksk_from_large, &buf_large)
}

/// Recursively pack a power-of-two list of re-embedded ciphertexts into
/// one: the even and odd halves are packed separately, the odd half is
/// rotated into the spare lanes, and one automorphism application folds
/// the pair together.
pub fn pack_lwes(
    inputs: &Vec<GlweCiphertext>,
    glwe_dimension: usize,
    poly_size: usize,
    auto_keys: &AutomorphKeyMap,
) -> (out: GlweCiphertext)
    requires
        inputs@.len() >= 1,
        exists|e: nat| e < 64 && inputs@.len() == pow2(e),
        inputs@.len() <= poly_size,
        forall|i: int|
            0 <= i < inputs@.len() ==> (#[trigger] inputs@[i]).wf() && inputs@[i].glwe_dimension()
                == glwe_dimension && inputs@[i].poly_size() == poly_size,
        1 <= poly_size <= 0x1000_0000,
        exists|e: nat| e < 64 && poly_size == pow2(e),
        auto_keys.wf_for(glwe_dimension as nat, poly_size as nat),
        forall|st: int|
            1 <= st && (exists|e: nat| st == pow2(e)) && 2 * st <= poly_size
                ==> #[trigger] auto_keys.contains_exponent(poly_size as int / st + 1),
    ensures
        out.wf(),
        out.glwe_dimension() == glwe_dimension,
        out.poly_size() == poly_size,
        (glwe_maskv(out), out.body@) == pack_pairs_spec(
            pairs_of(inputs@),
            glwe_dimension as nat,
            poly_size as nat,
            auto_keys.entries@,
        ),
    decreases inputs@.len(),
{
    let count = inputs.len();
    if count == 1 {
        let out = crate::ggsw::glwe_clone(&inputs[0]);
        proof {
            assert(pairs_of(inputs@).len() == 1);
            assert(pairs_of(inputs@)[0] == (glwe_maskv(inputs@[0]), inputs@[0].body@));
            assert(glwe_maskv(out) =~= glwe_maskv(inputs@[0])) by {
                assert forall|r: int| 0 <= r < glwe_dimension implies glwe_maskv(out)[r]
                    == glwe_maskv(inputs@[0])[r] by {
                    assert(glwe_maskv(out)[r] == out.mask@[r]@);
                    assert(glwe_maskv(inputs@[0])[r] == inputs@[0].mask@[r]@);
                }
            }
        }
        out
    } else {
        proof {
            let e = choose|e: nat| e < 64 && inputs@.len() == pow2(e);
            if e == 0 {
                lemma2_to64();
            }
            assert(e >= 1);
            lemma_pow2_unfold(e);
            assert(count % 2 == 0) by {
                vstd::arithmetic::div_mod::lemma_mod_multiples_basic(
                    pow2((e - 1) as nat) as int,
                    2,
                );
                vstd::arithmetic::mul::lemma_mul_is_commutative(2, pow2((e - 1) as nat) as int);
            }
            assert(count / 2 == pow2((e - 1) as nat)) by {
                vstd::arithmetic::mul::lemma_mul_is_commutative(2, pow2((e - 1) as nat) as int);
                vstd::arithmetic::div_mod::lemma_fundamental_div_mod_converse(
                    count as int,
                    2,
                    pow2((e - 1) as nat) as int,
                    0,
                );
            }
        }
        let half = count / 2;
        let mut evens: Vec<GlweCiphertext> = Vec::new();
        let mut odds: Vec<GlweCiphertext> = Vec::new();
        let mut i: usize = 0;
        while i < half
            invariant
                inputs@.len() == count,
                half == count / 2,
                count == 2 * half,
                forall|t: int|
                    0 <= t < count ==> (#[trigger] inputs@[t]).wf() && inputs@[t].glwe_dimension()
                        == glwe_dimension && inputs@[t].poly_size() == poly_size,
                i <= half,
                evens@.len() == i,
                odds@.len() == i,
                forall|t: int|
                    0 <= t < i ==> (#[trigger] evens@[t]).wf() && evens@[t].glwe_dimension()
                        == glwe_dimension && evens@[t].poly_size() == poly_size,
                forall|t: int|
                    0 <= t < i ==> (#[trigger] odds@[t]).wf() && odds@[t].glwe_dimension()
                        == glwe_dimension && odds@[t].poly_size() == poly_size,
                forall|t: int, r: int|
                    0 <= t < i && 0 <= r < glwe_dimension ==> (#[trigger] evens@[t].mask@[r])@
                        == inputs@[2 * t].mask@[r]@,
                forall|t: int| 0 <= t < i ==> (#[trigger] evens@[t]).body@ == inputs@[2 * t].body@,
                forall|t: int, r: int|
                    0 <= t < i && 0 <= r < glwe_dimension ==> (#[trigger] odds@[t].mask@[r])@
                        == inputs@[2 * t + 1].mask@[r]@,
                forall|t: int|
                    0 <= t < i ==> (#[trigger] odds@[t]).body@ == inputs@[2 * t + 1].body@,
            decreases half - i,
        {
            evens.push(crate::ggsw::glwe_clone(&inputs[2 * i]));
            odds.push(crate::ggsw::glwe_clone(&inputs[2 * i + 1]));
            i = i + 1;
        }
        proof {
            let e = choose|e: nat| e < 64 && inputs@.len() == pow2(e);
            assert(half == pow2((e - 1) as nat));
        }
        proof {
            assert(pairs_of(evens@) =~= Seq::new(
                half as nat,
                |i: int| pairs_of(inputs@)[2 * i],
            )) by {
                assert forall|i: int| 0 <= i < half implies pairs_of(evens@)[i] == pairs_of(
                    inputs@,
                )[2 * i] by {
                    assert(pairs_of(evens@)[i] == (glwe_maskv(evens@[i]), evens@[i].body@));
                    assert(pairs_of(inputs@)[2 * i] == (
                        glwe_maskv(inputs@[2 * i]),
                        inputs@[2 * i].body@,
                    ));
                    assert(glwe_maskv(evens@[i]) =~= glwe_maskv(inputs@[2 * i])) by {
                        assert forall|r: int| 0 <= r < glwe_dimension implies glwe_maskv(
                            evens@[i],
                        )[r] == glwe_maskv(inputs@[2 * i])[r] by {
                            assert(glwe_maskv(evens@[i])[r] == evens@[i].mask@[r]@);
                            assert(glwe_maskv(inputs@[2 * i])[r] == inputs@[2 * i].mask@[r]@);
                        }
                    }
                }
            }
            assert(pairs_of(odds@) =~= Seq::new(
                half as nat,
                |i: int| pairs_of(inputs@)[2 * i + 1],
            )) by {
                assert forall|i: int| 0 <= i < half implies pairs_of(odds@)[i] == pairs_of(
                    inputs@,
                )[2 * i + 1] by {
                    assert(pairs_of(odds@)[i] == (glwe_maskv(odds@[i]), odds@[i].body@));
                    assert(pairs_of(inputs@)[2 * i + 1] == (
                        glwe_maskv(inputs@[2 * i + 1]),
                        inputs@[2 * i + 1].body@,
                    ));
                    assert(glwe_maskv(odds@[i]) =~= glwe_maskv(inputs@[2 * i + 1])) by {
                        assert forall|r: int| 0 <= r < glwe_dimension implies glwe_maskv(
                            odds@[i],
                        )[r] == glwe_maskv(inputs@[2 * i + 1])[r] by {
                            assert(glwe_maskv(odds@[i])[r] == odds@[i].mask@[r]@);
                            assert(glwe_maskv(inputs@[2 * i + 1])[r] == inputs@[2 * i
                                + 1].mask@[r]@);
                        }
                    }
                }
            }
        }
        let output_even = pack_lwes(&evens, glwe_dimension, poly_size, auto_keys);
        let output_odd = pack_lwes(&odds, glwe_dimension, poly_size, auto_keys);
        let ghost pe = (glwe_maskv(output_even), output_even.body@);
        let ghost po = (glwe_maskv(output_odd), output_odd.body@);
        // Rotate the odd half into the spare lanes and fold with one
        // automorphism application.
        let mut buf = GlweCiphertext::new_zero(glwe_dimension, poly_size);
        crate::glwe::glwe_ciphertext_sub_assign(&mut buf, &output_odd);
        proof {
            // Subtracting from zero is negation, coefficient-wise.
            assert(glwe_maskv(buf) =~= ct_neg_pair(po).0) by {
                assert forall|r: int| 0 <= r < glwe_dimension implies glwe_maskv(buf)[r]
                    == ct_neg_pair(po).0[r] by {
                    assert(glwe_maskv(buf)[r] == buf.mask@[r]@);
                    assert(buf.mask@[r]@ =~= pneg(po.0[r]));
                }
            }
            assert(buf.body@ =~= pneg(po.1));
        }
        crate::glwe::glwe_ciphertext_monic_monomial_mul_assign(&mut buf, poly_size / count);
        proof {
            let mneg = ct_monomial_mul_pair(ct_neg_pair(po), (poly_size / count) as nat);
            assert(glwe_maskv(buf) =~= mneg.0) by {
                assert forall|r: int| 0 <= r < glwe_dimension implies glwe_maskv(buf)[r]
                    == mneg.0[r] by {
                    assert(glwe_maskv(buf)[r] == buf.mask@[r]@);
                }
            }
        }
        crate::glwe::glwe_ciphertext_add_assign(&mut buf, &output_even);
        proof {
            let mneg = ct_monomial_mul_pair(ct_neg_pair(po), (poly_size / count) as nat);
            let bufp = ct_add_pair(mneg, pe);
            assert(glwe_maskv(buf) =~= bufp.0) by {
                assert forall|r: int| 0 <= r < glwe_dimension implies glwe_maskv(buf)[r]
                    == bufp.0[r] by {
                    assert(glwe_maskv(buf)[r] == buf.mask@[r]@);
                }
            }
            assert(buf.body@ == bufp.1);
        }
        proof {
            // count is a power of two with 2 <= count <= poly_size, so the
            // chain key for exponent poly_size/(poly_size/count) + 1 =
            // count + 1 is present.
            let e = choose|e: nat| e < 64 && inputs@.len() == pow2(e);
            let en = choose|e2: nat| e2 < 64 && poly_size == pow2(e2);
            assert(e <= en) by {
                if e > en {
                    lemma_pow2_strictly_increases(en, e);
                }
            }
            lemma_pow2_subtracts(e, en);
            let st = pow2((en - e) as nat) as int;
            assert(st == poly_size as int / count as int);
            assert(2 * st <= poly_size) by {
                lemma_pow2_adds((en - e) as nat, 1);
                lemma2_to64();
                assert(2 * st == pow2((en - e + 1) as nat));
                assert(en - e + 1 <= en);
                if en - e + 1 < en {
                    lemma_pow2_strictly_increases((en - e + 1) as nat, en);
                }
            }
            assert(auto_keys.contains_exponent(poly_size as int / st + 1));
            assert(poly_size as int / st == count) by {
                lemma_pow2_pos((en - e) as nat);
                lemma_pow2_adds((en - e) as nat, e);
                assert(poly_size as int == st * (count as int));
                vstd::arithmetic::mul::lemma_mul_is_commutative(st, count as int);
                assert(poly_size as int == (count as int) * st + 0);
                vstd::arithmetic::div_mod::lemma_fundamental_div_mod_converse(
                    poly_size as int,
                    st,
                    count as int,
                    0,
                );
            }
        }
        let key = match auto_keys.get(count + 1) {
            Some(key) => key,
            None => {
                proof {
                    assert(false);
                }
                vstd::pervasive::unreached()
            },
        };
        let mut out = crate::automorphism::apply_automorphism(key, &buf);
        let mut buf2 = crate::ggsw::glwe_clone(&output_odd);
        proof {
            assert(glwe_maskv(buf2) =~= po.0) by {
                assert forall|r: int| 0 <= r < glwe_dimension implies glwe_maskv(buf2)[r]
                    == po.0[r] by {
                    assert(glwe_maskv(buf2)[r] == buf2.mask@[r]@);
                    assert(glwe_maskv(output_odd)[r] == output_odd.mask@[r]@);
                }
            }
        }
        crate::glwe::glwe_ciphertext_monic_monomial_mul_assign(&mut buf2, poly_size / count);
        proof {
            let mpo = ct_monomial_mul_pair(po, (poly_size / count) as nat);
            assert(glwe_maskv(buf2) =~= mpo.0) by {
                assert forall|r: int| 0 <= r < glwe_dimension implies glwe_maskv(buf2)[r]
                    == mpo.0[r] by {
                    assert(glwe_maskv(buf2)[r] == buf2.mask@[r]@);
                }
            }
        }
        crate::glwe::glwe_ciphertext_add_assign(&mut buf2, &output_even);
        proof {
            let mpo = ct_monomial_mul_pair(po, (poly_size / count) as nat);
            let b2p = ct_add_pair(mpo, pe);
            assert(glwe_maskv(buf2) =~= b2p.0) by {
                assert forall|r: int| 0 <= r < glwe_dimension implies glwe_maskv(buf2)[r]
                    == b2p.0[r] by {
                    assert(glwe_maskv(buf2)[r] == buf2.mask@[r]@);
                }
            }
            assert(buf2.body@ == b2p.1);
        }
        crate::glwe::glwe_ciphertext_add_assign(&mut out, &buf2);
        proof {
            // Assemble the recurrence: out = auto(buf) + (po * X^d + pe).
            let entries = auto_keys.entries@;
            let ipairs = pairs_of(inputs@);
            let d = (poly_size / count) as nat;
            let mneg = ct_monomial_mul_pair(ct_neg_pair(po), d);
            let bufp = ct_add_pair(mneg, pe);
            let av = auto_applied_pair(
                bufp.0,
                bufp.1,
                key.exponent as nat,
                key.base_log as nat,
                key.levels as nat,
                key.keys@,
            );
            let expected = ct_add_pair(av, ct_add_pair(ct_monomial_mul_pair(po, d), pe));
            assert(glwe_maskv(out) =~= expected.0) by {
                assert forall|r: int| 0 <= r < glwe_dimension implies glwe_maskv(out)[r]
                    == expected.0[r] by {
                    assert(glwe_maskv(out)[r] == out.mask@[r]@);
                }
            }
            assert(out.body@ == expected.1);
            // The spec recursion produces the same value.
            assert(ipairs.len() == count);
            assert(d == poly_size as nat / (count as nat));
            assert(pack_pairs_spec(ipairs, glwe_dimension as nat, poly_size as nat, entries)
                == expected) by {
                assert(pack_pairs_spec(
                    Seq::new((count / 2) as nat, |i: int| ipairs[2 * i]),
                    glwe_dimension as nat,
                    poly_size as nat,
                    entries,
                ) == pe);
                assert(pack_pairs_spec(
                    Seq::new((count / 2) as nat, |i: int| ipairs[2 * i + 1]),
                    glwe_dimension as nat,
                    poly_size as nat,
                    entries,
                ) == po);
                assert(*key == spec_get_key(entries, count as int + 1));
            }
        }
        out
    }
}

/// Pack a power-of-two list of LWE ciphertexts into one GLWE ciphertext:
/// preprocess and re-embed each input, pack the embeddings into the lanes
/// of one ciphertext, and clear the remaining frequencies with the partial
/// trace.
pub fn convert_lwes_to_glwe_by_trace_with_preprocessing(
    inputs: &Vec<LweCiphertext>,
    glwe_dimension: usize,
    poly_size: usize,
    auto_keys: &AutomorphKeyMap,
) -> (out: GlweCiphertext)
    requires
        inputs@.len() >= 1,
        exists|e: nat| e < 64 && inputs@.len() == pow2(e),
        inputs@.len() <= poly_size,
        forall|i: int|
            0 <= i < inputs@.len() ==> (#[trigger] inputs@[i]).lwe_dimension() == glwe_dimension
                * poly_size,
        1 <= poly_size <= 0x1000_0000,
        glwe_dimension * poly_size <= 0x4000_0000,
        exists|e: nat| e < 64 && poly_size == pow2(e),
        auto_keys.wf_for(glwe_dimension as nat, poly_size as nat),
        forall|st: int|
            1 <= st && (exists|e: nat| st == pow2(e)) && 2 * st <= poly_size
                ==> #[trigger] auto_keys.contains_exponent(poly_size as int / st + 1),
    ensures
        out.wf(),
        out.glwe_dimension() == glwe_dimension,
        out.poly_size() == poly_size,
        ({
            let packed = pack_pairs_spec(
                Seq::new(
                    inputs@.len(),
                    |i: int|
                        {
                            let pre = preprocess_lwe_pair(
                                inputs@[i].mask@,
                                inputs@[i].body,
                                poly_size as nat,
                            );
                            embed_pair(pre.0, pre.1, glwe_dimension as nat, poly_size as nat)
                        },
                ),
                glwe_dimension as nat,
                poly_size as nat,
                auto_keys.entries@,
            );
            (glwe_maskv(out), out.body@) == trace_fold_pair(
                packed.0,
                packed.1,
                poly_size as nat,
                auto_keys.entries@,
                (log2_spec_of(poly_size as nat) - log2_spec_of(inputs@.len())) as nat,
            )
        }),
{
    let count = inputs.len();
    let mut embedded: Vec<GlweCiphertext> = Vec::new();
    let mut i: usize = 0;
    while i < count
        invariant
            inputs@.len() == count,
            forall|t: int|
                0 <= t < count ==> (#[trigger] inputs@[t]).lwe_dimension() == glwe_dimension
                    * poly_size,
            1 <= poly_size <= 0x1000_0000,
            glwe_dimension * poly_size <= 0x4000_0000,
            exists|e: nat| e < 64 && poly_size == pow2(e),
            i <= count,
            embedded@.len() == i,
            forall|t: int|
                0 <= t < i ==> (#[trigger] embedded@[t]).wf() && embedded@[t].glwe_dimension()
                    == glwe_dimension && embedded@[t].poly_size() == poly_size,
            forall|t: int|
                0 <= t < i ==> (glwe_maskv(#[trigger] embedded@[t]), embedded@[t].body@) == ({
                    let pre = preprocess_lwe_pair(
                        inputs@[t].mask@,
                        inputs@[t].body,
                        poly_size as nat,
                    );
                    embed_pair(pre.0, pre.1, glwe_dimension as nat, poly_size as nat)
                }),
        decreases count - i,
    {
        let buf = lwe_preprocessing(&inputs[i], poly_size);
        proof {
            assert(buf.mask@ =~= preprocess_lwe_pair(
                inputs@[i as int].mask@,
                inputs@[i as int].body,
                poly_size as nat,
            ).0);
        }
        let glwe = convert_lwe_to_glwe_const(&buf, glwe_dimension, poly_size);
        proof {
            let pre = preprocess_lwe_pair(
                inputs@[i as int].mask@,
                inputs@[i as int].body,
                poly_size as nat,
            );
            let emb = embed_pair(pre.0, pre.1, glwe_dimension as nat, poly_size as nat);
            assert(glwe_maskv(glwe) =~= emb.0) by {
                assert forall|r: int| 0 <= r < glwe_dimension implies glwe_maskv(glwe)[r]
                    == emb.0[r] by {
                    assert(glwe_maskv(glwe)[r] == glwe.mask@[r]@);
                    assert(glwe.mask@[r]@ =~= emb.0[r]);
                }
            }
            assert(glwe.body@ =~= emb.1);
        }
        embedded.push(glwe);
        i = i + 1;
    }
    let mut out = pack_lwes(&embedded, glwe_dimension, poly_size, auto_keys);
    proof {
        assert(pairs_of(embedded@) =~= Seq::new(
            inputs@.len(),
            |i: int|
                {
                    let pre = preprocess_lwe_pair(
                        inputs@[i].mask@,
                        inputs@[i].body,
                        poly_size as nat,
                    );
                    embed_pair(pre.0, pre.1, glwe_dimension as nat, poly_size as nat)
                },
        )) by {
            assert forall|t: int| 0 <= t < count implies pairs_of(embedded@)[t] == ({
                let pre = preprocess_lwe_pair(
                    inputs@[t].mask@,
                    inputs@[t].body,
                    poly_size as nat,
                );
                embed_pair(pre.0, pre.1, glwe_dimension as nat, poly_size as nat)
            }) by {
                assert(pairs_of(embedded@)[t] == (glwe_maskv(embedded@[t]), embedded@[t].body@));
            }
        }
        let e = choose|e: nat| e < 64 && poly_size == pow2(e);
        lemma_log2_spec_of(poly_size as nat, e);
        let e2 = choose|e2: nat| e2 < 64 && inputs@.len() == pow2(e2);
        lemma_log2_spec_of(inputs@.len(), e2);
    }
    proof {
        assert forall|st: int|
            1 <= st && (exists|e: nat| st == pow2(e)) && 2 * count * st <= poly_size
            implies #[trigger] auto_keys.contains_exponent(poly_size as int / st + 1) by {
            assert(2 * st <= 2 * count * st) by (nonlinear_arith)
                requires
                    count >= 1,
                    st >= 1,
            ;
        }
    }
    crate::automorphism::trace_partial_assign(&mut out, auto_keys, count);
    out
}

} // verus!
