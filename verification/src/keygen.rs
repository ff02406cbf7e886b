//! Key generation: binary secret keys drawn through the seeded generator,
//! and the encrypted key material (bootstrap keys, keyswitch keys,
//! automorphism keys, scheme-switching relation keys) built from explicit
//! entropy words supplied by the caller.
use vstd::prelude::*;
use vstd::arithmetic::power2::*;
use crate::arith::pow2_u64;
use crate::arith::log2_exact;
use crate::lwe::LweCiphertext;
use crate::lwe::LweSecretKey;
use crate::glwe::GlweCiphertext;
use crate::glwe::GlweSecretKey;
use crate::glwe::glwe_phase;
use crate::glwe::glwe_key_view;
use crate::glwe::encrypt_glwe_ciphertext_with;
use crate::poly::padd;
use crate::poly::auto_image_fn;
use crate::wrap;
use crate::entropy::EntropySource;
use crate::entropy::lemma_peel;
use crate::random::tfhe_random_binary_vec;
use crate::gadget::glev_wf;
use crate::ggsw::GgswCiphertext;
use crate::poly::eval_x_k;
use crate::poly::torus_neg;
use crate::poly::polynomial_wrapping_add_assign;
use crate::pbs::BootstrapKey;
use crate::automorphism::AutomorphKey;
use crate::automorphism::AutomorphKeyMap;
use crate::glwe_keyswitch::GlweKeyswitchKey;
use crate::ggsw_conv::LwePackingKeyswitchKey;

verus! {

/// The entropy words one fresh GLWE encryption consumes: k mask polynomials
/// plus one noise polynomial.
pub open spec fn glwe_entropy(k: nat, n: nat) -> nat {
    (k + 1) * n
}

/// A plaintext polynomial scaled by 2^ls, coefficient-wise.
pub open spec fn scaled_poly(pt: Seq<u64>, ls: nat) -> Seq<u64> {
    Seq::new(pt.len(), |t: int| wrap((pt[t] as int) * (pow2(ls) as int)))
}

/// The noise words of ladder level j of a GLev encrypted from entropy
/// position `start`: each level consumes k*n mask words then n noise words.
pub open spec fn glev_noise_slice(
    words: Seq<u64>,
    start: int,
    k: nat,
    n: nat,
    j: int,
) -> Seq<u64> {
    words.subrange(
        start + j * (glwe_entropy(k, n) as int) + (k * n),
        start + (j + 1) * (glwe_entropy(k, n) as int),
    )
}

/// The ladders of one automorphism key encrypt the images of the key
/// polynomials under X |-> X^exponent, at the ladder scales, with the
/// entropy words from `start` on as encryption noise: ladder (rr, j)'s
/// phase is exactly the scaled substituted key polynomial plus its noise
/// words.
pub open spec fn auto_key_phases(
    sk: GlweSecretKey,
    key: AutomorphKey,
    words: Seq<u64>,
    start: int,
) -> bool {
    forall|rr: int, j: int|
        0 <= rr < sk.glwe_dimension() && 0 <= j < key.levels ==> glwe_phase(
            glwe_key_view(sk),
            #[trigger] key.keys@[rr]@[j],
        ) == padd(
            scaled_poly(
                auto_image_fn(sk.polys@[rr]@, key.exponent as nat),
                (64 - (j + 1) * key.base_log) as nat,
            ),
            glev_noise_slice(
                words,
                start + rr * ((key.levels as int) * (glwe_entropy(
                    sk.glwe_dimension(),
                    sk.poly_size(),
                ) as int)),
                sk.glwe_dimension(),
                sk.poly_size(),
                j,
            ),
        )
}

/// Some stored automorphism key has the given exponent.
pub open spec fn has_exponent_entry(entries: Seq<AutomorphKey>, v: int) -> bool {
    exists|t: int| 0 <= t < entries.len() && #[trigger] (entries[t].exponent as int) == v
}

/// Draw a fresh binary LWE secret key.
pub fn generate_binary_lwe_secret_key(n: usize) -> (r: LweSecretKey)
    requires
        1 <= n,
    ensures
        r.coeffs@.len() == n,
        r.is_binary(),
{
    let coeffs = tfhe_random_binary_vec(n);
    LweSecretKey { coeffs }
}

/// Draw a fresh binary GLWE secret key of k polynomials of size n.
pub fn generate_binary_glwe_secret_key(k: usize, n: usize) -> (r: GlweSecretKey)
    requires
        1 <= k,
        1 <= n <= 0x1000_0000,
    ensures
        r.wf(),
        r.glwe_dimension() == k,
        r.poly_size() == n,
        r.is_binary(),
{
    let mut polys: Vec<Vec<u64>> = Vec::new();
    let mut i: usize = 0;
    while i < k
        invariant
            1 <= n,
            i <= k,
            polys@.len() == i,
            forall|t: int| 0 <= t < i ==> (#[trigger] polys@[t])@.len() == n,
            forall|t: int, j: int|
                0 <= t < i && 0 <= j < n ==> (#[trigger] polys@[t]@[j]) == 0 || polys@[t]@[j]
                    == 1,
        decreases k - i,
    {
        let p = tfhe_random_binary_vec(n);
        polys.push(p);
        i = i + 1;
    }
    GlweSecretKey { polys }
}

/// Flatten a GLWE secret key into the LWE secret key of dimension k*N it
/// also is.
pub fn glwe_secret_key_into_lwe_secret_key(sk: &GlweSecretKey) -> (r: LweSecretKey)
    requires
        sk.wf(),
        sk.glwe_dimension() * sk.poly_size() <= 0x4000_0000,
    ensures
        r.coeffs@.len() == sk.glwe_dimension() * sk.poly_size(),
        forall|t: int, j: int|
            0 <= t < sk.glwe_dimension() && 0 <= j < sk.poly_size() ==> (#[trigger] r.coeffs@[t
                * sk.poly_size() + j]) == sk.polys@[t]@[j],
        sk.is_binary() ==> r.is_binary(),
{
    let k = sk.polys.len();
    let n = sk.polys[0].len();
    let mut coeffs: Vec<u64> = Vec::new();
    let mut t: usize = 0;
    while t < k
        invariant
            sk.wf(),
            sk.polys@.len() == k,
            n == sk.poly_size(),
            k * n <= 0x4000_0000,
            t <= k,
            coeffs@.len() == t * n,
            forall|tt: int, j: int|
                0 <= tt < t && 0 <= j < n ==> (#[trigger] coeffs@[tt * n + j]) == sk.polys@[tt]@[j],
        decreases k - t,
    {
        proof {
            assert((t + 1) * n <= k * n) by (nonlinear_arith)
                requires
                    t + 1 <= k,
                    n >= 0,
            ;
            assert(t * n + n == (t + 1) * n) by (nonlinear_arith);
        }
        let mut j: usize = 0;
        while j < n
            invariant
                sk.wf(),
                sk.polys@.len() == k,
                n == sk.poly_size(),
                t < k,
                t * n + n <= 0x4000_0000,
                j <= n,
                coeffs@.len() == t * n + j,
                forall|tt: int, jj: int|
                    0 <= tt < t && 0 <= jj < n ==> (#[trigger] coeffs@[tt * n + jj])
                        == sk.polys@[tt]@[jj],
                forall|jj: int|
                    0 <= jj < j ==> (#[trigger] coeffs@[t * n + jj]) == sk.polys@[t as int]@[jj],
            decreases n - j,
        {
            coeffs.push(sk.polys[t][j]);
            proof {
                assert forall|tt: int, jj: int|
                    0 <= tt < t && 0 <= jj < n implies (#[trigger] coeffs@[tt * n + jj])
                    == sk.polys@[tt]@[jj] by {
                    assert(tt * n + jj < t * n) by (nonlinear_arith)
                        requires
                            0 <= tt < t,
                            0 <= jj < n,
                    ;
                }
            }
            j = j + 1;
        }
        t = t + 1;
    }
    let r = LweSecretKey { coeffs };
    proof {
        if sk.is_binary() {
            assert forall|i: int| 0 <= i < r.coeffs@.len() implies r.coeffs@[i] == 0
                || r.coeffs@[i] == 1 by {
                let tt = i / (n as int);
                let jj = i % (n as int);
                vstd::arithmetic::div_mod::lemma_fundamental_div_mod(i, n as int);
                vstd::arithmetic::div_mod::lemma_mod_bound(i, n as int);
                assert(0 <= tt < k) by (nonlinear_arith)
                    requires
                        i == (n as int) * tt + jj,
                        0 <= jj < n,
                        0 <= i < k * n,
                        n >= 1,
                ;
                assert(tt * (n as int) + jj == i) by (nonlinear_arith)
                    requires
                        i == (n as int) * tt + jj,
                ;
                assert(r.coeffs@[tt * (n as int) + jj] == sk.polys@[tt]@[jj]);
            }
        }
    }
    r
}

/// Reinterpret an LWE secret key as a GLWE secret key over chunks of the
/// given polynomial size.
pub fn lwe_secret_key_as_glwe_secret_key(sk: &LweSecretKey, poly_size: usize) -> (r: GlweSecretKey)
    requires
        1 <= poly_size <= 0x1000_0000,
        sk.coeffs@.len() as int % (poly_size as int) == 0,
        sk.coeffs@.len() as int / (poly_size as int) >= 1,
        sk.coeffs@.len() <= 0x4000_0000,
    ensures
        r.wf(),
        r.poly_size() == poly_size,
        r.glwe_dimension() == sk.coeffs@.len() as int / (poly_size as int),
        forall|t: int, j: int|
            0 <= t < r.glwe_dimension() && 0 <= j < poly_size ==> (#[trigger] r.polys@[t]@[j])
                == sk.coeffs@[t * poly_size + j],
{
    let n = poly_size;
    let k = sk.coeffs.len() / n;
    proof {
        vstd::arithmetic::div_mod::lemma_fundamental_div_mod(sk.coeffs@.len() as int, n as int);
        vstd::arithmetic::mul::lemma_mul_is_commutative(n as int, k as int);
    }
    let mut polys: Vec<Vec<u64>> = Vec::new();
    let mut t: usize = 0;
    while t < k
        invariant
            sk.coeffs@.len() == k * n,
            1 <= n <= 0x1000_0000,
            k * n <= 0x4000_0000,
            t <= k,
            polys@.len() == t,
            forall|tt: int| 0 <= tt < t ==> (#[trigger] polys@[tt])@.len() == n,
            forall|tt: int, j: int|
                0 <= tt < t && 0 <= j < n ==> (#[trigger] polys@[tt]@[j]) == sk.coeffs@[tt * n
                    + j],
        decreases k - t,
    {
        proof {
            assert((t + 1) * n <= k * n) by (nonlinear_arith)
                requires
                    t + 1 <= k,
                    n >= 0,
            ;
            assert(t * n + n == (t + 1) * n) by (nonlinear_arith);
            assert(t * n >= 0) by (nonlinear_arith)
                requires
                    t >= 0,
                    n >= 0,
            ;
        }
        let base = t * n;
        let mut p: Vec<u64> = Vec::new();
        let mut j: usize = 0;
        while j < n
            invariant
                sk.coeffs@.len() == k * n,
                k * n <= 0x4000_0000,
                base == t * n,
                base + n <= k * n,
                j <= n,
                p@.len() == j,
                forall|jj: int| 0 <= jj < j ==> (#[trigger] p@[jj]) == sk.coeffs@[base + jj],
            decreases n - j,
        {
            p.push(sk.coeffs[base + j]);
            j = j + 1;
        }
        polys.push(p);
        t = t + 1;
    }
    GlweSecretKey { polys }
}

/// Encrypt the GLev ladder of a plaintext polynomial: entry j encrypts the
/// polynomial scaled by 2^(64 - (j+1)*base_log).
pub fn encrypt_scaled_glev(
    sk: &GlweSecretKey,
    pt: &Vec<u64>,
    base_log: usize,
    levels: usize,
    entropy: &mut EntropySource,
) -> (r: Vec<GlweCiphertext>)
    requires
        sk.wf(),
        pt@.len() == sk.poly_size(),
        1 <= base_log,
        1 <= levels,
        levels * base_log < 64,
        old(entropy).wf(),
        old(entropy).remaining() >= levels * glwe_entropy(sk.glwe_dimension(), sk.poly_size()),
    ensures
        final(entropy).wf(),
        glev_wf(r@, sk.glwe_dimension(), sk.poly_size(), levels as nat),
        final(entropy).words == old(entropy).words,
        final(entropy).remaining() == old(entropy).remaining() - levels * glwe_entropy(
            sk.glwe_dimension(),
            sk.poly_size(),
        ),
        // Ladder entry j encrypts the plaintext at scale 2^(64-(j+1)B): its
        // phase is exactly the scaled plaintext plus the entropy noise words
        // consumed for that level.
        forall|j: int|
            0 <= j < levels ==> glwe_phase(glwe_key_view(*sk), #[trigger] r@[j]) == padd(
                scaled_poly(pt@, (64 - (j + 1) * base_log) as nat),
                glev_noise_slice(
                    old(entropy).words@,
                    old(entropy).next as int,
                    sk.glwe_dimension(),
                    sk.poly_size(),
                    j,
                ),
            ),
{
    let k = sk.polys.len();
    let n = pt.len();
    let ghost per = glwe_entropy(k as nat, n as nat);
    let mut r: Vec<GlweCiphertext> = Vec::new();
    let mut j: usize = 0;
    while j < levels
        invariant
            sk.wf(),
            sk.glwe_dimension() == k,
            sk.poly_size() == n,
            pt@.len() == n,
            1 <= base_log,
            1 <= levels,
            levels * base_log < 64,
            per == glwe_entropy(k as nat, n as nat),
            entropy.wf(),
            entropy.words == old(entropy).words,
            old(entropy).remaining() >= levels * per,
            entropy.remaining() == old(entropy).remaining() - j * per,
            entropy.next == old(entropy).next + j * per,
            j <= levels,
            r@.len() == j,
            forall|t: int|
                0 <= t < j ==> (#[trigger] r@[t]).wf() && r@[t].glwe_dimension() == k
                    && r@[t].poly_size() == n,
            forall|t: int|
                0 <= t < j ==> glwe_phase(glwe_key_view(*sk), #[trigger] r@[t]) == padd(
                    scaled_poly(pt@, (64 - (t + 1) * base_log) as nat),
                    glev_noise_slice(
                        old(entropy).words@,
                        old(entropy).next as int,
                        k as nat,
                        n as nat,
                        t,
                    ),
                ),
        decreases levels - j,
    {
        proof {
            assert((j + 1) * base_log <= levels * base_log) by (nonlinear_arith)
                requires
                    j + 1 <= levels,
                    base_log >= 0,
            ;
            lemma_peel((levels - j) as int, per as int);
            assert((j + 1) * per == j * per + per) by (nonlinear_arith);
            let ghost rem = entropy.remaining();
            let ghost rem0 = old(entropy).remaining();
            assert(rem >= per) by (nonlinear_arith)
                requires
                    rem == rem0 - j * per,
                    rem0 >= levels * per,
                    j < levels,
                    per >= 0,
            ;
            assert(per == (k + 1) * n);
            assert((k + 1) * n >= n + k * n) by (nonlinear_arith);
            assert(1 <= (j + 1) * base_log) by (nonlinear_arith)
                requires
                    j >= 0,
                    base_log >= 1,
            ;
        }
        let scale = pow2_u64(64 - (j + 1) * base_log);
        let mut scaled: Vec<u64> = Vec::new();
        let mut t: usize = 0;
        while t < n
            invariant
                pt@.len() == n,
                scale == pow2((64 - (j + 1) * base_log) as nat),
                j < levels,
                1 <= base_log,
                levels * base_log < 64,
                t <= n,
                scaled@.len() == t,
                forall|tt: int|
                    0 <= tt < t ==> #[trigger] scaled@[tt] == wrap(
                        (pt@[tt] as int) * (pow2((64 - (j + 1) * base_log) as nat) as int),
                    ),
            decreases n - t,
        {
            proof {
                crate::arith::lemma_wrapping_mul(pt@[t as int], scale);
            }
            scaled.push(pt[t].wrapping_mul(scale));
            t = t + 1;
        }
        proof {
            assert(k * n + n == (k + 1) * n) by (nonlinear_arith);
            assert(scaled@ =~= scaled_poly(pt@, (64 - (j + 1) * base_log) as nat));
        }
        let ghost next_pre = entropy.next as int;
        let mask = entropy.draw_poly_list(k, n);
        let noise = entropy.draw_vec(n);
        proof {
            assert(noise@ == old(entropy).words@.subrange(next_pre + (k * n), next_pre + (k * n)
                + n));
        }
        let ct = encrypt_glwe_ciphertext_with(sk, &scaled, mask, &noise);
        proof {
            assert(glwe_phase(glwe_key_view(*sk), ct) =~= padd(
                scaled_poly(pt@, (64 - (j + 1) * base_log) as nat),
                glev_noise_slice(
                    old(entropy).words@,
                    old(entropy).next as int,
                    k as nat,
                    n as nat,
                    j as int,
                ),
            )) by {
                let sp = scaled_poly(pt@, (64 - (j + 1) * base_log) as nat);
                let ns = glev_noise_slice(
                    old(entropy).words@,
                    old(entropy).next as int,
                    k as nat,
                    n as nat,
                    j as int,
                );
                assert(ns =~= noise@) by {
                    assert((j + 1) * (per as int) == j * (per as int) + per) by (nonlinear_arith);
                    assert(per == (k + 1) * n);
                    assert(k * n + n == (k + 1) * n) by (nonlinear_arith);
                }
                assert forall|tt: int| 0 <= tt < n implies glwe_phase(glwe_key_view(*sk), ct)[tt]
                    == padd(sp, ns)[tt] by {
                    assert(glwe_phase(glwe_key_view(*sk), ct)[tt] == wrap(
                        scaled@[tt] + noise@[tt],
                    ));
                }
            }
        }
        r.push(ct);
        j = j + 1;
    }
    r
}

/// Generate a GLWE keyswitch key from the source key to the destination
/// key: one GLev ladder per source key polynomial, encrypted under the
/// destination key.
pub fn allocate_and_generate_new_glwe_keyswitch_key(
    sk_in: &GlweSecretKey,
    sk_out: &GlweSecretKey,
    base_log: usize,
    levels: usize,
    entropy: &mut EntropySource,
) -> (r: GlweKeyswitchKey)
    requires
        sk_in.wf(),
        sk_out.wf(),
        sk_in.poly_size() == sk_out.poly_size(),
        1 <= base_log,
        1 <= levels,
        levels * base_log < 64,
        old(entropy).wf(),
        old(entropy).remaining() >= sk_in.glwe_dimension() * (levels * glwe_entropy(
            sk_out.glwe_dimension(),
            sk_out.poly_size(),
        )),
    ensures
        final(entropy).wf(),
        r.wf(),
        r.input_glwe_dimension() == sk_in.glwe_dimension(),
        r.output_glwe_dimension == sk_out.glwe_dimension(),
        r.poly_size() == sk_out.poly_size(),
        r.base_log == base_log,
        r.levels == levels,
        final(entropy).words == old(entropy).words,
{
    let kin = sk_in.polys.len();
    let kout = sk_out.polys.len();
    let n = sk_out.polys[0].len();
    let ghost per = levels as nat * glwe_entropy(kout as nat, n as nat);
    let mut keys: Vec<Vec<GlweCiphertext>> = Vec::new();
    let mut i: usize = 0;
    while i < kin
        invariant
            sk_in.wf(),
            sk_out.wf(),
            sk_in.glwe_dimension() == kin,
            sk_out.glwe_dimension() == kout,
            sk_in.poly_size() == n,
            sk_out.poly_size() == n,
            1 <= base_log,
            1 <= levels,
            levels * base_log < 64,
            per == levels as nat * glwe_entropy(kout as nat, n as nat),
            entropy.wf(),
            entropy.words == old(entropy).words,
            entropy.remaining() >= (kin - i) * per,
            i <= kin,
            keys@.len() == i,
            forall|t: int|
                0 <= t < i ==> glev_wf((#[trigger] keys@[t])@, kout as nat, n as nat, levels as nat),
        decreases kin - i,
    {
        proof {
            lemma_peel((kin - i) as int, per as int);
            assert(sk_in.polys@[i as int]@.len() == n);
        }
        let glev = encrypt_scaled_glev(sk_out, &sk_in.polys[i], base_log, levels, entropy);
        keys.push(glev);
        i = i + 1;
    }
    GlweKeyswitchKey { base_log, levels, output_glwe_dimension: kout, keys }
}

/// Generate the automorphism keys for the whole doubling chain of
/// exponents N/step + 1 (step = 1, 2, ..., N/2): for each exponent, one
/// GLev ladder per key polynomial encrypting that polynomial's image under
/// X |-> X^exponent.
pub fn generate_automorphism_keys(
    sk: &GlweSecretKey,
    base_log: usize,
    levels: usize,
    entropy: &mut EntropySource,
) -> (r: AutomorphKeyMap)
    requires
        sk.wf(),
        2 <= sk.poly_size(),
        exists|e: nat| e < 64 && sk.poly_size() == pow2(e),
        1 <= base_log,
        1 <= levels,
        levels * base_log < 64,
        old(entropy).wf(),
        old(entropy).remaining() >= 64 * (sk.glwe_dimension() * (levels * glwe_entropy(
            sk.glwe_dimension(),
            sk.poly_size(),
        ))),
    ensures
        final(entropy).wf(),
        r.wf_for(sk.glwe_dimension(), sk.poly_size()),
        forall|st: int|
            1 <= st && (exists|e: nat| st == pow2(e)) && 2 * st <= sk.poly_size()
                ==> #[trigger] r.contains_exponent(sk.poly_size() as int / st + 1),
        forall|i: int|
            0 <= i < r.entries@.len() ==> (#[trigger] r.entries@[i]).base_log == base_log
                && r.entries@[i].levels == levels && auto_key_phases(
                *sk,
                r.entries@[i],
                old(entropy).words@,
                old(entropy).next + i * ((sk.glwe_dimension() as int) * ((levels as int)
                    * (glwe_entropy(sk.glwe_dimension(), sk.poly_size()) as int))),
            ),
{
    let k = sk.polys.len();
    let n = sk.polys[0].len();
    let logn = log2_exact(n);
    proof {
        lemma2_to64();
        if logn == 0 {
            assert(pow2(0) == 1);
        }
        assert(logn >= 1);
        assert(logn < 64);
    }
    let ghost per = k as nat * (levels as nat * glwe_entropy(k as nat, n as nat));
    let mut entries: Vec<AutomorphKey> = Vec::new();
    let mut e: usize = 1;
    while e <= logn
        invariant
            sk.wf(),
            sk.glwe_dimension() == k,
            sk.poly_size() == n,
            2 <= n <= 0x1000_0000,
            n == pow2(logn as nat),
            1 <= logn < 64,
            1 <= base_log,
            1 <= levels,
            levels * base_log < 64,
            per == k as nat * (levels as nat * glwe_entropy(k as nat, n as nat)),
            entropy.wf(),
            entropy.words == old(entropy).words,
            entropy.remaining() >= (64 - e) * per,
            entropy.next == old(entropy).next + (e - 1) * (per as int),
            1 <= e <= logn + 1,
            entries@.len() == e - 1,
            forall|t: int|
                0 <= t < e - 1 ==> (#[trigger] entries@[t]).wf() && entries@[t].glwe_dimension()
                    == k && entries@[t].poly_size() == n,
            forall|t: int|
                0 <= t < e - 1 ==> (#[trigger] entries@[t]).base_log == base_log
                    && entries@[t].levels == levels && auto_key_phases(
                    *sk,
                    entries@[t],
                    old(entropy).words@,
                    old(entropy).next + t * (per as int),
                ),
            forall|ee: int|
                1 <= ee < e ==> #[trigger] has_exponent_entry(entries@, pow2(ee as nat) as int + 1),
        decreases logn + 1 - e,
    {
        proof {
            lemma_peel((64 - e) as int, per as int);
            lemma_pow2_strictly_increases(e as nat, logn as nat + 1);
            lemma_pow2_adds(logn as nat, 1);
            lemma2_to64();
            assert(pow2(logn as nat + 1) == 2 * n);
            assert(pow2(e as nat) <= 2 * n);
        }
        let exponent = pow2_u64(e) as usize + 1;
        proof {
            // The exponent is odd.
            lemma_pow2_unfold(e as nat);
            vstd::arithmetic::div_mod::lemma_mod_multiples_basic(
                pow2((e - 1) as nat) as int,
                2,
            );
            vstd::arithmetic::mul::lemma_mul_is_commutative(2, pow2((e - 1) as nat) as int);
            vstd::arithmetic::div_mod::lemma_mod_multiples_vanish(
                pow2((e - 1) as nat) as int,
                1,
                2,
            );
            vstd::arithmetic::div_mod::lemma_small_mod(1nat, 2nat);
        }
        let mut keys: Vec<Vec<GlweCiphertext>> = Vec::new();
        let mut rr: usize = 0;
        let ghost per_row = levels as nat * glwe_entropy(k as nat, n as nat);
        let ghost rem_start = entropy.remaining();
        let ghost next_e = entropy.next as int;
        proof {
            assert(per == k as nat * per_row);
            assert(rem_start >= k * per_row) by (nonlinear_arith)
                requires
                    rem_start >= (64 - e) * (k as nat * per_row),
                    e <= 63,
                    k >= 0,
                    per_row >= 0,
                    per == k as nat * per_row,
                    rem_start >= (64 - e) * per,
            ;
        }
        while rr < k
            invariant
                sk.wf(),
                sk.glwe_dimension() == k,
                sk.poly_size() == n,
                2 <= n <= 0x1000_0000,
                exists|ee: nat| n == pow2(ee),
                1 <= base_log,
                1 <= levels,
                levels * base_log < 64,
                exponent % 2 == 1,
                exponent <= 0x2000_0000,
                per_row == levels as nat * glwe_entropy(k as nat, n as nat),
                entropy.wf(),
                entropy.words == old(entropy).words,
                rem_start >= k * per_row,
                entropy.remaining() == rem_start - rr * per_row,
                entropy.next == next_e + rr * (per_row as int),
                rr <= k,
                keys@.len() == rr,
                forall|t: int|
                    0 <= t < rr ==> glev_wf(
                        (#[trigger] keys@[t])@,
                        k as nat,
                        n as nat,
                        levels as nat,
                    ),
                forall|t: int, j: int|
                    0 <= t < rr && 0 <= j < levels ==> glwe_phase(
                        glwe_key_view(*sk),
                        #[trigger] keys@[t]@[j],
                    ) == padd(
                        scaled_poly(
                            auto_image_fn(sk.polys@[t]@, exponent as nat),
                            (64 - (j + 1) * base_log) as nat,
                        ),
                        glev_noise_slice(
                            old(entropy).words@,
                            next_e + t * (per_row as int),
                            k as nat,
                            n as nat,
                            j,
                        ),
                    ),
            decreases k - rr,
        {
            proof {
                lemma_peel((k - rr) as int, per_row as int);
                assert(sk.polys@[rr as int]@.len() == n);
                let ghost rem = entropy.remaining();
                assert(rem >= per_row && (rr + 1) * per_row == rr * per_row + per_row)
                    by (nonlinear_arith)
                    requires
                        rem == rem_start - rr * per_row,
                        rem_start >= k * per_row,
                        rr < k,
                        per_row >= 0,
                ;
            }
            let ghost next_row = entropy.next as int;
            let sub = eval_x_k(&sk.polys[rr], exponent);
            let glev = encrypt_scaled_glev(sk, &sub, base_log, levels, entropy);
            proof {
                assert(sub@ == auto_image_fn(sk.polys@[rr as int]@, exponent as nat));
                assert(next_row == next_e + rr * (per_row as int));
            }
            keys.push(glev);
            rr = rr + 1;
        }
        let key = AutomorphKey { exponent, base_log, levels, keys };
        proof {
            assert(key.wf());
            assert(key.glwe_dimension() == k);
            assert(key.poly_size() == n);
            assert(entropy.remaining() == rem_start - per) by (nonlinear_arith)
                requires
                    entropy.remaining() == rem_start - k * per_row,
                    per == k as nat * per_row,
            ;
            lemma_peel((64 - e) as int, per as int);
            // Consumption bookkeeping: the inner loop advanced exactly one
            // exponent's worth of words.
            assert(entropy.next == next_e + (k as int) * (per_row as int));
            let ghost n0 = old(entropy).next as int;
            let ghost nxt = entropy.next as int;
            assert(nxt == n0 + e * (per as int)) by (nonlinear_arith)
                requires
                    nxt == next_e + (k as int) * (per_row as int),
                    next_e == n0 + (e - 1) * (per as int),
                    per == k as nat * per_row,
            ;
            assert(auto_key_phases(
                *sk,
                key,
                old(entropy).words@,
                old(entropy).next + (e - 1) * (per as int),
            )) by {
                assert(next_e == old(entropy).next + (e - 1) * (per as int));
                assert forall|t: int, j: int|
                    0 <= t < k && 0 <= j < levels implies glwe_phase(
                    glwe_key_view(*sk),
                    #[trigger] key.keys@[t]@[j],
                ) == padd(
                    scaled_poly(
                        auto_image_fn(sk.polys@[t]@, key.exponent as nat),
                        (64 - (j + 1) * key.base_log) as nat,
                    ),
                    glev_noise_slice(
                        old(entropy).words@,
                        old(entropy).next + (e - 1) * (per as int) + t * ((key.levels as int)
                            * (glwe_entropy(k as nat, n as nat) as int)),
                        k as nat,
                        n as nat,
                        j,
                    ),
                ) by {
                    assert(key.keys@[t]@[j] == keys@[t]@[j]);
                }
            }
        }
        let ghost prev_entries = entries@;
        entries.push(key);
        proof {
            assert(entries@[e - 1].exponent == pow2(e as nat) + 1);
            assert forall|ee: int| 1 <= ee < e + 1 implies #[trigger] has_exponent_entry(
                entries@,
                pow2(ee as nat) as int + 1,
            ) by {
                if ee < e {
                    assert(has_exponent_entry(prev_entries, pow2(ee as nat) as int + 1));
                    let t = choose|t: int|
                        0 <= t < prev_entries.len() && #[trigger] (prev_entries[t].exponent as int)
                            == pow2(ee as nat) + 1;
                    assert((entries@[t].exponent as int) == pow2(ee as nat) + 1);
                } else {
                    assert((entries@[e - 1].exponent as int) == pow2(ee as nat) + 1);
                }
            }
        }
        e = e + 1;
    }
    let map = AutomorphKeyMap { entries };
    proof {
        assert forall|st: int|
            1 <= st && (exists|ee: nat| st == pow2(ee)) && 2 * st <= n implies #[trigger] map
            .contains_exponent(n as int / st + 1) by {
            let es = choose|ee: nat| st == pow2(ee);
            // 2^(es+1) <= n == 2^logn, so es + 1 <= logn.
            assert(pow2((es + 1) as nat) <= pow2(logn as nat)) by {
                lemma_pow2_adds(es, 1);
                lemma2_to64();
            }
            assert(es + 1 <= logn) by {
                if es + 1 > logn {
                    lemma_pow2_strictly_increases(logn as nat, (es + 1) as nat);
                }
            }
            let ee = logn - es;
            assert(1 <= ee <= logn);
            assert(n as int / st == pow2(ee as nat)) by {
                lemma_pow2_adds(es, ee as nat);
                lemma_pow2_pos(es);
                lemma_pow2_pos(ee as nat);
                assert(n as int == (pow2(ee as nat) as int) * (st as int)) by {
                    vstd::arithmetic::mul::lemma_mul_is_commutative(
                        pow2(es) as int,
                        pow2(ee as nat) as int,
                    );
                }
                vstd::arithmetic::div_mod::lemma_fundamental_div_mod_converse(
                    n as int,
                    st,
                    pow2(ee as nat) as int,
                    0,
                );
            }
            assert(has_exponent_entry(map.entries@, pow2(ee as nat) as int + 1));
            let t = choose|t: int|
                0 <= t < map.entries@.len() && #[trigger] (map.entries@[t].exponent as int)
                    == pow2(ee as nat) + 1;
            assert(map.entries@[t].exponent == n as int / st + 1);
        }
    }
    map
}

/// The wrapped negation of one torus element, at the specification level.
pub open spec fn torus_neg_spec(x: u64) -> u64 {
    wrap(-(x as int))
}

/// The plaintext polynomial of GGSW column c for a selector of `bit`:
/// -s_c * bit for the mask columns, the constant bit for the body column.
pub open spec fn ggsw_bit_pt(sk: GlweSecretKey, bit: u64, c: int) -> Seq<u64> {
    if c < sk.glwe_dimension() {
        Seq::new(sk.poly_size(), |t: int| wrap(wrap(-(sk.polys@[c]@[t] as int)) * (bit as int)))
    } else {
        Seq::new(sk.poly_size(), |t: int| if t == 0 { bit } else { 0u64 })
    }
}

/// The rows of a GGSW selector of `bit` encrypted from entropy position
/// `start`: row (c, j)'s phase is exactly the column plaintext at the
/// ladder scale plus its noise words.
pub open spec fn ggsw_phases_from(
    sk: GlweSecretKey,
    bit: u64,
    bl: nat,
    lvls: nat,
    words: Seq<u64>,
    start: int,
    out: GgswCiphertext,
) -> bool {
    forall|c: int, j: int|
        0 <= c < sk.glwe_dimension() + 1 && 0 <= j < lvls ==> glwe_phase(
            glwe_key_view(sk),
            #[trigger] out.cols@[c]@[j],
        ) == padd(
            scaled_poly(ggsw_bit_pt(sk, bit, c), (64 - (j + 1) * bl) as nat),
            glev_noise_slice(
                words,
                start + c * ((lvls as int) * (glwe_entropy(
                    sk.glwe_dimension(),
                    sk.poly_size(),
                ) as int)),
                sk.glwe_dimension(),
                sk.poly_size(),
                j,
            ),
        )
}

/// Encrypt a GGSW selector of one bit: for each level j and key column c,
/// the row encrypts -s_c * bit * 2^(64-(j+1)B) (mask columns) or
/// bit * 2^(64-(j+1)B) at the constant coefficient (body column).
pub fn encrypt_ggsw_of_bit(
    sk: &GlweSecretKey,
    bit: u64,
    base_log: usize,
    levels: usize,
    entropy: &mut EntropySource,
) -> (r: GgswCiphertext)
    requires
        sk.wf(),
        sk.glwe_dimension() <= 0x1000_0000,
        1 <= base_log,
        1 <= levels,
        levels * base_log < 64,
        old(entropy).wf(),
        old(entropy).remaining() >= (sk.glwe_dimension() + 1) * (levels * glwe_entropy(
            sk.glwe_dimension(),
            sk.poly_size(),
        )),
    ensures
        final(entropy).wf(),
        r.wf(),
        r.glwe_dimension() == sk.glwe_dimension(),
        r.poly_size() == sk.poly_size(),
        r.base_log == base_log,
        r.levels == levels,
        final(entropy).words == old(entropy).words,
        final(entropy).remaining() == old(entropy).remaining() - (sk.glwe_dimension() + 1) * (
        levels * glwe_entropy(sk.glwe_dimension(), sk.poly_size())),
        ggsw_phases_from(
            *sk,
            bit,
            base_log as nat,
            levels as nat,
            old(entropy).words@,
            old(entropy).next as int,
            r,
        ),
{
    let k = sk.polys.len();
    let n = sk.polys[0].len();
    let ghost per = levels as nat * glwe_entropy(k as nat, n as nat);
    let mut cols: Vec<Vec<GlweCiphertext>> = Vec::new();
    let mut c: usize = 0;
    while c < k + 1
        invariant
            sk.wf(),
            sk.glwe_dimension() == k,
            sk.poly_size() == n,
            1 <= base_log,
            1 <= levels,
            levels * base_log < 64,
            k <= 0x1000_0000,
            per == levels as nat * glwe_entropy(k as nat, n as nat),
            entropy.wf(),
            entropy.words == old(entropy).words,
            old(entropy).remaining() >= (k + 1) * per,
            entropy.remaining() == old(entropy).remaining() - c * per,
            entropy.next == old(entropy).next + c * (per as int),
            c <= k + 1,
            cols@.len() == c,
            forall|t: int|
                0 <= t < c ==> glev_wf((#[trigger] cols@[t])@, k as nat, n as nat, levels as nat),
            forall|t: int, j: int|
                0 <= t < c && 0 <= j < levels ==> glwe_phase(
                    glwe_key_view(*sk),
                    #[trigger] cols@[t]@[j],
                ) == padd(
                    scaled_poly(ggsw_bit_pt(*sk, bit, t), (64 - (j + 1) * base_log) as nat),
                    glev_noise_slice(
                        old(entropy).words@,
                        old(entropy).next + t * (per as int),
                        k as nat,
                        n as nat,
                        j,
                    ),
                ),
        decreases k + 1 - c,
    {
        proof {
            lemma_peel((k + 1 - c) as int, per as int);
            assert((c + 1) * per == c * per + per) by (nonlinear_arith);
            let ghost rem = entropy.remaining();
            let ghost rem0 = old(entropy).remaining();
            assert(rem >= per) by (nonlinear_arith)
                requires
                    rem == rem0 - c * per,
                    rem0 >= (k + 1) * per,
                    c < k + 1,
                    per >= 0,
            ;
        }
        // The plaintext polynomial of this column.
        let mut pt: Vec<u64> = Vec::new();
        if c < k {
            let mut t: usize = 0;
            while t < n
                invariant
                    sk.wf(),
                    sk.glwe_dimension() == k,
                    sk.poly_size() == n,
                    c < k,
                    t <= n,
                    pt@.len() == t,
                    forall|tt: int|
                        0 <= tt < t ==> #[trigger] pt@[tt] == wrap(
                            wrap(-(sk.polys@[c as int]@[tt] as int)) * (bit as int),
                        ),
                decreases n - t,
            {
                proof {
                    assert(sk.polys@[c as int]@.len() == n);
                    crate::arith::lemma_wrapping_mul(torus_neg_spec(sk.polys@[c as int]@[t as int]), bit);
                }
                pt.push(torus_neg(sk.polys[c][t]).wrapping_mul(bit));
                t = t + 1;
            }
        } else {
            pt.push(bit);
            let mut t: usize = 1;
            while t < n
                invariant
                    1 <= t <= n,
                    pt@.len() == t,
                    pt@[0] == bit,
                    forall|tt: int| 1 <= tt < t ==> pt@[tt] == 0u64,
                decreases n - t,
            {
                pt.push(0u64);
                t = t + 1;
            }
        }
        proof {
            assert(pt@ =~= ggsw_bit_pt(*sk, bit, c as int));
        }
        let ghost next_c = entropy.next as int;
        let glev = encrypt_scaled_glev(sk, &pt, base_log, levels, entropy);
        proof {
            assert(next_c == old(entropy).next + c * (per as int));
        }
        cols.push(glev);
        c = c + 1;
    }
    let r = GgswCiphertext { base_log, levels, cols };
    proof {
        assert(r.cols@.len() == k + 1);
        assert(r.glwe_dimension() == k);
        assert(glev_wf(r.cols@[0]@, k as nat, n as nat, levels as nat));
        assert(r.cols@[0]@[0].poly_size() == n);
        assert(r.poly_size() == n);
    }
    r
}

/// Generate a bootstrap key: one GGSW selector per input key bit.
pub fn generate_bootstrap_key(
    small_sk: &LweSecretKey,
    glwe_sk: &GlweSecretKey,
    base_log: usize,
    levels: usize,
    entropy: &mut EntropySource,
) -> (r: BootstrapKey)
    requires
        small_sk.coeffs@.len() >= 1,
        glwe_sk.wf(),
        glwe_sk.glwe_dimension() <= 0x1000_0000,
        1 <= base_log,
        1 <= levels,
        levels * base_log < 64,
        old(entropy).wf(),
        old(entropy).remaining() >= small_sk.coeffs@.len() * ((glwe_sk.glwe_dimension() + 1) * (
        levels * glwe_entropy(glwe_sk.glwe_dimension(), glwe_sk.poly_size()))),
    ensures
        final(entropy).wf(),
        r.wf(),
        r.input_lwe_dimension() == small_sk.coeffs@.len(),
        r.glwe_dimension() == glwe_sk.glwe_dimension(),
        r.poly_size() == glwe_sk.poly_size(),
        r.base_log() == base_log,
        r.levels() == levels,
        final(entropy).words == old(entropy).words,
        final(entropy).remaining() == old(entropy).remaining() - small_sk.coeffs@.len() * ((
        glwe_sk.glwe_dimension() + 1) * (levels * glwe_entropy(
            glwe_sk.glwe_dimension(),
            glwe_sk.poly_size(),
        ))),
        // Selector i encrypts key bit i: its rows carry exactly the column
        // plaintexts of that bit plus their entropy noise words.
        forall|i: int|
            0 <= i < small_sk.coeffs@.len() ==> ggsw_phases_from(
                *glwe_sk,
                small_sk.coeffs@[i],
                base_log as nat,
                levels as nat,
                old(entropy).words@,
                old(entropy).next + i * (((glwe_sk.glwe_dimension() + 1) as int) * ((
                levels as int) * (glwe_entropy(
                    glwe_sk.glwe_dimension(),
                    glwe_sk.poly_size(),
                ) as int))),
                #[trigger] r.ggsws@[i],
            ),
{
    let dim = small_sk.coeffs.len();
    let ghost per = (glwe_sk.glwe_dimension() + 1) * (levels as nat * glwe_entropy(
        glwe_sk.glwe_dimension(),
        glwe_sk.poly_size(),
    ));
    let mut ggsws: Vec<GgswCiphertext> = Vec::new();
    let mut i: usize = 0;
    while i < dim
        invariant
            small_sk.coeffs@.len() == dim,
            glwe_sk.wf(),
            1 <= base_log,
            1 <= levels,
            levels * base_log < 64,
            per == (glwe_sk.glwe_dimension() + 1) * (levels as nat * glwe_entropy(
                glwe_sk.glwe_dimension(),
                glwe_sk.poly_size(),
            )),
            glwe_sk.glwe_dimension() <= 0x1000_0000,
            entropy.wf(),
            entropy.words == old(entropy).words,
            old(entropy).remaining() >= dim * per,
            entropy.remaining() == old(entropy).remaining() - i * per,
            entropy.next == old(entropy).next + i * (per as int),
            i <= dim,
            ggsws@.len() == i,
            forall|t: int|
                0 <= t < i ==> (#[trigger] ggsws@[t]).wf() && ggsws@[t].glwe_dimension()
                    == glwe_sk.glwe_dimension() && ggsws@[t].poly_size() == glwe_sk.poly_size()
                    && ggsws@[t].base_log == base_log && ggsws@[t].levels == levels,
            forall|t: int|
                0 <= t < i ==> ggsw_phases_from(
                    *glwe_sk,
                    small_sk.coeffs@[t],
                    base_log as nat,
                    levels as nat,
                    old(entropy).words@,
                    old(entropy).next + t * (per as int),
                    #[trigger] ggsws@[t],
                ),
        decreases dim - i,
    {
        proof {
            lemma_peel((dim - i) as int, per as int);
            let ghost rem = entropy.remaining();
            let ghost rem0 = old(entropy).remaining();
            assert(rem >= per && (i + 1) * per == i * per + per) by (nonlinear_arith)
                requires
                    rem == rem0 - i * per,
                    rem0 >= dim * per,
                    i < dim,
                    per >= 0,
            ;
        }
        let g = encrypt_ggsw_of_bit(glwe_sk, small_sk.coeffs[i], base_log, levels, entropy);
        ggsws.push(g);
        i = i + 1;
    }
    BootstrapKey { ggsws }
}

/// The relation polynomial injected for key polynomial i at ladder level
/// j: -s_i(X) scaled by 2^(64-(j+1)B).
pub open spec fn ss_injection(sk: GlweSecretKey, i: int, bl: nat, j: int) -> Seq<u64> {
    scaled_poly(
        Seq::new(sk.poly_size(), |t: int| wrap(-(sk.polys@[i]@[t] as int))),
        (64 - (j + 1) * bl) as nat,
    )
}

/// out equals pre with the relation polynomial of key i added into every
/// row's own column slot: the mask polynomial c of row (c, j) for the mask
/// columns, the body for the body column. This pins the generated key's
/// rows completely, given pre's phases.
pub open spec fn ss_injected_rel(
    sk: GlweSecretKey,
    i: int,
    bl: nat,
    lvls: nat,
    pre: GgswCiphertext,
    out: GgswCiphertext,
) -> bool {
    let k = sk.glwe_dimension() as int;
    &&& out.cols@.len() == k + 1
    &&& pre.cols@.len() == k + 1
    &&& forall|c: int, j: int|
        0 <= c <= k && 0 <= j < lvls ==> row_injected(
            sk,
            i,
            bl,
            #[trigger] pre.cols@[c]@[j],
            out.cols@[c]@[j],
            c,
            j,
            k,
        )
}

/// Entry `out` of the relation key for key polynomial i: some fresh GGSW
/// encryption of zero (rows' phases exactly the entropy noise words from
/// `start`) with the relation polynomial injected into every row's slot.
pub open spec fn ss_entry_ok(
    sk: GlweSecretKey,
    bl: nat,
    lvls: nat,
    words: Seq<u64>,
    start: int,
    i: int,
    out: GgswCiphertext,
) -> bool {
    exists|pre: GgswCiphertext|
        #[trigger] ggsw_phases_from(sk, 0u64, bl, lvls, words, start, pre) && ss_injected_rel(
            sk,
            i,
            bl,
            lvls,
            pre,
            out,
        )
}

/// Generate the scheme-switching relation key: for each key polynomial
/// s_i, a GGSW-shaped encryption of zero whose every row additionally
/// carries -s_i(X) * 2^(64 - (j+1)B) in the row's own column slot.
pub fn generate_scheme_switching_key(
    sk: &GlweSecretKey,
    ss_base_log: usize,
    ss_levels: usize,
    entropy: &mut EntropySource,
) -> (r: Vec<GgswCiphertext>)
    requires
        sk.wf(),
        sk.glwe_dimension() <= 0x1000_0000,
        1 <= ss_base_log,
        1 <= ss_levels,
        ss_levels * ss_base_log < 64,
        old(entropy).wf(),
        old(entropy).remaining() >= sk.glwe_dimension() * ((sk.glwe_dimension() + 1) * (ss_levels
            * glwe_entropy(sk.glwe_dimension(), sk.poly_size()))),
    ensures
        final(entropy).wf(),
        r@.len() == sk.glwe_dimension(),
        forall|t: int|
            0 <= t < r@.len() ==> (#[trigger] r@[t]).wf() && r@[t].glwe_dimension()
                == sk.glwe_dimension() && r@[t].poly_size() == sk.poly_size(),
        // Entry i is a fresh GGSW encryption of zero (its rows' phases are
        // exactly the entropy noise words) with -s_i * 2^(64-(j+1)B) added
        // into every row's own column slot.
        forall|i: int|
            0 <= i < sk.glwe_dimension() ==> ss_entry_ok(
                *sk,
                ss_base_log as nat,
                ss_levels as nat,
                old(entropy).words@,
                old(entropy).next + i * (((sk.glwe_dimension() + 1) as int) * ((ss_levels as int)
                    * (glwe_entropy(sk.glwe_dimension(), sk.poly_size()) as int))),
                i,
                #[trigger] r@[i],
            ),
{
    let k = sk.polys.len();
    let n = sk.polys[0].len();
    let ghost per = (k + 1) as nat * (ss_levels as nat * glwe_entropy(k as nat, n as nat));
    let mut r: Vec<GgswCiphertext> = Vec::new();
    let mut i: usize = 0;
    while i < k
        invariant
            sk.wf(),
            sk.glwe_dimension() == k,
            sk.poly_size() == n,
            1 <= ss_base_log,
            1 <= ss_levels,
            ss_levels * ss_base_log < 64,
            k <= 0x1000_0000,
            per == (k + 1) as nat * (ss_levels as nat * glwe_entropy(k as nat, n as nat)),
            entropy.wf(),
            entropy.words == old(entropy).words,
            entropy.remaining() >= (k - i) * per,
            entropy.next == old(entropy).next + i * (per as int),
            i <= k,
            r@.len() == i,
            forall|t: int|
                0 <= t < i ==> (#[trigger] r@[t]).wf() && r@[t].glwe_dimension() == k
                    && r@[t].poly_size() == n,
            forall|t: int|
                0 <= t < i ==> ss_entry_ok(
                    *sk,
                    ss_base_log as nat,
                    ss_levels as nat,
                    old(entropy).words@,
                    old(entropy).next + t * (per as int),
                    t,
                    #[trigger] r@[t],
                ),
        decreases k - i,
    {
        proof {
            lemma_peel((k - i) as int, per as int);
        }
        // A GGSW of zero...
        let mut g = encrypt_ggsw_of_bit(sk, 0u64, ss_base_log, ss_levels, entropy);
        let ghost gpre = g;
        // ...whose rows each receive -s_i * scale in their own column slot.
        let mut c: usize = 0;
        while c < k + 1
            invariant
                sk.wf(),
                sk.glwe_dimension() == k,
                sk.poly_size() == n,
                k <= 0x1000_0000,
                i < k,
                1 <= ss_base_log,
                1 <= ss_levels,
                ss_levels * ss_base_log < 64,
                c <= k + 1,
                g.wf(),
                g.glwe_dimension() == k,
                g.poly_size() == n,
                g.levels == ss_levels,
                g.cols@.len() == k + 1,
                gpre.wf(),
                gpre.glwe_dimension() == k,
                gpre.poly_size() == n,
                gpre.levels == ss_levels,
                gpre.cols@.len() == k + 1,
                forall|cc: int, jj: int|
                    0 <= cc < c && 0 <= jj < ss_levels ==> row_injected(
                        *sk,
                        i as int,
                        ss_base_log as nat,
                        #[trigger] gpre.cols@[cc]@[jj],
                        g.cols@[cc]@[jj],
                        cc,
                        jj,
                        k as int,
                    ),
                forall|cc: int| c <= cc < k + 1 ==> #[trigger] g.cols@[cc] == gpre.cols@[cc],
            decreases k + 1 - c,
        {
            let mut j: usize = 0;
            while j < ss_levels
                invariant
                    sk.wf(),
                    sk.glwe_dimension() == k,
                    sk.poly_size() == n,
                    i < k,
                    c < k + 1,
                    1 <= ss_base_log,
                    1 <= ss_levels,
                    ss_levels * ss_base_log < 64,
                    j <= ss_levels,
                    g.wf(),
                    g.glwe_dimension() == k,
                    g.poly_size() == n,
                    g.levels == ss_levels,
                    g.cols@.len() == k + 1,
                    gpre.wf(),
                    gpre.glwe_dimension() == k,
                    gpre.poly_size() == n,
                    gpre.levels == ss_levels,
                    gpre.cols@.len() == k + 1,
                    forall|cc: int, jj: int|
                        0 <= cc < c && 0 <= jj < ss_levels ==> row_injected(
                            *sk,
                            i as int,
                            ss_base_log as nat,
                            #[trigger] gpre.cols@[cc]@[jj],
                            g.cols@[cc]@[jj],
                            cc,
                            jj,
                            k as int,
                        ),
                    forall|cc: int| c < cc < k + 1 ==> #[trigger] g.cols@[cc] == gpre.cols@[cc],
                    g.cols@[c as int]@.len() == gpre.cols@[c as int]@.len(),
                    forall|jj: int|
                        0 <= jj < j ==> row_injected(
                            *sk,
                            i as int,
                            ss_base_log as nat,
                            #[trigger] gpre.cols@[c as int]@[jj],
                            g.cols@[c as int]@[jj],
                            c as int,
                            jj,
                            k as int,
                        ),
                    forall|jj: int|
                        j <= jj < ss_levels ==> #[trigger] g.cols@[c as int]@[jj]
                            == gpre.cols@[c as int]@[jj],
                decreases ss_levels - j,
            {
                proof {
                    assert((j + 1) * ss_base_log <= ss_levels * ss_base_log) by (nonlinear_arith)
                        requires
                            j + 1 <= ss_levels,
                            ss_base_log >= 0,
                    ;
                    assert(1 <= (j + 1) * ss_base_log) by (nonlinear_arith)
                        requires
                            j >= 0,
                            ss_base_log >= 1,
                    ;
                }
                let scale = pow2_u64(64 - (j + 1) * ss_base_log);
                let mut buf: Vec<u64> = Vec::new();
                let mut t: usize = 0;
                while t < n
                    invariant
                        sk.wf(),
                        sk.glwe_dimension() == k,
                        sk.poly_size() == n,
                        i < k,
                        scale == pow2((64 - (j + 1) * ss_base_log) as nat),
                        j < ss_levels,
                        1 <= ss_base_log,
                        ss_levels * ss_base_log < 64,
                        t <= n,
                        buf@.len() == t,
                        forall|tt: int|
                            0 <= tt < t ==> #[trigger] buf@[tt] == wrap(
                                wrap(-(sk.polys@[i as int]@[tt] as int)) * (pow2(
                                    (64 - (j + 1) * ss_base_log) as nat,
                                ) as int),
                            ),
                    decreases n - t,
                {
                    proof {
                        assert(sk.polys@[i as int]@.len() == n);
                        crate::arith::lemma_wrapping_mul(
                            torus_neg_spec(sk.polys@[i as int]@[t as int]),
                            scale,
                        );
                    }
                    buf.push(torus_neg(sk.polys[i][t]).wrapping_mul(scale));
                    t = t + 1;
                }
                proof {
                    assert(buf@ =~= ss_injection(
                        *sk,
                        i as int,
                        ss_base_log as nat,
                        j as int,
                    ));
                }
                proof {
                    assert(glev_wf(g.cols@[c as int]@, k as nat, n as nat, ss_levels as nat));
                    assert(g.cols@[c as int]@[j as int].wf());
                }
                let ghost prow = g.cols@[c as int]@[j as int];
                let ladder = &mut g.cols[c];
                let row = &mut ladder[j];
                if c < k {
                    proof {
                        assert(row.mask@[c as int]@.len() == n);
                    }
                    let target = &mut row.mask[c];
                    polynomial_wrapping_add_assign(target, &buf);
                } else {
                    polynomial_wrapping_add_assign(&mut row.body, &buf);
                }
                proof {
                    assert(row.wf());
                }
                proof {
                    assert(prow == gpre.cols@[c as int]@[j as int]);
                    assert(row_injected(
                        *sk,
                        i as int,
                        ss_base_log as nat,
                        gpre.cols@[c as int]@[j as int],
                        g.cols@[c as int]@[j as int],
                        c as int,
                        j as int,
                        k as int,
                    ));
                }
                j = j + 1;
            }
            c = c + 1;
        }
        proof {
            assert(ss_injected_rel(
                *sk,
                i as int,
                ss_base_log as nat,
                ss_levels as nat,
                gpre,
                g,
            ));
            assert(ggsw_phases_from(
                *sk,
                0u64,
                ss_base_log as nat,
                ss_levels as nat,
                old(entropy).words@,
                old(entropy).next + i * (per as int),
                gpre,
            ));
            assert(ss_entry_ok(
                *sk,
                ss_base_log as nat,
                ss_levels as nat,
                old(entropy).words@,
                old(entropy).next + i * (per as int),
                i as int,
                g,
            ));
            let ghost n0 = old(entropy).next as int;
            let ghost nxt = entropy.next as int;
            assert(nxt == n0 + (i + 1) * (per as int)) by (nonlinear_arith)
                requires
                    nxt == n0 + i * (per as int) + (per as int),
            ;
        }
        r.push(g);
        i = i + 1;
    }
    r
}

/// One row of the generated relation key: the zero-encryption row with the
/// relation polynomial added into slot c (the row's own mask polynomial for
/// the mask columns, the body for the body column).
pub open spec fn row_injected(
    sk: GlweSecretKey,
    i: int,
    bl: nat,
    prow: GlweCiphertext,
    orow: GlweCiphertext,
    c: int,
    j: int,
    k: int,
) -> bool {
    &&& orow.mask@.len() == prow.mask@.len()
    &&& if c < k {
        &&& orow.body@ == prow.body@
        &&& (forall|rr: int|
            0 <= rr < prow.mask@.len() && rr != c ==> (#[trigger] orow.mask@[rr])@
                == prow.mask@[rr]@)
        &&& orow.mask@[c]@ == padd(prow.mask@[c]@, ss_injection(sk, i, bl, j))
    } else {
        &&& (forall|rr: int|
            0 <= rr < prow.mask@.len() ==> (#[trigger] orow.mask@[rr])@ == prow.mask@[rr]@)
        &&& orow.body@ == padd(prow.body@, ss_injection(sk, i, bl, j))
    }
}

/// Generate an LWE keyswitch key: for each input key coefficient, a Lev
/// ladder of encryptions of that coefficient scaled by 2^(64-(j+1)B),
/// under the destination key.
pub fn allocate_and_generate_new_lwe_keyswitch_key(
    sk_in: &LweSecretKey,
    sk_out: &LweSecretKey,
    base_log: usize,
    levels: usize,
    entropy: &mut EntropySource,
) -> (r: crate::lwe_keyswitch::LweKeyswitchKey)
    requires
        1 <= base_log,
        1 <= levels,
        levels * base_log < 64,
        old(entropy).wf(),
        old(entropy).remaining() >= sk_in.coeffs@.len() * (levels * (sk_out.coeffs@.len() + 1)),
    ensures
        final(entropy).wf(),
        r.wf(),
        r.input_lwe_dimension() == sk_in.coeffs@.len(),
        r.output_lwe_dimension == sk_out.coeffs@.len(),
        r.base_log == base_log,
        r.levels == levels,
        // Ladder (i, j) encrypts input key coefficient i at scale
        // 2^(64-(j+1)B): its phase is that value plus the noise word
        // consumed for it.
        forall|i: int, j: int|
            0 <= i < sk_in.coeffs@.len() && 0 <= j < levels ==> crate::lwe::lwe_phase(
                sk_out.coeffs@,
                #[trigger] r.keys@[i]@[j],
            ) == wrap(
                wrap((sk_in.coeffs@[i] as int) * (pow2((64 - (j + 1) * base_log) as nat) as int))
                    + old(entropy).words@[old(entropy).next + i * ((levels as int) * ((
                sk_out.coeffs@.len() + 1) as int)) + j * ((sk_out.coeffs@.len() + 1) as int) + (
                sk_out.coeffs@.len() as int)],
            ),
{
    let dim = sk_in.coeffs.len();
    let nout = sk_out.coeffs.len();
    let ghost per = levels as nat * (nout + 1) as nat;
    let mut keys: Vec<Vec<LweCiphertext>> = Vec::new();
    let mut i: usize = 0;
    while i < dim
        invariant
            sk_in.coeffs@.len() == dim,
            sk_out.coeffs@.len() == nout,
            1 <= base_log,
            1 <= levels,
            levels * base_log < 64,
            per == levels as nat * (nout + 1) as nat,
            entropy.wf(),
            entropy.words == old(entropy).words,
            entropy.remaining() >= (dim - i) * per,
            entropy.next == old(entropy).next + i * (per as int),
            i <= dim,
            keys@.len() == i,
            forall|t: int| 0 <= t < i ==> (#[trigger] keys@[t])@.len() == levels,
            forall|t: int, j: int|
                0 <= t < i && 0 <= j < levels ==> (#[trigger] keys@[t]@[j]).lwe_dimension()
                    == nout,
            forall|t: int, j: int|
                0 <= t < i && 0 <= j < levels ==> crate::lwe::lwe_phase(
                    sk_out.coeffs@,
                    #[trigger] keys@[t]@[j],
                ) == wrap(
                    wrap((sk_in.coeffs@[t] as int) * (pow2(
                        (64 - (j + 1) * base_log) as nat,
                    ) as int)) + old(entropy).words@[old(entropy).next + t * (per as int) + j * ((
                    nout + 1) as int) + (nout as int)],
                ),
        decreases dim - i,
    {
        proof {
            lemma_peel((dim - i) as int, per as int);
        }
        let mut lev: Vec<LweCiphertext> = Vec::new();
        let mut j: usize = 0;
        let ghost rem_start = entropy.remaining();
        let ghost next_i = entropy.next as int;
        while j < levels
            invariant
                sk_in.coeffs@.len() == dim,
                sk_out.coeffs@.len() == nout,
                i < dim,
                1 <= base_log,
                1 <= levels,
                levels * base_log < 64,
                entropy.wf(),
                entropy.words == old(entropy).words,
                rem_start >= levels * ((nout + 1) as nat),
                entropy.remaining() == rem_start - j * ((nout + 1) as nat),
                entropy.next == next_i + j * ((nout + 1) as int),
                j <= levels,
                lev@.len() == j,
                forall|t: int|
                    0 <= t < j ==> (#[trigger] lev@[t]).lwe_dimension() == nout,
                forall|t: int|
                    0 <= t < j ==> crate::lwe::lwe_phase(sk_out.coeffs@, #[trigger] lev@[t])
                        == wrap(
                        wrap((sk_in.coeffs@[i as int] as int) * (pow2(
                            (64 - (t + 1) * base_log) as nat,
                        ) as int)) + old(entropy).words@[next_i + t * ((nout + 1) as int) + (
                        nout as int)],
                    ),
            decreases levels - j,
        {
            proof {
                assert((j + 1) * base_log <= levels * base_log) by (nonlinear_arith)
                    requires
                        j + 1 <= levels,
                        base_log >= 0,
                ;
                assert(1 <= (j + 1) * base_log) by (nonlinear_arith)
                    requires
                        j >= 0,
                        base_log >= 1,
                ;
                let ghost rem = entropy.remaining();
                assert(rem >= (nout + 1) as nat && (j + 1) * ((nout + 1) as nat) == j * ((nout
                    + 1) as nat) + (nout + 1)) by (nonlinear_arith)
                    requires
                        rem == rem_start - j * ((nout + 1) as nat),
                        rem_start >= levels * ((nout + 1) as nat),
                        j < levels,
                        nout >= 0,
                ;
            }
            let scale = pow2_u64(64 - (j + 1) * base_log);
            proof {
                crate::arith::lemma_wrapping_mul(sk_in.coeffs@[i as int], scale);
            }
            let pt = sk_in.coeffs[i].wrapping_mul(scale);
            let ghost next_j = entropy.next as int;
            let mask = entropy.draw_vec(nout);
            let noise = entropy.draw();
            proof {
                assert(noise == old(entropy).words@[next_j + (nout as int)]);
                assert(next_j == next_i + j * ((nout + 1) as int));
            }
            let ct = crate::lwe::encrypt_lwe_ciphertext_with(sk_out, pt, mask, noise);
            lev.push(ct);
            j = j + 1;
        }
        proof {
            let ghost n0 = old(entropy).next as int;
            let ghost nxt = entropy.next as int;
            assert(nxt == n0 + (i + 1) * (per as int)) by (nonlinear_arith)
                requires
                    nxt == next_i + (levels as int) * ((nout + 1) as int),
                    next_i == n0 + i * (per as int),
                    per == levels as nat * (nout + 1) as nat,
            ;
        }
        keys.push(lev);
        i = i + 1;
    }
    crate::lwe_keyswitch::LweKeyswitchKey { base_log, levels, output_lwe_dimension: nout, keys }
}

/// Generate a packing keyswitch key from an LWE key to a GLWE key: for
/// each input key coefficient, a GLev ladder of encryptions of the
/// constant polynomial holding that coefficient.
pub fn allocate_and_generate_new_lwe_packing_keyswitch_key(
    sk_in: &LweSecretKey,
    sk_out: &GlweSecretKey,
    base_log: usize,
    levels: usize,
    entropy: &mut EntropySource,
) -> (r: LwePackingKeyswitchKey)
    requires
        sk_in.coeffs@.len() >= 1,
        sk_out.wf(),
        1 <= base_log,
        1 <= levels,
        levels * base_log < 64,
        old(entropy).wf(),
        old(entropy).remaining() >= sk_in.coeffs@.len() * (levels * glwe_entropy(
            sk_out.glwe_dimension(),
            sk_out.poly_size(),
        )),
    ensures
        final(entropy).wf(),
        r.wf(),
        r.input_lwe_dimension() == sk_in.coeffs@.len(),
        r.output_glwe_dimension == sk_out.glwe_dimension(),
        r.poly_size() == sk_out.poly_size(),
        r.base_log == base_log,
        r.levels == levels,
        // Ladder (i, j) encrypts the constant polynomial holding input key
        // coefficient i at scale 2^(64-(j+1)B): its phase is that scaled
        // constant plus the entropy noise words consumed for it.
        forall|i: int, j: int|
            0 <= i < sk_in.coeffs@.len() && 0 <= j < levels ==> glwe_phase(
                glwe_key_view(*sk_out),
                #[trigger] r.keys@[i]@[j],
            ) == padd(
                scaled_poly(
                    Seq::new(
                        sk_out.poly_size(),
                        |t: int| if t == 0 { sk_in.coeffs@[i] } else { 0u64 },
                    ),
                    (64 - (j + 1) * base_log) as nat,
                ),
                glev_noise_slice(
                    old(entropy).words@,
                    old(entropy).next + i * ((levels as int) * (glwe_entropy(
                        sk_out.glwe_dimension(),
                        sk_out.poly_size(),
                    ) as int)),
                    sk_out.glwe_dimension(),
                    sk_out.poly_size(),
                    j,
                ),
            ),
{
    let dim = sk_in.coeffs.len();
    let kout = sk_out.polys.len();
    let n = sk_out.polys[0].len();
    let ghost per = levels as nat * glwe_entropy(kout as nat, n as nat);
    let mut keys: Vec<Vec<GlweCiphertext>> = Vec::new();
    let mut i: usize = 0;
    while i < dim
        invariant
            sk_in.coeffs@.len() == dim,
            sk_out.wf(),
            sk_out.glwe_dimension() == kout,
            sk_out.poly_size() == n,
            1 <= base_log,
            1 <= levels,
            levels * base_log < 64,
            per == levels as nat * glwe_entropy(kout as nat, n as nat),
            entropy.wf(),
            entropy.words == old(entropy).words,
            entropy.remaining() >= (dim - i) * per,
            entropy.next == old(entropy).next + i * (per as int),
            i <= dim,
            keys@.len() == i,
            forall|t: int|
                0 <= t < i ==> glev_wf((#[trigger] keys@[t])@, kout as nat, n as nat, levels as nat),
            forall|t: int, j: int|
                0 <= t < i && 0 <= j < levels ==> glwe_phase(
                    glwe_key_view(*sk_out),
                    #[trigger] keys@[t]@[j],
                ) == padd(
                    scaled_poly(
                        Seq::new(n as nat, |tt: int| if tt == 0 { sk_in.coeffs@[t] } else { 0u64 }),
                        (64 - (j + 1) * base_log) as nat,
                    ),
                    glev_noise_slice(
                        old(entropy).words@,
                        old(entropy).next + t * (per as int),
                        kout as nat,
                        n as nat,
                        j,
                    ),
                ),
        decreases dim - i,
    {
        proof {
            lemma_peel((dim - i) as int, per as int);
        }
        // The constant polynomial holding this key coefficient.
        let mut pt: Vec<u64> = Vec::new();
        pt.push(sk_in.coeffs[i]);
        let mut t: usize = 1;
        while t < n
            invariant
                sk_in.coeffs@.len() == dim,
                i < dim,
                1 <= t <= n,
                pt@.len() == t,
                pt@[0] == sk_in.coeffs@[i as int],
                forall|tt: int| 1 <= tt < t ==> pt@[tt] == 0u64,
            decreases n - t,
        {
            pt.push(0u64);
            t = t + 1;
        }
        proof {
            assert(pt@ =~= Seq::new(
                n as nat,
                |tt: int| if tt == 0 { sk_in.coeffs@[i as int] } else { 0u64 },
            ));
        }
        let ghost next_i = entropy.next as int;
        let glev = encrypt_scaled_glev(sk_out, &pt, base_log, levels, entropy);
        proof {
            assert(next_i == old(entropy).next + i * (per as int));
            let ghost n0 = old(entropy).next as int;
            let ghost nxt = entropy.next as int;
            assert(nxt == n0 + (i + 1) * (per as int)) by (nonlinear_arith)
                requires
                    nxt == next_i + (per as int),
                    next_i == n0 + i * (per as int),
            ;
        }
        keys.push(glev);
        i = i + 1;
    }
    LwePackingKeyswitchKey { base_log, levels, output_glwe_dimension: kout, keys }
}

/// Generate the standard bootstrap material: the two secret keys, the
/// bootstrap key from the small key under the GLWE key, and the LWE
/// keyswitch key from the large (flattened GLWE) key back to the small key.
pub fn keygen_pbs(
    lwe_dimension: usize,
    glwe_dimension: usize,
    polynomial_size: usize,
    pbs_base_log: usize,
    pbs_level: usize,
    ks_base_log: usize,
    ks_level: usize,
    entropy: &mut EntropySource,
) -> (r: (LweSecretKey, GlweSecretKey, LweSecretKey, BootstrapKey,
    crate::lwe_keyswitch::LweKeyswitchKey))
    requires
        1 <= lwe_dimension,
        1 <= glwe_dimension <= 0x1000_0000,
        1 <= polynomial_size <= 0x1000_0000,
        glwe_dimension * polynomial_size <= 0x4000_0000,
        1 <= pbs_base_log,
        1 <= pbs_level,
        pbs_level * pbs_base_log < 64,
        1 <= ks_base_log,
        1 <= ks_level,
        ks_level * ks_base_log < 64,
        old(entropy).wf(),
        old(entropy).remaining() >= lwe_dimension * ((glwe_dimension + 1) * (pbs_level
            * glwe_entropy(glwe_dimension as nat, polynomial_size as nat))) + (glwe_dimension
            * polynomial_size) * (ks_level * (lwe_dimension + 1)),
    ensures
        final(entropy).wf(),
        r.0.coeffs@.len() == glwe_dimension * polynomial_size,
        forall|t: int, j: int|
            0 <= t < glwe_dimension && 0 <= j < polynomial_size ==> (#[trigger] r.0.coeffs@[t
                * polynomial_size + j]) == r.1.polys@[t]@[j],
        r.0.is_binary(),
        r.1.wf(),
        r.1.glwe_dimension() == glwe_dimension,
        r.1.poly_size() == polynomial_size,
        r.1.is_binary(),
        r.2.coeffs@.len() == lwe_dimension,
        r.2.is_binary(),
        r.3.wf(),
        r.3.input_lwe_dimension() == lwe_dimension,
        r.3.glwe_dimension() == glwe_dimension,
        r.3.poly_size() == polynomial_size,
        r.3.base_log() == pbs_base_log,
        r.3.levels() == pbs_level,
        r.4.wf(),
        r.4.input_lwe_dimension() == glwe_dimension * polynomial_size,
        r.4.output_lwe_dimension == lwe_dimension,
{
    proof {
        assert(glwe_dimension * polynomial_size >= 1) by (nonlinear_arith)
            requires
                glwe_dimension >= 1,
                polynomial_size >= 1,
        ;
    }
    let small_sk = generate_binary_lwe_secret_key(lwe_dimension);
    let glwe_sk = generate_binary_glwe_secret_key(glwe_dimension, polynomial_size);
    let large_sk = glwe_secret_key_into_lwe_secret_key(&glwe_sk);
    let bsk = generate_bootstrap_key(&small_sk, &glwe_sk, pbs_base_log, pbs_level, entropy);
    let ksk = allocate_and_generate_new_lwe_keyswitch_key(
        &large_sk,
        &small_sk,
        ks_base_log,
        ks_level,
        entropy,
    );
    (large_sk, glwe_sk, small_sk, bsk, ksk)
}

/// The bootstrap material without the keyswitch key.
pub fn keygen_pbs_without_ksk(
    lwe_dimension: usize,
    glwe_dimension: usize,
    polynomial_size: usize,
    pbs_base_log: usize,
    pbs_level: usize,
    entropy: &mut EntropySource,
) -> (r: (LweSecretKey, GlweSecretKey, LweSecretKey, BootstrapKey))
    requires
        1 <= lwe_dimension,
        1 <= glwe_dimension <= 0x1000_0000,
        1 <= polynomial_size <= 0x1000_0000,
        glwe_dimension * polynomial_size <= 0x4000_0000,
        1 <= pbs_base_log,
        1 <= pbs_level,
        pbs_level * pbs_base_log < 64,
        old(entropy).wf(),
        old(entropy).remaining() >= lwe_dimension * ((glwe_dimension + 1) * (pbs_level
            * glwe_entropy(glwe_dimension as nat, polynomial_size as nat))),
    ensures
        final(entropy).wf(),
        r.0.coeffs@.len() == glwe_dimension * polynomial_size,
        forall|t: int, j: int|
            0 <= t < glwe_dimension && 0 <= j < polynomial_size ==> (#[trigger] r.0.coeffs@[t
                * polynomial_size + j]) == r.1.polys@[t]@[j],
        r.0.is_binary(),
        r.1.wf(),
        r.1.glwe_dimension() == glwe_dimension,
        r.1.poly_size() == polynomial_size,
        r.1.is_binary(),
        r.2.coeffs@.len() == lwe_dimension,
        r.2.is_binary(),
        r.3.wf(),
        r.3.input_lwe_dimension() == lwe_dimension,
        r.3.glwe_dimension() == glwe_dimension,
        r.3.poly_size() == polynomial_size,
        r.3.base_log() == pbs_base_log,
        r.3.levels() == pbs_level,
{
    let small_sk = generate_binary_lwe_secret_key(lwe_dimension);
    let glwe_sk = generate_binary_glwe_secret_key(glwe_dimension, polynomial_size);
    let large_sk = glwe_secret_key_into_lwe_secret_key(&glwe_sk);
    let bsk = generate_bootstrap_key(&small_sk, &glwe_sk, pbs_base_log, pbs_level, entropy);
    (large_sk, glwe_sk, small_sk, bsk)
}

/// The bootstrap material with a GLWE dimension-switch key in place of the
/// LWE keyswitch key: both LWE keys are reinterpreted as GLWE keys over a
/// common smaller polynomial size, and the keyswitch key goes from the
/// large key to the small key in that representation.
pub fn keygen_pbs_with_glwe_ds(
    lwe_dimension: usize,
    glwe_dimension: usize,
    polynomial_size: usize,
    pbs_base_log: usize,
    pbs_level: usize,
    glwe_ds_base_log: usize,
    glwe_ds_level: usize,
    common_polynomial_size: usize,
    entropy: &mut EntropySource,
) -> (r: (LweSecretKey, GlweSecretKey, LweSecretKey, BootstrapKey, GlweKeyswitchKey))
    requires
        1 <= lwe_dimension,
        1 <= glwe_dimension <= 0x1000_0000,
        1 <= polynomial_size <= 0x1000_0000,
        glwe_dimension * polynomial_size <= 0x4000_0000,
        1 <= pbs_base_log,
        1 <= pbs_level,
        pbs_level * pbs_base_log < 64,
        1 <= glwe_ds_base_log,
        1 <= glwe_ds_level,
        glwe_ds_level * glwe_ds_base_log < 64,
        lwe_dimension <= 0x4000_0000,
        1 <= common_polynomial_size <= 0x1000_0000,
        lwe_dimension as int % (common_polynomial_size as int) == 0,
        (glwe_dimension * polynomial_size) as int % (common_polynomial_size as int) == 0,
        lwe_dimension as int / (common_polynomial_size as int) >= 1,
        (glwe_dimension * polynomial_size) as int / (common_polynomial_size as int) >= 1,
        old(entropy).wf(),
        old(entropy).remaining() >= lwe_dimension * ((glwe_dimension + 1) * (pbs_level
            * glwe_entropy(glwe_dimension as nat, polynomial_size as nat))) + ((glwe_dimension
            * polynomial_size) as int / (common_polynomial_size as int)) * (glwe_ds_level
            * glwe_entropy(
            (lwe_dimension as int / (common_polynomial_size as int)) as nat,
            common_polynomial_size as nat,
        )),
    ensures
        final(entropy).wf(),
        r.0.coeffs@.len() == glwe_dimension * polynomial_size,
        forall|t: int, j: int|
            0 <= t < glwe_dimension && 0 <= j < polynomial_size ==> (#[trigger] r.0.coeffs@[t
                * polynomial_size + j]) == r.1.polys@[t]@[j],
        r.1.wf(),
        r.1.glwe_dimension() == glwe_dimension,
        r.1.poly_size() == polynomial_size,
        r.2.coeffs@.len() == lwe_dimension,
        r.3.wf(),
        r.3.input_lwe_dimension() == lwe_dimension,
        r.3.glwe_dimension() == glwe_dimension,
        r.3.poly_size() == polynomial_size,
        r.4.wf(),
        r.4.input_glwe_dimension() == (glwe_dimension * polynomial_size) as int / (
        common_polynomial_size as int),
        r.4.output_glwe_dimension == lwe_dimension as int / (common_polynomial_size as int),
        r.4.poly_size() == common_polynomial_size,
{
    let small_sk = generate_binary_lwe_secret_key(lwe_dimension);
    let glwe_sk = generate_binary_glwe_secret_key(glwe_dimension, polynomial_size);
    let large_sk = glwe_secret_key_into_lwe_secret_key(&glwe_sk);
    let bsk = generate_bootstrap_key(&small_sk, &glwe_sk, pbs_base_log, pbs_level, entropy);
    let large_view = lwe_secret_key_as_glwe_secret_key(&large_sk, common_polynomial_size);
    let small_view = lwe_secret_key_as_glwe_secret_key(&small_sk, common_polynomial_size);
    let glwe_ksk = allocate_and_generate_new_glwe_keyswitch_key(
        &large_view,
        &small_view,
        glwe_ds_base_log,
        glwe_ds_level,
        entropy,
    );
    (large_sk, glwe_sk, small_sk, bsk, glwe_ksk)
}

/// Encrypt a list of bits into chunks of GLev-shaped GLWE lists: chunk idx
/// holds bits [idx*N, (idx+1)*N) at ladder scale 2^(64-(j+1)B-logN), the
/// extra trace factor N already divided out.
pub fn encode_bits_into_glwe_ciphertext(
    glwe_sk: &GlweSecretKey,
    bit_list: &Vec<u64>,
    ggsw_bit_decomp_base_log: usize,
    ggsw_bit_decomp_level_count: usize,
    entropy: &mut EntropySource,
) -> (r: Vec<Vec<GlweCiphertext>>)
    requires
        glwe_sk.wf(),
        1 <= bit_list@.len() <= 0x1000_0000,
        exists|e: nat| e < 64 && glwe_sk.poly_size() == pow2(e),
        1 <= ggsw_bit_decomp_base_log,
        1 <= ggsw_bit_decomp_level_count,
        old(entropy).wf(),
        old(entropy).remaining() >= ((bit_list@.len() + glwe_sk.poly_size() - 1) as int / (
        glwe_sk.poly_size() as int)) * (ggsw_bit_decomp_level_count * glwe_entropy(
            glwe_sk.glwe_dimension(),
            glwe_sk.poly_size(),
        )),
        (ggsw_bit_decomp_level_count * ggsw_bit_decomp_base_log) + log2_spec_pub(
            glwe_sk.poly_size(),
        ) < 64,
    ensures
        final(entropy).wf(),
        r@.len() == (bit_list@.len() + glwe_sk.poly_size() - 1) as int / (
        glwe_sk.poly_size() as int),
        forall|t: int|
            0 <= t < r@.len() ==> glev_wf(
                (#[trigger] r@[t])@,
                glwe_sk.glwe_dimension(),
                glwe_sk.poly_size(),
                ggsw_bit_decomp_level_count as nat,
            ),
        // Chunk idx, level j encrypts bits [idx*N, (idx+1)*N) at the ladder
        // scale shrunk by the ring size: its phase is exactly that scaled
        // chunk plus the entropy noise words consumed for it.
        forall|idx: int, j: int|
            0 <= idx < r@.len() && 0 <= j < ggsw_bit_decomp_level_count ==> glwe_phase(
                glwe_key_view(*glwe_sk),
                #[trigger] r@[idx]@[j],
            ) == padd(
                scaled_poly(
                    encode_chunk(bit_list@, glwe_sk.poly_size(), idx),
                    (64 - (j + 1) * ggsw_bit_decomp_base_log - log2_spec_pub(
                        glwe_sk.poly_size(),
                    )) as nat,
                ),
                glev_noise_slice(
                    old(entropy).words@,
                    old(entropy).next + idx * ((ggsw_bit_decomp_level_count as int)
                        * (glwe_entropy(glwe_sk.glwe_dimension(), glwe_sk.poly_size()) as int)),
                    glwe_sk.glwe_dimension(),
                    glwe_sk.poly_size(),
                    j,
                ),
            ),
{
    let k = glwe_sk.polys.len();
    let n = glwe_sk.polys[0].len();
    let logn = log2_exact(n);
    proof {
        lemma_log2_pub(n as nat, logn as nat);
    }
    let count = (bit_list.len() + n - 1) / n;
    proof {
        vstd::arithmetic::div_mod::lemma_fundamental_div_mod(
            (bit_list@.len() + n - 1) as int,
            n as int,
        );
        vstd::arithmetic::div_mod::lemma_mod_bound((bit_list@.len() + n - 1) as int, n as int);
        assert((count as int) * (n as int) <= bit_list@.len() + n - 1) by (nonlinear_arith)
            requires
                (bit_list@.len() + n - 1) as int == (n as int) * (count as int) + ((bit_list@.len()
                    + n - 1) as int % (n as int)),
                (bit_list@.len() + n - 1) as int % (n as int) >= 0,
        ;
    }
    let ghost per = ggsw_bit_decomp_level_count as nat * glwe_entropy(k as nat, n as nat);
    let mut r: Vec<Vec<GlweCiphertext>> = Vec::new();
    let mut idx: usize = 0;
    while idx < count
        invariant
            glwe_sk.wf(),
            glwe_sk.glwe_dimension() == k,
            glwe_sk.poly_size() == n,
            bit_list@.len() >= 1,
            n == pow2(logn as nat),
            logn < 64,
            1 <= ggsw_bit_decomp_base_log,
            1 <= ggsw_bit_decomp_level_count,
            ggsw_bit_decomp_level_count * ggsw_bit_decomp_base_log + logn < 64,
            count == (bit_list@.len() + n - 1) as int / (n as int),
            (count as int) * (n as int) <= bit_list@.len() + n - 1,
            bit_list@.len() <= 0x1000_0000,
            per == ggsw_bit_decomp_level_count as nat * glwe_entropy(k as nat, n as nat),
            logn as nat == log2_spec_pub(n as nat),
            entropy.wf(),
            entropy.words == old(entropy).words,
            entropy.remaining() >= (count - idx) * per,
            entropy.next == old(entropy).next + idx * (per as int),
            idx <= count,
            r@.len() == idx,
            forall|t: int|
                0 <= t < idx ==> glev_wf(
                    (#[trigger] r@[t])@,
                    k as nat,
                    n as nat,
                    ggsw_bit_decomp_level_count as nat,
                ),
            forall|t: int, j: int|
                0 <= t < idx && 0 <= j < ggsw_bit_decomp_level_count ==> glwe_phase(
                    glwe_key_view(*glwe_sk),
                    #[trigger] r@[t]@[j],
                ) == padd(
                    scaled_poly(
                        encode_chunk(bit_list@, n as nat, t),
                        (64 - (j + 1) * ggsw_bit_decomp_base_log - (logn as int)) as nat,
                    ),
                    glev_noise_slice(
                        old(entropy).words@,
                        old(entropy).next + t * (per as int),
                        k as nat,
                        n as nat,
                        j,
                    ),
                ),
        decreases count - idx,
    {
        proof {
            lemma_peel((count - idx) as int, per as int);
        }
        // The bit chunk of this list, in the clear.
        let mut pt: Vec<u64> = Vec::new();
        let mut i: usize = 0;
        while i < n
            invariant
                1 <= bit_list@.len() <= 0x1000_0000,
                n <= 0x1000_0000,
                idx < count,
                (count as int) * (n as int) <= bit_list@.len() + n - 1,
                i <= n,
                pt@.len() == i,
                forall|tt: int|
                    0 <= tt < i ==> #[trigger] pt@[tt] == (if idx * (n as int) + tt
                        < bit_list@.len() {
                        bit_list@[idx * (n as int) + tt]
                    } else {
                        0u64
                    }),
            decreases n - i,
        {
            proof {
                assert(idx * n + i < count * n) by (nonlinear_arith)
                    requires
                        idx < count,
                        i < n,
                        n >= 1,
                        idx >= 0,
                        i >= 0,
                ;
            }
            let bit_idx = idx * n + i;
            if bit_idx < bit_list.len() {
                pt.push(bit_list[bit_idx]);
            } else {
                pt.push(0u64);
            }
            i = i + 1;
        }
        proof {
            assert(pt@ =~= encode_chunk(bit_list@, n as nat, idx as int));
        }
        // One GLWE per ladder level, the chunk scaled to that level's
        // ladder step shrunk by the ring size.
        let mut glev: Vec<GlweCiphertext> = Vec::new();
        let mut j: usize = 0;
        let ghost rem_start = entropy.remaining();
        let ghost next_idx = entropy.next as int;
        while j < ggsw_bit_decomp_level_count
            invariant
                glwe_sk.wf(),
                glwe_sk.glwe_dimension() == k,
                glwe_sk.poly_size() == n,
                pt@.len() == n,
                pt@ == encode_chunk(bit_list@, n as nat, idx as int),
                logn < 64,
                1 <= ggsw_bit_decomp_base_log,
                1 <= ggsw_bit_decomp_level_count,
                ggsw_bit_decomp_level_count * ggsw_bit_decomp_base_log + logn < 64,
                entropy.wf(),
                entropy.words == old(entropy).words,
                rem_start >= ggsw_bit_decomp_level_count * glwe_entropy(k as nat, n as nat),
                entropy.remaining() == rem_start - j * glwe_entropy(k as nat, n as nat),
                entropy.next == next_idx + j * (glwe_entropy(k as nat, n as nat) as int),
                j <= ggsw_bit_decomp_level_count,
                glev@.len() == j,
                forall|t: int|
                    0 <= t < j ==> (#[trigger] glev@[t]).wf() && glev@[t].glwe_dimension() == k
                        && glev@[t].poly_size() == n,
                forall|t: int|
                    0 <= t < j ==> glwe_phase(glwe_key_view(*glwe_sk), #[trigger] glev@[t])
                        == padd(
                        scaled_poly(
                            pt@,
                            (64 - (t + 1) * ggsw_bit_decomp_base_log - (logn as int)) as nat,
                        ),
                        glev_noise_slice(old(entropy).words@, next_idx, k as nat, n as nat, t),
                    ),
            decreases ggsw_bit_decomp_level_count - j,
        {
            let ghost perg = glwe_entropy(k as nat, n as nat);
            proof {
                assert((j + 1) * ggsw_bit_decomp_base_log <= ggsw_bit_decomp_level_count
                    * ggsw_bit_decomp_base_log) by (nonlinear_arith)
                    requires
                        j + 1 <= ggsw_bit_decomp_level_count,
                        ggsw_bit_decomp_base_log >= 0,
                ;
                assert(1 <= (j + 1) * ggsw_bit_decomp_base_log) by (nonlinear_arith)
                    requires
                        j >= 0,
                        ggsw_bit_decomp_base_log >= 1,
                ;
                let ghost rem = entropy.remaining();
                assert(rem >= perg && (j + 1) * perg == j * perg + perg) by (nonlinear_arith)
                    requires
                        rem == rem_start - j * perg,
                        rem_start >= ggsw_bit_decomp_level_count * perg,
                        j < ggsw_bit_decomp_level_count,
                        perg >= 0,
                ;
                assert(perg == (k + 1) * n);
                assert(k * n + n == (k + 1) * n) by (nonlinear_arith);
            }
            let log_scale = 64 - (j + 1) * ggsw_bit_decomp_base_log - logn;
            let scale = pow2_u64(log_scale);
            let mut scaled: Vec<u64> = Vec::new();
            let mut t: usize = 0;
            while t < n
                invariant
                    pt@.len() == n,
                    scale == pow2(
                        (64 - (j + 1) * ggsw_bit_decomp_base_log - (logn as int)) as nat,
                    ),
                    t <= n,
                    scaled@.len() == t,
                    forall|tt: int|
                        0 <= tt < t ==> #[trigger] scaled@[tt] == wrap(
                            (pt@[tt] as int) * (pow2(
                                (64 - (j + 1) * ggsw_bit_decomp_base_log - (logn as int)) as nat,
                            ) as int),
                        ),
                decreases n - t,
            {
                proof {
                    crate::arith::lemma_wrapping_mul(pt@[t as int], scale);
                }
                scaled.push(pt[t].wrapping_mul(scale));
                t = t + 1;
            }
            proof {
                assert(scaled@ =~= scaled_poly(
                    pt@,
                    (64 - (j + 1) * ggsw_bit_decomp_base_log - (logn as int)) as nat,
                ));
            }
            let ghost next_j = entropy.next as int;
            let mask = entropy.draw_poly_list(k, n);
            let noise = entropy.draw_vec(n);
            proof {
                assert(noise@ == old(entropy).words@.subrange(
                    next_j + ((k * n) as int),
                    next_j + ((k * n) as int) + (n as int),
                ));
            }
            let ct = encrypt_glwe_ciphertext_with(glwe_sk, &scaled, mask, &noise);
            proof {
                let perg = glwe_entropy(k as nat, n as nat);
                let ls = (64 - (j + 1) * ggsw_bit_decomp_base_log - (logn as int)) as nat;
                assert(glwe_phase(glwe_key_view(*glwe_sk), ct) =~= padd(
                    scaled_poly(pt@, ls),
                    glev_noise_slice(old(entropy).words@, next_idx, k as nat, n as nat, j as int),
                )) by {
                    let ns = glev_noise_slice(
                        old(entropy).words@,
                        next_idx,
                        k as nat,
                        n as nat,
                        j as int,
                    );
                    assert(ns =~= noise@) by {
                        assert((j + 1) * (perg as int) == j * (perg as int) + perg)
                            by (nonlinear_arith);
                        assert(perg == (k + 1) * n);
                        assert(k * n + n == (k + 1) * n) by (nonlinear_arith);
                    }
                    assert forall|tt: int| 0 <= tt < n implies glwe_phase(
                        glwe_key_view(*glwe_sk),
                        ct,
                    )[tt] == padd(scaled_poly(pt@, ls), ns)[tt] by {
                        assert(glwe_phase(glwe_key_view(*glwe_sk), ct)[tt] == wrap(
                            scaled@[tt] + noise@[tt],
                        ));
                    }
                }
            }
            glev.push(ct);
            j = j + 1;
        }
        proof {
            let ghost perg = glwe_entropy(k as nat, n as nat);
            assert(entropy.remaining() == rem_start - per) by (nonlinear_arith)
                requires
                    entropy.remaining() == rem_start - ggsw_bit_decomp_level_count as int * (
                    perg as int),
                    per == ggsw_bit_decomp_level_count as nat * perg,
            ;
            let ghost n0 = old(entropy).next as int;
            let ghost nxt = entropy.next as int;
            assert(nxt == n0 + (idx + 1) * (per as int)) by (nonlinear_arith)
                requires
                    nxt == next_idx + (ggsw_bit_decomp_level_count as int) * (perg as int),
                    next_idx == n0 + idx * (per as int),
                    per == ggsw_bit_decomp_level_count as nat * perg,
            ;
        }
        r.push(glev);
        idx = idx + 1;
    }
    r
}

/// The bits of chunk idx, zero-padded past the end of the list.
pub open spec fn encode_chunk(bits: Seq<u64>, n: nat, idx: int) -> Seq<u64> {
    Seq::new(n, |t: int| if idx * (n as int) + t < bits.len() { bits[idx * (n as int) + t] } else { 0u64 })
}

/// The base-two logarithm of a power of two, as a specification value.
pub open spec fn log2_spec_pub(n: nat) -> nat {
    crate::pbs::log2_spec_of(n)
}

/// Connect a witnessed exponent to the chosen logarithm.
pub proof fn lemma_log2_pub(n: nat, e: nat)
    requires
        n == pow2(e),
    ensures
        log2_spec_pub(n) == e,
{
    crate::pbs::lemma_log2_spec_of(n, e);
}

} // verus!
