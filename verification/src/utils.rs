//! Decryption-side instrumentation: decoding a phase back to a message,
//! and measuring the absolute and bit-size error of ciphertexts against
//! their expected values. These run on the secret key and serve the
//! empirical noise tracking around the homomorphic pipeline.
use vstd::prelude::*;
use vstd::arithmetic::power2::*;
use crate::wrap;
use crate::arith::pow2_u64;
use crate::arith::lemma_wrapping_add;
use crate::arith::lemma_wrapping_sub;
use crate::arith::lemma_wrapping_mul;
use crate::lwe::LweCiphertext;
use crate::lwe::LweSecretKey;
use crate::lwe::lwe_phase;
use crate::lwe::decrypt_lwe_ciphertext;
use crate::glwe::GlweCiphertext;
use crate::glwe::GlweSecretKey;
use crate::glwe::glwe_phase;
use crate::glwe::glwe_key_view;
use crate::glwe::decrypt_glwe_ciphertext;
use crate::poly::psub;
use crate::poly::monomial_mul;
use crate::poly::polynomial_wrapping_monic_monomial_mul_and_subtract;
use crate::poly::polynomial_wrapping_sub_assign;

verus! {

/// The wrapping distance between two torus values: the smaller of the two
/// directed differences.
pub open spec fn torus_distance(a: u64, b: u64) -> u64 {
    if wrap(a - b) <= wrap(b - a) {
        wrap(a - b)
    } else {
        wrap(b - a)
    }
}

/// The number of bits needed to write v.
pub open spec fn bit_len(v: nat) -> nat
    decreases v,
{
    if v == 0 {
        0
    } else {
        1 + bit_len(v / 2)
    }
}

/// Round a phase to the nearest multiple of delta and return the multiple.
pub open spec fn decode_phase(phase: u64, delta: u64) -> u64
    recommends
        delta >= 2,
{
    (wrap(phase + delta / 2) as int / delta as int) as u64
}

/// The wrapping distance, executably.
pub fn compute_torus_distance(a: u64, b: u64) -> (r: u64)
    ensures
        r == torus_distance(a, b),
{
    proof {
        lemma_wrapping_sub(a, b);
        lemma_wrapping_sub(b, a);
    }
    let d0 = a.wrapping_sub(b);
    let d1 = b.wrapping_sub(a);
    if d0 <= d1 {
        d0
    } else {
        d1
    }
}

/// The number of bits needed to write v, executably.
pub fn compute_bit_len(v: u64) -> (r: u32)
    ensures
        r == bit_len(v as nat),
{
    let mut r: u32 = 0;
    let mut x: u64 = v;
    proof {
        lemma_bit_len_bound(v as nat);
    }
    while x > 0
        invariant
            r + bit_len(x as nat) == bit_len(v as nat),
            bit_len(v as nat) <= 64,
        decreases x,
    {
        x = x / 2;
        r = r + 1;
    }
    r
}

/// A value below 2^bits needs at most `bits` bits.
pub proof fn lemma_bit_len_pow(v: nat, bits: nat)
    requires
        v < pow2(bits),
    ensures
        bit_len(v) <= bits,
    decreases v,
{
    if v > 0 {
        if bits == 0 {
            assert(pow2(0) == 1) by {
                lemma2_to64();
            }
        }
        lemma_pow2_unfold(bits);
        assert(v / 2 < pow2((bits - 1) as nat));
        lemma_bit_len_pow(v / 2, (bits - 1) as nat);
    }
}

/// A 64-bit value needs at most 64 bits.
pub proof fn lemma_bit_len_bound(v: nat)
    requires
        v < 0x1_0000_0000_0000_0000,
    ensures
        bit_len(v) <= 64,
{
    assert(pow2(64) == 0x1_0000_0000_0000_0000) by {
        lemma2_to64_rest();
    }
    lemma_bit_len_pow(v, 64);
}

/// Decode an LWE ciphertext and measure its error in bits against the
/// expected message: the decoded value, and the bit size of the wrapping
/// distance between the phase and message * delta.
pub fn get_val_and_bit_err(
    lwe_secret_key: &LweSecretKey,
    lwe_ctxt: &LweCiphertext,
    correct_val: u64,
    delta: u64,
) -> (r: (u64, u32))
    requires
        lwe_secret_key.coeffs@.len() == lwe_ctxt.lwe_dimension(),
        delta >= 2,
    ensures
        r.0 == decode_phase(lwe_phase(lwe_secret_key.coeffs@, *lwe_ctxt), delta),
        r.1 == bit_len(
            torus_distance(
                lwe_phase(lwe_secret_key.coeffs@, *lwe_ctxt),
                wrap(correct_val * delta),
            ) as nat,
        ),
{
    let (decoded, bit_err, _abs) = get_val_and_bit_and_abs_err(
        lwe_secret_key,
        lwe_ctxt,
        correct_val,
        delta,
    );
    (decoded, bit_err)
}

/// Decode an LWE ciphertext and measure its absolute error.
pub fn get_val_and_abs_err(
    lwe_secret_key: &LweSecretKey,
    lwe_ctxt: &LweCiphertext,
    correct_val: u64,
    delta: u64,
) -> (r: (u64, u64))
    requires
        lwe_secret_key.coeffs@.len() == lwe_ctxt.lwe_dimension(),
        delta >= 2,
    ensures
        r.0 == decode_phase(lwe_phase(lwe_secret_key.coeffs@, *lwe_ctxt), delta),
        r.1 == torus_distance(
            lwe_phase(lwe_secret_key.coeffs@, *lwe_ctxt),
            wrap(correct_val * delta),
        ),
{
    let (decoded, _bits, abs_err) = get_val_and_bit_and_abs_err(
        lwe_secret_key,
        lwe_ctxt,
        correct_val,
        delta,
    );
    (decoded, abs_err)
}

/// Decode an LWE ciphertext and measure both its bit-size and absolute
/// error.
pub fn get_val_and_bit_and_abs_err(
    lwe_secret_key: &LweSecretKey,
    lwe_ctxt: &LweCiphertext,
    correct_val: u64,
    delta: u64,
) -> (r: (u64, u32, u64))
    requires
        lwe_secret_key.coeffs@.len() == lwe_ctxt.lwe_dimension(),
        delta >= 2,
    ensures
        r.0 == decode_phase(lwe_phase(lwe_secret_key.coeffs@, *lwe_ctxt), delta),
        r.1 == bit_len(
            torus_distance(
                lwe_phase(lwe_secret_key.coeffs@, *lwe_ctxt),
                wrap(correct_val * delta),
            ) as nat,
        ),
        r.2 == torus_distance(
            lwe_phase(lwe_secret_key.coeffs@, *lwe_ctxt),
            wrap(correct_val * delta),
        ),
{
    let decrypted = decrypt_lwe_ciphertext(lwe_secret_key, lwe_ctxt);
    proof {
        lemma_wrapping_mul(correct_val, delta);
    }
    let expected = correct_val.wrapping_mul(delta);
    let abs_err = compute_torus_distance(decrypted, expected);
    let bit_err = compute_bit_len(abs_err);
    proof {
        lemma_wrapping_add(decrypted, delta / 2);
    }
    let decoded = decrypted.wrapping_add(delta / 2) / delta;
    (decoded, bit_err, abs_err)
}

/// The largest wrapping distance between the phase of a GLWE ciphertext
/// and the expected plaintext polynomial, over all coefficients.
pub fn get_glwe_max_err(
    glwe_secret_key: &GlweSecretKey,
    input: &GlweCiphertext,
    correct_val_list: &Vec<u64>,
) -> (r: u64)
    requires
        glwe_secret_key.wf(),
        input.wf(),
        glwe_secret_key.glwe_dimension() == input.glwe_dimension(),
        glwe_secret_key.poly_size() == input.poly_size(),
        correct_val_list@.len() == input.poly_size(),
    ensures
        forall|j: int|
            0 <= j < input.poly_size() ==> torus_distance(
                glwe_phase(glwe_key_view(*glwe_secret_key), *input)[j],
                #[trigger] correct_val_list@[j],
            ) <= r,
        r == 0 || exists|j: int|
            0 <= j < input.poly_size() && torus_distance(
                glwe_phase(glwe_key_view(*glwe_secret_key), *input)[j],
                #[trigger] correct_val_list@[j],
            ) == r,
{
    let dec = decrypt_glwe_ciphertext(glwe_secret_key, input);
    let n = dec.len();
    let ghost phase = glwe_phase(glwe_key_view(*glwe_secret_key), *input);
    let mut max_err: u64 = 0;
    let mut j: usize = 0;
    while j < n
        invariant
            dec@.len() == n,
            correct_val_list@.len() == n,
            dec@ =~= phase,
            j <= n,
            forall|t: int|
                0 <= t < j ==> torus_distance(phase[t], #[trigger] correct_val_list@[t])
                    <= max_err,
            max_err == 0 || exists|t: int|
                0 <= t < j && torus_distance(phase[t], #[trigger] correct_val_list@[t]) == max_err,
        decreases n - j,
    {
        let d = compute_torus_distance(dec[j], correct_val_list[j]);
        if d > max_err {
            max_err = d;
        }
        j = j + 1;
    }
    max_err
}

/// The expected value of coefficient i of the GGSW row of level index j
/// and column c, when the selector encrypts `bit`.
pub open spec fn ggsw_expected_coeff(
    key: Seq<Seq<u64>>,
    bit: u64,
    base_log: nat,
    c: int,
    j: int,
    i: int,
) -> u64 {
    let ls = (64 - (j + 1) * base_log) as nat;
    if bit == 0 {
        0u64
    } else if c < key.len() {
        wrap(-(key[c][i] as int) * pow2(ls) as int)
    } else if i == 0 {
        wrap(pow2(ls) as int)
    } else {
        0u64
    }
}

/// The largest wrapping distance between any GGSW row phase coefficient
/// and its expected value for a selector of the given bit.
pub fn get_max_err_ggsw_bit(
    glwe_secret_key: &GlweSecretKey,
    ggsw_in: &crate::ggsw::GgswCiphertext,
    correct_val: u64,
) -> (r: u64)
    requires
        glwe_secret_key.wf(),
        ggsw_in.wf(),
        glwe_secret_key.glwe_dimension() == ggsw_in.glwe_dimension(),
        glwe_secret_key.poly_size() == ggsw_in.poly_size(),
        correct_val == 0 || correct_val == 1,
    ensures
        forall|c: int, j: int, i: int|
            0 <= c < ggsw_in.cols@.len() && 0 <= j < ggsw_in.levels && 0 <= i
                < ggsw_in.poly_size() ==> torus_distance(
                #[trigger] glwe_phase(
                    glwe_key_view(*glwe_secret_key),
                    ggsw_in.cols@[c]@[j],
                )[i],
                ggsw_expected_coeff(
                    glwe_key_view(*glwe_secret_key),
                    correct_val,
                    ggsw_in.base_log as nat,
                    c,
                    j,
                    i,
                ),
            ) <= r,
        r == 0 || exists|c: int, j: int, i: int|
            0 <= c < ggsw_in.cols@.len() && 0 <= j < ggsw_in.levels && 0 <= i
                < ggsw_in.poly_size() && torus_distance(
                #[trigger] glwe_phase(
                    glwe_key_view(*glwe_secret_key),
                    ggsw_in.cols@[c]@[j],
                )[i],
                ggsw_expected_coeff(
                    glwe_key_view(*glwe_secret_key),
                    correct_val,
                    ggsw_in.base_log as nat,
                    c,
                    j,
                    i,
                ),
            ) == r,
{
    let kp1 = ggsw_in.cols.len();
    let n = ggsw_in.cols[0][0].body.len();
    let k = kp1 - 1;
    let ghost keyv = glwe_key_view(*glwe_secret_key);
    proof {
        assert(crate::gadget::glev_wf(
            ggsw_in.cols@[0]@,
            ggsw_in.glwe_dimension(),
            ggsw_in.poly_size(),
            ggsw_in.levels as nat,
        ));
        assert(n == ggsw_in.poly_size());
    }
    let mut max_err: u64 = 0;
    let mut c: usize = 0;
    while c < kp1
        invariant
            glwe_secret_key.wf(),
            ggsw_in.wf(),
            glwe_secret_key.glwe_dimension() == ggsw_in.glwe_dimension(),
            glwe_secret_key.poly_size() == n,
            n == ggsw_in.poly_size(),
            kp1 == ggsw_in.cols@.len(),
            k == kp1 - 1,
            keyv == glwe_key_view(*glwe_secret_key),
            correct_val == 0 || correct_val == 1,
            c <= kp1,
            forall|cc: int, j: int, i: int|
                0 <= cc < c && 0 <= j < ggsw_in.levels && 0 <= i < n ==> torus_distance(
                    #[trigger] glwe_phase(keyv, ggsw_in.cols@[cc]@[j])[i],
                    ggsw_expected_coeff(keyv, correct_val, ggsw_in.base_log as nat, cc, j, i),
                ) <= max_err,
            max_err == 0 || exists|cc: int, jj: int, ii: int|
                0 <= cc < kp1 && 0 <= jj < ggsw_in.levels && 0 <= ii < n && torus_distance(
                    #[trigger] glwe_phase(keyv, ggsw_in.cols@[cc]@[jj])[ii],
                    ggsw_expected_coeff(keyv, correct_val, ggsw_in.base_log as nat, cc, jj, ii),
                ) == max_err,
        decreases kp1 - c,
    {
        proof {
            assert(crate::gadget::glev_wf(
                ggsw_in.cols@[c as int]@,
                ggsw_in.glwe_dimension(),
                ggsw_in.poly_size(),
                ggsw_in.levels as nat,
            ));
        }
        let levels = ggsw_in.levels;
        let mut j: usize = 0;
        while j < levels
            invariant
                glwe_secret_key.wf(),
                ggsw_in.wf(),
                glwe_secret_key.glwe_dimension() == ggsw_in.glwe_dimension(),
                glwe_secret_key.poly_size() == n,
                n == ggsw_in.poly_size(),
                kp1 == ggsw_in.cols@.len(),
                k == kp1 - 1,
                c < kp1,
                levels == ggsw_in.levels,
                keyv == glwe_key_view(*glwe_secret_key),
                correct_val == 0 || correct_val == 1,
                j <= levels,
                forall|cc: int, jj: int, i: int|
                    0 <= cc < c && 0 <= jj < levels && 0 <= i < n ==> torus_distance(
                        #[trigger] glwe_phase(keyv, ggsw_in.cols@[cc]@[jj])[i],
                        ggsw_expected_coeff(keyv, correct_val, ggsw_in.base_log as nat, cc, jj, i),
                    ) <= max_err,
                forall|jj: int, i: int|
                    0 <= jj < j && 0 <= i < n ==> torus_distance(
                        #[trigger] glwe_phase(keyv, ggsw_in.cols@[c as int]@[jj])[i],
                        ggsw_expected_coeff(
                            keyv,
                            correct_val,
                            ggsw_in.base_log as nat,
                            c as int,
                            jj,
                            i,
                        ),
                    ) <= max_err,
                max_err == 0 || exists|cc: int, jj: int, ii: int|
                0 <= cc < kp1 && 0 <= jj < ggsw_in.levels && 0 <= ii < n && torus_distance(
                    #[trigger] glwe_phase(keyv, ggsw_in.cols@[cc]@[jj])[ii],
                    ggsw_expected_coeff(keyv, correct_val, ggsw_in.base_log as nat, cc, jj, ii),
                ) == max_err,
            decreases levels - j,
        {
            proof {
                assert(crate::gadget::glev_wf(
                    ggsw_in.cols@[c as int]@,
                    ggsw_in.glwe_dimension(),
                    ggsw_in.poly_size(),
                    ggsw_in.levels as nat,
                ));
                assert(ggsw_in.cols@[c as int]@[j as int].wf());
                assert((j + 1) * ggsw_in.base_log <= levels * ggsw_in.base_log)
                    by (nonlinear_arith)
                    requires
                        j + 1 <= levels,
                        ggsw_in.base_log >= 0,
                ;
                assert(1 <= (j + 1) * ggsw_in.base_log) by (nonlinear_arith)
                    requires
                        j >= 0,
                        ggsw_in.base_log >= 1,
                ;
            }
            let row = &ggsw_in.cols[c][j];
            let dec = decrypt_glwe_ciphertext(glwe_secret_key, row);
            let ls = 64 - (j + 1) * ggsw_in.base_log;
            let scale = pow2_u64(ls);
            let mut i: usize = 0;
            while i < n
                invariant
                    glwe_secret_key.wf(),
                    glwe_secret_key.glwe_dimension() == k,
                    glwe_secret_key.poly_size() == n,
                    kp1 == k + 1,
                    kp1 == ggsw_in.cols@.len(),
                    c < kp1,
                    j < levels,
                    levels == ggsw_in.levels,
                    keyv == glwe_key_view(*glwe_secret_key),
                    keyv.len() == k,
                    correct_val == 0 || correct_val == 1,
                    dec@ =~= glwe_phase(keyv, ggsw_in.cols@[c as int]@[j as int]),
                    dec@.len() == n,
                    scale == pow2((64 - (j + 1) * ggsw_in.base_log) as nat),
                    ls == 64 - (j + 1) * ggsw_in.base_log,
                    i <= n,
                    forall|cc: int, jj: int, ii: int|
                        0 <= cc < c && 0 <= jj < levels && 0 <= ii < n ==> torus_distance(
                            #[trigger] glwe_phase(keyv, ggsw_in.cols@[cc]@[jj])[ii],
                            ggsw_expected_coeff(
                                keyv,
                                correct_val,
                                ggsw_in.base_log as nat,
                                cc,
                                jj,
                                ii,
                            ),
                        ) <= max_err,
                    forall|jj: int, ii: int|
                        0 <= jj < j && 0 <= ii < n ==> torus_distance(
                            #[trigger] glwe_phase(keyv, ggsw_in.cols@[c as int]@[jj])[ii],
                            ggsw_expected_coeff(
                                keyv,
                                correct_val,
                                ggsw_in.base_log as nat,
                                c as int,
                                jj,
                                ii,
                            ),
                        ) <= max_err,
                    forall|ii: int|
                        0 <= ii < i ==> torus_distance(
                            #[trigger] glwe_phase(keyv, ggsw_in.cols@[c as int]@[j as int])[ii],
                            ggsw_expected_coeff(
                                keyv,
                                correct_val,
                                ggsw_in.base_log as nat,
                                c as int,
                                j as int,
                                ii,
                            ),
                        ) <= max_err,
                    max_err == 0 || exists|cc: int, jj: int, ii: int|
                0 <= cc < kp1 && 0 <= jj < ggsw_in.levels && 0 <= ii < n && torus_distance(
                    #[trigger] glwe_phase(keyv, ggsw_in.cols@[cc]@[jj])[ii],
                    ggsw_expected_coeff(keyv, correct_val, ggsw_in.base_log as nat, cc, jj, ii),
                ) == max_err,
                decreases n - i,
            {
                let expected: u64 = if correct_val == 0 {
                    0u64
                } else if c < k {
                    proof {
                        assert(glwe_secret_key.polys@[c as int]@.len() == n);
                        assert(keyv[c as int] == glwe_secret_key.polys@[c as int]@);
                    }
                    let neg = crate::poly::torus_neg(glwe_secret_key.polys[c][i]);
                    proof {
                        lemma_wrapping_mul(neg, scale);
                        crate::arith::lemma_wrap_mul_absorb(
                            -(glwe_secret_key.polys@[c as int]@[i as int] as int),
                            scale as int,
                        );
                    }
                    neg.wrapping_mul(scale)
                } else if i == 0 {
                    proof {
                        crate::arith::lemma_wrap_id(scale);
                    }
                    scale
                } else {
                    0u64
                };
                proof {
                    if correct_val == 0 || (c >= k && i > 0) {
                        crate::arith::lemma_wrap_id(0u64);
                    }
                    assert(expected == ggsw_expected_coeff(
                        keyv,
                        correct_val,
                        ggsw_in.base_log as nat,
                        c as int,
                        j as int,
                        i as int,
                    ));
                }
                let d = compute_torus_distance(dec[i], expected);
                let prev = max_err;
                if d > max_err {
                    max_err = d;
                }
                proof {
                    if max_err != prev {
                        assert(torus_distance(
                            glwe_phase(keyv, ggsw_in.cols@[c as int]@[j as int])[i as int],
                            ggsw_expected_coeff(
                                keyv,
                                correct_val,
                                ggsw_in.base_log as nat,
                                c as int,
                                j as int,
                                i as int,
                            ),
                        ) == max_err);
                    }
                }
                i = i + 1;
            }
            j = j + 1;
        }
        c = c + 1;
    }
    max_err
}

/// lhs <- lhs - (rhs * X^degree - rhs), polynomial by polynomial: the
/// negacyclic relocation-and-cancel used when repacking ciphertext lanes.
pub fn glwe_ciphertext_add_monic_mul_assign(
    lhs: &mut GlweCiphertext,
    rhs: &GlweCiphertext,
    monomial_degree: usize,
)
    requires
        old(lhs).wf(),
        rhs.wf(),
        old(lhs).glwe_dimension() == rhs.glwe_dimension(),
        old(lhs).poly_size() == rhs.poly_size(),
    ensures
        final(lhs).wf(),
        final(lhs).glwe_dimension() == rhs.glwe_dimension(),
        final(lhs).poly_size() == rhs.poly_size(),
        forall|r: int|
            0 <= r < rhs.mask@.len() ==> (#[trigger] final(lhs).mask@[r])@ == psub(
                old(lhs).mask@[r]@,
                psub(monomial_mul(rhs.mask@[r]@, monomial_degree as nat), rhs.mask@[r]@),
            ),
        final(lhs).body@ == psub(
            old(lhs).body@,
            psub(monomial_mul(rhs.body@, monomial_degree as nat), rhs.body@),
        ),
{
    let k = lhs.mask.len();
    let n = lhs.body.len();
    let mut r: usize = 0;
    while r < k
        invariant
            lhs.wf(),
            lhs.glwe_dimension() == k,
            lhs.poly_size() == n,
            old(lhs).glwe_dimension() == k,
            old(lhs).poly_size() == n,
            rhs.wf(),
            rhs.glwe_dimension() == k,
            rhs.poly_size() == n,
            lhs.body == old(lhs).body,
            r <= k,
            forall|t: int|
                0 <= t < r ==> (#[trigger] lhs.mask@[t])@ == psub(
                    old(lhs).mask@[t]@,
                    psub(monomial_mul(rhs.mask@[t]@, monomial_degree as nat), rhs.mask@[t]@),
                ),
            forall|t: int| r <= t < k ==> lhs.mask@[t] == old(lhs).mask@[t],
        decreases k - r,
    {
        proof {
            assert(rhs.mask@[r as int]@.len() == n);
            assert(lhs.mask@[r as int]@.len() == n);
        }
        let mut buf: Vec<u64> = Vec::new();
        buf.resize(n, 0u64);
        polynomial_wrapping_monic_monomial_mul_and_subtract(&mut buf, &rhs.mask[r], monomial_degree);
        let lhs_poly = &mut lhs.mask[r];
        polynomial_wrapping_sub_assign(lhs_poly, &buf);
        r = r + 1;
    }
    let mut buf: Vec<u64> = Vec::new();
    buf.resize(n, 0u64);
    polynomial_wrapping_monic_monomial_mul_and_subtract(&mut buf, &rhs.body, monomial_degree);
    polynomial_wrapping_sub_assign(&mut lhs.body, &buf);
}

} // verus!
