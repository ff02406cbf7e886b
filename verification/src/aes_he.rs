//! Homomorphic AES-128 evaluation over a state of 128 bit-LWE ciphertexts:
//! the linear layers (key mixing, row rotation, column mixing) as exact
//! ciphertext arithmetic, and the substitution layer evaluated byte-wise
//! through the patched circuit bootstrap.
//!
//! Bit b of state byte (col, row) lives at index 8*(4*col + row) + b.
use vstd::prelude::*;
use vstd::arithmetic::power2::*;
use vstd::arithmetic::div_mod::lemma_div_nonincreasing;
use vstd::arithmetic::div_mod::lemma_div_is_ordered_by_denominator;
use vstd::arithmetic::mul::lemma_mul_upper_bound;
use vstd::arithmetic::div_mod::lemma_div_is_ordered;
use crate::wrap;
use crate::poly::padd;
use crate::lwe::LweCiphertext;
use crate::lwe::lwe_ciphertext_add_assign;
use crate::glwe::GlweCiphertext;
use crate::ggsw::GgswCiphertext;
use crate::ggsw::copy_poly;
use crate::ggsw::glwe_clone;
use crate::ggsw::add_external_product_assign;
use crate::glwe::glwe_ciphertext_monic_monomial_div_assign;
use crate::glwe::glwe_ciphertext_sub_assign;
use crate::glwe::extract_lwe_sample_from_glwe_ciphertext;
use crate::gadget::glev_wf;
use crate::automorphism::AutomorphKeyMap;
use crate::pbs::BootstrapKey;
use crate::sbox::aes128_sbox;
use crate::sbox::sbox_seq;
use crate::arith::pow2_u64;
use crate::ggsw::ext_fold;
use crate::glwe::extract_mask_at;
use crate::gadget::glwe_maskv;
use crate::automorphism::zero_mask_seq;
use crate::automorphism::AutomorphKey;
use crate::ggsw_conv::cbs_trace_rel;
use crate::poly::monomial_div;
use crate::poly::psub;

verus! {

/// The value pair (mask, body) of an LWE ciphertext.
pub open spec fn lwe_pair(c: LweCiphertext) -> (Seq<u64>, u64) {
    (c.mask@, c.body)
}

/// Exact wrapping addition of two LWE value pairs.
pub open spec fn pair_add(a: (Seq<u64>, u64), b: (Seq<u64>, u64)) -> (Seq<u64>, u64) {
    (padd(a.0, b.0), wrap(a.1 + b.1))
}

/// The value pairs of a state of LWE ciphertexts.
pub open spec fn statev(s: Seq<LweCiphertext>) -> Seq<(Seq<u64>, u64)> {
    s.map_values(|c: LweCiphertext| lwe_pair(c))
}

/// Bit i of state byte (col, row).
pub open spec fn state_bit(s: Seq<(Seq<u64>, u64)>, row: int, col: int, i: int) -> (Seq<u64>, u64) {
    s[8 * (4 * col + row) + i]
}

/// The homomorphic doubling in GF(2^8) of one byte of bit ciphertexts:
/// 2*(a7..a0) = (a6, a5, a4, a3 + a7, a2 + a7, a1, a0 + a7, a7) bit-wise,
/// realized as a shift with the top bit folded back at taps 0, 1, 3 and 4.
pub open spec fn he_mult_by_two_pairs(b: Seq<(Seq<u64>, u64)>) -> Seq<(Seq<u64>, u64)> {
    Seq::new(
        8,
        |i: int|
            if i == 0 {
                b[7]
            } else if i == 1 || i == 3 || i == 4 {
                pair_add(b[i - 1], b[7])
            } else {
                b[i - 1]
            },
    )
}

/// One mixed output byte: the column-mixing combination
/// 2*(a ^ a_next) ^ a_next ^ a_next2 ^ a_next3, bit-ciphertext-wise.
pub open spec fn he_mix_byte_spec(s: Seq<(Seq<u64>, u64)>, row: int, col: int) -> Seq<
    (Seq<u64>, u64),
> {
    let b0 = Seq::new(
        8,
        |i: int| pair_add(state_bit(s, row, col, i), state_bit(s, (row + 1) % 4, col, i)),
    );
    let b1 = he_mult_by_two_pairs(b0);
    Seq::new(8, |i: int| stage_value(s, b1, row, col, 3, i))
}

/// All entries of a state share one LWE dimension.
pub open spec fn state_wf(s: Seq<LweCiphertext>, dim: nat) -> bool {
    forall|i: int| 0 <= i < s.len() ==> (#[trigger] s[i]).lwe_dimension() == dim
}

/// Copy one LWE ciphertext.
pub fn lwe_clone(src: &LweCiphertext) -> (out: LweCiphertext)
    ensures
        out.mask@ == src.mask@,
        out.body == src.body,
        out.lwe_dimension() == src.lwe_dimension(),
{
    let mask = copy_poly(&src.mask);
    LweCiphertext { mask, body: src.body }
}

/// Pairwise wrapping addition of two lists of LWE ciphertexts.
pub fn lwe_ciphertext_list_add_assign(lhs: &mut Vec<LweCiphertext>, rhs: &Vec<LweCiphertext>)
    requires
        old(lhs)@.len() == rhs@.len(),
        forall|i: int|
            0 <= i < rhs@.len() ==> (#[trigger] old(lhs)@[i]).lwe_dimension()
                == rhs@[i].lwe_dimension(),
    ensures
        final(lhs)@.len() == rhs@.len(),
        forall|i: int|
            0 <= i < rhs@.len() ==> lwe_pair(#[trigger] final(lhs)@[i]) == pair_add(
                lwe_pair(old(lhs)@[i]),
                lwe_pair(rhs@[i]),
            ),
{
    let n = lhs.len();
    let mut i: usize = 0;
    while i < n
        invariant
            lhs@.len() == n,
            rhs@.len() == n,
            i <= n,
            forall|t: int|
                0 <= t < n ==> (#[trigger] old(lhs)@[t]).lwe_dimension()
                    == rhs@[t].lwe_dimension(),
            forall|t: int|
                0 <= t < i ==> lwe_pair(#[trigger] lhs@[t]) == pair_add(
                    lwe_pair(old(lhs)@[t]),
                    lwe_pair(rhs@[t]),
                ),
            forall|t: int| i <= t < n ==> lhs@[t] == old(lhs)@[t],
        decreases n - i,
    {
        let r = &rhs[i];
        let l = &mut lhs[i];
        lwe_ciphertext_add_assign(l, r);
        i = i + 1;
    }
}

/// Homomorphic key mixing: add the encrypted round key onto the state.
pub fn he_add_round_key(he_state: &mut Vec<LweCiphertext>, he_round_key: &Vec<LweCiphertext>)
    requires
        old(he_state)@.len() == he_round_key@.len(),
        forall|i: int|
            0 <= i < he_round_key@.len() ==> (#[trigger] old(he_state)@[i]).lwe_dimension()
                == he_round_key@[i].lwe_dimension(),
    ensures
        final(he_state)@.len() == he_round_key@.len(),
        forall|i: int|
            0 <= i < he_round_key@.len() ==> lwe_pair(#[trigger] final(he_state)@[i]) == pair_add(
                lwe_pair(old(he_state)@[i]),
                lwe_pair(he_round_key@[i]),
            ),
{
    lwe_ciphertext_list_add_assign(he_state, he_round_key);
}

/// Homomorphic row rotation: pure ciphertext relocation, bit by bit.
pub fn he_shift_rows(he_state: &mut Vec<LweCiphertext>)
    requires
        old(he_state)@.len() == 128,
    ensures
        final(he_state)@.len() == 128,
        forall|row: int, col: int, i: int|
            0 <= row < 4 && 0 <= col < 4 && 0 <= i < 8 ==> state_bit(
                statev(final(he_state)@),
                row,
                col,
                i,
            ) == state_bit(statev(old(he_state)@), row, (row + col) % 4, i),
{
    let mut fresh: Vec<LweCiphertext> = Vec::new();
    let mut idx: usize = 0;
    while idx < 128
        invariant
            he_state@.len() == 128,
            idx <= 128,
            fresh@.len() == idx,
            forall|t: int|
                0 <= t < idx ==> lwe_pair(#[trigger] fresh@[t]) == lwe_pair(
                    he_state@[8 * (4 * (((t / 8) % 4 + t / 32) % 4) + (t / 8) % 4) + t % 8],
                ),
        decreases 128 - idx,
    {
        // byte index = idx / 8 = 4*col + row, bit = idx % 8.
        let byte_idx = idx / 8;
        let row = byte_idx % 4;
        let col = byte_idx / 4;
        let src_col = (row + col) % 4;
        let src = 8 * (4 * src_col + row) + idx % 8;
        let c = lwe_clone(&he_state[src]);
        fresh.push(c);
        idx = idx + 1;
    }
    *he_state = fresh;
    proof {
        assert forall|row: int, col: int, i: int|
            0 <= row < 4 && 0 <= col < 4 && 0 <= i < 8 implies state_bit(
            statev(he_state@),
            row,
            col,
            i,
        ) == state_bit(statev(old(he_state)@), row, (row + col) % 4, i) by {
            let t = 8 * (4 * col + row) + i;
            assert(0 <= t < 128);
            assert(t / 8 == 4 * col + row && t % 8 == i) by (nonlinear_arith)
                requires
                    t == 8 * (4 * col + row) + i,
                    0 <= i < 8,
                    0 <= row < 4,
                    0 <= col < 4,
            ;
            assert((t / 8) % 4 == row && t / 32 == col) by (nonlinear_arith)
                requires
                    t / 8 == 4 * col + row,
                    t % 8 == i,
                    t == 8 * (4 * col + row) + i,
                    0 <= i < 8,
                    0 <= row < 4,
                    0 <= col < 4,
            ;
            assert(lwe_pair(he_state@[t]) == lwe_pair(
                old(he_state)@[8 * (4 * (((row + col)) % 4) + row) + i],
            ));
            assert(state_bit(statev(he_state@), row, col, i) == lwe_pair(he_state@[t]));
        }
    }
}

/// Homomorphic doubling in GF(2^8) of one byte of bit ciphertexts.
pub fn he_mult_by_two(he_byte: &Vec<LweCiphertext>) -> (out: Vec<LweCiphertext>)
    requires
        he_byte@.len() == 8,
        forall|i: int|
            0 <= i < 8 ==> (#[trigger] he_byte@[i]).lwe_dimension()
                == he_byte@[0].lwe_dimension(),
    ensures
        out@.len() == 8,
        forall|i: int|
            0 <= i < 8 ==> lwe_pair(#[trigger] out@[i]) == he_mult_by_two_pairs(
                statev(he_byte@),
            )[i],
        forall|i: int|
            0 <= i < 8 ==> (#[trigger] out@[i]).lwe_dimension() == he_byte@[0].lwe_dimension(),
{
    let mut out: Vec<LweCiphertext> = Vec::new();
    out.push(lwe_clone(&he_byte[7]));
    let mut i: usize = 1;
    while i < 8
        invariant
            he_byte@.len() == 8,
            forall|t: int|
                0 <= t < 8 ==> (#[trigger] he_byte@[t]).lwe_dimension()
                    == he_byte@[0].lwe_dimension(),
            1 <= i <= 8,
            out@.len() == i,
            lwe_pair(out@[0]) == lwe_pair(he_byte@[7]),
            out@[0].lwe_dimension() == he_byte@[0].lwe_dimension(),
            forall|t: int|
                1 <= t < i ==> lwe_pair(#[trigger] out@[t]) == (if t == 1 || t == 3 || t == 4 {
                    pair_add(lwe_pair(he_byte@[t - 1]), lwe_pair(he_byte@[7]))
                } else {
                    lwe_pair(he_byte@[t - 1])
                }),
            forall|t: int|
                1 <= t < i ==> (#[trigger] out@[t]).lwe_dimension()
                    == he_byte@[0].lwe_dimension(),
        decreases 8 - i,
    {
        let mut c = lwe_clone(&he_byte[i - 1]);
        if i == 1 || i == 3 || i == 4 {
            lwe_ciphertext_add_assign(&mut c, &he_byte[7]);
        }
        out.push(c);
        i = i + 1;
    }
    proof {
        assert forall|t: int| 0 <= t < 8 implies lwe_pair(#[trigger] out@[t])
            == he_mult_by_two_pairs(statev(he_byte@))[t] by {
            assert(statev(he_byte@)[7] == lwe_pair(he_byte@[7]));
            if t >= 1 {
                assert(statev(he_byte@)[t - 1] == lwe_pair(he_byte@[t - 1]));
            }
        }
    }
    out
}

/// Homomorphic column mixing: exact ciphertext additions and one
/// homomorphic doubling per byte.
pub fn he_mix_columns(he_state: &mut Vec<LweCiphertext>)
    requires
        old(he_state)@.len() == 128,
        state_wf(old(he_state)@, old(he_state)@[0].lwe_dimension()),
    ensures
        final(he_state)@.len() == 128,
        forall|row: int, col: int, i: int|
            0 <= row < 4 && 0 <= col < 4 && 0 <= i < 8 ==> state_bit(
                statev(final(he_state)@),
                row,
                col,
                i,
            ) == he_mix_byte_spec(statev(old(he_state)@), row, col)[i],
{
    let ghost dim = old(he_state)@[0].lwe_dimension();
    let mut fresh: Vec<LweCiphertext> = Vec::new();
    let mut byte_idx: usize = 0;
    while byte_idx < 16
        invariant
            he_state@.len() == 128,
            state_wf(he_state@, dim),
            he_state@ == old(he_state)@,
            byte_idx <= 16,
            fresh@.len() == 8 * byte_idx,
            forall|b: int, i: int|
                0 <= b < byte_idx && 0 <= i < 8 ==> lwe_pair(#[trigger] fresh@[8 * b + i])
                    == he_mix_byte_spec(statev(he_state@), b % 4, b / 4)[i],
        decreases 16 - byte_idx,
    {
        let row = byte_idx % 4;
        let col = byte_idx / 4;
        let r1 = (row + 1) % 4;
        let r2 = (row + 2) % 4;
        let r3 = (row + 3) % 4;
        // b0 = byte(row, col) + byte(row+1, col)
        let mut tmp: Vec<LweCiphertext> = Vec::new();
        let mut i: usize = 0;
        while i < 8
            invariant
                he_state@.len() == 128,
                state_wf(he_state@, dim),
                row == byte_idx % 4,
                col == byte_idx / 4,
                r1 == (row + 1) % 4,
                byte_idx < 16,
                i <= 8,
                tmp@.len() == i,
                forall|t: int|
                    0 <= t < i ==> lwe_pair(#[trigger] tmp@[t]) == pair_add(
                        state_bit(statev(he_state@), row as int, col as int, t),
                        state_bit(statev(he_state@), r1 as int, col as int, t),
                    ),
                forall|t: int| 0 <= t < i ==> (#[trigger] tmp@[t]).lwe_dimension() == dim,
            decreases 8 - i,
        {
            let mut c = lwe_clone(&he_state[8 * (4 * col + row) + i]);
            proof {
                assert(he_state@[8 * (4 * col + row) + i].lwe_dimension() == dim);
                assert(he_state@[8 * (4 * col + r1) + i].lwe_dimension() == dim);
            }
            lwe_ciphertext_add_assign(&mut c, &he_state[8 * (4 * col + r1) + i]);
            proof {
                assert(state_bit(statev(he_state@), row as int, col as int, i as int) == lwe_pair(
                    he_state@[8 * (4 * col + row) + i],
                ));
                assert(state_bit(statev(he_state@), r1 as int, col as int, i as int) == lwe_pair(
                    he_state@[8 * (4 * col + r1) + i],
                ));
            }
            tmp.push(c);
            i = i + 1;
        }
        let ghost b0 = Seq::new(
            8,
            |i: int|
                pair_add(
                    state_bit(statev(he_state@), row as int, col as int, i),
                    state_bit(statev(he_state@), r1 as int, col as int, i),
                ),
        );
        proof {
            assert forall|t: int| 0 <= t < 8 implies lwe_pair(tmp@[t]) == b0[t] by {}
        }
        // b1 = 2 * b0
        let tmp2 = he_mult_by_two(&tmp);
        proof {
            assert(statev(tmp@) =~= b0) by {
                assert forall|t: int| 0 <= t < 8 implies statev(tmp@)[t] == b0[t] by {
                    assert(statev(tmp@)[t] == lwe_pair(tmp@[t]));
                }
            }
        }
        // b2, b3, out: fold the three remaining bytes in.
        let mut cur = tmp2;
        let ghost b1 = he_mult_by_two_pairs(b0);
        let mut stage: usize = 0;
        while stage < 3
            invariant
                he_state@.len() == 128,
                state_wf(he_state@, dim),
                row == byte_idx % 4,
                col == byte_idx / 4,
                byte_idx < 16,
                r1 == (row + 1) % 4,
                r2 == (row + 2) % 4,
                r3 == (row + 3) % 4,
                stage <= 3,
                cur@.len() == 8,
                forall|t: int| 0 <= t < 8 ==> (#[trigger] cur@[t]).lwe_dimension() == dim,
                forall|t: int|
                    0 <= t < 8 ==> lwe_pair(#[trigger] cur@[t]) == stage_value(
                        statev(he_state@),
                        b1,
                        row as int,
                        col as int,
                        stage as int,
                        t,
                    ),
            decreases 3 - stage,
        {
            let rr = if stage == 0 {
                r1
            } else if stage == 1 {
                r2
            } else {
                r3
            };
            let mut i: usize = 0;
            let ghost cur_pre = cur@;
            while i < 8
                invariant
                    he_state@.len() == 128,
                    state_wf(he_state@, dim),
                    row == byte_idx % 4,
                    col == byte_idx / 4,
                    byte_idx < 16,
                    rr < 4,
                    i <= 8,
                    cur@.len() == 8,
                    cur_pre.len() == 8,
                    forall|t: int| 0 <= t < 8 ==> (#[trigger] cur@[t]).lwe_dimension() == dim,
                    forall|t: int|
                        0 <= t < i ==> lwe_pair(#[trigger] cur@[t]) == pair_add(
                            lwe_pair(cur_pre[t]),
                            state_bit(statev(he_state@), rr as int, col as int, t),
                        ),
                    forall|t: int| i <= t < 8 ==> cur@[t] == cur_pre[t],
                decreases 8 - i,
            {
                proof {
                    assert(he_state@[8 * (4 * col + rr) + i].lwe_dimension() == dim);
                }
                let src = &he_state[8 * (4 * col + rr) + i];
                let c = &mut cur[i];
                lwe_ciphertext_add_assign(c, src);
                proof {
                    assert(state_bit(statev(he_state@), rr as int, col as int, i as int)
                        == lwe_pair(he_state@[8 * (4 * col + rr) + i]));
                }
                i = i + 1;
            }
            stage = stage + 1;
        }
        // Append the mixed byte.
        let mut i: usize = 0;
        while i < 8
            invariant
                he_state@.len() == 128,
                state_wf(he_state@, dim),
                row == byte_idx % 4,
                col == byte_idx / 4,
                byte_idx < 16,
                r1 == (row + 1) % 4,
                b0 == Seq::new(
                    8,
                    |t: int|
                        pair_add(
                            state_bit(statev(he_state@), row as int, col as int, t),
                            state_bit(statev(he_state@), r1 as int, col as int, t),
                        ),
                ),
                b1 == he_mult_by_two_pairs(b0),
                i <= 8,
                cur@.len() == 8,
                fresh@.len() == 8 * byte_idx + i,
                forall|t: int|
                    0 <= t < 8 ==> lwe_pair(#[trigger] cur@[t]) == stage_value(
                        statev(he_state@),
                        b1,
                        row as int,
                        col as int,
                        3,
                        t,
                    ),
                forall|b: int, ii: int|
                    0 <= b < byte_idx && 0 <= ii < 8 ==> lwe_pair(#[trigger] fresh@[8 * b + ii])
                        == he_mix_byte_spec(statev(he_state@), b % 4, b / 4)[ii],
                forall|ii: int|
                    0 <= ii < i ==> lwe_pair(#[trigger] fresh@[8 * (byte_idx as int) + ii])
                        == he_mix_byte_spec(
                        statev(he_state@),
                        byte_idx as int % 4,
                        byte_idx as int / 4,
                    )[ii],
            decreases 8 - i,
        {
            let c = lwe_clone(&cur[i]);
            proof {
                let sv = statev(he_state@);
                let b0spec = Seq::new(
                    8,
                    |t: int|
                        pair_add(
                            state_bit(sv, row as int, col as int, t),
                            state_bit(sv, (row as int + 1) % 4, col as int, t),
                        ),
                );
                assert(r1 as int == (row as int + 1) % 4);
                assert(b0 =~= b0spec);
                assert(he_mult_by_two_pairs(b0spec) == b1);
                assert(he_mix_byte_spec(sv, row as int, col as int)[i as int] == stage_value(
                    sv,
                    b1,
                    row as int,
                    col as int,
                    3,
                    i as int,
                ));
            }
            fresh.push(c);
            proof {
                assert forall|b: int, ii: int|
                    0 <= b < byte_idx && 0 <= ii < 8 implies lwe_pair(
                    #[trigger] fresh@[8 * b + ii],
                ) == he_mix_byte_spec(statev(he_state@), b % 4, b / 4)[ii] by {
                    assert(8 * b + ii < 8 * byte_idx + i + 1) by (nonlinear_arith)
                        requires
                            0 <= b < byte_idx,
                            0 <= ii < 8,
                            i >= 0,
                    ;
                }
            }
            i = i + 1;
        }
        byte_idx = byte_idx + 1;
    }
    *he_state = fresh;
    proof {
        assert forall|row: int, col: int, i: int|
            0 <= row < 4 && 0 <= col < 4 && 0 <= i < 8 implies state_bit(
            statev(he_state@),
            row,
            col,
            i,
        ) == he_mix_byte_spec(statev(old(he_state)@), row, col)[i] by {
            let b = 4 * col + row;
            assert(0 <= b < 16);
            assert(b % 4 == row && b / 4 == col) by (nonlinear_arith)
                requires
                    b == 4 * col + row,
                    0 <= row < 4,
                    0 <= col < 4,
            ;
            assert(lwe_pair(he_state@[8 * b + i]) == he_mix_byte_spec(
                statev(old(he_state)@),
                row,
                col,
            )[i]);
            assert(state_bit(statev(he_state@), row, col, i) == lwe_pair(he_state@[8 * b + i]));
        }
    }
}

/// The value of the running byte after `stage` of the three post-doubling
/// additions of the column mix.
pub open spec fn stage_value(
    s: Seq<(Seq<u64>, u64)>,
    b1: Seq<(Seq<u64>, u64)>,
    row: int,
    col: int,
    stage: int,
    i: int,
) -> (Seq<u64>, u64)
    decreases stage,
{
    if stage <= 0 {
        b1[i]
    } else {
        let rr = (row + stage) % 4;
        pair_add(stage_value(s, b1, row, col, stage - 1, i), state_bit(s, rr, col, i))
    }
}



/// Coefficient t of the table accumulator of chunk acc_idx: bit
/// acc_idx*num_par_lut + t/256 of table entry t mod 256, scaled to the top
/// bit (zero for lanes past the last table bit).
pub open spec fn sbox_lut_coeff(npl: nat, acc_idx: int, t: int) -> u64 {
    let lut_idx = acc_idx * npl + t / 256;
    if lut_idx < 8 {
        (((sbox_seq()[t % 256] as u64) >> (lut_idx as u64)) & 1) << 63u64
    } else {
        0u64
    }
}

/// The table accumulator polynomial of chunk acc_idx.
pub open spec fn sbox_lut_body(n: nat, npl: nat, acc_idx: int) -> Seq<u64> {
    Seq::new(n, |t: int| sbox_lut_coeff(npl, acc_idx, t))
}

/// The first `upto` selector folds of the table accumulator: selector i
/// contributes acc <- acc + ggsw_i (x) (acc / X^(2^i) - acc), the
/// generalized multiplexer step on lane stride 2^i.
pub open spec fn sbox_acc_fold(
    mask: Seq<Seq<u64>>,
    body: Seq<u64>,
    ggsws: Seq<GgswCiphertext>,
    upto: nat,
) -> (Seq<Seq<u64>>, Seq<u64>)
    decreases upto,
{
    if upto == 0 {
        (mask, body)
    } else {
        let prev = sbox_acc_fold(mask, body, ggsws, (upto - 1) as nat);
        let g = ggsws[upto - 1];
        let bm = Seq::new(
            prev.0.len(),
            |c: int| psub(monomial_div(prev.0[c], pow2((upto - 1) as nat)), prev.0[c]),
        );
        let bb = psub(monomial_div(prev.1, pow2((upto - 1) as nat)), prev.1);
        ext_fold(
            prev.0,
            prev.1,
            bm,
            bb,
            g.base_log as nat,
            g.levels as nat,
            g.cols@,
            (g.glwe_dimension() + 1) as nat,
        )
    }
}

/// The eight selectors of one byte substitution: selector i is the
/// trace-path circuit bootstrap of input bit i.
pub open spec fn sbox_selectors_ok(
    inp: Seq<LweCiphertext>,
    bsk: BootstrapKey,
    entries: Seq<AutomorphKey>,
    ss_key: Seq<GgswCiphertext>,
    bl: nat,
    lvl: nat,
    llc: nat,
    ggsws: Seq<GgswCiphertext>,
) -> bool {
    &&& ggsws.len() == 8
    &&& forall|i: int|
        0 <= i < 8 ==> cbs_trace_rel(inp[i], bsk, entries, ss_key, bl, lvl, llc, #[trigger] ggsws[i])
}

/// The eight output bits: bit b is the coefficient-(lane*256) sample of the
/// chunk-b/npl accumulator folded against all eight selectors.
pub open spec fn sbox_extraction_ok(
    kdim: nat,
    n: nat,
    ggsws: Seq<GgswCiphertext>,
    out: Seq<LweCiphertext>,
) -> bool {
    &&& out.len() == 8
    &&& forall|b: int|
        0 <= b < 8 ==> ({
            let npl = n / 256;
            let rot = sbox_acc_fold(
                zero_mask_seq(kdim, n),
                sbox_lut_body(n, npl, b / (npl as int)),
                ggsws,
                8,
            );
            let lane = b % (npl as int);
            (#[trigger] out[b]).mask@ == extract_mask_at(rot.0, n, lane * 256) && out[b].body
                == rot.1[lane * 256]
        })
}

/// The byte substitution relation: the outputs are the table extractions
/// against eight selectors that circuit-bootstrap the input bits.
pub open spec fn sbox_outputs_ok(
    inp: Seq<LweCiphertext>,
    bsk: BootstrapKey,
    entries: Seq<AutomorphKey>,
    ss_key: Seq<GgswCiphertext>,
    bl: nat,
    lvl: nat,
    llc: nat,
    out: Seq<LweCiphertext>,
) -> bool {
    exists|ggsws: Seq<GgswCiphertext>|
        #[trigger] sbox_selectors_ok(inp, bsk, entries, ss_key, bl, lvl, llc, ggsws)
            && sbox_extraction_ok(bsk.glwe_dimension(), bsk.poly_size(), ggsws, out)
}

/// Evaluate the AES substitution box homomorphically on one byte of bit
/// ciphertexts: circuit-bootstrap each of the 8 input bits into a GGSW
/// selector, then fold each selector into negacyclic accumulators holding
/// the 256-entry table (several table lanes per accumulator when the ring
/// is large enough), and extract the 8 output bit ciphertexts from the
/// accumulator coefficients.
pub fn he_sbox_eval_by_patched_wwlp_cbs(
    input: &Vec<LweCiphertext>,
    bsk: &BootstrapKey,
    auto_keys: &AutomorphKeyMap,
    ss_key: &Vec<GgswCiphertext>,
    ggsw_base_log: usize,
    ggsw_level: usize,
    log_lut_count: usize,
) -> (out: Vec<LweCiphertext>)
    requires
        input@.len() == 8,
        forall|i: int|
            0 <= i < 8 ==> (#[trigger] input@[i]).lwe_dimension() == bsk.input_lwe_dimension(),
        bsk.wf(),
        256 <= bsk.poly_size() <= 0x1000_0000,
        exists|e: nat| e < 64 && bsk.poly_size() == pow2(e),
        log_lut_count < 29,
        2 * pow2(log_lut_count as nat) <= bsk.poly_size(),
        1 <= ggsw_base_log,
        1 <= ggsw_level,
        ggsw_level * ggsw_base_log < 64,
        ((ggsw_level + pow2(log_lut_count as nat) - 1) as int / (pow2(
            log_lut_count as nat,
        ) as int)) * (pow2(log_lut_count as nat) as int) * (ggsw_base_log as int) < 64,
        bsk.glwe_dimension() * bsk.poly_size() <= 0x4000_0000,
        auto_keys.wf_for(bsk.glwe_dimension(), bsk.poly_size()),
        forall|st: int|
            1 <= st && (exists|e: nat| st == pow2(e)) && 2 * st <= bsk.poly_size()
                ==> #[trigger] auto_keys.contains_exponent(bsk.poly_size() as int / st + 1),
        ss_key@.len() == bsk.glwe_dimension(),
        ss_key@.len() >= 1,
        forall|r: int|
            0 <= r < ss_key@.len() ==> (#[trigger] ss_key@[r]).wf() && ss_key@[r].glwe_dimension()
                == ss_key@.len() && ss_key@[r].poly_size() == bsk.poly_size(),
    ensures
        out@.len() == 8,
        forall|i: int|
            0 <= i < 8 ==> (#[trigger] out@[i]).lwe_dimension() == bsk.glwe_dimension()
                * bsk.poly_size(),
        sbox_outputs_ok(
            input@,
            *bsk,
            auto_keys.entries@,
            ss_key@,
            ggsw_base_log as nat,
            ggsw_level as nat,
            log_lut_count as nat,
            out@,
        ),
{
    let n = bsk.ggsws[0].cols[0][0].body.len();
    let kdim = bsk.ggsws[0].cols.len() - 1;
    proof {
        assert(bsk.ggsws@[0].cols@[0]@[0].poly_size() == bsk.poly_size());
        assert(glev_wf(
            bsk.ggsws@[0].cols@[0]@,
            bsk.glwe_dimension(),
            bsk.poly_size(),
            bsk.ggsws@[0].levels as nat,
        ));
    }
    // One GGSW selector per input bit.
    let mut ggsws: Vec<GgswCiphertext> = Vec::new();
    let mut i: usize = 0;
    while i < 8
        invariant
            input@.len() == 8,
            forall|t: int|
                0 <= t < 8 ==> (#[trigger] input@[t]).lwe_dimension()
                    == bsk.input_lwe_dimension(),
            bsk.wf(),
            n == bsk.poly_size(),
            kdim == bsk.glwe_dimension(),
            256 <= n <= 0x1000_0000,
            exists|e: nat| e < 64 && n == pow2(e),
            log_lut_count < 29,
            2 * pow2(log_lut_count as nat) <= n,
            1 <= ggsw_base_log,
            1 <= ggsw_level,
            ggsw_level * ggsw_base_log < 64,
            ((ggsw_level + pow2(log_lut_count as nat) - 1) as int / (pow2(
                log_lut_count as nat,
            ) as int)) * (pow2(log_lut_count as nat) as int) * (ggsw_base_log as int) < 64,
            kdim * n <= 0x4000_0000,
            auto_keys.wf_for(kdim as nat, n as nat),
            forall|st: int|
                1 <= st && (exists|e: nat| st == pow2(e)) && 2 * st <= n
                    ==> #[trigger] auto_keys.contains_exponent(n as int / st + 1),
            ss_key@.len() == kdim,
            kdim >= 1,
            forall|r: int|
                0 <= r < ss_key@.len() ==> (#[trigger] ss_key@[r]).wf()
                    && ss_key@[r].glwe_dimension() == ss_key@.len() && ss_key@[r].poly_size()
                    == n,
            i <= 8,
            ggsws@.len() == i,
            forall|t: int|
                0 <= t < i ==> (#[trigger] ggsws@[t]).wf() && ggsws@[t].glwe_dimension() == kdim
                    && ggsws@[t].poly_size() == n,
            forall|t: int|
                0 <= t < i ==> cbs_trace_rel(
                    input@[t],
                    *bsk,
                    auto_keys.entries@,
                    ss_key@,
                    ggsw_base_log as nat,
                    ggsw_level as nat,
                    log_lut_count as nat,
                    #[trigger] ggsws@[t],
                ),
        decreases 8 - i,
    {
        let g = crate::ggsw_conv::circuit_bootstrap_lwe_ciphertext_by_trace_with_preprocessing(
            &input[i],
            bsk,
            auto_keys,
            ss_key,
            ggsw_base_log,
            ggsw_level,
            log_lut_count,
        );
        ggsws.push(g);
        i = i + 1;
    }
    // Fold the selectors into table accumulators and extract the output
    // bits.
    let sbox = aes128_sbox();
    let num_par_lut = n / 256;
    let num_accumulator = if 8 % num_par_lut == 0 {
        8 / num_par_lut
    } else {
        8 / num_par_lut + 1
    };
    proof {
        lemma_div_nonincreasing(8int, num_par_lut as int);
        assert(num_accumulator <= 8) by {
            if 8int % (num_par_lut as int) != 0 {
                assert(num_par_lut != 1);
                lemma_div_is_ordered_by_denominator(8int, 2, num_par_lut as int);
            }
        }
        assert(num_par_lut <= 0x100000) by {
            lemma_div_is_ordered(n as int, 0x10000000, 256);
        }
    }
    let mut out: Vec<LweCiphertext> = Vec::new();
    let mut acc_idx: usize = 0;
    while acc_idx < num_accumulator
        invariant
            n >= 256,
            n <= 0x1000_0000,
            kdim >= 1,
            kdim * n <= 0x4000_0000,
            num_par_lut == n / 256,
            num_par_lut >= 1,
            num_par_lut <= 0x100000,
            num_accumulator <= 8,
            num_accumulator == (if 8int % (num_par_lut as int) == 0 {
                8int / (num_par_lut as int)
            } else {
                8int / (num_par_lut as int) + 1
            }),
            sbox@.len() == 256,
            sbox@ == sbox_seq(),
            ggsws@.len() == 8,
            forall|t: int|
                0 <= t < 8 ==> (#[trigger] ggsws@[t]).wf() && ggsws@[t].glwe_dimension() == kdim
                    && ggsws@[t].poly_size() == n,
            acc_idx <= num_accumulator,
            out@.len() == (if acc_idx * num_par_lut <= 8 {
                acc_idx * num_par_lut
            } else {
                8
            }),
            forall|t: int|
                0 <= t < out@.len() ==> (#[trigger] out@[t]).lwe_dimension() == kdim * n,
            forall|b: int|
                0 <= b < out@.len() ==> ({
                    let rot = sbox_acc_fold(
                        zero_mask_seq(kdim as nat, n as nat),
                        sbox_lut_body(n as nat, num_par_lut as nat, b / (num_par_lut as int)),
                        ggsws@,
                        8,
                    );
                    let lane2 = b % (num_par_lut as int);
                    (#[trigger] out@[b]).mask@ == extract_mask_at(rot.0, n as nat, lane2 * 256)
                        && out@[b].body == rot.1[lane2 * 256]
                }),
        decreases num_accumulator - acc_idx,
    {
        // The accumulator: table lane acc_idx*num_par_lut + i/256 holds bit
        // lut_idx of the table entry, scaled to the top bit.
        let mut body: Vec<u64> = Vec::new();
        let mut t: usize = 0;
        while t < n
            invariant
                n >= 256,
                num_par_lut == n / 256,
                num_par_lut <= 0x100000,
                acc_idx < 8,
                sbox@.len() == 256,
                sbox@ == sbox_seq(),
                t <= n,
                body@.len() == t,
                forall|tt: int|
                    0 <= tt < t ==> #[trigger] body@[tt] == sbox_lut_coeff(
                        num_par_lut as nat,
                        acc_idx as int,
                        tt,
                    ),
            decreases n - t,
        {
            proof {
                lemma_mul_upper_bound(acc_idx as int, 7, num_par_lut as int, 0x100000);
            }
            let lut_idx = acc_idx * num_par_lut + t / 256;
            let v: u64 = if lut_idx < 8 {
                let bit = ((sbox[t % 256] as u64) >> (lut_idx as u64)) & 1;
                bit << 63u64
            } else {
                0
            };
            body.push(v);
            t = t + 1;
        }
        let mut acc = GlweCiphertext::new_zero(kdim, n);
        acc.body = body;
        assert(acc.wf());
        proof {
            assert(acc.body@ =~= sbox_lut_body(n as nat, num_par_lut as nat, acc_idx as int));
            assert(glwe_maskv(acc) =~= zero_mask_seq(kdim as nat, n as nat)) by {
                assert forall|r: int| 0 <= r < kdim implies glwe_maskv(acc)[r] == zero_mask_seq(
                    kdim as nat,
                    n as nat,
                )[r] by {
                    assert(glwe_maskv(acc)[r] == acc.mask@[r]@);
                    assert(crate::poly::is_zero_poly(acc.mask@[r]@));
                    assert(glwe_maskv(acc)[r] =~= zero_mask_seq(kdim as nat, n as nat)[r]);
                }
            }
        }
        let mut i: usize = 0;
        while i < 8
            invariant
                n >= 256,
                n <= 0x1000_0000,
                kdim >= 1,
                num_par_lut == n / 256,
                acc_idx < 8,
                ggsws@.len() == 8,
                forall|t: int|
                    0 <= t < 8 ==> (#[trigger] ggsws@[t]).wf() && ggsws@[t].glwe_dimension()
                        == kdim && ggsws@[t].poly_size() == n,
                i <= 8,
                acc.wf(),
                acc.glwe_dimension() == kdim,
                acc.poly_size() == n,
                (glwe_maskv(acc), acc.body@) == sbox_acc_fold(
                    zero_mask_seq(kdim as nat, n as nat),
                    sbox_lut_body(n as nat, num_par_lut as nat, acc_idx as int),
                    ggsws@,
                    i as nat,
                ),
            decreases 8 - i,
        {
            let ghost acc_pre = (glwe_maskv(acc), acc.body@);
            let mut buf = glwe_clone(&acc);
            proof {
                assert(buf.wf());
                assert(glwe_maskv(buf) =~= glwe_maskv(acc)) by {
                    assert forall|r: int| 0 <= r < kdim implies glwe_maskv(buf)[r] == glwe_maskv(
                        acc,
                    )[r] by {
                        assert(glwe_maskv(buf)[r] == buf.mask@[r]@);
                        assert(glwe_maskv(acc)[r] == acc.mask@[r]@);
                    }
                }
                lemma_pow2_strictly_increases(i as nat, 8);
                lemma2_to64();
            }
            let shift = pow2_u64(i) as usize;
            glwe_ciphertext_monic_monomial_div_assign(&mut buf, shift);
            glwe_ciphertext_sub_assign(&mut buf, &acc);
            proof {
                let bm = Seq::new(
                    acc_pre.0.len(),
                    |c: int| psub(monomial_div(acc_pre.0[c], pow2(i as nat)), acc_pre.0[c]),
                );
                let bb = psub(monomial_div(acc_pre.1, pow2(i as nat)), acc_pre.1);
                assert(glwe_maskv(buf) =~= bm) by {
                    assert forall|r: int| 0 <= r < kdim implies glwe_maskv(buf)[r] == bm[r] by {
                        assert(glwe_maskv(buf)[r] == buf.mask@[r]@);
                        assert(acc_pre.0[r] == acc.mask@[r]@);
                    }
                }
                assert(buf.body@ == bb);
            }
            add_external_product_assign(&mut acc, &ggsws[i], &buf);
            i = i + 1;
        }
        // Extract the lanes of this accumulator.
        let mut lane: usize = 0;
        while lane < num_par_lut
            invariant
                n >= 256,
                num_par_lut == n / 256,
                num_par_lut >= 1,
                num_par_lut <= 0x100000,
                acc_idx < 8,
                kdim >= 1,
                kdim * n <= 0x4000_0000,
                acc.wf(),
                acc.glwe_dimension() == kdim,
                acc.poly_size() == n,
                acc_idx < num_accumulator,
                num_accumulator == (if 8int % (num_par_lut as int) == 0 {
                    8int / (num_par_lut as int)
                } else {
                    8int / (num_par_lut as int) + 1
                }),
                lane <= num_par_lut,
                ggsws@.len() == 8,
                (glwe_maskv(acc), acc.body@) == sbox_acc_fold(
                    zero_mask_seq(kdim as nat, n as nat),
                    sbox_lut_body(n as nat, num_par_lut as nat, acc_idx as int),
                    ggsws@,
                    8,
                ),
                out@.len() == (if acc_idx * num_par_lut + lane <= 8 {
                    acc_idx * num_par_lut + lane
                } else {
                    8
                }),
                forall|t: int|
                    0 <= t < out@.len() ==> (#[trigger] out@[t]).lwe_dimension() == kdim * n,
            forall|b: int|
                0 <= b < out@.len() ==> ({
                    let rot = sbox_acc_fold(
                        zero_mask_seq(kdim as nat, n as nat),
                        sbox_lut_body(n as nat, num_par_lut as nat, b / (num_par_lut as int)),
                        ggsws@,
                        8,
                    );
                    let lane2 = b % (num_par_lut as int);
                    (#[trigger] out@[b]).mask@ == extract_mask_at(rot.0, n as nat, lane2 * 256)
                        && out@[b].body == rot.1[lane2 * 256]
                }),
            decreases num_par_lut - lane,
        {
            proof {
                lemma_mul_upper_bound(acc_idx as int, 7, num_par_lut as int, 0x100000);
            }
            let bit_idx = acc_idx * num_par_lut + lane;
            if bit_idx < 8 {
                proof {
                    assert(lane * 256 < n) by (nonlinear_arith)
                        requires
                            lane < num_par_lut,
                            num_par_lut == n / 256,
                            n >= 256,
                    ;
                }
                let sample = extract_lwe_sample_from_glwe_ciphertext(&acc, lane * 256);
                proof {
                    // This output bit is the lane sample of this chunk.
                    vstd::arithmetic::div_mod::lemma_fundamental_div_mod_converse(
                        bit_idx as int,
                        num_par_lut as int,
                        acc_idx as int,
                        lane as int,
                    );
                    let rot = sbox_acc_fold(
                        zero_mask_seq(kdim as nat, n as nat),
                        sbox_lut_body(n as nat, num_par_lut as nat, acc_idx as int),
                        ggsws@,
                        8,
                    );
                    let nth = lane as int * 256;
                    assert(sample.mask@ =~= extract_mask_at(rot.0, n as nat, nth)) by {
                        assert forall|idx: int|
                            0 <= idx < kdim * n implies sample.mask@[idx] == extract_mask_at(
                            rot.0,
                            n as nat,
                            nth,
                        )[idx] by {
                            let r = idx / (n as int);
                            let ii = idx % (n as int);
                            vstd::arithmetic::div_mod::lemma_fundamental_div_mod(idx, n as int);
                            vstd::arithmetic::div_mod::lemma_mod_bound(idx, n as int);
                            assert(0 <= r < kdim) by (nonlinear_arith)
                                requires
                                    idx == (n as int) * r + ii,
                                    0 <= ii < n,
                                    0 <= idx < kdim * n,
                                    n >= 1,
                            ;
                            assert(sample.mask@[r * (n as int) + ii] == (if ii <= nth {
                                acc.mask@[r]@[nth - ii]
                            } else {
                                wrap(-(acc.mask@[r]@[n + nth - ii] as int))
                            }));
                            assert(acc.mask@[r]@ == rot.0[r]) by {
                                assert(glwe_maskv(acc)[r] == acc.mask@[r]@);
                            }
                            assert(r * (n as int) + ii == idx) by (nonlinear_arith)
                                requires
                                    idx == (n as int) * r + ii,
                            ;
                        }
                    }
                    assert(sample.body == rot.1[nth]);
                }
                out.push(sample);
            }
            lane = lane + 1;
        }
        acc_idx = acc_idx + 1;
        proof {
            assert(out@.len() == (if acc_idx * num_par_lut <= 8 {
                acc_idx * num_par_lut
            } else {
                8
            })) by (nonlinear_arith)
                requires
                    out@.len() == (if (acc_idx - 1) * num_par_lut + num_par_lut <= 8 {
                        (acc_idx - 1) * num_par_lut + num_par_lut
                    } else {
                        8int
                    }),
                    num_par_lut >= 1,
                    acc_idx >= 1,
            ;
        }
    }
    proof {
        assert(out@.len() == 8) by (nonlinear_arith)
            requires
                out@.len() == (if num_accumulator * num_par_lut <= 8 {
                    num_accumulator * num_par_lut
                } else {
                    8int
                }),
                num_par_lut >= 1,
                num_accumulator == (if 8int % (num_par_lut as int) == 0 {
                    8int / (num_par_lut as int)
                } else {
                    8int / (num_par_lut as int) + 1
                }),
                num_par_lut == n / 256,
                n >= 256,
        ;
        assert(sbox_selectors_ok(
            input@,
            *bsk,
            auto_keys.entries@,
            ss_key@,
            ggsw_base_log as nat,
            ggsw_level as nat,
            log_lut_count as nat,
            ggsws@,
        ));
        assert(sbox_extraction_ok(kdim as nat, n as nat, ggsws@, out@)) by {
            assert(n as nat / 256 == num_par_lut as nat);
        }
    }
    out
}

/// The homomorphic SubBytes layer: the S-box evaluator applied to each of
/// the 16 state bytes.
pub fn he_sub_bytes_by_patched_wwlp_cbs(
    he_state_input: &Vec<LweCiphertext>,
    bsk: &BootstrapKey,
    auto_keys: &AutomorphKeyMap,
    ss_key: &Vec<GgswCiphertext>,
    ggsw_base_log: usize,
    ggsw_level: usize,
    log_lut_count: usize,
) -> (out: Vec<LweCiphertext>)
    requires
        he_state_input@.len() == 128,
        forall|i: int|
            0 <= i < 128 ==> (#[trigger] he_state_input@[i]).lwe_dimension()
                == bsk.input_lwe_dimension(),
        bsk.wf(),
        256 <= bsk.poly_size() <= 0x1000_0000,
        exists|e: nat| e < 64 && bsk.poly_size() == pow2(e),
        log_lut_count < 29,
        2 * pow2(log_lut_count as nat) <= bsk.poly_size(),
        1 <= ggsw_base_log,
        1 <= ggsw_level,
        ggsw_level * ggsw_base_log < 64,
        ((ggsw_level + pow2(log_lut_count as nat) - 1) as int / (pow2(
            log_lut_count as nat,
        ) as int)) * (pow2(log_lut_count as nat) as int) * (ggsw_base_log as int) < 64,
        bsk.glwe_dimension() * bsk.poly_size() <= 0x4000_0000,
        auto_keys.wf_for(bsk.glwe_dimension(), bsk.poly_size()),
        forall|st: int|
            1 <= st && (exists|e: nat| st == pow2(e)) && 2 * st <= bsk.poly_size()
                ==> #[trigger] auto_keys.contains_exponent(bsk.poly_size() as int / st + 1),
        ss_key@.len() == bsk.glwe_dimension(),
        ss_key@.len() >= 1,
        forall|r: int|
            0 <= r < ss_key@.len() ==> (#[trigger] ss_key@[r]).wf() && ss_key@[r].glwe_dimension()
                == ss_key@.len() && ss_key@[r].poly_size() == bsk.poly_size(),
    ensures
        out@.len() == 128,
        forall|i: int|
            0 <= i < 128 ==> (#[trigger] out@[i]).lwe_dimension() == bsk.glwe_dimension()
                * bsk.poly_size(),
        // Byte chunk b of the output is the substitution of byte chunk b of
        // the input.
        forall|b: int|
            0 <= b < 16 ==> sbox_outputs_ok(
                he_state_input@.subrange(8 * b, 8 * b + 8),
                *bsk,
                auto_keys.entries@,
                ss_key@,
                ggsw_base_log as nat,
                ggsw_level as nat,
                log_lut_count as nat,
                #[trigger] out@.subrange(8 * b, 8 * b + 8),
            ),
{
    let mut out: Vec<LweCiphertext> = Vec::new();
    let mut byte_idx: usize = 0;
    while byte_idx < 16
        invariant
            he_state_input@.len() == 128,
            forall|i: int|
                0 <= i < 128 ==> (#[trigger] he_state_input@[i]).lwe_dimension()
                    == bsk.input_lwe_dimension(),
            bsk.wf(),
            256 <= bsk.poly_size() <= 0x1000_0000,
            exists|e: nat| e < 64 && bsk.poly_size() == pow2(e),
            log_lut_count < 29,
            2 * pow2(log_lut_count as nat) <= bsk.poly_size(),
            1 <= ggsw_base_log,
            1 <= ggsw_level,
            ggsw_level * ggsw_base_log < 64,
            ((ggsw_level + pow2(log_lut_count as nat) - 1) as int / (pow2(
                log_lut_count as nat,
            ) as int)) * (pow2(log_lut_count as nat) as int) * (ggsw_base_log as int) < 64,
            bsk.glwe_dimension() * bsk.poly_size() <= 0x4000_0000,
            auto_keys.wf_for(bsk.glwe_dimension(), bsk.poly_size()),
            forall|st: int|
                1 <= st && (exists|e: nat| st == pow2(e)) && 2 * st <= bsk.poly_size()
                    ==> #[trigger] auto_keys.contains_exponent(bsk.poly_size() as int / st + 1),
            ss_key@.len() == bsk.glwe_dimension(),
            ss_key@.len() >= 1,
            forall|r: int|
                0 <= r < ss_key@.len() ==> (#[trigger] ss_key@[r]).wf()
                    && ss_key@[r].glwe_dimension() == ss_key@.len() && ss_key@[r].poly_size()
                    == bsk.poly_size(),
            byte_idx <= 16,
            out@.len() == 8 * byte_idx,
            forall|i: int|
                0 <= i < out@.len() ==> (#[trigger] out@[i]).lwe_dimension()
                    == bsk.glwe_dimension() * bsk.poly_size(),
            forall|b: int|
                0 <= b < byte_idx ==> sbox_outputs_ok(
                    he_state_input@.subrange(8 * b, 8 * b + 8),
                    *bsk,
                    auto_keys.entries@,
                    ss_key@,
                    ggsw_base_log as nat,
                    ggsw_level as nat,
                    log_lut_count as nat,
                    #[trigger] out@.subrange(8 * b, 8 * b + 8),
                ),
        decreases 16 - byte_idx,
    {
        let mut byte: Vec<LweCiphertext> = Vec::new();
        let mut i: usize = 0;
        while i < 8
            invariant
                he_state_input@.len() == 128,
                forall|t: int|
                    0 <= t < 128 ==> (#[trigger] he_state_input@[t]).lwe_dimension()
                        == bsk.input_lwe_dimension(),
                byte_idx < 16,
                i <= 8,
                byte@.len() == i,
                forall|t: int|
                    0 <= t < i ==> (#[trigger] byte@[t]).lwe_dimension()
                        == bsk.input_lwe_dimension(),
                forall|t: int|
                    0 <= t < i ==> (#[trigger] byte@[t]).mask@ == he_state_input@[8 * (
                    byte_idx as int) + t].mask@ && byte@[t].body == he_state_input@[8 * (
                    byte_idx as int) + t].body,
            decreases 8 - i,
        {
            let c = lwe_clone(&he_state_input[8 * byte_idx + i]);
            byte.push(c);
            i = i + 1;
        }
        let sub = he_sbox_eval_by_patched_wwlp_cbs(
            &byte,
            bsk,
            auto_keys,
            ss_key,
            ggsw_base_log,
            ggsw_level,
            log_lut_count,
        );
        let mut i: usize = 0;
        while i < 8
            invariant
                sub@.len() == 8,
                forall|t: int|
                    0 <= t < 8 ==> (#[trigger] sub@[t]).lwe_dimension() == bsk.glwe_dimension()
                        * bsk.poly_size(),
                i <= 8,
                out@.len() == 8 * byte_idx + i,
                byte_idx < 16,
                forall|t: int|
                    0 <= t < out@.len() ==> (#[trigger] out@[t]).lwe_dimension()
                        == bsk.glwe_dimension() * bsk.poly_size(),
                forall|b: int|
                    0 <= b < byte_idx ==> sbox_outputs_ok(
                        he_state_input@.subrange(8 * b, 8 * b + 8),
                        *bsk,
                        auto_keys.entries@,
                        ss_key@,
                        ggsw_base_log as nat,
                        ggsw_level as nat,
                        log_lut_count as nat,
                        #[trigger] out@.subrange(8 * b, 8 * b + 8),
                    ),
                forall|t: int|
                    0 <= t < i ==> (#[trigger] out@[8 * (byte_idx as int) + t]).mask@
                        == sub@[t].mask@ && out@[8 * (byte_idx as int) + t].body == sub@[t].body,
            decreases 8 - i,
        {
            let c = lwe_clone(&sub[i]);
            let ghost out_pre = out@;
            out.push(c);
            proof {
                assert forall|b: int|
                    0 <= b < byte_idx implies sbox_outputs_ok(
                    he_state_input@.subrange(8 * b, 8 * b + 8),
                    *bsk,
                    auto_keys.entries@,
                    ss_key@,
                    ggsw_base_log as nat,
                    ggsw_level as nat,
                    log_lut_count as nat,
                    #[trigger] out@.subrange(8 * b, 8 * b + 8),
                ) by {
                    assert(out@.subrange(8 * b, 8 * b + 8) =~= out_pre.subrange(8 * b, 8 * b + 8));
                }
            }
            i = i + 1;
        }
        proof {
            // The fresh chunk satisfies the substitution relation for the
            // original input entries: the relation depends only on the
            // ciphertext values, which the working copies share.
            let chunk_in = he_state_input@.subrange(
                8 * (byte_idx as int),
                8 * (byte_idx as int) + 8,
            );
            let chunk_out = out@.subrange(8 * (byte_idx as int), 8 * (byte_idx as int) + 8);
            let ggsws = choose|ggsws: Seq<GgswCiphertext>|
                #[trigger] sbox_selectors_ok(
                    byte@,
                    *bsk,
                    auto_keys.entries@,
                    ss_key@,
                    ggsw_base_log as nat,
                    ggsw_level as nat,
                    log_lut_count as nat,
                    ggsws,
                ) && sbox_extraction_ok(bsk.glwe_dimension(), bsk.poly_size(), ggsws, sub@);
            assert(sbox_selectors_ok(
                chunk_in,
                *bsk,
                auto_keys.entries@,
                ss_key@,
                ggsw_base_log as nat,
                ggsw_level as nat,
                log_lut_count as nat,
                ggsws,
            )) by {
                assert forall|t: int| 0 <= t < 8 implies cbs_trace_rel(
                    chunk_in[t],
                    *bsk,
                    auto_keys.entries@,
                    ss_key@,
                    ggsw_base_log as nat,
                    ggsw_level as nat,
                    log_lut_count as nat,
                    #[trigger] ggsws[t],
                ) by {
                    assert(chunk_in[t] == he_state_input@[8 * (byte_idx as int) + t]);
                    crate::ggsw_conv::lemma_cbs_trace_rel_value(
                        byte@[t],
                        chunk_in[t],
                        *bsk,
                        auto_keys.entries@,
                        ss_key@,
                        ggsw_base_log as nat,
                        ggsw_level as nat,
                        log_lut_count as nat,
                        ggsws[t],
                    );
                }
            }
            assert(sbox_extraction_ok(
                bsk.glwe_dimension(),
                bsk.poly_size(),
                ggsws,
                chunk_out,
            )) by {
                assert(chunk_out.len() == 8);
                assert forall|b: int| 0 <= b < 8 implies ({
                    let npl = bsk.poly_size() / 256;
                    let rot = sbox_acc_fold(
                        zero_mask_seq(bsk.glwe_dimension(), bsk.poly_size()),
                        sbox_lut_body(bsk.poly_size(), npl, b / (npl as int)),
                        ggsws,
                        8,
                    );
                    let lane2 = b % (npl as int);
                    (#[trigger] chunk_out[b]).mask@ == extract_mask_at(
                        rot.0,
                        bsk.poly_size(),
                        lane2 * 256,
                    ) && chunk_out[b].body == rot.1[lane2 * 256]
                }) by {
                    assert(chunk_out[b] == out@[8 * (byte_idx as int) + b]);
                    assert(chunk_out[b].mask@ == sub@[b].mask@);
                    assert(chunk_out[b].body == sub@[b].body);
                }
            }
            assert(sbox_outputs_ok(
                chunk_in,
                *bsk,
                auto_keys.entries@,
                ss_key@,
                ggsw_base_log as nat,
                ggsw_level as nat,
                log_lut_count as nat,
                chunk_out,
            ));
        }
        byte_idx = byte_idx + 1;
    }
    out
}

/// Decode a homomorphic state against its expected plaintext bits and
/// report each bit's error size (in bits) plus the largest absolute error.
pub fn get_he_state_error(
    he_state: &Vec<LweCiphertext>,
    plain_bits: &Vec<u64>,
    lwe_sk: &crate::lwe::LweSecretKey,
) -> (r: (Vec<u32>, u64))
    requires
        he_state@.len() == plain_bits@.len(),
        forall|i: int|
            0 <= i < he_state@.len() ==> (#[trigger] he_state@[i]).lwe_dimension()
                == lwe_sk.coeffs@.len(),
    ensures
        r.0@.len() == he_state@.len(),
        forall|i: int|
            0 <= i < he_state@.len() ==> #[trigger] r.0@[i] == crate::utils::bit_len(
                crate::utils::torus_distance(
                    crate::lwe::lwe_phase(lwe_sk.coeffs@, he_state@[i]),
                    wrap(plain_bits@[i] * pow2(63) as u64),
                ) as nat,
            ),
        forall|i: int|
            0 <= i < he_state@.len() ==> crate::utils::torus_distance(
                crate::lwe::lwe_phase(lwe_sk.coeffs@, #[trigger] he_state@[i]),
                wrap(plain_bits@[i] * pow2(63) as u64),
            ) <= r.1,
        r.1 == 0 || exists|i: int|
            0 <= i < he_state@.len() && crate::utils::torus_distance(
                crate::lwe::lwe_phase(lwe_sk.coeffs@, #[trigger] he_state@[i]),
                wrap(plain_bits@[i] * pow2(63) as u64),
            ) == r.1,
{
    let count = he_state.len();
    let delta = pow2_u64(63);
    proof {
        lemma_pow2_strictly_increases(1, 63);
        lemma2_to64();
    }
    let mut vec_err: Vec<u32> = Vec::new();
    let mut max_err: u64 = 0;
    let mut i: usize = 0;
    while i < count
        invariant
            he_state@.len() == count,
            plain_bits@.len() == count,
            forall|t: int|
                0 <= t < count ==> (#[trigger] he_state@[t]).lwe_dimension()
                    == lwe_sk.coeffs@.len(),
            delta == pow2(63),
            delta >= 2,
            i <= count,
            vec_err@.len() == i,
            forall|t: int|
                0 <= t < i ==> #[trigger] vec_err@[t] == crate::utils::bit_len(
                    crate::utils::torus_distance(
                        crate::lwe::lwe_phase(lwe_sk.coeffs@, he_state@[t]),
                        wrap(plain_bits@[t] * pow2(63) as u64),
                    ) as nat,
                ),
            forall|t: int|
                0 <= t < i ==> crate::utils::torus_distance(
                    crate::lwe::lwe_phase(lwe_sk.coeffs@, #[trigger] he_state@[t]),
                    wrap(plain_bits@[t] * pow2(63) as u64),
                ) <= max_err,
            max_err == 0 || exists|t: int|
                0 <= t < i && crate::utils::torus_distance(
                    crate::lwe::lwe_phase(lwe_sk.coeffs@, #[trigger] he_state@[t]),
                    wrap(plain_bits@[t] * pow2(63) as u64),
                ) == max_err,
        decreases count - i,
    {
        let (_decoded, bit_err, abs_err) = crate::utils::get_val_and_bit_and_abs_err(
            lwe_sk,
            &he_state[i],
            plain_bits[i],
            delta,
        );
        vec_err.push(bit_err);
        if abs_err > max_err {
            max_err = abs_err;
        }
        i = i + 1;
    }
    (vec_err, max_err)
}

} // verus!
