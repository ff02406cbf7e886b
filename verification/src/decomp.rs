//! Signed digit decomposition in base 2^base_log with a fixed number of
//! levels: the torus value is first rounded to the closest representable
//! multiple of 2^(64 - levels*base_log), then split into balanced digits,
//! one per level, such that the digits recompose exactly to the rounding.
use vstd::prelude::*;
use vstd::arithmetic::power2::*;
use vstd::arithmetic::div_mod::*;
use vstd::arithmetic::mul::*;
use crate::wrap;
use crate::torus_modulus;
use crate::arith::pow2_u64;
use crate::arith::lemma_wrap_id;
use crate::arith::lemma_wrap_multiple;
use crate::arith::lemma_wrapping_add;
use crate::arith::lemma_wrapping_sub;

verus! {

/// The fixed-point scale of decomposition level `level` (1-indexed):
/// 2^(64 - level*base_log).
pub open spec fn decomp_scale(base_log: nat, level: nat) -> int
    recommends
        level * base_log <= 64,
{
    pow2((64 - level * base_log) as nat) as int
}

/// The value closest to v among the multiples of
/// 2^(64 - levels*base_log), with ties rounded to the even multiple of the
/// half step.
pub open spec fn closest_rep(v: u64, base_log: nat, levels: nat) -> u64
    recommends
        1 <= levels * base_log < 64,
{
    let shift = (63 - levels * base_log) as nat;
    let half = v as int / pow2(shift) as int + 1;
    let rounded = half - half % 2;
    wrap(rounded * pow2(shift) as int)
}

/// A digit is balanced: as a signed quantity its magnitude is at most
/// 2^(base_log - 1).
pub open spec fn digit_balanced(d: u64, base_log: nat) -> bool {
    d <= pow2((base_log - 1) as nat) || d as int >= torus_modulus() - pow2(
        (base_log - 1) as nat,
    ) as int
}

/// The carry out of one digit-extraction step: taken when the residue is
/// above half the base, or equal to it with the next state bit odd.
pub open spec fn decomp_carry(res: u64, st1: u64, bl: nat) -> u64
    recommends
        1 <= bl < 64,
{
    let halfb = pow2((bl - 1) as nat) as u64;
    if res > halfb {
        1u64
    } else if res == halfb {
        (((st1 as int) / (halfb as int)) % 2) as u64
    } else {
        0u64
    }
}

/// The internal decomposition state after `steps` digit extractions,
/// starting from the closest representable rounding shifted down to the
/// represented window.
pub open spec fn decomp_state(v: u64, bl: nat, levels: nat, steps: nat) -> u64
    recommends
        1 <= bl,
        1 <= levels,
        levels * bl < 64,
    decreases steps,
{
    if steps == 0 {
        ((closest_rep(v, bl, levels) as int) / (pow2((64 - levels * bl) as nat) as int)) as u64
    } else {
        let st = decomp_state(v, bl, levels, (steps - 1) as nat);
        let b = pow2(bl) as u64;
        let res = ((st as int) % (b as int)) as u64;
        let st1 = ((st as int) / (b as int)) as u64;
        (st1 + decomp_carry(res, st1, bl)) as u64
    }
}

/// The exact digit of level idx+1 (0-based index idx): the decomposition
/// emits digits from the highest level down, so this digit is produced at
/// step levels - idx.
pub open spec fn decomp_digit_at(v: u64, bl: nat, levels: nat, idx: nat) -> u64
    recommends
        1 <= bl,
        1 <= levels,
        levels * bl < 64,
        idx < levels,
{
    let st = decomp_state(v, bl, levels, (levels - idx - 1) as nat);
    let b = pow2(bl) as u64;
    let res = ((st as int) % (b as int)) as u64;
    let st1 = ((st as int) / (b as int)) as u64;
    wrap(res - decomp_carry(res, st1, bl) * b)
}

/// Every digit of the zero value is zero.
pub proof fn lemma_decomp_state_zero(bl: nat, levels: nat, steps: nat)
    requires
        1 <= bl,
        1 <= levels,
        levels * bl < 64,
    ensures
        decomp_state(0, bl, levels, steps) == 0,
    decreases steps,
{
    assert(bl < 64) by {
        lemma_mul_inequality(1, levels as int, bl as int);
    }
    lemma_pow2_strictly_increases(bl, 64);
    lemma_pow2_strictly_increases((bl - 1) as nat, 64);
    lemma2_to64_rest();
    lemma_pow2_pos(bl);
    lemma_pow2_pos((bl - 1) as nat);
    lemma_pow2_pos((63 - levels * bl) as nat);
    lemma_pow2_pos((64 - levels * bl) as nat);
    if steps == 0 {
        assert(closest_rep(0, bl, levels) == 0) by {
            let p = pow2((63 - levels * bl) as nat) as int;
            assert((0u64) as int / p == 0) by {
                lemma_div_of0(p);
            }
            let half = (0u64) as int / p + 1;
            assert(half == 1);
            assert(half % 2 == 1int) by {
                lemma_small_mod(1nat, 2nat);
            }
            let rounded = half - half % 2;
            assert(rounded == 0);
            assert(rounded * p == 0) by {
                lemma_mul_by_zero_is_zero(p);
            }
            lemma_wrap_id(0u64);
        }
        assert(0int / pow2((64 - levels * bl) as nat) as int == 0) by {
            lemma_div_of0(pow2((64 - levels * bl) as nat) as int);
        }
    } else {
        lemma_decomp_state_zero(bl, levels, (steps - 1) as nat);
        let b = pow2(bl) as u64;
        assert(0int % (b as int) == 0 && 0int / (b as int) == 0) by {
            lemma_small_mod(0nat, b as nat);
            lemma_div_of0(b as int);
        }
        assert(decomp_carry(0, 0, bl) == 0) by {
            let halfb = pow2((bl - 1) as nat) as u64;
            assert(halfb >= 1);
        }
    }
}

/// The digits of the zero value are all zero.
pub proof fn lemma_decomp_digit_zero(bl: nat, levels: nat, idx: nat)
    requires
        1 <= bl,
        1 <= levels,
        levels * bl < 64,
        idx < levels,
    ensures
        decomp_digit_at(0, bl, levels, idx) == 0,
{
    assert(bl < 64) by {
        lemma_mul_inequality(1, levels as int, bl as int);
    }
    lemma_pow2_strictly_increases(bl, 64);
    lemma_pow2_strictly_increases((bl - 1) as nat, 64);
    lemma2_to64_rest();
    lemma_pow2_pos(bl);
    lemma_pow2_pos((bl - 1) as nat);
    lemma_decomp_state_zero(bl, levels, (levels - idx - 1) as nat);
    let b = pow2(bl) as u64;
    assert(0int % (b as int) == 0 && 0int / (b as int) == 0) by {
        lemma_small_mod(0nat, b as nat);
        lemma_div_of0(b as int);
    }
    assert(decomp_carry(0, 0, bl) == 0) by {
        let halfb = pow2((bl - 1) as nat) as u64;
        assert(halfb >= 1);
    }
    lemma_wrap_id(0u64);
}

/// The exact integer recomposed from the first `upto` digits:
/// sum_{level=1..upto} digits[level-1] * 2^(64 - level*base_log).
pub open spec fn recomp_prefix(digits: Seq<u64>, base_log: nat, upto: nat) -> int
    decreases upto,
{
    if upto == 0 {
        0
    } else {
        recomp_prefix(digits, base_log, (upto - 1) as nat) + (digits[upto - 1] as int)
            * decomp_scale(base_log, upto)
    }
}

/// Updating one digit shifts the recomposed value by the digit delta times
/// that level's scale.
pub proof fn lemma_recomp_update(d: Seq<u64>, base_log: nat, upto: nat, i: int, x: u64)
    requires
        0 <= i < d.len(),
        upto <= d.len(),
    ensures
        recomp_prefix(d.update(i, x), base_log, upto) == if i < upto {
            recomp_prefix(d, base_log, upto) + (x - d[i]) * decomp_scale(base_log, (i + 1) as nat)
        } else {
            recomp_prefix(d, base_log, upto)
        },
    decreases upto,
{
    if upto > 0 {
        lemma_recomp_update(d, base_log, (upto - 1) as nat, i, x);
        let du = d.update(i, x);
        if i == upto - 1 {
            assert(du[upto - 1] == x);
            assert((x as int) * decomp_scale(base_log, upto) - (d[upto - 1] as int)
                * decomp_scale(base_log, upto) == (x - d[upto - 1]) * decomp_scale(
                base_log,
                upto,
            )) by (nonlinear_arith);
        } else {
            assert(du[upto - 1] == d[upto - 1]);
        }
    }
}

/// Digits that are all zero recompose to zero.
pub proof fn lemma_recomp_zero(d: Seq<u64>, base_log: nat, upto: nat)
    requires
        upto <= d.len(),
        forall|t: int| 0 <= t < upto ==> d[t] == 0,
    ensures
        recomp_prefix(d, base_log, upto) == 0,
    decreases upto,
{
    if upto > 0 {
        lemma_recomp_zero(d, base_log, (upto - 1) as nat);
    }
}

/// Round a torus value to the closest multiple of 2^(64 - levels*base_log).
pub fn closest_representable(v: u64, base_log: usize, levels: usize) -> (r: u64)
    requires
        1 <= base_log,
        1 <= levels,
        levels * base_log < 64,
    ensures
        r == closest_rep(v, base_log as nat, levels as nat),
{
    let shift = 63 - levels * base_log;
    let p = pow2_u64(shift);
    let vp = v / p;
    let half = vp.wrapping_add(1);
    let ghost h = vp as int + 1;
    proof {
        lemma_wrapping_add(vp, 1u64);
    }
    let even = half - half % 2;
    let r = even.wrapping_mul(p);
    proof {
        crate::arith::lemma_wrapping_mul(even, p);
        let rounded = h - h % 2;
        if h <= u64::MAX {
            lemma_wrap_id(h as u64);
            assert(half == h);
            assert(even == rounded);
            assert(wrap(even * p) == wrap(rounded * p as int));
        } else {
            // v/p + 1 overflowed: h == 2^64, so half wrapped to 0 and the
            // spec's rounded value is exactly one modulus above even.
            assert(h == torus_modulus());
            assert(half == 0) by {
                lemma_wrap_multiple(0, 1);
                lemma_wrap_id(0u64);
            }
            assert(even == 0);
            assert(rounded == torus_modulus());
            assert(wrap(even * p) == wrap(rounded * p as int)) by {
                lemma_wrap_multiple(even * p, p as int);
                assert(rounded * (p as int) == even * p + (p as int) * torus_modulus())
                    by (nonlinear_arith)
                    requires
                        rounded == even + torus_modulus(),
                ;
            }
        }
    }
    r
}

/// Decompose a torus value into `levels` balanced digits in base
/// 2^base_log. The digits recompose, modulo 2^64, to the closest
/// representable rounding of the input.
pub fn decompose_value(v: u64, base_log: usize, levels: usize) -> (digits: Vec<u64>)
    requires
        1 <= base_log,
        1 <= levels,
        levels * base_log < 64,
    ensures
        digits@.len() == levels,
        forall|t: int| 0 <= t < levels ==> digit_balanced(#[trigger] digits@[t], base_log as nat),
        wrap(recomp_prefix(digits@, base_log as nat, levels as nat)) == closest_rep(
            v,
            base_log as nat,
            levels as nat,
        ),
        forall|t: int|
            0 <= t < levels ==> digits@[t] == decomp_digit_at(
                v,
                base_log as nat,
                levels as nat,
                t as nat,
            ),
{
    let ghost bl = base_log as nat;
    proof {
        assert(base_log <= levels * base_log && 1 <= levels * base_log) by (nonlinear_arith)
            requires
                1 <= levels,
                1 <= base_log,
        ;
    }
    let cr = closest_representable(v, base_log, levels);
    let gap = 64 - levels * base_log;
    let pgap = pow2_u64(gap);
    let b = pow2_u64(base_log);
    let halfb = pow2_u64(base_log - 1);
    proof {
        lemma_pow2_adds((base_log - 1) as nat, 1);
        lemma2_to64();
        assert(b == 2 * halfb);
    }
    let mut state = cr / pgap;
    let mut digits: Vec<u64> = Vec::new();
    digits.resize(levels, 0u64);
    let mut lvl = levels;
    proof {
        // cr is a multiple of 2^gap, so dividing and re-multiplying is exact.
        assert(cr % pgap == 0) by {
            let shift = (63 - levels * base_log) as nat;
            let rounded = (v as int / pow2(shift) as int + 1) - (v as int / pow2(shift) as int
                + 1) % 2;
            assert(rounded % 2 == 0) by {
                let hh = v as int / pow2(shift) as int + 1;
                lemma_fundamental_div_mod(hh, 2);
                assert(rounded == 2 * (hh / 2));
                lemma_mod_multiples_basic(hh / 2, 2);
                lemma_mul_is_commutative(2, hh / 2);
            }
            let hr = rounded / 2;
            assert(rounded == 2 * hr) by {
                lemma_fundamental_div_mod(rounded, 2);
            }
            assert(rounded * pow2(shift) as int == hr * (pgap as int)) by {
                lemma_pow2_adds(shift, 1);
                assert(pow2(shift + 1) == pow2(shift) * 2);
                assert(gap == shift + 1);
                assert((2 * hr) * pow2(shift) as int == hr * (2 * pow2(shift) as int))
                    by (nonlinear_arith);
            }
            assert(torus_modulus() == pgap as int * pow2((64 - gap) as nat) as int) by {
                lemma_pow2_adds(gap as nat, (64 - gap) as nat);
            }
            assert((hr * pgap as int) % (pgap as int * pow2((64 - gap) as nat) as int) % (
            pgap as int) == (hr * pgap as int) % (pgap as int)) by {
                lemma_pow2_pos((64 - gap) as nat);
                lemma_mod_mod(hr * pgap as int, pgap as int, pow2((64 - gap) as nat) as int);
            }
            assert((hr * pgap as int) % (pgap as int) == 0) by {
                lemma_mod_multiples_basic(hr, pgap as int);
                lemma_mul_is_commutative(hr, pgap as int);
            }
        }
        assert(cr as int == (state as int) * (pgap as int)) by {
            lemma_fundamental_div_mod(cr as int, pgap as int);
        }
        assert(base_log < 64 && pow2(base_log as nat) < pow2(64) && pow2(
            (base_log - 1) as nat,
        ) < pow2(64)) by {
            lemma_pow2_strictly_increases(base_log as nat, 64);
            lemma_pow2_strictly_increases((base_log - 1) as nat, 64);
        }
        lemma2_to64_rest();
        assert(state == decomp_state(v, bl, levels as nat, 0));
        assert(wrap(recomp_prefix(digits@, bl, levels as nat) + (state as int) * (pow2(
            (64 - lvl * base_log) as nat,
        ) as int)) == cr) by {
            lemma_recomp_zero(digits@, bl, levels as nat);
            lemma_wrap_id(cr);
        }
    }
    while lvl > 0
        invariant
            digits@.len() == levels,
            1 <= base_log,
            1 <= levels,
            levels * base_log < 64,
            bl == base_log as nat,
            lvl <= levels,
            b == pow2(base_log as nat),
            halfb == pow2((base_log - 1) as nat),
            b == 2 * halfb,
            1 <= halfb,
            2 <= b,
            wrap(recomp_prefix(digits@, bl, levels as nat) + (state as int) * (pow2(
                (64 - lvl * base_log) as nat,
            ) as int)) == cr,
            state == decomp_state(v, bl, levels as nat, (levels - lvl) as nat),
            forall|t: int| 0 <= t < lvl ==> digits@[t] == 0,
            forall|t: int| lvl <= t < levels ==> digit_balanced(#[trigger] digits@[t], bl),
            forall|t: int|
                lvl <= t < levels ==> digits@[t] == decomp_digit_at(v, bl, levels as nat, t as nat),
        decreases lvl,
    {
        let ghost digits_pre = digits@;
        let ghost state_pre = state;
        proof {
            lemma_mul_inequality(lvl as int, levels as int, base_log as int);
        }
        let ghost scale = pow2((64 - lvl * base_log) as nat) as int;
        let res = state % b;
        state = state / b;
        proof {
            lemma_div_is_ordered_by_denominator(state_pre as int, 2, b as int);
        }
        let carry: u64 = if res > halfb {
            1
        } else if res == halfb {
            (state / halfb) % 2
        } else {
            0
        };
        let ghost state1 = state;
        state = state + carry;
        let cb = carry * b;
        let digit = res.wrapping_sub(cb);
        proof {
            lemma_wrapping_sub(res, cb);
            assert(carry == 0 || carry == 1);
            assert(res < b) by {
                lemma_mod_bound(state_pre as int, b as int);
            }
        }
        digits[lvl - 1] = digit;
        lvl = lvl - 1;
        proof {
            let sum_pre = recomp_prefix(digits_pre, bl, levels as nat);
            let sum_post = recomp_prefix(digits@, bl, levels as nat);
            let scale_next = pow2((64 - lvl * base_log) as nat) as int;
            let q = torus_modulus();
            // The new digit lands at level lvl+1 (index lvl); it was zero.
            lemma_recomp_update(digits_pre, bl, levels as nat, lvl as int, digit);
            assert(digits_pre[lvl as int] == 0);
            assert(decomp_scale(bl, (lvl + 1) as nat) == scale);
            assert(sum_post == sum_pre + (digit as int) * scale);
            // digit == res - carry*b, up to one modulus.
            let c: int = if carry == 1 { 1int } else { 0int };
            assert(digit as int == res - carry * b + c * q) by {
                if carry == 0 {
                    lemma_wrap_id(res);
                } else {
                    lemma_wrap_multiple(res - b, 1);
                    assert(0 <= res - b + q < q);
                    lemma_wrap_id((res - b + q) as u64);
                }
            }
            // scale_next == b * scale.
            assert(scale_next == b * scale) by {
                assert((lvl + 1) * base_log == lvl * base_log + base_log) by (nonlinear_arith);
                lemma_mul_inequality(lvl as int + 1, levels as int, base_log as int);
                assert(64 - lvl * base_log == (64 - (lvl + 1) * base_log) + base_log);
                lemma_pow2_adds((64 - (lvl + 1) * base_log) as nat, base_log as nat);
                lemma_mul_is_commutative(
                    pow2((64 - (lvl + 1) * base_log) as nat) as int,
                    b as int,
                );
            }
            // state_pre == state1 * b + res.
            assert(state_pre as int == b * (state_pre as int / b as int) + res) by {
                lemma_fundamental_div_mod(state_pre as int, b as int);
            }
            assert(sum_post + ((state1 + carry) as int) * scale_next == sum_pre + (
            state_pre as int) * scale + (c * scale) * q) by (nonlinear_arith)
                requires
                    sum_post == sum_pre + (digit as int) * scale,
                    digit as int == res - carry * b + c * q,
                    scale_next == b * scale,
                    state_pre as int == b * state1 + res,
            ;
            lemma_wrap_multiple(sum_pre + (state_pre as int) * scale, c * scale);
            assert(wrap(sum_post + (state as int) * scale_next) == cr);
            // Balance of the emitted digit.
            assert(digit_balanced(digit, bl)) by {
                if carry == 0 {
                    assert(digit == res);
                    assert(res <= halfb);
                } else {
                    assert(res >= halfb);
                    assert(digit as int == res - b + q);
                    assert(digit as int >= q - halfb);
                }
            }
            assert forall|t: int| lvl <= t < levels implies digit_balanced(
                #[trigger] digits@[t],
                bl,
            ) by {
                if t == lvl {
                    assert(digits@[t] == digit);
                } else {
                    assert(digits@[t] == digits_pre[t]);
                }
            }
            // Exact correspondence with the specification-level recurrence.
            assert(pow2(bl) < pow2(64) && pow2((bl - 1) as nat) < pow2(64)) by {
                assert(bl < 64) by {
                    lemma_mul_inequality(1, levels as int, bl as int);
                }
                lemma_pow2_strictly_increases(bl, 64);
                lemma_pow2_strictly_increases((bl - 1) as nat, 64);
            }
            lemma2_to64_rest();
            let steps_new = (levels - lvl) as nat;
            assert(decomp_state(v, bl, levels as nat, (steps_new - 1) as nat) == state_pre);
            assert(res as int == (state_pre as int) % (b as int));
            assert(state1 as int == (state_pre as int) / (b as int));
            assert(decomp_carry(res, state1, bl) == carry);
            assert(state == decomp_state(v, bl, levels as nat, steps_new));
            assert(digit == decomp_digit_at(v, bl, levels as nat, lvl as nat)) by {
                assert((levels - lvl - 1) as nat == (steps_new - 1) as nat);
                assert(cb as int == (carry as int) * (b as int));
            }
            assert forall|t: int| lvl <= t < levels implies digits@[t] == decomp_digit_at(
                v,
                bl,
                levels as nat,
                t as nat,
            ) by {
                if t == lvl {
                    assert(digits@[t] == digit);
                } else {
                    assert(digits@[t] == digits_pre[t]);
                }
            }
        }
    }
    proof {
        assert(pow2((64 - 0 * base_log) as nat) == pow2(64));
        assert(pow2(64) == torus_modulus()) by {
            lemma2_to64_rest();
        }
        lemma_wrap_multiple(recomp_prefix(digits@, bl, levels as nat), state as int);
    }
    digits
}

} // verus!
