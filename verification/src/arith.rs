//! Wrapping (mod 2^64) arithmetic: the bridge between the executable
//! `u64` operations and the mathematical model in terms of `wrap`.
use vstd::prelude::*;
use vstd::arithmetic::power2::*;
use vstd::arithmetic::div_mod::*;
use vstd::arithmetic::mul::*;
use vstd::bits::*;
use crate::wrap;
use crate::torus_modulus;

verus! {

/// `wrap` of a value already in range is the value itself.
pub proof fn lemma_wrap_id(x: u64)
    ensures
        wrap(x as int) == x,
{
    lemma_small_mod(x as nat, torus_modulus() as nat);
}

/// Adding a multiple of the modulus does not change the wrapped value.
pub proof fn lemma_wrap_multiple(x: int, k: int)
    ensures
        wrap(x + k * torus_modulus()) == wrap(x),
{
    lemma_mod_multiples_vanish(k, x, torus_modulus());
}

/// `wrap` absorbs `wrap` on the left argument of an addition.
pub proof fn lemma_wrap_add_absorb(x: int, y: int)
    ensures
        wrap(wrap(x) + y) == wrap(x + y),
{
    let q = torus_modulus();
    lemma_mod_bound(x, q);
    lemma_fundamental_div_mod(x, q);
    assert(wrap(x) == x - q * (x / q));
    lemma_wrap_multiple(wrap(x) + y, x / q);
    assert(wrap(x) + y + (x / q) * q == x + y) by {
        lemma_mul_is_commutative(x / q, q);
    }
}

/// `wrap` absorbs `wrap` under negation in a subtraction.
pub proof fn lemma_wrap_sub_absorb(x: int, y: int)
    ensures
        wrap(x - wrap(y)) == wrap(x - y),
{
    let q = torus_modulus();
    lemma_mod_bound(y, q);
    lemma_fundamental_div_mod(y, q);
    assert(wrap(y) == y - q * (y / q));
    lemma_wrap_multiple(x - wrap(y), -(y / q));
    assert(x - wrap(y) + (-(y / q)) * q == x - y) by {
        lemma_mul_is_commutative(y / q, q);
        lemma_mul_unary_negation(y / q, q);
    }
}

/// `wrap` absorbs `wrap` in either factor of a multiplication.
pub proof fn lemma_wrap_mul_absorb(x: int, y: int)
    ensures
        wrap(wrap(x) * y) == wrap(x * y),
{
    let q = torus_modulus();
    lemma_mul_mod_noop_left(x, y, q);
    assert(wrap(x) * y == (x % q) * y);
}

/// The executable wrapping addition computes `wrap` of the exact sum.
pub proof fn lemma_wrapping_add(a: u64, b: u64)
    ensures
        vstd::wrapping::u64_specs::wrapping_add(a, b) == wrap(a + b),
{
    let q = torus_modulus();
    if a + b > u64::MAX {
        lemma_mod_multiples_vanish(1, a + b - q, q);
        lemma_small_mod((a + b - q) as nat, q as nat);
    } else {
        lemma_small_mod((a + b) as nat, q as nat);
    }
}

/// The executable wrapping subtraction computes `wrap` of the exact difference.
pub proof fn lemma_wrapping_sub(a: u64, b: u64)
    ensures
        vstd::wrapping::u64_specs::wrapping_sub(a, b) == wrap(a - b),
{
    let q = torus_modulus();
    if a - b < 0 {
        lemma_mod_multiples_vanish(1, a - b, q);
        lemma_small_mod((a - b + q) as nat, q as nat);
    } else {
        lemma_small_mod((a - b) as nat, q as nat);
    }
}

/// The executable wrapping multiplication computes `wrap` of the exact product.
pub proof fn lemma_wrapping_mul(a: u64, b: u64)
    ensures
        vstd::wrapping::u64_specs::wrapping_mul(a, b) == wrap(a * b),
{
    let q = torus_modulus();
    assert(vstd::wrapping::u64_specs::wrapping_mul(a, b)
        == ((a as nat * b as nat) % (q as nat)) as u64);
    lemma_mod_bound(a * b, q);
}

/// Wrapping negation: `0 - x` mod 2^64.
pub proof fn lemma_wrapping_neg(x: u64)
    ensures
        vstd::wrapping::u64_specs::wrapping_sub(0u64, x) == wrap(-(x as int)),
{
    lemma_wrapping_sub(0u64, x);
}

/// 2^e as an executable `u64`.
pub fn pow2_u64(e: usize) -> (r: u64)
    requires
        e < 64,
    ensures
        r == pow2(e as nat),
        r >= 1,
{
    proof {
        lemma_u64_pow2_no_overflow(e as nat);
        lemma_u64_shl_is_mul(1u64, e as u64);
        lemma_pow2_pos(e as nat);
    }
    1u64 << (e as u64)
}

/// Base-two logarithm of a power of two.
pub fn log2_exact(n: usize) -> (r: usize)
    requires
        n >= 1,
        exists|e: nat| e < 64 && n == pow2(e),
    ensures
        r < 64,
        n == pow2(r as nat),
{
    let mut r: usize = 0;
    let mut m: usize = n;
    let ghost e0 = choose|e: nat| e < 64 && n == pow2(e);
    proof {
        lemma_pow2_pos(e0);
        lemma2_to64();
    }
    while m > 1
        invariant
            m >= 1,
            r <= e0,
            e0 < 64,
            n == m * pow2(r as nat),
            m == pow2((e0 - r) as nat),
        decreases m,
    {
        proof {
            assert(e0 - r > 0) by {
                if e0 == r {
                    assert(pow2(0) == 1) by {
                        lemma2_to64();
                    }
                }
            }
            lemma_pow2_unfold((e0 - r) as nat);
            assert(m == 2 * pow2((e0 - r - 1) as nat));
            lemma_pow2_adds(r as nat, 1);
            lemma2_to64();
            assert(pow2((r + 1) as nat) == pow2(r as nat) * 2);
            lemma_pow2_pos((e0 - r - 1) as nat);
            assert((m / 2) * pow2((r + 1) as nat) == n) by {
                assert(m / 2 == pow2((e0 - r - 1) as nat));
                assert(m == (m / 2) * 2);
                lemma_mul_is_associative((m / 2) as int, 2, pow2(r as nat) as int);
            }
        }
        m = m / 2;
        r = r + 1;
    }
    proof {
        assert(m == 1);
        lemma2_to64();
        if e0 - r > 0 {
            lemma_pow2_strictly_increases(0, (e0 - r) as nat);
        }
        assert(r == e0);
    }
    r
}

} // verus!
