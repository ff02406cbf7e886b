//! Negacyclic polynomial arithmetic over Z[X]/(X^N + 1) with coefficients
//! in the discretized torus (u64, wrapping mod 2^64).
//!
//! A polynomial is a `Vec<u64>` of its N coefficients, low degree first.
use vstd::prelude::*;
use vstd::arithmetic::power2::*;
use vstd::arithmetic::div_mod::*;
use vstd::arithmetic::mul::*;
use crate::wrap;
use crate::arith::lemma_wrapping_add;
use crate::arith::lemma_wrapping_sub;
use crate::arith::lemma_wrapping_neg;

verus! {

/// Coefficient-wise wrapping sum of two polynomials.
pub open spec fn padd(a: Seq<u64>, b: Seq<u64>) -> Seq<u64> {
    Seq::new(a.len(), |j: int| wrap(a[j] + b[j]))
}

/// Coefficient-wise wrapping difference of two polynomials.
pub open spec fn psub(a: Seq<u64>, b: Seq<u64>) -> Seq<u64> {
    Seq::new(a.len(), |j: int| wrap(a[j] - b[j]))
}

/// Coefficient-wise wrapping negation of a polynomial.
pub open spec fn pneg(a: Seq<u64>) -> Seq<u64> {
    Seq::new(a.len(), |j: int| wrap(-(a[j] as int)))
}

/// The all-zero polynomial predicate.
pub open spec fn is_zero_poly(a: Seq<u64>) -> bool {
    forall|j: int| 0 <= j < a.len() ==> a[j] == 0
}

/// Product of a polynomial with the monic monomial X^d, reduced mod X^N + 1.
///
/// Coefficient j of the result is taken from coefficient (j - d) mod 2N of
/// the input, negated when that position falls in the upper half of the 2N
/// cycle (X^N == -1).
pub open spec fn monomial_mul(a: Seq<u64>, d: nat) -> Seq<u64> {
    let n = a.len() as int;
    Seq::new(a.len(), |j: int| {
        let i0 = (j + 2 * n - (d % (2 * n) as nat)) % (2 * n);
        if i0 < n {
            a[i0]
        } else {
            wrap(-(a[i0 - n] as int))
        }
    })
}

/// Division by the monic monomial X^d: multiplication by X^(2N - d mod 2N).
pub open spec fn monomial_div(a: Seq<u64>, d: nat) -> Seq<u64> {
    let n2 = (2 * a.len()) as int;
    monomial_mul(a, (((n2 - (d as int) % n2)) % n2) as nat)
}

/// The ring automorphism X |-> X^k applied to a polynomial (k odd):
/// coefficient i moves to position (i*k) mod N, negated when
/// floor(i*k / N) is odd.
pub open spec fn auto_image_coeff(a: Seq<u64>, k: nat, i: int) -> u64 {
    if ((i * k) / (a.len() as int)) % 2 == 0 {
        a[i]
    } else {
        wrap(-(a[i] as int))
    }
}

/// Executable wrapping negation of one torus element.
pub fn torus_neg(x: u64) -> (r: u64)
    ensures
        r == wrap(-(x as int)),
{
    proof {
        lemma_wrapping_neg(x);
    }
    0u64.wrapping_sub(x)
}

/// In-place coefficient-wise wrapping addition.
pub fn polynomial_wrapping_add_assign(lhs: &mut Vec<u64>, rhs: &Vec<u64>)
    requires
        old(lhs)@.len() == rhs@.len(),
    ensures
        final(lhs)@ == padd(old(lhs)@, rhs@),
{
    let n = lhs.len();
    let mut j: usize = 0;
    while j < n
        invariant
            lhs@.len() == n,
            rhs@.len() == n,
            j <= n,
            forall|i: int| 0 <= i < j ==> lhs@[i] == wrap(old(lhs)@[i] + rhs@[i]),
            forall|i: int| j <= i < n ==> lhs@[i] == old(lhs)@[i],
        decreases n - j,
    {
        proof {
            lemma_wrapping_add(lhs@[j as int], rhs@[j as int]);
        }
        let v = lhs[j].wrapping_add(rhs[j]);
        lhs[j] = v;
        j = j + 1;
    }
    assert(lhs@ =~= padd(old(lhs)@, rhs@));
}

/// In-place coefficient-wise wrapping subtraction.
pub fn polynomial_wrapping_sub_assign(lhs: &mut Vec<u64>, rhs: &Vec<u64>)
    requires
        old(lhs)@.len() == rhs@.len(),
    ensures
        final(lhs)@ == psub(old(lhs)@, rhs@),
{
    let n = lhs.len();
    let mut j: usize = 0;
    while j < n
        invariant
            lhs@.len() == n,
            rhs@.len() == n,
            j <= n,
            forall|i: int| 0 <= i < j ==> lhs@[i] == wrap(old(lhs)@[i] - rhs@[i]),
            forall|i: int| j <= i < n ==> lhs@[i] == old(lhs)@[i],
        decreases n - j,
    {
        proof {
            lemma_wrapping_sub(lhs@[j as int], rhs@[j as int]);
        }
        let v = lhs[j].wrapping_sub(rhs[j]);
        lhs[j] = v;
        j = j + 1;
    }
    assert(lhs@ =~= psub(old(lhs)@, rhs@));
}

/// Multiply a polynomial by the monic monomial X^degree (mod X^N + 1),
/// returning a fresh polynomial.
pub fn polynomial_monic_monomial_mul(input: &Vec<u64>, degree: usize) -> (out: Vec<u64>)
    requires
        input@.len() >= 1,
        input@.len() <= 0x1000_0000,
    ensures
        out@ == monomial_mul(input@, degree as nat),
{
    let n = input.len();
    let dd = degree % (2 * n);
    let mut out: Vec<u64> = Vec::new();
    let mut j: usize = 0;
    while j < n
        invariant
            input@.len() == n,
            1 <= n <= 0x1000_0000,
            dd as int == (degree as int) % (2 * n as int),
            j <= n,
            out@.len() == j,
            forall|i: int| 0 <= i < j ==> out@[i] == monomial_mul(input@, degree as nat)[i],
        decreases n - j,
    {
        let i0 = (j + 2 * n - dd) % (2 * n);
        if i0 < n {
            out.push(input[i0]);
        } else {
            out.push(torus_neg(input[i0 - n]));
        }
        j = j + 1;
    }
    assert(out@ =~= monomial_mul(input@, degree as nat));
    out
}

/// In-place multiplication by the monic monomial X^degree.
pub fn polynomial_wrapping_monic_monomial_mul_assign(poly: &mut Vec<u64>, degree: usize)
    requires
        old(poly)@.len() >= 1,
        old(poly)@.len() <= 0x1000_0000,
    ensures
        final(poly)@ == monomial_mul(old(poly)@, degree as nat),
{
    let buf = polynomial_monic_monomial_mul(poly, degree);
    *poly = buf;
}

/// In-place division by the monic monomial X^degree.
pub fn polynomial_wrapping_monic_monomial_div_assign(poly: &mut Vec<u64>, degree: usize)
    requires
        old(poly)@.len() >= 1,
        old(poly)@.len() <= 0x1000_0000,
    ensures
        final(poly)@ == monomial_div(old(poly)@, degree as nat),
{
    let n = poly.len();
    let inv = (2 * n - degree % (2 * n)) % (2 * n);
    let buf = polynomial_monic_monomial_mul(poly, inv);
    *poly = buf;
}

/// output = input * X^degree - input, all mod X^N + 1 and mod 2^64.
pub fn polynomial_wrapping_monic_monomial_mul_and_subtract(
    output: &mut Vec<u64>,
    input: &Vec<u64>,
    degree: usize,
)
    requires
        old(output)@.len() == input@.len(),
        input@.len() >= 1,
        input@.len() <= 0x1000_0000,
    ensures
        final(output)@ == psub(monomial_mul(input@, degree as nat), input@),
{
    let mut buf = polynomial_monic_monomial_mul(input, degree);
    polynomial_wrapping_sub_assign(&mut buf, input);
    *output = buf;
}

/// If 2^e divides d * k for odd k, then 2^e divides d.
proof fn lemma_pow2_divides_odd_mul(e: nat, k: nat, d: nat)
    requires
        k % 2 == 1,
        (d * k) % pow2(e) == 0,
    ensures
        d % pow2(e) == 0,
    decreases e,
{
    if e == 0 {
        assert(pow2(0) == 1) by {
            lemma2_to64();
        }
        assert(d % 1nat == 0) by {
            lemma_mod_multiples_basic(d as int, 1int);
        }
    } else {
        lemma_pow2_unfold(e);
        lemma_pow2_pos((e - 1) as nat);
        let p = pow2((e - 1) as nat) as int;
        let dk = (d * k) as int;
        assert(pow2(e) == 2 * p);
        // d must be even: an odd times an odd is odd.
        assert(d % 2 == 0) by {
            if d % 2 == 1 {
                let a = d / 2;
                let b = k / 2;
                lemma_fundamental_div_mod(d as int, 2);
                lemma_fundamental_div_mod(k as int, 2);
                assert((d * k) as int == 2 * (2 * (a * b) + a + b) + 1) by (nonlinear_arith)
                    requires
                        d == 2 * a + 1,
                        k == 2 * b + 1,
                ;
                assert((d * k) % 2 == 1) by {
                    lemma_mod_multiples_vanish((2 * (a * b) + a + b) as int, 1, 2);
                    lemma_small_mod(1nat, 2nat);
                }
                assert(dk % (2 * p) == 0);
                assert(dk % 2 == 0) by {
                    lemma_mod_mod(dk, 2, p);
                }
            }
        }
        let dh = d / 2;
        assert(d == 2 * dh) by {
            lemma_fundamental_div_mod(d as int, 2);
        }
        // (2*dh) * k == 2 * (dh * k), so dividing the congruence by 2 gives
        // dh * k == 0 mod 2^(e-1).
        assert((dh * k) % pow2((e - 1) as nat) == 0) by {
            assert(dk == 2 * ((dh * k) as int)) by (nonlinear_arith)
                requires
                    d == 2 * dh,
                    dk == (d * k) as int,
            ;
            assert((2 * ((dh * k) as int)) % (2 * p) == 0);
            lemma_truncate_middle((dh * k) as int, 2, p);
        }
        lemma_pow2_divides_odd_mul((e - 1) as nat, k, dh);
        assert(dh % pow2((e - 1) as nat) == 0);
        lemma_fundamental_div_mod(dh as int, p);
        let qd = dh as int / p;
        assert(dh as int == p * qd);
        assert(d as int == (2 * p) * qd) by (nonlinear_arith)
            requires
                d == 2 * dh,
                dh as int == p * qd,
        ;
        assert((d as int) % (2 * p) == 0) by {
            lemma_mod_multiples_basic(qd, 2 * p);
            lemma_mul_is_commutative(2 * p, qd);
        }
    }
}

/// For N a power of two and k odd, i |-> (i*k) mod N is injective on [0, N).
pub proof fn lemma_odd_stride_injective(n: nat, k: nat, i1: nat, i2: nat)
    requires
        k % 2 == 1,
        n >= 1,
        exists|e: nat| n == pow2(e),
        i1 < n,
        i2 < n,
        (i1 * k) % n == (i2 * k) % n,
    ensures
        i1 == i2,
{
    let e = choose|e: nat| n == pow2(e);
    if i1 != i2 {
        let (lo, hi): (nat, nat) = if i1 < i2 { (i1, i2) } else { (i2, i1) };
        let d = (hi - lo) as nat;
        assert(0 < d < n);
        assert((d * k) % n == 0) by {
            let ni = n as int;
            assert((hi * k) as int == (lo * k) as int + (d * k) as int) by (nonlinear_arith)
                requires
                    d == hi - lo,
            ;
            assert(((hi * k) as int - (lo * k) as int) % ni == 0) by {
                lemma_sub_mod_noop((hi * k) as int, (lo * k) as int, ni);
                assert(((lo * k) as int) % ni == ((hi * k) as int) % ni);
                lemma_mod_self_0(ni);
            }
        }
        lemma_pow2_divides_odd_mul(e, k, d);
        lemma_small_mod(d, n);
        assert(false);
    }
}

/// Position j of an N-coefficient polynomial is hit by the substitution
/// X |-> X^k, that is, j == (i*k) mod N for some source index i.
pub open spec fn image_index(n: nat, k: nat, j: int) -> bool {
    exists|i: int| 0 <= i < n && j == #[trigger] ((i * k) % (n as int))
}

/// out is the image of a under the ring automorphism X |-> X^k: source
/// coefficient i lands at (i*k) mod N with the negacyclic sign, and
/// positions no source index maps to are zero.
pub open spec fn auto_image_rel(a: Seq<u64>, k: nat, out: Seq<u64>) -> bool {
    &&& out.len() == a.len()
    &&& forall|i: int|
        0 <= i < a.len() ==> #[trigger] out[(i * k) % (a.len() as int)] == auto_image_coeff(
            a,
            k,
            i,
        )
    &&& forall|j: int| 0 <= j < a.len() && !image_index(a.len() as nat, k, j) ==> out[j] == 0
}

/// The image of a constant polynomial is the same constant polynomial.
pub proof fn lemma_auto_image_constant(a: Seq<u64>, k: nat, out: Seq<u64>)
    requires
        auto_image_rel(a, k, out),
        a.len() >= 1,
        forall|j: int| 1 <= j < a.len() ==> a[j] == 0,
    ensures
        out[0] == a[0],
        forall|j: int| 1 <= j < a.len() ==> out[j] == 0,
{
    let n = a.len() as int;
    assert(out[(0int * k) % n] == auto_image_coeff(a, k, 0));
    assert((0int * k) % n == 0) by {
        lemma_small_mod(0nat, a.len());
    }
    assert((0int * k) / n == 0) by {
        lemma_div_of0(n);
    }
    assert(out[0] == a[0]);
    assert forall|j: int| 1 <= j < a.len() implies out[j] == 0 by {
        if image_index(a.len(), k, j) {
            let i = choose|i: int| 0 <= i < a.len() && j == #[trigger] ((i * k) % n);
            assert(out[(i * k) % n] == auto_image_coeff(a, k, i));
            if i == 0 {
                assert((i * k) % n == 0) by {
                    lemma_small_mod(0nat, a.len());
                }
            } else {
                assert(a[i] == 0);
                assert(auto_image_coeff(a, k, i) == 0 || auto_image_coeff(a, k, i) == wrap(
                    -(0u64 as int),
                ));
                assert(wrap(0int) == 0) by {
                    crate::arith::lemma_wrap_id(0u64);
                }
            }
        }
    }
}

/// The image of an all-zero polynomial is all-zero.
pub proof fn lemma_auto_image_zero(a: Seq<u64>, k: nat, out: Seq<u64>)
    requires
        auto_image_rel(a, k, out),
        is_zero_poly(a),
    ensures
        is_zero_poly(out),
{
    let n = a.len() as int;
    assert forall|j: int| 0 <= j < out.len() implies out[j] == 0 by {
        if image_index(a.len(), k, j) {
            let i = choose|i: int| 0 <= i < a.len() && j == #[trigger] ((i * k) % n);
            assert(out[(i * k) % n] == auto_image_coeff(a, k, i));
            assert(a[i] == 0);
            assert(wrap(0int) == 0) by {
                crate::arith::lemma_wrap_id(0u64);
            }
        }
    }
}


/// The image of a polynomial under X |-> X^k, as a function: the unique
/// sequence satisfying `auto_image_rel` (for odd k over a power-of-two
/// ring). Positions hit by the substitution carry the signed source
/// coefficient; the rest are zero.
pub open spec fn auto_image_fn(a: Seq<u64>, k: nat) -> Seq<u64> {
    Seq::new(a.len(), |j: int| auto_image_at(a, k, j))
}

/// Coefficient j of the image of a under X |-> X^k.
pub open spec fn auto_image_at(a: Seq<u64>, k: nat, j: int) -> u64 {
    if image_index(a.len(), k, j) {
        auto_image_coeff(
            a,
            k,
            choose|i: int| 0 <= i < a.len() && j == #[trigger] ((i * k) % (a.len() as int)),
        )
    } else {
        0u64
    }
}

/// Any sequence satisfying the image relation equals the image function:
/// the relation pins the image uniquely.
pub proof fn lemma_auto_image_rel_is_fn(a: Seq<u64>, k: nat, o: Seq<u64>)
    requires
        auto_image_rel(a, k, o),
        k % 2 == 1,
        a.len() >= 1,
        exists|e: nat| a.len() == pow2(e),
    ensures
        o == auto_image_fn(a, k),
{
    let n = a.len() as int;
    assert forall|j: int| 0 <= j < a.len() implies o[j] == auto_image_fn(a, k)[j] by {
        if image_index(a.len(), k, j) {
            let i = choose|i: int| 0 <= i < a.len() && j == #[trigger] ((i * k) % n);
            assert(o[(i * k) % n] == auto_image_coeff(a, k, i));
            assert(auto_image_at(a, k, j) == auto_image_coeff(a, k, i));
        }
    }
    assert(o =~= auto_image_fn(a, k));
}

/// Substitute X^k for X in a polynomial (k odd, N a power of two):
/// coefficient i of the input lands at position (i*k) mod N, with a sign
/// flip whenever floor(i*k / N) is odd.
pub fn eval_x_k(poly: &Vec<u64>, k: usize) -> (out: Vec<u64>)
    requires
        k % 2 == 1,
        poly@.len() >= 1,
        poly@.len() <= 0x1000_0000,
        k <= 0x2000_0000,
        exists|e: nat| poly@.len() == pow2(e),
    ensures
        auto_image_rel(poly@, k as nat, out@),
        out@ == auto_image_fn(poly@, k as nat),
{
    let n = poly.len();
    let mut out: Vec<u64> = Vec::new();
    out.resize(n, 0u64);
    let mut i: usize = 0;
    while i < n
        invariant
            poly@.len() == n,
            1 <= n <= 0x1000_0000,
            k <= 0x2000_0000,
            k % 2 == 1,
            exists|e: nat| n == pow2(e),
            i <= n,
            out@.len() == n,
            forall|t: int|
                0 <= t < i ==> #[trigger] out@[(t * k) % (n as int)] == auto_image_coeff(
                    poly@,
                    k as nat,
                    t,
                ),
            forall|j: int|
                0 <= j < n && !(exists|t: int| 0 <= t < i && j == #[trigger] ((t * k) % (
                n as int))) ==> out@[j] == 0,
        decreases n - i,
    {
        proof {
            lemma_mul_upper_bound(i as int, 0x1000_0000int, k as int, 0x2000_0000int);
        }
        let prod: u64 = (i as u64) * (k as u64);
        let j = (prod % (n as u64)) as usize;
        let half = (prod / (n as u64)) % 2;
        proof {
            assert(prod == i * k);
            assert(j == (i * k) % (n as int));
            lemma_mod_bound(prod as int, n as int);
        }
        let v = if half == 0 {
            poly[i]
        } else {
            torus_neg(poly[i])
        };
        proof {
            lemma_mod_bound((i * k) as int, n as int);
            // Writing position (i*k) % n cannot disturb any earlier image
            // position: the map is injective.
            assert forall|t: int| 0 <= t < i implies #[trigger] ((t * k) % (n as int)) != (
            j as int) by {
                if (t * k) % (n as int) == (j as int) {
                    lemma_odd_stride_injective(n as nat, k as nat, t as nat, i as nat);
                }
            }
        }
        out[j] = v;
        i = i + 1;
    }
    proof {
        assert forall|j: int|
            0 <= j < n && !image_index(n as nat, k as nat, j) implies out@[j] == 0 by {
            assert(!(exists|t: int| 0 <= t < n && j == #[trigger] ((t * k) % (n as int))));
        }
        lemma_auto_image_rel_is_fn(poly@, k as nat, out@);
    }
    out
}

} // verus!
