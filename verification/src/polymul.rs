//! Exact negacyclic polynomial multiplication over Z[X]/(X^N + 1).
//!
//! The product is specified coefficient by coefficient as a mathematical
//! sum of signed integer terms, then reduced mod 2^64; the executable
//! schoolbook product is proved equal to that specification.
use vstd::prelude::*;
use crate::wrap;
use crate::arith::lemma_wrapping_add;
use crate::arith::lemma_wrapping_sub;
use crate::arith::lemma_wrapping_mul;
use crate::arith::lemma_wrap_add_absorb;
use crate::arith::lemma_wrap_sub_absorb;
use crate::poly::is_zero_poly;

verus! {

/// The signed contribution of input index i to output coefficient j of the
/// negacyclic product a * b: a_i * b_(j-i) when i <= j, and -(a_i * b_(N+j-i))
/// when i > j (the wrap past X^N picks up a sign).
pub open spec fn negacyclic_term(a: Seq<u64>, b: Seq<u64>, j: int, i: int) -> int {
    if i <= j {
        (a[i] as int) * (b[j - i] as int)
    } else {
        -((a[i] as int) * (b[a.len() + j - i] as int))
    }
}

/// Partial sum of the first k terms of output coefficient j.
pub open spec fn pm_prefix(a: Seq<u64>, b: Seq<u64>, j: int, k: nat) -> int
    decreases k,
{
    if k == 0 {
        0
    } else {
        pm_prefix(a, b, j, (k - 1) as nat) + negacyclic_term(a, b, j, k - 1)
    }
}

/// Output coefficient j of the negacyclic product, as an exact integer.
pub open spec fn poly_mul_coeff(a: Seq<u64>, b: Seq<u64>, j: int) -> int {
    pm_prefix(a, b, j, a.len())
}

/// The negacyclic product a * b reduced into the torus.
pub open spec fn poly_mul(a: Seq<u64>, b: Seq<u64>) -> Seq<u64> {
    Seq::new(a.len(), |j: int| wrap(poly_mul_coeff(a, b, j)))
}

/// The polynomial obtained by adding the negacyclic product a * b onto acc.
pub open spec fn padd_mul(acc: Seq<u64>, a: Seq<u64>, b: Seq<u64>) -> Seq<u64> {
    Seq::new(acc.len(), |j: int| wrap(acc[j] + poly_mul_coeff(a, b, j)))
}

/// The polynomial obtained by subtracting the negacyclic product a * b from acc.
pub open spec fn psub_mul(acc: Seq<u64>, a: Seq<u64>, b: Seq<u64>) -> Seq<u64> {
    Seq::new(acc.len(), |j: int| wrap(acc[j] - poly_mul_coeff(a, b, j)))
}

/// A product with an all-zero left factor contributes nothing.
pub proof fn lemma_pm_prefix_zero_left(a: Seq<u64>, b: Seq<u64>, j: int, k: nat)
    requires
        is_zero_poly(a),
        k <= a.len(),
    ensures
        pm_prefix(a, b, j, k) == 0,
    decreases k,
{
    if k > 0 {
        lemma_pm_prefix_zero_left(a, b, j, (k - 1) as nat);
        assert(a[k - 1] == 0);
    }
}

/// Coefficient j of a product with an all-zero left factor is zero.
pub proof fn lemma_poly_mul_coeff_zero_left(a: Seq<u64>, b: Seq<u64>, j: int)
    requires
        is_zero_poly(a),
    ensures
        poly_mul_coeff(a, b, j) == 0,
{
    lemma_pm_prefix_zero_left(a, b, j, a.len());
}

/// One coefficient of the schoolbook negacyclic product, accumulated on top
/// of a running value `init`.
fn poly_mul_coeff_accum(init: u64, a: &Vec<u64>, b: &Vec<u64>, j: usize) -> (r: u64)
    requires
        a@.len() == b@.len(),
        a@.len() >= 1,
        a@.len() <= 0x1000_0000,
        j < a@.len(),
    ensures
        r == wrap(init + poly_mul_coeff(a@, b@, j as int)),
{
    let n = a.len();
    let mut acc: u64 = init;
    let mut i: usize = 0;
    proof {
        assert(wrap(init as int) == init) by {
            crate::arith::lemma_wrap_id(init);
        }
    }
    while i < n
        invariant
            a@.len() == n,
            b@.len() == n,
            1 <= n <= 0x1000_0000,
            j < n,
            i <= n,
            acc == wrap(init + pm_prefix(a@, b@, j as int, i as nat)),
        decreases n - i,
    {
        let ghost p = init + pm_prefix(a@, b@, j as int, i as nat);
        if i <= j {
            let m = a[i].wrapping_mul(b[j - i]);
            proof {
                lemma_wrapping_mul(a@[i as int], b@[j - i]);
                lemma_wrapping_add(acc, m);
                // wrap(wrap(p) + wrap(t)) == wrap(p + t)
                lemma_wrap_add_absorb(p, m as int);
                lemma_wrap_add_absorb(
                    (a@[i as int] as int) * (b@[j - i] as int),
                    p,
                );
                assert(wrap(p + (a@[i as int] as int) * (b@[j - i] as int)) == wrap(
                    init + pm_prefix(a@, b@, j as int, (i + 1) as nat),
                ));
            }
            acc = acc.wrapping_add(m);
        } else {
            let m = a[i].wrapping_mul(b[n + j - i]);
            proof {
                lemma_wrapping_mul(a@[i as int], b@[n + j - i]);
                lemma_wrapping_sub(acc, m);
                lemma_wrap_sub_absorb(p, (a@[i as int] as int) * (b@[n + j - i] as int));
                lemma_wrap_add_absorb(p, -((a@[i as int] as int) * (b@[n + j - i] as int)));
                assert(wrap(p - (a@[i as int] as int) * (b@[n + j - i] as int)) == wrap(
                    init + pm_prefix(a@, b@, j as int, (i + 1) as nat),
                ));
            }
            acc = acc.wrapping_sub(m);
        }
        i = i + 1;
    }
    acc
}

/// acc += a * b (negacyclic, wrapping), coefficient-exact.
pub fn polynomial_wrapping_add_mul_assign(acc: &mut Vec<u64>, a: &Vec<u64>, b: &Vec<u64>)
    requires
        old(acc)@.len() == a@.len(),
        a@.len() == b@.len(),
        a@.len() >= 1,
        a@.len() <= 0x1000_0000,
    ensures
        final(acc)@ == padd_mul(old(acc)@, a@, b@),
{
    let n = acc.len();
    let mut j: usize = 0;
    while j < n
        invariant
            acc@.len() == n,
            a@.len() == n,
            b@.len() == n,
            1 <= n <= 0x1000_0000,
            j <= n,
            forall|t: int| 0 <= t < j ==> acc@[t] == wrap(old(acc)@[t] + poly_mul_coeff(a@, b@, t)),
            forall|t: int| j <= t < n ==> acc@[t] == old(acc)@[t],
        decreases n - j,
    {
        let v = poly_mul_coeff_accum(acc[j], a, b, j);
        acc[j] = v;
        j = j + 1;
    }
    assert(acc@ =~= padd_mul(old(acc)@, a@, b@));
}

/// acc -= a * b (negacyclic, wrapping), coefficient-exact.
pub fn polynomial_wrapping_sub_mul_assign(acc: &mut Vec<u64>, a: &Vec<u64>, b: &Vec<u64>)
    requires
        old(acc)@.len() == a@.len(),
        a@.len() == b@.len(),
        a@.len() >= 1,
        a@.len() <= 0x1000_0000,
    ensures
        final(acc)@ == psub_mul(old(acc)@, a@, b@),
{
    let n = acc.len();
    let mut j: usize = 0;
    while j < n
        invariant
            acc@.len() == n,
            a@.len() == n,
            b@.len() == n,
            1 <= n <= 0x1000_0000,
            j <= n,
            forall|t: int| 0 <= t < j ==> acc@[t] == wrap(old(acc)@[t] - poly_mul_coeff(a@, b@, t)),
            forall|t: int| j <= t < n ==> acc@[t] == old(acc)@[t],
        decreases n - j,
    {
        let v = poly_mul_coeff_accum(0u64, a, b, j);
        proof {
            lemma_wrapping_sub(acc@[j as int], v);
            lemma_wrap_sub_absorb(acc@[j as int] as int, poly_mul_coeff(a@, b@, j as int));
        }
        let w = acc[j].wrapping_sub(v);
        acc[j] = w;
        j = j + 1;
    }
    assert(acc@ =~= psub_mul(old(acc)@, a@, b@));
}

} // verus!
