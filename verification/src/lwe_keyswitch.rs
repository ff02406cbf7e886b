//! LWE-to-LWE keyswitching: each input mask coefficient is digit-decomposed
//! and folded against a Lev ladder encrypting the corresponding input key
//! coefficient under the destination key.
use vstd::prelude::*;
use crate::wrap;
use crate::arith::lemma_wrapping_sub;
use crate::arith::lemma_wrapping_mul;
use crate::arith::lemma_wrap_sub_absorb;
use crate::lwe::LweCiphertext;
use crate::decomp::decompose_value;
use crate::decomp::decomp_digit_at;

verus! {

/// One scaled subtraction on an LWE value pair: acc <- acc - d * key.
pub open spec fn lwe_sub_scaled(
    mask: Seq<u64>,
    body: u64,
    d: u64,
    key: LweCiphertext,
) -> (Seq<u64>, u64) {
    (
        Seq::new(mask.len(), |t: int| wrap(mask[t] - d * key.mask@[t])),
        wrap(body - d * key.body),
    )
}

/// Folding the first `upto` decomposition levels of one source coefficient
/// against its Lev ladder.
pub open spec fn lwe_ks_fold_levels(
    mask: Seq<u64>,
    body: u64,
    src: u64,
    bl: nat,
    levels: nat,
    lev: Seq<LweCiphertext>,
    upto: nat,
) -> (Seq<u64>, u64)
    decreases upto,
{
    if upto == 0 {
        (mask, body)
    } else {
        let prev = lwe_ks_fold_levels(mask, body, src, bl, levels, lev, (upto - 1) as nat);
        lwe_sub_scaled(
            prev.0,
            prev.1,
            decomp_digit_at(src, bl, levels, (upto - 1) as nat),
            lev[upto - 1],
        )
    }
}

/// Folding all levels of the first `upto_i` source coefficients.
pub open spec fn lwe_ks_fold(
    mask: Seq<u64>,
    body: u64,
    srcs: Seq<u64>,
    bl: nat,
    levels: nat,
    keys: Seq<Vec<LweCiphertext>>,
    upto_i: nat,
) -> (Seq<u64>, u64)
    decreases upto_i,
{
    if upto_i == 0 {
        (mask, body)
    } else {
        let prev = lwe_ks_fold(mask, body, srcs, bl, levels, keys, (upto_i - 1) as nat);
        lwe_ks_fold_levels(prev.0, prev.1, srcs[upto_i - 1], bl, levels, keys[upto_i - 1]@, levels)
    }
}

/// A keyswitch key from one LWE key to another: for every input key
/// coefficient, a Lev ladder of encryptions of that coefficient scaled by
/// 2^(64-(j+1)B), under the destination key.
pub struct LweKeyswitchKey {
    pub base_log: usize,
    pub levels: usize,
    pub output_lwe_dimension: usize,
    pub keys: Vec<Vec<LweCiphertext>>,
}

impl LweKeyswitchKey {
    pub open spec fn input_lwe_dimension(&self) -> nat {
        self.keys@.len()
    }

    pub open spec fn wf(&self) -> bool {
        &&& 1 <= self.base_log
        &&& 1 <= self.levels
        &&& self.levels * self.base_log < 64
        &&& forall|i: int|
            0 <= i < self.keys@.len() ==> (#[trigger] self.keys@[i])@.len() == self.levels
        &&& forall|i: int, j: int|
            0 <= i < self.keys@.len() && 0 <= j < self.levels
                ==> (#[trigger] self.keys@[i]@[j]).lwe_dimension() == self.output_lwe_dimension
    }
}

/// Keyswitch an LWE ciphertext onto the destination key: starting from the
/// trivial ciphertext holding the input body, fold (subtract) every
/// decomposition level of every input mask coefficient against the key.
pub fn keyswitch_lwe_ciphertext(ksk: &LweKeyswitchKey, input: &LweCiphertext) -> (out:
    LweCiphertext)
    requires
        ksk.wf(),
        input.lwe_dimension() == ksk.input_lwe_dimension(),
    ensures
        out.lwe_dimension() == ksk.output_lwe_dimension,
        (out.mask@, out.body) == lwe_ks_fold(
            Seq::new(ksk.output_lwe_dimension as nat, |t: int| 0u64),
            input.body,
            input.mask@,
            ksk.base_log as nat,
            ksk.levels as nat,
            ksk.keys@,
            input.lwe_dimension(),
        ),
{
    let dim = input.mask.len();
    let nout = ksk.output_lwe_dimension;
    let mut mask: Vec<u64> = Vec::new();
    mask.resize(nout, 0u64);
    let mut body: u64 = input.body;
    proof {
        assert(mask@ =~= Seq::new(nout as nat, |t: int| 0u64));
    }
    let mut i: usize = 0;
    while i < dim
        invariant
            ksk.wf(),
            ksk.output_lwe_dimension == nout,
            ksk.input_lwe_dimension() == dim,
            input.mask@.len() == dim,
            mask@.len() == nout,
            i <= dim,
            (mask@, body) == lwe_ks_fold(
                Seq::new(nout as nat, |t: int| 0u64),
                input.body,
                input.mask@,
                ksk.base_log as nat,
                ksk.levels as nat,
                ksk.keys@,
                i as nat,
            ),
        decreases dim - i,
    {
        let digits = decompose_value(input.mask[i], ksk.base_log, ksk.levels);
        let lev = &ksk.keys[i];
        let mut j: usize = 0;
        while j < ksk.levels
            invariant
                ksk.wf(),
                ksk.output_lwe_dimension == nout,
                ksk.input_lwe_dimension() == dim,
                input.mask@.len() == dim,
                i < dim,
                lev@ == ksk.keys@[i as int]@,
                lev@.len() == ksk.levels,
                digits@.len() == ksk.levels,
                forall|t: int|
                    0 <= t < ksk.levels ==> #[trigger] digits@[t] == decomp_digit_at(
                        input.mask@[i as int],
                        ksk.base_log as nat,
                        ksk.levels as nat,
                        t as nat,
                    ),
                mask@.len() == nout,
                j <= ksk.levels,
                (mask@, body) == lwe_ks_fold_levels(
                    lwe_ks_fold(
                        Seq::new(nout as nat, |t: int| 0u64),
                        input.body,
                        input.mask@,
                        ksk.base_log as nat,
                        ksk.levels as nat,
                        ksk.keys@,
                        i as nat,
                    ).0,
                    lwe_ks_fold(
                        Seq::new(nout as nat, |t: int| 0u64),
                        input.body,
                        input.mask@,
                        ksk.base_log as nat,
                        ksk.levels as nat,
                        ksk.keys@,
                        i as nat,
                    ).1,
                    input.mask@[i as int],
                    ksk.base_log as nat,
                    ksk.levels as nat,
                    ksk.keys@[i as int]@,
                    j as nat,
                ),
            decreases ksk.levels - j,
        {
            let d = digits[j];
            let key = &lev[j];
            proof {
                assert(*key == ksk.keys@[i as int]@[j as int]);
                assert(ksk.keys@[i as int]@[j as int].lwe_dimension()
                    == ksk.output_lwe_dimension);
                assert(key.lwe_dimension() == nout);
            }
            let ghost mask_pre = mask@;
            let ghost body_pre = body;
            let mut t: usize = 0;
            while t < nout
                invariant
                    key.mask@.len() == nout,
                    mask@.len() == nout,
                    mask_pre.len() == nout,
                    t <= nout,
                    forall|tt: int|
                        0 <= tt < t ==> mask@[tt] == wrap(mask_pre[tt] - d * key.mask@[tt]),
                    forall|tt: int| t <= tt < nout ==> mask@[tt] == mask_pre[tt],
                decreases nout - t,
            {
                proof {
                    lemma_wrapping_mul(d, key.mask@[t as int]);
                    lemma_wrapping_sub(mask@[t as int], d.wrapping_mul(key.mask@[t as int]) as u64);
                    lemma_wrap_sub_absorb(
                        mask_pre[t as int] as int,
                        (d as int) * (key.mask@[t as int] as int),
                    );
                }
                let v = mask[t].wrapping_sub(d.wrapping_mul(key.mask[t]));
                mask[t] = v;
                t = t + 1;
            }
            proof {
                lemma_wrapping_mul(d, key.body);
                lemma_wrapping_sub(body, d.wrapping_mul(key.body) as u64);
                lemma_wrap_sub_absorb(body_pre as int, (d as int) * (key.body as int));
            }
            body = body.wrapping_sub(d.wrapping_mul(key.body));
            proof {
                let step = lwe_sub_scaled(mask_pre, body_pre, d, ksk.keys@[i as int]@[j as int]);
                assert(mask@ =~= step.0);
                assert(body == step.1);
            }
            j = j + 1;
        }
        i = i + 1;
    }
    LweCiphertext { mask, body }
}

} // verus!
