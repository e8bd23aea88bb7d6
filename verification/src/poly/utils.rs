//! Folding of coefficients by a sequence of factors.

use vstd::prelude::*;
use vstd::arithmetic::power2::{lemma2_to64, lemma_pow2_pos, lemma_pow2_unfold, pow2};
use crate::fields::qm31::QM31;

verus! {

/// The value of `values`, read as the coefficients of a multilinear form, at
/// the point `factors`: with `n = 2^k` values and `k` factors it is
/// `fold(left half) + fold(right half) * factors[0]`, both halves folded by
/// the remaining factors.
pub open spec fn spec_fold(values: Seq<QM31>, factors: Seq<QM31>) -> QM31
    decreases factors.len(),
{
    if factors.len() == 0 {
        values[0]
    } else {
        let half = values.len() / 2;
        let rest = factors.subrange(1, factors.len() as int);
        let lhs = spec_fold(values.subrange(0, half as int), rest);
        let rhs = spec_fold(values.subrange(half as int, values.len() as int), rest);
        lhs.spec_add(rhs.spec_mul(factors[0]))
    }
}

/// Folds the `2^(k - depth)` values that start at `start` by the factors from `depth` on.
fn fold_range(
    values: &Vec<QM31>,
    start: usize,
    len: usize,
    factors: &Vec<QM31>,
    depth: usize,
) -> (r: QM31)
    requires
        depth <= factors.len(),
        len == pow2((factors.len() - depth) as nat),
        start + len <= values.len(),
    ensures
        r == spec_fold(
            values@.subrange(start as int, start + len),
            factors@.subrange(depth as int, factors.len() as int),
        ),
    decreases factors.len() - depth,
{
    let ghost vals = values@.subrange(start as int, start + len);
    let ghost facs = factors@.subrange(depth as int, factors.len() as int);
    if depth == factors.len() {
        proof {
            lemma2_to64();
        }
        return values[start];
    }
    proof {
        lemma_pow2_unfold((factors.len() - depth) as nat);
        lemma_pow2_pos((factors.len() - depth - 1) as nat);
    }
    let half = len / 2;
    let lhs = fold_range(values, start, half, factors, depth + 1);
    let rhs = fold_range(values, start + half, half, factors, depth + 1);
    proof {
        assert(facs.subrange(1, facs.len() as int) =~= factors@.subrange(
            depth + 1,
            factors.len() as int,
        ));
        assert(vals.subrange(0, half as int) =~= values@.subrange(start as int, start + half));
        assert(vals.subrange(half as int, vals.len() as int) =~= values@.subrange(
            start + half,
            start + half + half,
        ));
    }
    lhs.add(rhs.mul(factors[depth]))
}

/// Folds `2^k` values by `k` factors.
pub fn fold(values: &Vec<QM31>, folding_factors: &Vec<QM31>) -> (r: QM31)
    requires
        values.len() == pow2(folding_factors.len() as nat),
    ensures
        r == spec_fold(values@, folding_factors@),
{
    proof {
        assert(values@.subrange(0, values.len() as int) =~= values@);
        assert(folding_factors@.subrange(0, folding_factors.len() as int) =~= folding_factors@);
    }
    fold_range(values, 0, values.len(), folding_factors, 0)
}

} // verus!
