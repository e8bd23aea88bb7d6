//! A random linear combination of evaluations at one point.

use vstd::prelude::*;
use crate::fields::gauss::{gi_mul, gi_r, lemma_gi_mul_zero, qi_mul};
use crate::fields::qm31::QM31;

verus! {

/// The combination `sum_i alpha^(n - 1 - i) * u_i` of the values, by
/// Horner's rule: each new value multiplies what came before by `alpha`.
pub open spec fn spec_horner(alpha: QM31, values: Seq<QM31>) -> QM31
    decreases values.len(),
{
    if values.len() == 0 {
        QM31::spec_zero()
    } else {
        spec_horner(alpha, values.drop_last()).spec_mul(alpha).spec_add(values.last())
    }
}

/// The sum of `alpha^(n - 1 - i) * values[i]` over the first `k` indices.
pub open spec fn spec_power_sum(alpha: QM31, values: Seq<QM31>, n: nat, k: nat) -> QM31
    decreases k,
{
    if k == 0 {
        QM31::spec_zero()
    } else {
        spec_power_sum(alpha, values, n, (k - 1) as nat).spec_add(
            alpha.spec_pow((n - k) as nat).spec_mul(values[k - 1]),
        )
    }
}

/// Zero times anything is zero.
pub proof fn lemma_zero_mul(a: QM31)
    requires
        a.wf(),
    ensures
        QM31::spec_zero().spec_mul(a) == QM31::spec_zero(),
{
    let zero = ((0int, 0int), (0int, 0int));
    QM31::lemma_wf_of(a);
    QM31::lemma_of_mul(zero, a@);
    lemma_gi_mul_zero(a@.0);
    lemma_gi_mul_zero(a@.1);
    lemma_gi_mul_zero(gi_r());
    assert(gi_mul(gi_r(), zero.1) == (0int, 0int));
    assert(qi_mul(zero, a@) == zero);
    QM31::lemma_of_wf(zero);
    QM31::lemma_wf_of(QM31::spec_zero());
}

/// The sum depends on the first `k` values only.
pub proof fn lemma_power_sum_of_prefix(alpha: QM31, a: Seq<QM31>, b: Seq<QM31>, n: nat, k: nat)
    requires
        k <= a.len(),
        k <= b.len(),
        forall|i: int| 0 <= i < k ==> a[i] == b[i],
    ensures
        spec_power_sum(alpha, a, n, k) == spec_power_sum(alpha, b, n, k),
    decreases k,
{
    if k > 0 {
        lemma_power_sum_of_prefix(alpha, a, b, n, (k - 1) as nat);
    }
}

/// A sum of reduced values is reduced.
pub proof fn lemma_power_sum_wf(alpha: QM31, values: Seq<QM31>, n: nat, k: nat)
    ensures
        spec_power_sum(alpha, values, n, k).wf(),
    decreases k,
{
    if k > 0 {
        QM31::lemma_results_wf(
            spec_power_sum(alpha, values, n, (k - 1) as nat),
            alpha.spec_pow((n - k) as nat).spec_mul(values[k - 1]),
        );
    } else {
        QM31::lemma_of_wf(((0int, 0int), (0int, 0int)));
        assert(QM31::of(((0int, 0int), (0int, 0int))) == QM31::spec_zero());
    }
}

/// Multiplying the sum by `alpha` raises every power by one.
pub proof fn lemma_power_sum_shift(alpha: QM31, values: Seq<QM31>, n: nat, k: nat)
    requires
        alpha.wf(),
        k <= n,
        k <= values.len(),
        forall|i: int| 0 <= i < values.len() ==> (#[trigger] values[i]).wf(),
    ensures
        spec_power_sum(alpha, values, n, k).spec_mul(alpha) == spec_power_sum(
            alpha,
            values,
            n + 1,
            k,
        ),
    decreases k,
{
    if k == 0 {
        lemma_zero_mul(alpha);
    } else {
        let head = spec_power_sum(alpha, values, n, (k - 1) as nat);
        let power = alpha.spec_pow((n - k) as nat);
        let value = values[k - 1];
        let term = power.spec_mul(value);
        lemma_power_sum_shift(alpha, values, n, (k - 1) as nat);
        lemma_power_sum_wf(alpha, values, n, (k - 1) as nat);
        QM31::lemma_pow_wf(alpha, (n - k) as nat);
        QM31::lemma_results_wf(power, value);
        QM31::lemma_results_wf(head, term);
        // (head + term) * alpha == head * alpha + term * alpha
        QM31::lemma_mul_commutative(head.spec_add(term), alpha);
        QM31::lemma_distributive(alpha, head, term);
        QM31::lemma_mul_commutative(alpha, head);
        // term * alpha == alpha^(n + 1 - k) * value
        QM31::lemma_mul_associative(alpha, power, value);
        assert(alpha.spec_pow((n + 1 - k) as nat) == alpha.spec_mul(power));
    }
}

/// Horner's rule gives the sum of the values, each multiplied by its power
/// of the coefficient: the last value takes the power zero, the one before
/// it the first power, and the first value the power `n - 1`, whatever the
/// number `n` of the values.
pub proof fn lemma_horner_is_power_sum(alpha: QM31, values: Seq<QM31>)
    requires
        alpha.wf(),
        forall|i: int| 0 <= i < values.len() ==> (#[trigger] values[i]).wf(),
    ensures
        spec_horner(alpha, values) == spec_power_sum(alpha, values, values.len(), values.len()),
    decreases values.len(),
{
    if values.len() > 0 {
        let n = values.len();
        let front = values.drop_last();
        lemma_horner_is_power_sum(alpha, front);
        lemma_power_sum_of_prefix(alpha, front, values, (n - 1) as nat, (n - 1) as nat);
        lemma_power_sum_shift(alpha, values, (n - 1) as nat, (n - 1) as nat);
        QM31::lemma_mul_one(values.last());
    }
}

/// Accumulates evaluations `u_i(P)` of polynomials at one point into the
/// evaluation of their combination by powers of a random coefficient.
#[derive(Debug, Clone, Copy)]
pub struct PointEvaluationAccumulator {
    random_coeff: QM31,
    accumulation: QM31,
}

impl PointEvaluationAccumulator {
    pub closed spec fn spec_random_coeff(self) -> QM31 {
        self.random_coeff
    }

    pub closed spec fn spec_accumulation(self) -> QM31 {
        self.accumulation
    }

    /// The accumulator that holds nothing yet.
    pub closed spec fn spec_new(random_coeff: QM31) -> PointEvaluationAccumulator {
        PointEvaluationAccumulator { random_coeff, accumulation: QM31::spec_zero() }
    }

    /// An accumulator that holds nothing yet.
    pub fn new(random_coeff: QM31) -> (r: PointEvaluationAccumulator)
        ensures
            r == PointEvaluationAccumulator::spec_new(random_coeff),
            r.spec_random_coeff() == random_coeff,
            r.spec_accumulation() == QM31::spec_zero(),
    {
        PointEvaluationAccumulator { random_coeff, accumulation: QM31::zero() }
    }

    /// The accumulator after it took in the evaluation.
    pub closed spec fn spec_accumulate(self, evaluation: QM31) -> PointEvaluationAccumulator {
        PointEvaluationAccumulator {
            random_coeff: self.random_coeff,
            accumulation: self.accumulation.spec_mul(self.random_coeff).spec_add(evaluation),
        }
    }

    /// Takes in the next evaluation: `acc <- acc * alpha + evaluation`.
    pub fn accumulate(&mut self, evaluation: QM31)
        ensures
            *final(self) == old(self).spec_accumulate(evaluation),
            final(self).spec_random_coeff() == old(self).spec_random_coeff(),
            final(self).spec_accumulation() == old(self).spec_accumulation().spec_mul(
                old(self).spec_random_coeff(),
            ).spec_add(evaluation),
    {
        self.accumulation = self.accumulation.mul(self.random_coeff).add(evaluation);
    }

    /// What has been accumulated.
    pub fn finalize(self) -> (r: QM31)
        ensures
            r == self.spec_accumulation(),
    {
        self.accumulation
    }

    /// Accumulating the values one after the other from an empty accumulator
    /// gives their combination by Horner's rule.
    pub fn accumulate_all(random_coeff: QM31, evaluations: &Vec<QM31>) -> (r: QM31)
        ensures
            r == spec_horner(random_coeff, evaluations@),
    {
        let mut acc = PointEvaluationAccumulator::new(random_coeff);
        let mut i: usize = 0;
        while i < evaluations.len()
            invariant
                i <= evaluations.len(),
                acc.spec_random_coeff() == random_coeff,
                acc.spec_accumulation() == spec_horner(
                    random_coeff,
                    evaluations@.subrange(0, i as int),
                ),
            decreases evaluations.len() - i,
        {
            proof {
                let s = evaluations@.subrange(0, i + 1);
                assert(s.drop_last() =~= evaluations@.subrange(0, i as int));
                assert(s.last() == evaluations[i as int]);
            }
            acc.accumulate(evaluations[i]);
            i = i + 1;
        }
        proof {
            assert(evaluations@.subrange(0, evaluations.len() as int) =~= evaluations@);
        }
        acc.finalize()
    }
}

} // verus!
