//! The prover's side of the AIR: components that evaluate their constraints
//! on the whole domain, and the accumulation of these evaluations into the
//! composition polynomial.

use vstd::prelude::*;
use vstd::arithmetic::power2::pow2;
use crate::air::component::{spec_composition_log_degree_bound, Component, Components};
use crate::fields::m31::M31;
use crate::fields::qm31::QM31;
use crate::poly::domain::CanonicCoset;
use crate::prover::poly::circle::{
    spec_extend, spec_scale_base, CircleEvaluation, CirclePoly,
};
use crate::prover::poly::fft::{spec_fft, spec_ifft};
use crate::prover::secure_column::SecureColumnByCoords;
use crate::utils::pow2_usize;

verus! {

/// The powers `1, alpha, alpha^2, ...` of a coefficient.
pub open spec fn spec_powers(alpha: QM31, n: nat) -> Seq<QM31> {
    Seq::new(n, |i: int| alpha.spec_pow(i as nat))
}

/// The first `n` powers of `alpha`.
pub fn generate_secure_powers(alpha: QM31, n: usize) -> (r: Vec<QM31>)
    ensures
        r@ == spec_powers(alpha, n as nat),
{
    let mut out: Vec<QM31> = Vec::with_capacity(n);
    let mut cur = QM31::one();
    let mut i: usize = 0;
    alpha.reduced();
    while i < n
        invariant
            i <= n,
            alpha.wf(),
            cur == alpha.spec_pow(i as nat),
            out.len() == i,
            forall|k: int| 0 <= k < i ==> out[k] == alpha.spec_pow(k as nat),
        decreases n - i,
    {
        out.push(cur);
        proof {
            QM31::lemma_pow_wf(alpha, i as nat);
            QM31::lemma_mul_commutative(alpha.spec_pow(i as nat), alpha);
        }
        cur = cur.mul(alpha);
        i = i + 1;
    }
    proof {
        assert(out@ =~= spec_powers(alpha, n as nat));
    }
    out
}

/// The polynomials of the trace, and their evaluations on the commitment domains.
pub struct Trace<'a> {
    /// The polynomial of each column of each tree.
    pub polys: Vec<Vec<&'a CirclePoly>>,
    /// The evaluation of each column of each tree.
    pub evals: Vec<Vec<&'a CircleEvaluation>>,
}

/// The trace as plain values: the polynomial and the evaluation of each
/// column of each tree.
pub ghost struct TraceModel {
    pub polys: Seq<Seq<CirclePoly>>,
    pub evals: Seq<Seq<CircleEvaluation>>,
}

/// The polynomials of each tree.
pub open spec fn spec_polys_model(polys: Seq<Vec<&CirclePoly>>) -> Seq<Seq<CirclePoly>> {
    Seq::new(polys.len(), |t: int| Seq::new(polys[t].len() as nat, |c: int| *polys[t][c]))
}

/// The evaluations of each tree.
pub open spec fn spec_evals_model(evals: Seq<Vec<&CircleEvaluation>>) -> Seq<Seq<CircleEvaluation>> {
    Seq::new(evals.len(), |t: int| Seq::new(evals[t].len() as nat, |c: int| *evals[t][c]))
}

impl<'a> Trace<'a> {
    /// The trace as plain values.
    pub open spec fn model(self) -> TraceModel {
        TraceModel { polys: spec_polys_model(self.polys@), evals: spec_evals_model(self.evals@) }
    }
}

/// Accumulates the evaluations of constraints on domains of several sizes
/// into the coordinates of the composition polynomial. Each constraint
/// takes one power of the random coefficient; the powers are handed out
/// from the highest down.
pub struct DomainEvaluationAccumulator {
    /// The powers of the random coefficient that were not handed out yet.
    pub random_coeff_powers: Vec<QM31>,
    /// For each size of domain the sum of the evaluations on it, if there is any.
    pub sub_accumulations: Vec<Option<SecureColumnByCoords>>,
}

/// An accumulator as plain values: the powers that are left, and for each
/// size of domain the sum of the evaluations on it, if there is any.
pub struct AccumulatorModel {
    pub powers: Seq<QM31>,
    pub columns: Seq<Option<Seq<QM31>>>,
}

impl DomainEvaluationAccumulator {
    /// The accumulator as plain values.
    pub open spec fn model(self) -> AccumulatorModel {
        AccumulatorModel {
            powers: self.random_coeff_powers@,
            columns: Seq::new(
                self.sub_accumulations.len() as nat,
                |l: int|
                    match self.sub_accumulations[l] {
                        Some(column) => Some(column@),
                        None => None,
                    },
            ),
        }
    }

    /// Each accumulation has the length of its domain.
    pub open spec fn wf(self) -> bool {
        &&& self.sub_accumulations.len() <= 31
        &&& forall|l: int|
            0 <= l < self.sub_accumulations.len() ==> match #[trigger] self.sub_accumulations[l] {
                Some(column) => column.wf() && column@.len() == pow2(l as nat),
                None => true,
            }
    }

    /// An accumulator for `total_columns` constraints on domains of
    /// `2^max_log_size` points at most.
    pub fn new(random_coeff: QM31, max_log_size: u32, total_columns: usize) -> (r:
        DomainEvaluationAccumulator)
        requires
            max_log_size <= 30,
        ensures
            r.wf(),
            r.random_coeff_powers@ == spec_powers(random_coeff, total_columns as nat),
            r.sub_accumulations.len() == max_log_size + 1,
            forall|l: int|
                0 <= l < r.sub_accumulations.len() ==> (#[trigger] r.sub_accumulations[l]).is_none(),
    {
        let mut sub_accumulations: Vec<Option<SecureColumnByCoords>> = Vec::new();
        let mut l: u32 = 0;
        while l <= max_log_size
            invariant
                l <= max_log_size + 1,
                max_log_size <= 30,
                sub_accumulations.len() == l,
                forall|k: int|
                    0 <= k < l ==> (#[trigger] sub_accumulations[k]).is_none(),
            decreases max_log_size + 1 - l,
        {
            sub_accumulations.push(None);
            l = l + 1;
        }
        DomainEvaluationAccumulator {
            random_coeff_powers: generate_secure_powers(random_coeff, total_columns),
            sub_accumulations,
        }
    }

    /// Hands out the powers of the coefficient for `n_cols` constraints:
    /// the last `n_cols` of those that are left, the highest first.
    pub fn take_coeffs(&mut self, n_cols: usize) -> (r: Vec<QM31>)
        requires
            n_cols <= old(self).random_coeff_powers.len(),
        ensures
            final(self).sub_accumulations == old(self).sub_accumulations,
            final(self).random_coeff_powers@ == old(self).random_coeff_powers@.subrange(
                0,
                old(self).random_coeff_powers.len() - n_cols,
            ),
            r.len() == n_cols,
            forall|i: int|
                0 <= i < n_cols ==> r[i] == old(self).random_coeff_powers[old(self).random_coeff_powers.len()
                    - 1 - i],
    {
        let ghost all = self.random_coeff_powers@;
        let mut out: Vec<QM31> = Vec::with_capacity(n_cols);
        let mut i: usize = 0;
        while i < n_cols
            invariant
                i <= n_cols,
                n_cols <= all.len(),
                self.sub_accumulations == old(self).sub_accumulations,
                self.random_coeff_powers@ == all.subrange(0, all.len() - i),
                out.len() == i,
                forall|k: int| 0 <= k < i ==> out[k] == all[all.len() - 1 - k],
            decreases n_cols - i,
        {
            let last = self.random_coeff_powers.pop().unwrap();
            out.push(last);
            proof {
                assert(self.random_coeff_powers@ =~= all.subrange(0, all.len() - i - 1));
            }
            i = i + 1;
        }
        out
    }

    /// The accumulation on the domain of `2^log_size` points, zero where there is none.
    pub open spec fn spec_column(self, log_size: int) -> Seq<QM31> {
        match self.sub_accumulations[log_size] {
            Some(column) => column@,
            None => Seq::new(pow2(log_size as nat), |i: int| QM31::spec_zero()),
        }
    }

    /// Adds an evaluation at a row of the domain of `2^log_size` points.
    pub fn accumulate(&mut self, log_size: u32, row: usize, evaluation: QM31)
        requires
            old(self).wf(),
            log_size < old(self).sub_accumulations.len(),
            row < pow2(log_size as nat),
        ensures
            final(self).wf(),
            final(self).random_coeff_powers == old(self).random_coeff_powers,
            final(self).sub_accumulations.len() == old(self).sub_accumulations.len(),
            forall|l: int|
                0 <= l < old(self).sub_accumulations.len() && l != log_size ==> final(self).sub_accumulations[l]
                    == old(self).sub_accumulations[l],
            final(self).sub_accumulations[log_size as int].is_some(),
            final(self).spec_column(log_size as int) == old(self).spec_column(log_size as int).update(
                row as int,
                old(self).spec_column(log_size as int)[row as int].spec_add(evaluation),
            ),
    {
        let slot = &mut self.sub_accumulations[log_size as usize];
        let mut taken: Option<SecureColumnByCoords> = None;
        core::mem::swap(&mut taken, slot);
        let mut column = match taken {
            Some(c) => c,
            None => SecureColumnByCoords::zeros(pow2_usize(log_size)),
        };
        let value = column.at(row).add(evaluation);
        column.set(row, value);
        *slot = Some(column);
    }
}

/// A component that can evaluate its constraints on the whole domain. What
/// it accumulates depends on the component, the trace and the accumulator
/// alone.
pub trait ComponentProver: Component {
    /// The accumulator after the component accumulated the quotients of
    /// its constraints on its evaluation domain.
    spec fn spec_on_domain(&self, trace: TraceModel, accumulator: AccumulatorModel) -> AccumulatorModel;

    /// Evaluates the quotients of the constraints of the component on the
    /// evaluation domain and accumulates them.
    fn evaluate_constraint_quotients_on_domain(
        &self,
        trace: &Trace<'_>,
        evaluation_accumulator: &mut DomainEvaluationAccumulator,
    )
        requires
            old(evaluation_accumulator).wf(),
        ensures
            final(evaluation_accumulator).wf(),
            final(evaluation_accumulator).sub_accumulations.len() == old(evaluation_accumulator).sub_accumulations.len(),
            final(evaluation_accumulator).model() == self.spec_on_domain(
                trace.model(),
                old(evaluation_accumulator).model(),
            ),
    ;
}

} // verus!

verus! {

/// The `k`-th coordinates of the values.
pub open spec fn spec_coordinate(values: Seq<QM31>, k: int) -> Seq<M31> {
    Seq::new(values.len(), |i: int| values[i].spec_to_m31_array()[k])
}

/// The values on the domain of `2^l` points with the polynomial that was
/// summed on the smaller domains, if there is one, added in.
pub open spec fn spec_with_smaller(column: Seq<M31>, below: Option<Seq<M31>>, l: nat) -> Seq<M31> {
    match below {
        None => column,
        Some(coeffs) => Seq::new(
            pow2(l),
            |i: int|
                column[i].spec_add(
                    spec_fft(
                        spec_extend(coeffs, pow2(l)),
                        CanonicCoset::spec_circle_domain_of(l),
                        l,
                    )[i],
                ),
        ),
    }
}

/// The coefficients of the `k`-th coordinate of the sum of the
/// accumulations on the domains of fewer than `2^n` points, if there is
/// any: from the smallest domain up, what was summed so far is evaluated on
/// the next domain that holds an accumulation, added to it, and
/// interpolated again.
pub open spec fn spec_summed(columns: Seq<Option<Seq<QM31>>>, k: int, n: nat) -> Option<Seq<M31>>
    decreases n,
{
    if n <= 1 {
        None
    } else {
        let l = (n - 1) as nat;
        let below = spec_summed(columns, k, l);
        match columns[l as int] {
            None => below,
            Some(stored) => {
                Some(
                    spec_scale_base(
                        spec_ifft(
                            spec_with_smaller(spec_coordinate(stored, k), below, l),
                            CanonicCoset::spec_circle_domain_of(l),
                            0,
                        ),
                        M31::from_int(pow2(l) as int).spec_inverse(),
                    ),
                )
            },
        }
    }
}

/// The coefficients of the `k`-th coordinate polynomial of the sum of all
/// the accumulations: one zero where nothing was accumulated.
pub open spec fn spec_finalized(accumulator: AccumulatorModel, k: int) -> Seq<M31> {
    match spec_summed(accumulator.columns, k, accumulator.columns.len()) {
        Some(coeffs) => coeffs,
        None => seq![M31::spec_zero()],
    }
}

impl DomainEvaluationAccumulator {
    /// The four coordinate polynomials of the sum of the accumulations:
    /// from the smallest domain up, what was summed so far is evaluated on
    /// the next domain that holds an accumulation, added to it, and
    /// interpolated again. Four constant zero polynomials where nothing was
    /// accumulated.
    pub fn finalize(self) -> (r: Vec<CirclePoly>)
        requires
            self.wf(),
        ensures
            r.len() == 4,
            forall|k: int| 0 <= k < 4 ==> (#[trigger] r[k]).wf() && r[k].log_size == r[0].log_size,
            forall|k: int| 0 <= k < 4 ==> (#[trigger] r[k]).coeffs@ == spec_finalized(self.model(), k),
    {
        let mut cur_poly: Option<Vec<CirclePoly>> = None;
        let n = self.sub_accumulations.len();
        let ghost columns = self.model().columns;
        let mut log_size: usize = 1;
        while log_size < n
            invariant
                1 <= log_size,
                log_size <= n || (n == 0 && cur_poly.is_none()),
                n == self.sub_accumulations.len(),
                columns.len() == n,
                self.wf(),
                columns == self.model().columns,
                match cur_poly {
                    Some(polys) => {
                        &&& polys.len() == 4
                        &&& forall|k: int|
                            0 <= k < 4 ==> (#[trigger] polys[k]).wf() && polys[k].log_size
                                == polys[0].log_size
                        &&& polys[0].log_size < log_size
                        &&& forall|k: int|
                            0 <= k < 4 ==> spec_summed(columns, k, log_size as nat) == Some(
                                (#[trigger] polys[k]).coeffs@,
                            )
                    },
                    None => {
                        &&& forall|l: int|
                            1 <= l < log_size && l < n ==> (
                            #[trigger] self.sub_accumulations[l]).is_none()
                        &&& forall|k: int|
                            0 <= k < 4 ==> (#[trigger] spec_summed(
                                columns,
                                k,
                                log_size as nat,
                            )).is_none()
                    },
                },
            decreases n - log_size,
        {
            match &self.sub_accumulations[log_size] {
                None => {
                    proof {
                        assert(columns[log_size as int].is_none());
                        assert forall|k: int| 0 <= k < 4 implies #[trigger] spec_summed(
                            columns,
                            k,
                            (log_size + 1) as nat,
                        ) == spec_summed(columns, k, log_size as nat) by {}
                    }
                },
                Some(stored) => {
                    assert(stored.wf() && stored@.len() == pow2(log_size as nat));
                    proof {
                        assert(columns[log_size as int] == Some(stored@));
                        stored.lemma_coordinates();
                    }
                    let domain = CanonicCoset::new(log_size as u32).circle_domain();
                    let size = domain.size();
                    let mut polys: Vec<CirclePoly> = Vec::with_capacity(4);
                    let mut k: usize = 0;
                    while k < 4
                        invariant
                            k <= 4,
                            1 <= log_size <= 30,
                            log_size < n,
                            columns.len() == n,
                            stored.wf(),
                            stored@.len() == pow2(log_size as nat),
                            columns[log_size as int] == Some(stored@),
                            forall|j: int|
                                0 <= j < 4 ==> #[trigger] stored.spec_column(j) == spec_coordinate(
                                    stored@,
                                    j,
                                ),
                            domain.wf(),
                            domain.spec_log_size() == log_size,
                            domain == CanonicCoset::spec_circle_domain_of(log_size as nat),
                            size == pow2(log_size as nat),
                            match cur_poly {
                                Some(prev) => {
                                    &&& prev.len() == 4
                                    &&& forall|j: int|
                                        0 <= j < 4 ==> (#[trigger] prev[j]).wf() && prev[j].log_size
                                            == prev[0].log_size
                                    &&& prev[0].log_size < log_size
                                    &&& forall|j: int|
                                        0 <= j < 4 ==> spec_summed(columns, j, log_size as nat)
                                            == Some((#[trigger] prev[j]).coeffs@)
                                },
                                None => forall|j: int|
                                    0 <= j < 4 ==> (#[trigger] spec_summed(
                                        columns,
                                        j,
                                        log_size as nat,
                                    )).is_none(),
                            },
                            polys.len() == k,
                            forall|j: int|
                                0 <= j < k ==> (#[trigger] polys[j]).wf() && polys[j].log_size
                                    == log_size,
                            forall|j: int|
                                0 <= j < k ==> spec_summed(columns, j, (log_size + 1) as nat)
                                    == Some((#[trigger] polys[j]).coeffs@),
                        decreases 4 - k,
                    {
                        let column = stored.column(k);
                        let mut values: Vec<M31> = Vec::with_capacity(size);
                        match &cur_poly {
                            None => {
                                let mut i: usize = 0;
                                while i < size
                                    invariant
                                        i <= size,
                                        column.len() == size,
                                        values.len() == i,
                                        forall|j: int| 0 <= j < i ==> values[j] == column[j],
                                    decreases size - i,
                                {
                                    values.push(column[i]);
                                    i = i + 1;
                                }
                                proof {
                                    assert(spec_summed(columns, k as int, log_size as nat).is_none());
                                    assert(values@ =~= spec_with_smaller(
                                        spec_coordinate(stored@, k as int),
                                        spec_summed(columns, k as int, log_size as nat),
                                        log_size as nat,
                                    ));
                                }
                            },
                            Some(prev) => {
                                assert(prev[k as int].wf());
                                let extended = prev[k].evaluate(domain);
                                let mut i: usize = 0;
                                while i < size
                                    invariant
                                        i <= size,
                                        column.len() == size,
                                        extended.values.len() == size,
                                        values.len() == i,
                                        forall|j: int|
                                            0 <= j < i ==> values[j] == column[j].spec_add(
                                                extended.values[j],
                                            ),
                                    decreases size - i,
                                {
                                    values.push(column[i].add(extended.values[i]));
                                    i = i + 1;
                                }
                                proof {
                                    assert(spec_summed(columns, k as int, log_size as nat) == Some(
                                        prev[k as int].coeffs@,
                                    ));
                                    assert(values@ =~= spec_with_smaller(
                                        spec_coordinate(stored@, k as int),
                                        spec_summed(columns, k as int, log_size as nat),
                                        log_size as nat,
                                    ));
                                }
                            },
                        }
                        let ghost summed = values@;
                        polys.push(CircleEvaluation::new(domain, values).interpolate());
                        proof {
                            assert(spec_summed(columns, k as int, (log_size + 1) as nat) == Some(
                                spec_scale_base(
                                    spec_ifft(summed, domain, 0),
                                    M31::from_int(pow2(log_size as nat) as int).spec_inverse(),
                                ),
                            ));
                        }
                        k = k + 1;
                    }
                    cur_poly = Some(polys);
                },
            }
            log_size = log_size + 1;
        }
        match cur_poly {
            Some(polys) => polys,
            None => {
                let mut polys: Vec<CirclePoly> = Vec::with_capacity(4);
                let mut k: usize = 0;
                proof {
                    vstd::arithmetic::power2::lemma2_to64();
                    assert forall|j: int| 0 <= j < 4 implies (#[trigger] spec_summed(
                        columns,
                        j,
                        n as nat,
                    )).is_none() by {
                        if n >= 1 {
                            assert(log_size == n);
                        }
                    }
                }
                while k < 4
                    invariant
                        k <= 4,
                        polys.len() == k,
                        forall|j: int|
                            0 <= j < k ==> (#[trigger] polys[j]).wf() && polys[j].log_size == 0,
                        forall|j: int|
                            0 <= j < k ==> (#[trigger] polys[j]).coeffs@ == seq![M31::spec_zero()],
                    decreases 4 - k,
                {
                    let mut coeffs: Vec<M31> = Vec::new();
                    coeffs.push(M31::zero());
                    proof {
                        vstd::arithmetic::power2::lemma2_to64();
                        assert(coeffs@ =~= seq![M31::spec_zero()]);
                    }
                    polys.push(CirclePoly { coeffs, log_size: 0 });
                    k = k + 1;
                }
                polys
            },
        }
    }
}

/// The components of an AIR on the side of the prover.
pub struct ComponentProvers<'a, C: ComponentProver> {
    pub components: &'a Vec<C>,
    pub n_preprocessed_columns: usize,
}

impl<'a, C: ComponentProver> ComponentProvers<'a, C> {
    /// The components as the verifier sees them.
    pub fn components(&self) -> (r: Components<'a, C>)
        ensures
            r.components == self.components,
            r.n_preprocessed_columns == self.n_preprocessed_columns,
    {
        Components {
            components: self.components,
            n_preprocessed_columns: self.n_preprocessed_columns,
        }
    }

    /// The number of constraints of the first `n` components.
    pub open spec fn spec_total_constraints(components: Seq<C>, n: nat) -> int
        decreases n,
    {
        if n == 0 {
            0
        } else {
            Self::spec_total_constraints(components, (n - 1) as nat)
                + components[n - 1].spec_n_constraints()
        }
    }

    /// The number of constraints never shrinks along the components.
    pub proof fn lemma_total_constraints(components: Seq<C>, m: nat, n: nat)
        requires
            m <= n,
        ensures
            Self::spec_total_constraints(components, m) <= Self::spec_total_constraints(
                components,
                n,
            ),
        decreases n - m,
    {
        if m < n {
            Self::lemma_total_constraints(components, m, (n - 1) as nat);
        }
    }

    /// The accumulator after the first `n` components accumulated their
    /// quotients, in their order.
    pub open spec fn spec_accumulated(
        components: Seq<C>,
        trace: TraceModel,
        accumulator: AccumulatorModel,
        n: nat,
    ) -> AccumulatorModel
        decreases n,
    {
        if n == 0 {
            accumulator
        } else {
            components[n - 1].spec_on_domain(
                trace,
                Self::spec_accumulated(components, trace, accumulator, (n - 1) as nat),
            )
        }
    }

    /// The accumulator that holds nothing yet: one power of the random
    /// coefficient for each constraint, and no accumulation on any domain
    /// of up to `2^bound` points.
    pub open spec fn spec_fresh(random_coeff: QM31, bound: u32, total: nat) -> AccumulatorModel {
        AccumulatorModel {
            powers: spec_powers(random_coeff, total),
            columns: Seq::new((bound + 1) as nat, |l: int| None),
        }
    }

    /// The coefficients of the `k`-th coordinate polynomial of the
    /// composition polynomial.
    pub open spec fn spec_composition(
        components: Seq<C>,
        random_coeff: QM31,
        trace: TraceModel,
        k: int,
    ) -> Seq<M31> {
        spec_finalized(
            Self::spec_accumulated(
                components,
                trace,
                Self::spec_fresh(
                    random_coeff,
                    spec_composition_log_degree_bound(components, components.len()),
                    Self::spec_total_constraints(components, components.len()) as nat,
                ),
                components.len(),
            ),
            k,
        )
    }

    /// The coordinate polynomials of the composition polynomial: every
    /// component accumulates the quotients of its constraints, each with its
    /// power of the random coefficient, and the accumulations are summed.
    /// `None` exactly where the degree bound of the composition polynomial
    /// exceeds 30 or the number of the constraints does not fit a `usize`.
    pub fn compute_composition_polynomial(&self, random_coeff: QM31, trace: &Trace<'_>) -> (r:
        Option<Vec<CirclePoly>>)
        ensures
            r.is_some() == (Self::spec_total_constraints(
                self.components@,
                self.components.len() as nat,
            ) <= usize::MAX && spec_composition_log_degree_bound(
                self.components@,
                self.components.len() as nat,
            ) <= 30),
            match r {
                Some(polys) => {
                    &&& polys.len() == 4
                    &&& forall|k: int|
                        0 <= k < 4 ==> (#[trigger] polys[k]).wf() && polys[k].log_size
                            == polys[0].log_size
                    &&& forall|k: int|
                        0 <= k < 4 ==> (#[trigger] polys[k]).coeffs@ == Self::spec_composition(
                            self.components@,
                            random_coeff,
                            trace.model(),
                            k,
                        )
                },
                None => true,
            },
    {
        let mut total_constraints: usize = 0;
        let mut i: usize = 0;
        while i < self.components.len()
            invariant
                i <= self.components.len(),
                total_constraints == Self::spec_total_constraints(self.components@, i as nat),
            decreases self.components.len() - i,
        {
            let n = self.components[i].n_constraints();
            if n > usize::MAX - total_constraints {
                proof {
                    Self::lemma_total_constraints(
                        self.components@,
                        (i + 1) as nat,
                        self.components.len() as nat,
                    );
                }
                return None;
            }
            total_constraints = total_constraints + n;
            i = i + 1;
        }
        let bound = self.components().composition_log_degree_bound();
        if bound > 30 {
            return None;
        }
        let mut accumulator = DomainEvaluationAccumulator::new(
            random_coeff,
            bound,
            total_constraints,
        );
        let ghost fresh = Self::spec_fresh(random_coeff, bound, total_constraints as nat);
        proof {
            assert(accumulator.model().columns =~= fresh.columns);
        }
        let mut c: usize = 0;
        while c < self.components.len()
            invariant
                c <= self.components.len(),
                accumulator.wf(),
                accumulator.model() == Self::spec_accumulated(
                    self.components@,
                    trace.model(),
                    fresh,
                    c as nat,
                ),
            decreases self.components.len() - c,
        {
            self.components[c].evaluate_constraint_quotients_on_domain(trace, &mut accumulator);
            c = c + 1;
        }
        Some(accumulator.finalize())
    }
}

} // verus!
