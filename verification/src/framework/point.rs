//! The evaluator at a point out of the domain: it reads the sampled values
//! of the mask and accumulates the quotient of each constraint by the
//! vanishing polynomial of the trace domain.

use vstd::prelude::*;
use crate::air::accumulation::PointEvaluationAccumulator;
use crate::air::component::spec_mask_view;
use crate::fields::m31::M31;
use crate::fields::qm31::QM31;
use crate::fraction::Fraction;
use crate::framework::columns::PreProcessedColumnId;
use crate::framework::eval::{EvalAtRow, INTERACTION_TRACE_IDX};
use crate::framework::logup::{spec_write_frac, LogupAtRow, LogupModel};
use crate::utils::copy_vec;
use crate::verification::PREPROCESSED_TRACE_IDX;

verus! {

/// The state of the evaluator as plain values.
pub struct PointModel {
    /// For each tree and each column of the component, the sampled values.
    pub mask: Seq<Seq<Seq<QM31>>>,
    pub accumulator: PointEvaluationAccumulator,
    /// For each tree, the next column to read.
    pub col_index: Seq<usize>,
    /// The inverse of the vanishing polynomial of the trace domain at the
    /// point.
    pub denom_inverse: QM31,
    pub logup: LogupModel<QM31>,
    /// Whether a request found no column, or a column with another number
    /// of values than it asked for.
    pub mismatch: bool,
}

/// As many zeros as asked for.
pub open spec fn spec_zeros(n: nat) -> Seq<QM31> {
    Seq::new(n, |i: int| QM31::spec_zero())
}

/// The state after the next column of the tree was read, and its values. A
/// request that the mask cannot serve is answered with zeros and marks the
/// state; the columns stay where they are.
pub open spec fn spec_read(m: PointModel, interaction: usize, n: nat) -> (PointModel, Seq<QM31>) {
    if interaction < m.mask.len() && interaction < m.col_index.len() && m.col_index[interaction as int]
        < m.mask[interaction as int].len() && m.mask[interaction as int][m.col_index[interaction as int] as int].len()
        == n {
        let col = m.col_index[interaction as int];
        (
            PointModel { col_index: m.col_index.update(interaction as int, (col + 1) as usize), ..m },
            m.mask[interaction as int][col as int],
        )
    } else {
        (PointModel { mismatch: true, ..m }, spec_zeros(n))
    }
}

/// Evaluates the constraints at a point out of the domain.
pub struct PointEvaluator {
    pub mask: Vec<Vec<Vec<QM31>>>,
    pub evaluation_accumulator: PointEvaluationAccumulator,
    pub col_index: Vec<usize>,
    pub denom_inverse: QM31,
    pub logup: LogupAtRow<QM31>,
    pub mismatch: bool,
}

impl PointEvaluator {
    /// The evaluator before it read anything.
    pub open spec fn spec_new(
        mask: Seq<Seq<Seq<QM31>>>,
        accumulator: PointEvaluationAccumulator,
        denom_inverse: QM31,
        log_size: u32,
        claimed_sum: QM31,
    ) -> PointModel {
        PointModel {
            mask,
            accumulator,
            col_index: Seq::new(mask.len(), |t: int| 0usize),
            denom_inverse,
            logup: LogupModel {
                interaction: INTERACTION_TRACE_IDX,
                cumsum_shift: LogupAtRow::<QM31>::spec_shift(claimed_sum, log_size),
                fracs: Seq::empty(),
                is_finalized: true,
                log_size,
            },
            mismatch: false,
        }
    }

    pub fn new(
        mask: Vec<Vec<Vec<QM31>>>,
        evaluation_accumulator: PointEvaluationAccumulator,
        denom_inverse: QM31,
        log_size: u32,
        claimed_sum: QM31,
    ) -> (r: PointEvaluator)
        requires
            log_size <= 30,
        ensures
            r.model() == Self::spec_new(
                spec_mask_view(mask@),
                evaluation_accumulator,
                denom_inverse,
                log_size,
                claimed_sum,
            ),
    {
        let mut col_index: Vec<usize> = Vec::with_capacity(mask.len());
        let mut t: usize = 0;
        while t < mask.len()
            invariant
                t <= mask.len(),
                col_index.len() == t,
                forall|k: int| 0 <= k < t ==> col_index[k] == 0,
            decreases mask.len() - t,
        {
            col_index.push(0);
            t = t + 1;
        }
        let r = PointEvaluator {
            mask,
            evaluation_accumulator,
            col_index,
            denom_inverse,
            logup: LogupAtRow::new(INTERACTION_TRACE_IDX, claimed_sum, log_size),
            mismatch: false,
        };
        proof {
            assert(r.col_index@ =~= Seq::new(spec_mask_view(mask@).len(), |t: int| 0usize));
        }
        r
    }

    /// Reads the next column of the tree, which must hold `n` values.
    fn read(&mut self, interaction: usize, n: usize) -> (r: Vec<QM31>)
        ensures
            (final(self).model(), r@) == spec_read(old(self).model(), interaction, n as nat),
            r.len() == n,
    {
        if interaction < self.mask.len() && interaction < self.col_index.len() {
            let col = self.col_index[interaction];
            if col < self.mask[interaction].len() && self.mask[interaction][col].len() == n {
                self.col_index.set(interaction, col + 1);
                return copy_vec(&self.mask[interaction][col]);
            }
        }
        self.mismatch = true;
        let mut zeros: Vec<QM31> = Vec::with_capacity(n);
        let mut i: usize = 0;
        while i < n
            invariant
                i <= n,
                zeros.len() == i,
                forall|k: int| 0 <= k < i ==> zeros[k] == QM31::spec_zero(),
            decreases n - i,
        {
            zeros.push(QM31::zero());
            i = i + 1;
        }
        proof {
            assert(zeros@ =~= spec_zeros(n as nat));
        }
        zeros
    }
}

impl EvalAtRow for PointEvaluator {
    type F = QM31;

    type EF = QM31;

    type Model = PointModel;

    open spec fn model(&self) -> PointModel {
        PointModel {
            mask: spec_mask_view(self.mask@),
            accumulator: self.evaluation_accumulator,
            col_index: self.col_index@,
            denom_inverse: self.denom_inverse,
            logup: self.logup.model(),
            mismatch: self.mismatch,
        }
    }

    open spec fn spec_base(v: M31) -> QM31 {
        QM31::spec_from_m31(v)
    }

    open spec fn spec_secure(v: QM31) -> QM31 {
        v
    }

    open spec fn spec_embed(v: QM31) -> QM31 {
        v
    }

    open spec fn spec_ef_add(a: QM31, b: QM31) -> QM31 {
        a.spec_add(b)
    }

    open spec fn spec_ef_sub(a: QM31, b: QM31) -> QM31 {
        a.spec_sub(b)
    }

    open spec fn spec_ef_mul(a: QM31, b: QM31) -> QM31 {
        a.spec_mul(b)
    }

    open spec fn spec_combine_ef(values: Seq<QM31>) -> QM31 {
        QM31::spec_from_partial_evals(values)
    }

    open spec fn spec_next_interaction_mask(m: PointModel, interaction: usize, offsets: Seq<isize>) -> (
        PointModel,
        Seq<QM31>,
    ) {
        spec_read(m, interaction, offsets.len())
    }

    open spec fn spec_get_preprocessed_column(m: PointModel, id: Seq<char>) -> (PointModel, QM31) {
        let (after, values) = spec_read(m, PREPROCESSED_TRACE_IDX, 1);
        (after, values[0])
    }

    /// The quotient of the constraint is accumulated.
    open spec fn spec_add_constraint(m: PointModel, constraint: QM31) -> PointModel {
        PointModel {
            accumulator: m.accumulator.spec_accumulate(m.denom_inverse.spec_mul(constraint)),
            ..m
        }
    }

    open spec fn spec_logup(m: PointModel) -> LogupModel<QM31> {
        m.logup
    }

    open spec fn spec_write_logup_frac(m: PointModel, fraction: Fraction<QM31, QM31>) -> PointModel {
        PointModel { logup: spec_write_frac(m.logup, fraction), ..m }
    }

    open spec fn spec_note_relation(m: PointModel, name: Seq<char>, multiplicity: QM31, values: Seq<QM31>) -> PointModel {
        m
    }

    open spec fn spec_close_logup(m: PointModel) -> PointModel {
        PointModel { logup: LogupModel { is_finalized: true, ..m.logup }, ..m }
    }

    proof fn lemma_logup_kept(m: PointModel, interaction: usize, offsets: Seq<isize>, id: Seq<char>, constraint: QM31, values: Seq<QM31>) {
    }

    proof fn lemma_logup_written(m: PointModel, fraction: Fraction<QM31, QM31>) {
    }

    fn base(v: M31) -> (r: QM31) {
        QM31::from_base(v)
    }

    fn secure(v: QM31) -> (r: QM31) {
        v
    }

    fn embed(v: QM31) -> (r: QM31) {
        v
    }

    fn ef_add(a: QM31, b: QM31) -> (r: QM31) {
        a.add(b)
    }

    fn ef_sub(a: QM31, b: QM31) -> (r: QM31) {
        a.sub(b)
    }

    fn ef_mul(a: QM31, b: QM31) -> (r: QM31) {
        a.mul(b)
    }

    fn combine_ef(values: [QM31; 4]) -> (r: QM31) {
        QM31::from_partial_evals(values)
    }

    fn next_interaction_mask(&mut self, interaction: usize, offsets: &Vec<isize>) -> (r: Vec<QM31>) {
        self.read(interaction, offsets.len())
    }

    fn get_preprocessed_column(&mut self, column: PreProcessedColumnId) -> (r: QM31) {
        let values = self.read(PREPROCESSED_TRACE_IDX, 1);
        values[0]
    }

    fn add_constraint(&mut self, constraint: QM31) {
        self.evaluation_accumulator.accumulate(self.denom_inverse.mul(constraint));
    }

    fn logup_fracs(&self) -> (r: Vec<Fraction<QM31, QM31>>) {
        copy_vec(&self.logup.fracs)
    }

    fn logup_interaction(&self) -> (r: usize) {
        self.logup.interaction
    }

    fn logup_shift(&self) -> (r: QM31) {
        self.logup.cumsum_shift
    }

    fn write_logup_frac(&mut self, fraction: Fraction<QM31, QM31>) {
        if self.logup.fracs.len() == 0 {
            self.logup.is_finalized = false;
        }
        self.logup.fracs.push(fraction);
    }

    fn note_relation(&mut self, name: &String, multiplicity: QM31, values: &Vec<QM31>) {
    }

    fn close_logup(&mut self) {
        self.logup.is_finalized = true;
    }
}

} // verus!
