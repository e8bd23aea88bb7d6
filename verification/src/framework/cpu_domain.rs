//! The evaluator on the rows of the evaluation domain: it reads the values
//! of the columns at a row and at offsets from it, and sums the constraints
//! with the powers of the random coefficient.

use vstd::prelude::*;
use vstd::arithmetic::div_mod::{
    lemma_add_mod_noop_right, lemma_mod_multiples_vanish, lemma_mul_mod_noop_left,
    lemma_sub_mod_noop_right,
};
use vstd::arithmetic::power2::{lemma2_to64, lemma_pow2_adds, lemma_pow2_pos, pow2};
use crate::fields::m31::M31;
use crate::fields::qm31::QM31;
use crate::fraction::Fraction;
use crate::framework::columns::PreProcessedColumnId;
use crate::framework::eval::{EvalAtRow, INTERACTION_TRACE_IDX};
use crate::framework::logup::{spec_write_frac, LogupAtRow, LogupModel};
use crate::utils::{
    bit_reverse_index, copy_vec, lemma_bit_reverse_bound, lemma_pow2_monotone, pow2_usize,
    spec_bit_reverse_index,
};
use crate::verification::PREPROCESSED_TRACE_IDX;

verus! {

/// The row, in bit-reversed order, of the point that lies `offset` steps of
/// the trace domain behind the point of row `i`. The evaluation domain has
/// `2^eval_log_size` points, in two halves that run in opposite directions;
/// a step of the trace domain is `2^(eval_log_size - domain_log_size - 1)`
/// positions within a half.
pub open spec fn spec_offset_index(i: nat, domain_log_size: u32, eval_log_size: u32, offset: int) -> nat {
    let prev = spec_bit_reverse_index(i, eval_log_size as nat) as int;
    let half = pow2((eval_log_size - 1) as nat) as int;
    let step = offset * pow2((eval_log_size - domain_log_size - 1) as nat);
    let moved = if prev < half {
        (prev + step) % half
    } else {
        (prev - step) % half + half
    };
    spec_bit_reverse_index(moved as nat, eval_log_size as nat)
}

pub fn offset_bit_reversed_circle_domain_index(
    i: usize,
    domain_log_size: u32,
    eval_log_size: u32,
    offset: isize,
) -> (r: usize)
    requires
        domain_log_size < eval_log_size <= 30,
        i < pow2(eval_log_size as nat),
    ensures
        r == spec_offset_index(i as nat, domain_log_size, eval_log_size, offset as int),
        r < pow2(eval_log_size as nat),
{
    let prev = bit_reverse_index(i, eval_log_size);
    let half = pow2_usize(eval_log_size - 1);
    let unit = pow2_usize(eval_log_size - domain_log_size - 1);
    let ghost h = half as int;
    let ghost step = (offset as int) * (unit as int);
    proof {
        lemma2_to64();
        lemma_bit_reverse_bound(i as nat, eval_log_size as nat);
        lemma_pow2_monotone((eval_log_size - 1) as nat, 29);
        lemma_pow2_monotone((eval_log_size - domain_log_size - 1) as nat, 29);
        lemma_pow2_adds((eval_log_size - 1) as nat, 1);
        lemma_pow2_adds((eval_log_size - 1) as nat, (65 - eval_log_size) as nat);
        lemma_pow2_pos((eval_log_size - 1) as nat);
        lemma_pow2_pos((65 - eval_log_size) as nat);
        assert(pow2(29) == 0x2000_0000);
        assert(pow2(64) == 0x1_0000_0000_0000_0000);
    }
    let lifted: i128 = (offset as i128) + 0x1_0000_0000_0000_0000i128;
    let reduced: u128 = (lifted as u128) % (half as u128);
    proof {
        let k = pow2((65 - eval_log_size) as nat) as int;
        assert(h * k == 0x1_0000_0000_0000_0000);
        lemma_mod_multiples_vanish(k, offset as int, h);
        assert(reduced as int == (offset as int) % h);
        assert((reduced as int) * (unit as int) <= 0x2000_0000 * 0x2000_0000) by (nonlinear_arith)
            requires
                0 <= reduced as int <= 0x2000_0000,
                0 <= unit as int <= 0x2000_0000,
        ;
        lemma_mul_mod_noop_left(offset as int, unit as int, h);
    }
    let s: u128 = (reduced * (unit as u128)) % (half as u128);
    proof {
        assert(s as int == step % h);
        lemma_add_mod_noop_right(prev as int, step, h);
        lemma_sub_mod_noop_right(prev as int, step, h);
    }
    let moved: u128 = if prev < half {
        ((prev as u128) + s) % (half as u128)
    } else {
        ((prev as u128) - s) % (half as u128) + (half as u128)
    };
    proof {
        lemma_bit_reverse_bound(moved as nat, eval_log_size as nat);
    }
    bit_reverse_index(moved as usize, eval_log_size)
}

/// The state of the evaluator as plain values.
pub struct CpuDomainModel {
    /// For each tree and each column of the component, its values on the
    /// evaluation domain.
    pub trace: Seq<Seq<Seq<M31>>>,
    /// For each tree, the next column to read.
    pub col_index: Seq<usize>,
    pub row: usize,
    /// The power of the random coefficient for each constraint.
    pub coeffs: Seq<QM31>,
    /// The sum of the constraints so far, each times its power.
    pub row_res: QM31,
    pub constraint_index: usize,
    pub domain_log_size: u32,
    pub eval_domain_log_size: u32,
    pub logup: LogupModel<QM31>,
    /// Whether a request found no column, or a constraint no power.
    pub mismatch: bool,
}

/// The values of the columns as sequences.
pub open spec fn spec_trace_view(trace: Seq<Vec<Vec<M31>>>) -> Seq<Seq<Seq<M31>>> {
    Seq::new(trace.len(), |t: int| Seq::new(trace[t].len() as nat, |c: int| trace[t][c]@))
}

/// Whether the row lies in the evaluation domain, which is larger than the
/// trace domain.
pub open spec fn spec_geometry_fits(m: CpuDomainModel) -> bool {
    &&& m.domain_log_size < m.eval_domain_log_size <= 30
    &&& m.row < pow2(m.eval_domain_log_size as nat)
}

/// The value of the column at the offset from the row.
pub open spec fn spec_value_at(m: CpuDomainModel, column: Seq<M31>, offset: isize) -> M31 {
    if offset == 0 {
        column[m.row as int]
    } else {
        column[spec_offset_index(
            m.row as nat,
            m.domain_log_size,
            m.eval_domain_log_size,
            offset as int,
        ) as int]
    }
}

/// The state after the next column of the tree was read, and its values at
/// the offsets from the row. A request that finds no column of the size of
/// the evaluation domain is answered with zeros and marks the state.
pub open spec fn spec_read_row(m: CpuDomainModel, interaction: usize, offsets: Seq<isize>) -> (
    CpuDomainModel,
    Seq<M31>,
) {
    if spec_geometry_fits(m) && interaction < m.trace.len() && interaction < m.col_index.len()
        && m.col_index[interaction as int] < m.trace[interaction as int].len()
        && m.trace[interaction as int][m.col_index[interaction as int] as int].len() == pow2(
        m.eval_domain_log_size as nat,
    ) {
        let col = m.col_index[interaction as int];
        let column = m.trace[interaction as int][col as int];
        (
            CpuDomainModel {
                col_index: m.col_index.update(interaction as int, (col + 1) as usize),
                ..m
            },
            Seq::new(offsets.len(), |k: int| spec_value_at(m, column, offsets[k])),
        )
    } else {
        (CpuDomainModel { mismatch: true, ..m }, Seq::new(offsets.len(), |k: int| M31::spec_zero()))
    }
}

/// Evaluates the constraints at one row of the evaluation domain.
pub struct CpuDomainEvaluator<'a> {
    pub trace_eval: &'a Vec<Vec<Vec<M31>>>,
    pub column_index_per_interaction: Vec<usize>,
    pub row: usize,
    pub random_coeff_powers: &'a Vec<QM31>,
    pub row_res: QM31,
    pub constraint_index: usize,
    pub domain_log_size: u32,
    pub eval_domain_log_size: u32,
    pub logup: LogupAtRow<QM31>,
    pub mismatch: bool,
}

impl<'a> CpuDomainEvaluator<'a> {
    /// The evaluator before it read anything.
    pub open spec fn spec_new(
        trace: Seq<Seq<Seq<M31>>>,
        row: usize,
        coeffs: Seq<QM31>,
        domain_log_size: u32,
        eval_domain_log_size: u32,
        log_size: u32,
        claimed_sum: QM31,
    ) -> CpuDomainModel {
        CpuDomainModel {
            trace,
            col_index: Seq::new(trace.len(), |t: int| 0usize),
            row,
            coeffs,
            row_res: QM31::spec_zero(),
            constraint_index: 0,
            domain_log_size,
            eval_domain_log_size,
            logup: LogupModel {
                interaction: INTERACTION_TRACE_IDX,
                cumsum_shift: LogupAtRow::<QM31>::spec_shift(claimed_sum, log_size),
                fracs: Seq::empty(),
                is_finalized: true,
                log_size,
            },
            mismatch: false,
        }
    }

    pub fn new(
        trace_eval: &'a Vec<Vec<Vec<M31>>>,
        row: usize,
        random_coeff_powers: &'a Vec<QM31>,
        domain_log_size: u32,
        eval_domain_log_size: u32,
        log_size: u32,
        claimed_sum: QM31,
    ) -> (r: CpuDomainEvaluator<'a>)
        requires
            log_size <= 30,
        ensures
            r.model() == Self::spec_new(
                spec_trace_view(trace_eval@),
                row,
                random_coeff_powers@,
                domain_log_size,
                eval_domain_log_size,
                log_size,
                claimed_sum,
            ),
    {
        let mut col_index: Vec<usize> = Vec::with_capacity(trace_eval.len());
        let mut t: usize = 0;
        while t < trace_eval.len()
            invariant
                t <= trace_eval.len(),
                col_index.len() == t,
                forall|k: int| 0 <= k < t ==> col_index[k] == 0,
            decreases trace_eval.len() - t,
        {
            col_index.push(0);
            t = t + 1;
        }
        let r = CpuDomainEvaluator {
            trace_eval,
            column_index_per_interaction: col_index,
            row,
            random_coeff_powers,
            row_res: QM31::zero(),
            constraint_index: 0,
            domain_log_size,
            eval_domain_log_size,
            logup: LogupAtRow::new(INTERACTION_TRACE_IDX, claimed_sum, log_size),
            mismatch: false,
        };
        proof {
            assert(r.column_index_per_interaction@ =~= Seq::new(
                spec_trace_view(trace_eval@).len(),
                |t: int| 0usize,
            ));
        }
        r
    }

    /// Whether the row lies in the evaluation domain, which is larger than
    /// the trace domain.
    fn geometry_fits(&self) -> (r: bool)
        ensures
            r == spec_geometry_fits(self.model()),
    {
        if !(self.domain_log_size < self.eval_domain_log_size && self.eval_domain_log_size <= 30) {
            return false;
        }
        self.row < pow2_usize(self.eval_domain_log_size)
    }

    /// Reads the next column of the tree at the offsets from the row.
    fn read(&mut self, interaction: usize, offsets: &Vec<isize>) -> (r: Vec<M31>)
        ensures
            (final(self).model(), r@) == spec_read_row(old(self).model(), interaction, offsets@),
            r.len() == offsets.len(),
    {
        let ghost m = self.model();
        let mut out: Vec<M31> = Vec::with_capacity(offsets.len());
        if self.geometry_fits() && interaction < self.trace_eval.len() && interaction
            < self.column_index_per_interaction.len() {
            let col = self.column_index_per_interaction[interaction];
            if col < self.trace_eval[interaction].len() && self.trace_eval[interaction][col].len()
                == pow2_usize(self.eval_domain_log_size) {
                let column = &self.trace_eval[interaction][col];
                let mut k: usize = 0;
                while k < offsets.len()
                    invariant
                        k <= offsets.len(),
                        out.len() == k,
                        m == self.model(),
                        spec_geometry_fits(m),
                        column.len() == pow2(m.eval_domain_log_size as nat),
                        forall|j: int| 0 <= j < k ==> out[j] == spec_value_at(m, column@, offsets[j]),
                    decreases offsets.len() - k,
                {
                    let value = if offsets[k] == 0 {
                        column[self.row]
                    } else {
                        column[offset_bit_reversed_circle_domain_index(
                            self.row,
                            self.domain_log_size,
                            self.eval_domain_log_size,
                            offsets[k],
                        )]
                    };
                    out.push(value);
                    k = k + 1;
                }
                self.column_index_per_interaction.set(interaction, col + 1);
                proof {
                    assert(out@ =~= spec_read_row(m, interaction, offsets@).1);
                }
                return out;
            }
        }
        self.mismatch = true;
        let mut k: usize = 0;
        while k < offsets.len()
            invariant
                k <= offsets.len(),
                out.len() == k,
                forall|j: int| 0 <= j < k ==> out[j] == M31::spec_zero(),
            decreases offsets.len() - k,
        {
            out.push(M31::zero());
            k = k + 1;
        }
        proof {
            assert(out@ =~= spec_read_row(m, interaction, offsets@).1);
        }
        out
    }
}

impl<'a> EvalAtRow for CpuDomainEvaluator<'a> {
    type F = M31;

    type EF = QM31;

    type Model = CpuDomainModel;

    open spec fn model(&self) -> CpuDomainModel {
        CpuDomainModel {
            trace: spec_trace_view(self.trace_eval@),
            col_index: self.column_index_per_interaction@,
            row: self.row,
            coeffs: self.random_coeff_powers@,
            row_res: self.row_res,
            constraint_index: self.constraint_index,
            domain_log_size: self.domain_log_size,
            eval_domain_log_size: self.eval_domain_log_size,
            logup: self.logup.model(),
            mismatch: self.mismatch,
        }
    }

    open spec fn spec_base(v: M31) -> M31 {
        v
    }

    open spec fn spec_secure(v: QM31) -> QM31 {
        v
    }

    open spec fn spec_embed(v: M31) -> QM31 {
        QM31::spec_from_m31(v)
    }

    open spec fn spec_ef_add(a: QM31, b: QM31) -> QM31 {
        a.spec_add(b)
    }

    open spec fn spec_ef_sub(a: QM31, b: QM31) -> QM31 {
        a.spec_sub(b)
    }

    open spec fn spec_ef_mul(a: QM31, b: QM31) -> QM31 {
        a.spec_mul(b)
    }

    open spec fn spec_combine_ef(values: Seq<M31>) -> QM31 {
        QM31::spec_from_m31_array(values)
    }

    open spec fn spec_next_interaction_mask(m: CpuDomainModel, interaction: usize, offsets: Seq<isize>) -> (
        CpuDomainModel,
        Seq<M31>,
    ) {
        spec_read_row(m, interaction, offsets)
    }

    open spec fn spec_get_preprocessed_column(m: CpuDomainModel, id: Seq<char>) -> (CpuDomainModel, M31) {
        let (after, values) = spec_read_row(m, PREPROCESSED_TRACE_IDX, seq![0isize]);
        (after, values[0])
    }

    /// The constraint joins the sum of the row with the next power of the
    /// random coefficient. A constraint for which no power is left marks the
    /// state.
    open spec fn spec_add_constraint(m: CpuDomainModel, constraint: QM31) -> CpuDomainModel {
        if m.constraint_index < m.coeffs.len() {
            CpuDomainModel {
                row_res: m.row_res.spec_add(m.coeffs[m.constraint_index as int].spec_mul(constraint)),
                constraint_index: (m.constraint_index + 1) as usize,
                ..m
            }
        } else {
            CpuDomainModel { mismatch: true, ..m }
        }
    }

    open spec fn spec_logup(m: CpuDomainModel) -> LogupModel<QM31> {
        m.logup
    }

    open spec fn spec_write_logup_frac(m: CpuDomainModel, fraction: Fraction<QM31, QM31>) -> CpuDomainModel {
        CpuDomainModel { logup: spec_write_frac(m.logup, fraction), ..m }
    }

    open spec fn spec_note_relation(m: CpuDomainModel, name: Seq<char>, multiplicity: QM31, values: Seq<M31>) -> CpuDomainModel {
        m
    }

    open spec fn spec_close_logup(m: CpuDomainModel) -> CpuDomainModel {
        CpuDomainModel { logup: LogupModel { is_finalized: true, ..m.logup }, ..m }
    }

    proof fn lemma_logup_kept(
        m: CpuDomainModel,
        interaction: usize,
        offsets: Seq<isize>,
        id: Seq<char>,
        constraint: QM31, values: Seq<M31>) {
    }

    proof fn lemma_logup_written(m: CpuDomainModel, fraction: Fraction<QM31, QM31>) {
    }

    fn base(v: M31) -> (r: M31) {
        v
    }

    fn secure(v: QM31) -> (r: QM31) {
        v
    }

    fn embed(v: M31) -> (r: QM31) {
        QM31::from_base(v)
    }

    fn ef_add(a: QM31, b: QM31) -> (r: QM31) {
        a.add(b)
    }

    fn ef_sub(a: QM31, b: QM31) -> (r: QM31) {
        a.sub(b)
    }

    fn ef_mul(a: QM31, b: QM31) -> (r: QM31) {
        a.mul(b)
    }

    fn combine_ef(values: [M31; 4]) -> (r: QM31) {
        QM31::from_m31_array(values)
    }

    fn next_interaction_mask(&mut self, interaction: usize, offsets: &Vec<isize>) -> (r: Vec<M31>) {
        self.read(interaction, offsets)
    }

    fn get_preprocessed_column(&mut self, column: PreProcessedColumnId) -> (r: M31) {
        let mut here: Vec<isize> = Vec::new();
        here.push(0);
        proof {
            assert(here@ =~= seq![0isize]);
        }
        let values = self.read(PREPROCESSED_TRACE_IDX, &here);
        values[0]
    }

    fn add_constraint(&mut self, constraint: QM31) {
        if self.constraint_index < self.random_coeff_powers.len() {
            self.row_res = self.row_res.add(
                self.random_coeff_powers[self.constraint_index].mul(constraint),
            );
            self.constraint_index = self.constraint_index + 1;
        } else {
            self.mismatch = true;
        }
    }

    fn logup_fracs(&self) -> (r: Vec<Fraction<QM31, QM31>>) {
        copy_vec(&self.logup.fracs)
    }

    fn logup_interaction(&self) -> (r: usize) {
        self.logup.interaction
    }

    fn logup_shift(&self) -> (r: QM31) {
        self.logup.cumsum_shift
    }

    fn write_logup_frac(&mut self, fraction: Fraction<QM31, QM31>) {
        if self.logup.fracs.len() == 0 {
            self.logup.is_finalized = false;
        }
        self.logup.fracs.push(fraction);
    }

    fn note_relation(&mut self, name: &String, multiplicity: QM31, values: &Vec<M31>) {
    }

    fn close_logup(&mut self) {
        self.logup.is_finalized = true;
    }
}

} // verus!
