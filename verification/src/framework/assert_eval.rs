//! The evaluator that checks the constraints of a component on the rows of
//! a trace: on the trace domain every constraint is zero.

use vstd::prelude::*;
use vstd::arithmetic::power2::pow2;
use crate::fields::m31::M31;
use crate::fields::qm31::QM31;
use crate::fraction::Fraction;
use crate::framework::columns::PreProcessedColumnId;
use crate::framework::component::FrameworkEval;
use crate::framework::counts::spec_one_more;
use crate::framework::eval::{EvalAtRow, INTERACTION_TRACE_IDX};
use crate::framework::logup::{spec_write_frac, LogupAtRow, LogupModel};
use crate::framework::relation_tracker::{offset_row, spec_columns_view, spec_offset_row};
use crate::poly::domain::{CanonicCoset, CircleDomain};
use crate::prover::poly::circle::{spec_extend, CirclePoly};
use crate::prover::poly::fft::spec_fft;
use crate::utils::{copy_vec, pow2_usize};
use crate::verification::PREPROCESSED_TRACE_IDX;

verus! {

/// The state of the evaluator as plain values.
pub ghost struct AssertModel {
    /// For each tree its columns, each with its values on the rows of the
    /// trace.
    pub trace: Seq<Seq<Seq<M31>>>,
    /// For each tree, the next column to read.
    pub col_index: Seq<usize>,
    pub row: usize,
    /// The number of the constraints that were taken in.
    pub constraint_counter: usize,
    /// The first constraint that was not zero, if there was one.
    pub failed: Option<usize>,
    pub logup: LogupModel<QM31>,
}

/// Whether the next column of the tree is there and holds the row.
pub open spec fn spec_can_read(m: AssertModel, interaction: usize) -> bool {
    &&& 1 <= m.logup.log_size <= 30
    &&& m.row < pow2(m.logup.log_size as nat)
    &&& interaction < m.trace.len()
    &&& interaction < m.col_index.len()
    &&& m.col_index[interaction as int] < m.trace[interaction as int].len()
    &&& m.trace[interaction as int][m.col_index[interaction as int] as int].len() == pow2(
        m.logup.log_size as nat,
    )
}

/// The value of the column at the offset from the row.
pub open spec fn spec_value_at(m: AssertModel, column: Seq<M31>, offset: isize) -> M31 {
    if offset == 0 {
        column[m.row as int]
    } else {
        column[spec_offset_row(m.row as nat, m.logup.log_size, offset as int) as int]
    }
}

/// The state after the next column of the tree was read, and its values at
/// the offsets from the row. Where the column is not there, or does not
/// hold the row, nothing changes and the values are zero.
pub open spec fn spec_read_row(m: AssertModel, interaction: usize, offsets: Seq<isize>) -> (
    AssertModel,
    Seq<M31>,
) {
    if spec_can_read(m, interaction) {
        let col = m.col_index[interaction as int];
        let column = m.trace[interaction as int][col as int];
        (
            AssertModel {
                col_index: m.col_index.update(interaction as int, spec_one_more(col)),
                ..m
            },
            Seq::new(offsets.len(), |k: int| spec_value_at(m, column, offsets[k])),
        )
    } else {
        (m, Seq::new(offsets.len(), |k: int| M31::spec_zero()))
    }
}

/// Evaluates the constraints of a component at a row of the trace domain,
/// and notes the first of them that is not zero.
pub struct AssertEvaluator<'a> {
    pub trace: &'a Vec<Vec<&'a Vec<M31>>>,
    pub col_index: Vec<usize>,
    pub row: usize,
    pub constraint_counter: usize,
    /// The first constraint that was not zero, if there was one.
    pub failed: Option<usize>,
    pub logup: LogupAtRow<QM31>,
}

impl<'a> AssertEvaluator<'a> {
    /// The evaluator before it was asked anything.
    pub open spec fn spec_new(
        trace: Seq<Seq<Seq<M31>>>,
        row: usize,
        log_size: u32,
        claimed_sum: QM31,
    ) -> AssertModel {
        AssertModel {
            trace,
            col_index: Seq::new(trace.len(), |t: int| 0usize),
            row,
            constraint_counter: 0,
            failed: None,
            logup: LogupModel {
                interaction: INTERACTION_TRACE_IDX,
                cumsum_shift: LogupAtRow::<QM31>::spec_shift(claimed_sum, log_size),
                fracs: Seq::empty(),
                is_finalized: true,
                log_size,
            },
        }
    }

    pub fn new(trace: &'a Vec<Vec<&'a Vec<M31>>>, row: usize, log_size: u32, claimed_sum: QM31) -> (r:
        AssertEvaluator<'a>)
        requires
            log_size <= 30,
        ensures
            r.model() == Self::spec_new(spec_columns_view(trace@), row, log_size, claimed_sum),
    {
        let mut col_index: Vec<usize> = Vec::with_capacity(trace.len());
        let mut t: usize = 0;
        while t < trace.len()
            invariant
                t <= trace.len(),
                col_index.len() == t,
                forall|k: int| 0 <= k < t ==> col_index[k] == 0,
            decreases trace.len() - t,
        {
            col_index.push(0);
            t = t + 1;
        }
        let r = AssertEvaluator {
            trace,
            col_index,
            row,
            constraint_counter: 0,
            failed: None,
            logup: LogupAtRow::new(INTERACTION_TRACE_IDX, claimed_sum, log_size),
        };
        proof {
            assert(r.model().col_index =~= Seq::new(spec_columns_view(trace@).len(), |t: int| 0usize));
        }
        r
    }

    /// Reads the next column of the tree at the offsets from the row.
    fn read(&mut self, interaction: usize, offsets: &Vec<isize>) -> (r: Vec<M31>)
        ensures
            (final(self).model(), r@) == spec_read_row(old(self).model(), interaction, offsets@),
            r.len() == offsets.len(),
    {
        let ghost m = self.model();
        let log_size = self.logup.log_size;
        let mut out: Vec<M31> = Vec::with_capacity(offsets.len());
        if 1 <= log_size && log_size <= 30 && interaction < self.trace.len() && interaction
            < self.col_index.len() {
            let size = pow2_usize(log_size);
            let col = self.col_index[interaction];
            if self.row < size && col < self.trace[interaction].len()
                && self.trace[interaction][col].len() == size {
                let column = self.trace[interaction][col];
                assert(m.trace[interaction as int][col as int] == column@);
                assert(spec_can_read(m, interaction));
                let mut k: usize = 0;
                while k < offsets.len()
                    invariant
                        k <= offsets.len(),
                        out.len() == k,
                        m == self.model(),
                        log_size == m.logup.log_size,
                        spec_can_read(m, interaction),
                        column.len() == pow2(log_size as nat),
                        forall|j: int| 0 <= j < k ==> out[j] == spec_value_at(m, column@, offsets[j]),
                    decreases offsets.len() - k,
                {
                    let value = if offsets[k] == 0 {
                        column[self.row]
                    } else {
                        column[offset_row(self.row, log_size, offsets[k])]
                    };
                    out.push(value);
                    k = k + 1;
                }
                let next = if col < usize::MAX {
                    col + 1
                } else {
                    col
                };
                self.col_index.set(interaction, next);
                proof {
                    assert(out@ =~= spec_read_row(m, interaction, offsets@).1);
                }
                return out;
            }
        }
        proof {
            assert(!spec_can_read(m, interaction)) by {
                if spec_can_read(m, interaction) {
                    let col = m.col_index[interaction as int];
                    assert(m.trace[interaction as int][col as int]
                        == self.trace[interaction as int][col as int]@);
                }
            }
        }
        let mut k: usize = 0;
        while k < offsets.len()
            invariant
                k <= offsets.len(),
                out.len() == k,
                forall|j: int| 0 <= j < k ==> out[j] == M31::spec_zero(),
            decreases offsets.len() - k,
        {
            out.push(M31::zero());
            k = k + 1;
        }
        proof {
            assert(out@ =~= spec_read_row(m, interaction, offsets@).1);
        }
        out
    }
}

impl<'a> EvalAtRow for AssertEvaluator<'a> {
    type F = M31;

    type EF = QM31;

    type Model = AssertModel;

    open spec fn model(&self) -> AssertModel {
        AssertModel {
            trace: spec_columns_view(self.trace@),
            col_index: self.col_index@,
            row: self.row,
            constraint_counter: self.constraint_counter,
            failed: self.failed,
            logup: self.logup.model(),
        }
    }

    open spec fn spec_base(v: M31) -> M31 {
        v
    }

    open spec fn spec_secure(v: QM31) -> QM31 {
        v
    }

    open spec fn spec_embed(v: M31) -> QM31 {
        QM31::spec_from_m31(v)
    }

    open spec fn spec_ef_add(a: QM31, b: QM31) -> QM31 {
        a.spec_add(b)
    }

    open spec fn spec_ef_sub(a: QM31, b: QM31) -> QM31 {
        a.spec_sub(b)
    }

    open spec fn spec_ef_mul(a: QM31, b: QM31) -> QM31 {
        a.spec_mul(b)
    }

    open spec fn spec_combine_ef(values: Seq<M31>) -> QM31 {
        QM31::spec_from_m31_array(values)
    }

    open spec fn spec_next_interaction_mask(m: AssertModel, interaction: usize, offsets: Seq<isize>) -> (
        AssertModel,
        Seq<M31>,
    ) {
        spec_read_row(m, interaction, offsets)
    }

    open spec fn spec_get_preprocessed_column(m: AssertModel, id: Seq<char>) -> (AssertModel, M31) {
        let (after, values) = spec_read_row(m, PREPROCESSED_TRACE_IDX, seq![0isize]);
        (after, values[0])
    }

    /// The constraint is counted; the first one that is not zero is noted.
    open spec fn spec_add_constraint(m: AssertModel, constraint: QM31) -> AssertModel {
        AssertModel {
            constraint_counter: spec_one_more(m.constraint_counter),
            failed: if m.failed.is_none() && constraint != QM31::spec_zero() {
                Some(m.constraint_counter)
            } else {
                m.failed
            },
            ..m
        }
    }

    open spec fn spec_logup(m: AssertModel) -> LogupModel<QM31> {
        m.logup
    }

    open spec fn spec_write_logup_frac(m: AssertModel, fraction: Fraction<QM31, QM31>) -> AssertModel {
        AssertModel { logup: spec_write_frac(m.logup, fraction), ..m }
    }

    open spec fn spec_note_relation(
        m: AssertModel,
        name: Seq<char>,
        multiplicity: QM31,
        values: Seq<M31>,
    ) -> AssertModel {
        m
    }

    open spec fn spec_close_logup(m: AssertModel) -> AssertModel {
        AssertModel { logup: LogupModel { is_finalized: true, ..m.logup }, ..m }
    }

    proof fn lemma_logup_kept(
        m: AssertModel,
        interaction: usize,
        offsets: Seq<isize>,
        id: Seq<char>,
        constraint: QM31,
        values: Seq<M31>,
    ) {
    }

    proof fn lemma_logup_written(m: AssertModel, fraction: Fraction<QM31, QM31>) {
    }

    fn base(v: M31) -> (r: M31) {
        v
    }

    fn secure(v: QM31) -> (r: QM31) {
        v
    }

    fn embed(v: M31) -> (r: QM31) {
        QM31::from_base(v)
    }

    fn ef_add(a: QM31, b: QM31) -> (r: QM31) {
        a.add(b)
    }

    fn ef_sub(a: QM31, b: QM31) -> (r: QM31) {
        a.sub(b)
    }

    fn ef_mul(a: QM31, b: QM31) -> (r: QM31) {
        a.mul(b)
    }

    fn combine_ef(values: [M31; 4]) -> (r: QM31) {
        QM31::from_m31_array(values)
    }

    fn next_interaction_mask(&mut self, interaction: usize, offsets: &Vec<isize>) -> (r: Vec<M31>) {
        self.read(interaction, offsets)
    }

    fn get_preprocessed_column(&mut self, column: PreProcessedColumnId) -> (r: M31) {
        let mut offsets: Vec<isize> = Vec::new();
        offsets.push(0);
        proof {
            assert(offsets@ =~= seq![0isize]);
        }
        let values = self.read(PREPROCESSED_TRACE_IDX, &offsets);
        values[0]
    }

    fn add_constraint(&mut self, constraint: QM31) {
        if self.failed.is_none() && !constraint.is_zero() {
            self.failed = Some(self.constraint_counter);
        }
        if self.constraint_counter < usize::MAX {
            self.constraint_counter = self.constraint_counter + 1;
        }
    }

    fn logup_fracs(&self) -> (r: Vec<Fraction<QM31, QM31>>) {
        copy_vec(&self.logup.fracs)
    }

    fn logup_interaction(&self) -> (r: usize) {
        self.logup.interaction
    }

    fn logup_shift(&self) -> (r: QM31) {
        self.logup.cumsum_shift
    }

    fn write_logup_frac(&mut self, fraction: Fraction<QM31, QM31>) {
        if self.logup.fracs.len() == 0 {
            self.logup.is_finalized = false;
        }
        self.logup.fracs.push(fraction);
    }

    fn note_relation(&mut self, name: &String, multiplicity: QM31, values: &Vec<M31>) {
    }

    fn close_logup(&mut self) {
        self.logup.is_finalized = true;
    }
}

/// The first constraint that the declaration finds not to be zero at the
/// row, if there is one.
pub open spec fn spec_row_failure<C: FrameworkEval>(
    eval: C,
    trace: Seq<Seq<Seq<M31>>>,
    row: usize,
    log_size: u32,
    claimed_sum: QM31,
) -> Option<usize> {
    eval.spec_evaluate::<AssertEvaluator>(
        AssertEvaluator::spec_new(trace, row, log_size, claimed_sum),
    ).failed
}

/// The first of the first `n` rows at which a constraint is not zero, with
/// the first such constraint, if there is such a row.
pub open spec fn spec_first_failure<C: FrameworkEval>(
    eval: C,
    trace: Seq<Seq<Seq<M31>>>,
    log_size: u32,
    claimed_sum: QM31,
    n: nat,
) -> Option<(usize, usize)>
    decreases n,
{
    if n == 0 {
        None
    } else {
        match spec_first_failure(eval, trace, log_size, claimed_sum, (n - 1) as nat) {
            Some(found) => Some(found),
            None => match spec_row_failure(eval, trace, (n - 1) as usize, log_size, claimed_sum) {
                Some(constraint) => Some(((n - 1) as usize, constraint)),
                None => None,
            },
        }
    }
}

/// Once a row has failed, it stays the first.
pub proof fn lemma_failure_stays<C: FrameworkEval>(
    eval: C,
    trace: Seq<Seq<Seq<M31>>>,
    log_size: u32,
    claimed_sum: QM31,
    m: nat,
    n: nat,
)
    requires
        m <= n,
        spec_first_failure(eval, trace, log_size, claimed_sum, m).is_some(),
    ensures
        spec_first_failure(eval, trace, log_size, claimed_sum, n) == spec_first_failure(
            eval,
            trace,
            log_size,
            claimed_sum,
            m,
        ),
    decreases n,
{
    if m < n {
        lemma_failure_stays(eval, trace, log_size, claimed_sum, m, (n - 1) as nat);
    }
}

/// Checks the constraints of the declaration on every row of the trace:
/// the answer is the first row at which a constraint is not zero, with the
/// first such constraint, and nothing where all the constraints are zero
/// on all the rows.
pub fn assert_constraints_on_trace<C: FrameworkEval>(
    evals: &Vec<Vec<&Vec<M31>>>,
    log_size: u32,
    eval: &C,
    claimed_sum: QM31,
) -> (r: Option<(usize, usize)>)
    requires
        log_size <= 30,
    ensures
        r == spec_first_failure(
            *eval,
            spec_columns_view(evals@),
            log_size,
            claimed_sum,
            pow2(log_size as nat),
        ),
{
    let n_rows = pow2_usize(log_size);
    let mut row: usize = 0;
    while row < n_rows
        invariant
            row <= n_rows,
            log_size <= 30,
            n_rows == pow2(log_size as nat),
            spec_first_failure(
                *eval,
                spec_columns_view(evals@),
                log_size,
                claimed_sum,
                row as nat,
            ).is_none(),
        decreases n_rows - row,
    {
        let evaluator = AssertEvaluator::new(evals, row, log_size, claimed_sum);
        let done = eval.evaluate(evaluator);
        match done.failed {
            Some(constraint) => {
                proof {
                    lemma_failure_stays(
                        *eval,
                        spec_columns_view(evals@),
                        log_size,
                        claimed_sum,
                        (row + 1) as nat,
                        n_rows as nat,
                    );
                }
                return Some((row, constraint));
            },
            None => {},
        }
        row = row + 1;
    }
    None
}

/// The values of the polynomials of each tree on the domain, in
/// bit-reversed order.
pub open spec fn spec_values_on(polys: Seq<Vec<CirclePoly>>, domain: CircleDomain) -> Seq<
    Seq<Seq<M31>>,
> {
    Seq::new(
        polys.len(),
        |t: int|
            Seq::new(
                polys[t].len() as nat,
                |c: int|
                    spec_fft(
                        spec_extend(polys[t][c].coeffs@, domain.spec_size()),
                        domain,
                        domain.spec_log_size(),
                    ),
            ),
    )
}

/// Checks the constraints of the declaration on every row of the trace
/// that the polynomials take on the trace domain.
pub fn assert_constraints_on_polys<C: FrameworkEval>(
    trace_polys: &Vec<Vec<CirclePoly>>,
    trace_domain: CanonicCoset,
    eval: &C,
    claimed_sum: QM31,
) -> (r: Option<(usize, usize)>)
    requires
        forall|t: int, c: int|
            0 <= t < trace_polys.len() && 0 <= c < trace_polys[t].len() ==> {
                &&& (#[trigger] trace_polys[t][c]).wf()
                &&& trace_polys[t][c].log_size <= trace_domain.spec_log_size()
            },
    ensures
        r == spec_first_failure(
            *eval,
            spec_values_on(
                trace_polys@,
                CanonicCoset::spec_circle_domain_of(trace_domain.spec_log_size()),
            ),
            trace_domain.spec_log_size() as u32,
            claimed_sum,
            pow2(trace_domain.spec_log_size()),
        ),
{
    let domain = trace_domain.circle_domain();
    let log_size = trace_domain.log_size();
    let ghost want = spec_values_on(trace_polys@, domain);
    let mut traces: Vec<Vec<Vec<M31>>> = Vec::with_capacity(trace_polys.len());
    let mut t: usize = 0;
    while t < trace_polys.len()
        invariant
            t <= trace_polys.len(),
            domain.wf(),
            domain.spec_log_size() == trace_domain.spec_log_size(),
            want == spec_values_on(trace_polys@, domain),
            forall|a: int, c: int|
                0 <= a < trace_polys.len() && 0 <= c < trace_polys[a].len() ==> {
                    &&& (#[trigger] trace_polys[a][c]).wf()
                    &&& trace_polys[a][c].log_size <= trace_domain.spec_log_size()
                },
            traces.len() == t,
            forall|a: int|
                0 <= a < t ==> {
                    &&& (#[trigger] traces[a]).len() == trace_polys[a].len()
                    &&& forall|c: int|
                        0 <= c < traces[a].len() ==> (#[trigger] traces[a][c])@ == want[a][c]
                },
        decreases trace_polys.len() - t,
    {
        let tree = &trace_polys[t];
        let mut columns: Vec<Vec<M31>> = Vec::with_capacity(tree.len());
        let mut c: usize = 0;
        while c < tree.len()
            invariant
                c <= tree.len(),
                t < trace_polys.len(),
                *tree == trace_polys[t as int],
                domain.wf(),
                domain.spec_log_size() == trace_domain.spec_log_size(),
                want == spec_values_on(trace_polys@, domain),
                forall|k: int|
                    0 <= k < tree.len() ==> {
                        &&& (#[trigger] tree[k]).wf()
                        &&& tree[k].log_size <= trace_domain.spec_log_size()
                    },
                columns.len() == c,
                forall|k: int| 0 <= k < c ==> (#[trigger] columns[k])@ == want[t as int][k],
            decreases tree.len() - c,
        {
            assert(tree[c as int].wf());
            columns.push(tree[c].evaluate(domain).values);
            c = c + 1;
        }
        traces.push(columns);
        t = t + 1;
    }
    let mut evals: Vec<Vec<&Vec<M31>>> = Vec::with_capacity(traces.len());
    let mut a: usize = 0;
    while a < traces.len()
        invariant
            a <= traces.len(),
            evals.len() == a,
            forall|k: int|
                0 <= k < a ==> {
                    &&& (#[trigger] evals[k]).len() == traces[k].len()
                    &&& forall|c: int| 0 <= c < evals[k].len() ==> (#[trigger] evals[k][c])@ == traces[k][c]@
                },
        decreases traces.len() - a,
    {
        let tree = &traces[a];
        let mut columns: Vec<&Vec<M31>> = Vec::with_capacity(tree.len());
        let mut c: usize = 0;
        while c < tree.len()
            invariant
                c <= tree.len(),
                columns.len() == c,
                forall|k: int| 0 <= k < c ==> (#[trigger] columns[k])@ == tree[k]@,
            decreases tree.len() - c,
        {
            columns.push(&tree[c]);
            c = c + 1;
        }
        evals.push(columns);
        a = a + 1;
    }
    proof {
        assert forall|k: int| 0 <= k < want.len() implies spec_columns_view(evals@)[k] == want[k] by {
            assert(evals[k].len() == traces[k].len());
            assert forall|c: int| 0 <= c < want[k].len() implies spec_columns_view(evals@)[k][c]
                == want[k][c] by {
                assert(evals[k][c]@ == traces[k][c]@);
            }
            assert(spec_columns_view(evals@)[k] =~= want[k]);
        }
        assert(spec_columns_view(evals@) =~= want);
    }
    assert_constraints_on_trace(&evals, log_size, eval, claimed_sum)
}

} // verus!
