//! The constraints of a constraint system as a component declares them:
//! one column for each constraint, which holds on every row the product of
//! the ratio and the coefficient of the constraint.

use vstd::prelude::*;
use vstd::arithmetic::power2::{lemma2_to64, pow2};
use crate::fields::m31::M31;
use crate::fields::qm31::QM31;
use crate::framework::assert_eval::AssertEvaluator;
use crate::framework::eval::{EvalAtRow, ORIGINAL_TRACE_IDX};
use crate::zk::constraints::{ConstraintSystem, MusicalConstraint};

verus! {

/// The number of rows of the trace, as a power of two.
pub const LOG_N_ROWS: u32 = 8;

/// What the column of a constraint holds: the ratio times the coefficient.
pub open spec fn spec_product(constraint: MusicalConstraint) -> M31 {
    constraint.ratio_m31.spec_mul(constraint.coefficient)
}

/// What the columns of the constraints hold.
pub open spec fn spec_products(constraints: Seq<MusicalConstraint>) -> Seq<M31> {
    Seq::new(constraints.len(), |i: int| spec_product(constraints[i]))
}

/// The state of an evaluator after the first `n` constraints were
/// declared: for each of them the next column of the trace is read at the
/// row, and must be the product of the constraint.
pub open spec fn spec_constrain<E: EvalAtRow>(products: Seq<M31>, m: E::Model, n: nat) -> E::Model
    decreases n,
{
    if n == 0 {
        m
    } else {
        let before = spec_constrain::<E>(products, m, (n - 1) as nat);
        let (read, values) = E::spec_next_interaction_mask(before, ORIGINAL_TRACE_IDX, seq![0isize]);
        E::spec_add_constraint(
            read,
            E::spec_ef_sub(
                E::spec_embed(values[0]),
                E::spec_embed(E::spec_base(products[n - 1])),
            ),
        )
    }
}

/// The products of the constraints of a system, in their order.
pub fn products(system: &ConstraintSystem) -> (r: Vec<M31>)
    ensures
        r@ == spec_products(system.constraints@),
{
    let mut products: Vec<M31> = Vec::with_capacity(system.constraints.len());
    let mut i: usize = 0;
    while i < system.constraints.len()
        invariant
            i <= system.constraints.len(),
            products.len() == i,
            forall|k: int| 0 <= k < i ==> products[k] == spec_product(system.constraints[k]),
        decreases system.constraints.len() - i,
    {
        let constraint = system.constraints[i];
        products.push(constraint.ratio_m31.mul(constraint.coefficient));
        i = i + 1;
    }
    proof {
        assert(products@ =~= spec_products(system.constraints@));
    }
    products
}

/// Declares the constraints to an evaluator: the verifier computes the
/// products from its own system, so a proof made for other ratios or
/// coefficients does not satisfy them.
pub fn constrain<E: EvalAtRow>(products: &Vec<M31>, eval: E) -> (r: E)
    ensures
        r.model() == spec_constrain::<E>(products@, eval.model(), products.len() as nat),
{
    let ghost start = eval.model();
    let mut eval = eval;
    let mut i: usize = 0;
    while i < products.len()
        invariant
            i <= products.len(),
            eval.model() == spec_constrain::<E>(products@, start, i as nat),
        decreases products.len() - i,
    {
        let witness = eval.next_trace_mask();
        let expected = E::embed(E::base(products[i]));
        eval.add_constraint(E::ef_sub(E::embed(witness), expected));
        i = i + 1;
    }
    eval
}

/// The columns of the trace of a system: one for each constraint, with
/// the product of the constraint on every row.
pub fn trace_columns(system: &ConstraintSystem) -> (r: Vec<Vec<M31>>)
    ensures
        r.len() == system.constraints.len(),
        forall|i: int|
            0 <= i < r.len() ==> (#[trigger] r[i])@ == Seq::new(
                pow2(LOG_N_ROWS as nat),
                |row: int| spec_product(system.constraints[i]),
            ),
{
    let mut out: Vec<Vec<M31>> = Vec::with_capacity(system.constraints.len());
    let mut i: usize = 0;
    proof {
        lemma2_to64();
    }
    while i < system.constraints.len()
        invariant
            i <= system.constraints.len(),
            out.len() == i,
            pow2(LOG_N_ROWS as nat) == 256,
            forall|k: int|
                0 <= k < i ==> (#[trigger] out[k])@ == Seq::new(
                    pow2(LOG_N_ROWS as nat),
                    |row: int| spec_product(system.constraints[k]),
                ),
        decreases system.constraints.len() - i,
    {
        let constraint = system.constraints[i];
        let product = constraint.ratio_m31.mul(constraint.coefficient);
        let mut column: Vec<M31> = Vec::with_capacity(256);
        let mut row: usize = 0;
        while row < 256
            invariant
                row <= 256,
                column.len() == row,
                forall|k: int| 0 <= k < row ==> column[k] == product,
            decreases 256 - row,
        {
            column.push(product);
            row = row + 1;
        }
        proof {
            assert(column@ =~= Seq::new(
                pow2(LOG_N_ROWS as nat),
                |row: int| spec_product(system.constraints[i as int]),
            ));
        }
        out.push(column);
        i = i + 1;
    }
    out
}

/// Whether the trace holds, in the tree of its own columns, one column for
/// each product, with the product on every row.
pub open spec fn spec_honest_trace(products: Seq<M31>, trace: Seq<Seq<Seq<M31>>>) -> bool {
    &&& trace.len() >= 2
    &&& trace[1].len() == products.len()
    &&& forall|i: int|
        0 <= i < products.len() ==> #[trigger] trace[1][i] == Seq::new(
            pow2(LOG_N_ROWS as nat),
            |row: int| products[i],
        )
}

/// On the trace of a system every constraint of the system is zero at
/// every row: the evaluator that checks the constraints finds none that
/// is not, and has read one column for each constraint.
pub proof fn lemma_honest_trace_satisfies(
    products: Seq<M31>,
    trace: Seq<Seq<Seq<M31>>>,
    row: usize,
    claimed_sum: QM31,
    n: nat,
)
    requires
        spec_honest_trace(products, trace),
        row < pow2(LOG_N_ROWS as nat),
        n <= products.len(),
        products.len() <= usize::MAX,
    ensures
        ({
            let start = AssertEvaluator::spec_new(trace, row, LOG_N_ROWS, claimed_sum);
            let m = spec_constrain::<AssertEvaluator>(products, start, n);
            &&& m.failed.is_none()
            &&& m.trace == trace
            &&& m.row == row
            &&& m.logup == start.logup
            &&& m.col_index == start.col_index.update(1, n as usize)
        }),
    decreases n,
{
    let start = AssertEvaluator::spec_new(trace, row, LOG_N_ROWS, claimed_sum);
    if n == 0 {
        assert(start.col_index =~= start.col_index.update(1, 0usize));
    } else {
        lemma_honest_trace_satisfies(products, trace, row, claimed_sum, (n - 1) as nat);
        let before = spec_constrain::<AssertEvaluator>(products, start, (n - 1) as nat);
        let column = trace[1][n - 1];
        assert(before.col_index[1] == (n - 1) as usize);
        assert(column.len() == pow2(LOG_N_ROWS as nat));
        assert(crate::framework::assert_eval::spec_can_read(before, ORIGINAL_TRACE_IDX));
        let (read, values) = AssertEvaluator::spec_next_interaction_mask(
            before,
            ORIGINAL_TRACE_IDX,
            seq![0isize],
        );
        assert(values[0] == products[n - 1]);
        let p = QM31::spec_from_m31(products[n - 1]);
        assert(p.spec_sub(p) == QM31::spec_zero());
        assert(read.col_index =~= start.col_index.update(1, n as usize));
    }
}

} // verus!
