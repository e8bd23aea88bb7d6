use zyrkom::fields::m31::M31;
use zyrkom::fields::qm31::QM31;
use zyrkom::framework::assert_eval::{assert_constraints_on_polys, assert_constraints_on_trace};
use zyrkom::framework::component::FrameworkEval;
use zyrkom::framework::eval::EvalAtRow;
use zyrkom::framework::relation_tracker::offset_row;
use zyrkom::poly::domain::CanonicCoset;
use zyrkom::prover::poly::circle::{CircleEvaluation, CirclePoly};
use zyrkom::zk::component::{constrain, products, trace_columns, LOG_N_ROWS};
use zyrkom::zk::constraints::{ConstraintSystem, ConstraintType, MusicalConstraint};

const LOG_ROWS: u32 = 4;

/// The second column is the square of the first, and the third is the
/// value of the first on the row before.
struct Squares;

impl FrameworkEval for Squares {
    fn spec_log_size(&self) -> u32 {
        unreachable!()
    }

    fn spec_max_constraint_log_degree_bound(&self) -> u32 {
        unreachable!()
    }

    fn spec_evaluate<E: EvalAtRow>(&self, _: E::Model) -> E::Model {
        unreachable!()
    }

    fn log_size(&self) -> u32 {
        LOG_ROWS
    }

    fn max_constraint_log_degree_bound(&self) -> u32 {
        LOG_ROWS + 1
    }

    fn evaluate<E: EvalAtRow>(&self, mut eval: E) -> E {
        let first = eval.next_interaction_mask(1, &vec![-1, 0]);
        let square = eval.next_trace_mask();
        let before = eval.next_trace_mask();
        let here = E::embed(first[1]);
        eval.add_constraint(E::ef_sub(E::embed(square), E::ef_mul(here, here)));
        eval.add_constraint(E::ef_sub(E::embed(before), E::embed(first[0])));
        eval
    }
}

fn columns() -> Vec<Vec<M31>> {
    let size = 1usize << LOG_ROWS;
    let first: Vec<M31> = (0..size as u32).map(|i| M31::from_u32(7 * i + 3)).collect();
    let square: Vec<M31> = first.iter().map(|v| v.mul(*v)).collect();
    let before: Vec<M31> = (0..size).map(|row| first[offset_row(row, LOG_ROWS, -1)]).collect();
    vec![first, square, before]
}

fn check(columns: &Vec<Vec<M31>>) -> Option<(usize, usize)> {
    let preprocessed: Vec<&Vec<M31>> = vec![];
    let trace = vec![preprocessed, columns.iter().collect()];
    assert_constraints_on_trace(&trace, LOG_ROWS, &Squares, QM31::zero())
}

#[test]
fn a_trace_that_satisfies_the_constraints_passes() {
    assert_eq!(check(&columns()), None);
}

#[test]
fn the_first_row_and_constraint_that_fail_are_told() {
    let mut wrong_square = columns();
    wrong_square[1][5] = wrong_square[1][5].add(M31::one());
    wrong_square[1][9] = wrong_square[1][9].add(M31::one());
    assert_eq!(check(&wrong_square), Some((5, 0)));

    let mut wrong_before = columns();
    wrong_before[2][3] = wrong_before[2][3].add(M31::one());
    assert_eq!(check(&wrong_before), Some((3, 1)));

    let mut both = columns();
    both[1][0] = both[1][0].add(M31::one());
    both[2][0] = both[2][0].add(M31::one());
    assert_eq!(check(&both), Some((0, 0)));
}

#[test]
fn a_trace_that_lacks_a_column_fails_on_the_first_row() {
    let mut short = columns();
    short.pop();
    assert_eq!(check(&short), Some((0, 1)));
}

#[test]
fn polynomials_are_checked_on_the_trace_domain() {
    let trace_domain = CanonicCoset::new(LOG_ROWS);
    let domain = trace_domain.circle_domain();
    let interpolate = |columns: Vec<Vec<M31>>| -> Vec<CirclePoly> {
        columns.into_iter().map(|v| CircleEvaluation::new(domain, v).interpolate()).collect()
    };

    let good = vec![vec![], interpolate(columns())];
    assert_eq!(assert_constraints_on_polys(&good, trace_domain, &Squares, QM31::zero()), None);

    let mut wrong = columns();
    wrong[1][6] = wrong[1][6].add(M31::one());
    let bad = vec![vec![], interpolate(wrong)];
    assert_eq!(
        assert_constraints_on_polys(&bad, trace_domain, &Squares, QM31::zero()),
        Some((6, 0))
    );
}

/// The declaration of the constraints of a system, as an application
/// hands it to the library.
struct SystemEval {
    products: Vec<M31>,
}

impl FrameworkEval for SystemEval {
    fn spec_log_size(&self) -> u32 {
        unreachable!()
    }

    fn spec_max_constraint_log_degree_bound(&self) -> u32 {
        unreachable!()
    }

    fn spec_evaluate<E: EvalAtRow>(&self, _: E::Model) -> E::Model {
        unreachable!()
    }

    fn log_size(&self) -> u32 {
        LOG_N_ROWS
    }

    fn max_constraint_log_degree_bound(&self) -> u32 {
        LOG_N_ROWS + 1
    }

    fn evaluate<E: EvalAtRow>(&self, eval: E) -> E {
        constrain(&self.products, eval)
    }
}

fn fifth_and_octave() -> ConstraintSystem {
    let mut system = ConstraintSystem::new();
    system.add_constraint(
        MusicalConstraint::from_scaled_ratio(1_572_864, ConstraintType::HarmonicRatio, 699_050)
            .unwrap(),
    );
    system.add_constraint(
        MusicalConstraint::from_scaled_ratio(2_097_152, ConstraintType::OctaveEquivalence, 524_288)
            .unwrap(),
    );
    system
}

#[test]
fn the_trace_of_a_system_satisfies_its_constraints() {
    let system = fifth_and_octave();
    let expected = vec![
        M31::from_u32(1_572_864).mul(M31::from_u32(699_050)),
        M31::from_u32(2_097_152).mul(M31::from_u32(524_288)),
    ];
    assert_eq!(products(&system), expected);
    let columns = trace_columns(&system);
    assert_eq!(columns.len(), 2);
    assert_eq!(columns[0], vec![expected[0]; 1 << LOG_N_ROWS]);
    assert_eq!(columns[1], vec![expected[1]; 1 << LOG_N_ROWS]);

    let preprocessed: Vec<&Vec<M31>> = vec![];
    let trace = vec![preprocessed, columns.iter().collect()];
    let eval = SystemEval { products: products(&system) };
    assert_eq!(assert_constraints_on_trace(&trace, LOG_N_ROWS, &eval, QM31::zero()), None);
}

#[test]
fn the_trace_of_another_system_does_not_satisfy_them() {
    let system = fifth_and_octave();
    let mut other = ConstraintSystem::new();
    other.add_constraint(
        MusicalConstraint::from_scaled_ratio(1_572_864, ConstraintType::HarmonicRatio, 699_050)
            .unwrap(),
    );
    other.add_constraint(
        MusicalConstraint::from_scaled_ratio(2_097_152, ConstraintType::OctaveEquivalence, 524_289)
            .unwrap(),
    );
    let columns = trace_columns(&other);
    let preprocessed: Vec<&Vec<M31>> = vec![];
    let trace = vec![preprocessed, columns.iter().collect()];
    let eval = SystemEval { products: products(&system) };

    assert_eq!(assert_constraints_on_trace(&trace, LOG_N_ROWS, &eval, QM31::zero()), Some((0, 1)));
}
