use zyrkom::air::accumulation::PointEvaluationAccumulator;
use zyrkom::circle::secure_point::SecureCirclePoint;
use zyrkom::fields::cm31::CM31;
use zyrkom::fields::m31::M31;
use zyrkom::fields::qm31::QM31;
use zyrkom::fields::batch_inverse::{batch_inverse, DivisionByZero};
use zyrkom::pcs::quotients::{ColumnSampleBatch, PointSample};
use zyrkom::poly::domain::CanonicCoset;
use zyrkom::prover::fri::{CpuBackend, FriOps};
use zyrkom::prover::pcs::{compute_fri_quotients, QuotientOps};
use zyrkom::prover::poly::circle::{CircleEvaluation, CirclePoly, SecureEvaluation};
use zyrkom::prover::secure_column::SecureColumnByCoords;

/// A sequence of field elements that depends on the seed alone.
fn sequence(seed: u64, n: usize) -> Vec<M31> {
    let mut state = seed;
    (0..n)
        .map(|_| {
            state = state.wrapping_mul(6364136223846793005).wrapping_add(1442695040888963407);
            M31::from_u32((state >> 33) as u32)
        })
        .collect()
}

#[test]
fn test_point_evaluation_accumulator() {
    let evaluations = sequence(0, 100);
    let alpha = QM31::from_u32_unchecked(2, 3, 4, 5);

    // Use accumulator.
    let mut accumulator = PointEvaluationAccumulator::new(alpha);
    for evaluation in evaluations.iter() {
        accumulator.accumulate(QM31::from_base(*evaluation));
    }
    let accumulator_res = accumulator.finalize();

    // Use direct computation.
    let mut res = QM31::zero();
    for evaluation in evaluations.iter() {
        res = res.mul(alpha).add_m31(*evaluation);
    }

    assert_eq!(accumulator_res, res);
    let lifted: Vec<QM31> = evaluations.iter().map(|e| QM31::from_base(*e)).collect();
    assert_eq!(PointEvaluationAccumulator::accumulate_all(alpha, &lifted), res);
}

#[test]
fn quotient_ops_test_quotients_are_low_degree() {
    const LOG_SIZE: u32 = 7;
    const LOG_BLOWUP_FACTOR: u32 = 1;
    let polynomial = CirclePoly::new((0..1 << LOG_SIZE).map(M31::from_u32).collect());
    let eval_domain = CanonicCoset::new(LOG_SIZE + 1).circle_domain();
    let eval = polynomial.evaluate(eval_domain);
    let point = SecureCirclePoint::generator();
    let value = polynomial.eval_at_point(point);
    let coeff = QM31::from_u32_unchecked(1, 2, 3, 4);
    let quot_eval = compute_fri_quotients::<CpuBackend>(
        &vec![&eval],
        &vec![vec![PointSample { point, value }]],
        coeff,
        LOG_BLOWUP_FACTOR,
    )
    .unwrap()
    .pop()
    .unwrap();
    let quot_poly_base_field =
        CircleEvaluation::new(eval_domain, quot_eval.values.column(0).clone()).interpolate();
    assert!(quot_poly_base_field.is_in_fri_space(LOG_SIZE));
}

#[test]
fn quotients_test_quotients_are_low_degree() {
    const LOG_SIZE: u32 = 7;
    const LOG_BLOWUP_FACTOR: u32 = 1;
    let polynomial = CirclePoly::new((0..1 << LOG_SIZE).map(M31::from_u32).collect());
    let eval_domain = CanonicCoset::new(LOG_SIZE + 1).circle_domain();
    let eval = polynomial.evaluate(eval_domain);
    let point = SecureCirclePoint::generator();
    let value = polynomial.eval_at_point(point);
    let coeff = QM31::from_u32_unchecked(1, 2, 3, 4);
    let quot_eval = <CpuBackend as QuotientOps>::accumulate_quotients(
        eval_domain,
        &vec![&eval],
        coeff,
        &vec![ColumnSampleBatch { point, columns_and_values: vec![(0, value)] }],
        LOG_BLOWUP_FACTOR,
    )
    .unwrap();
    let quot_poly_base_field =
        CircleEvaluation::new(eval_domain, quot_eval.values.column(0).clone()).interpolate();
    assert!(quot_poly_base_field.is_in_fri_space(LOG_SIZE));
}

#[test]
fn quotient_of_a_wrong_value_is_not_low_degree() {
    const LOG_SIZE: u32 = 5;
    let polynomial = CirclePoly::new((0..1 << LOG_SIZE).map(M31::from_u32).collect());
    let eval_domain = CanonicCoset::new(LOG_SIZE + 1).circle_domain();
    let eval = polynomial.evaluate(eval_domain);
    let point = SecureCirclePoint::generator();
    let value = polynomial.eval_at_point(point).add(QM31::one());
    let quot_eval = <CpuBackend as QuotientOps>::accumulate_quotients(
        eval_domain,
        &vec![&eval],
        QM31::from_u32_unchecked(1, 2, 3, 4),
        &vec![ColumnSampleBatch { point, columns_and_values: vec![(0, value)] }],
        1,
    )
    .unwrap();
    // The first column takes the coefficient one, so the wrong value, which
    // is off by one, shows in the last two coordinates only.
    let quot_poly_base_field =
        CircleEvaluation::new(eval_domain, quot_eval.values.column(2).clone()).interpolate();
    assert!(!quot_poly_base_field.is_in_fri_space(LOG_SIZE));
}

#[test]
fn quotients_name_only_columns_that_are_there() {
    let eval_domain = CanonicCoset::new(4).circle_domain();
    let eval = CirclePoly::new(sequence(3, 8)).evaluate(eval_domain);
    let point = SecureCirclePoint::generator();

    let result = <CpuBackend as QuotientOps>::accumulate_quotients(
        eval_domain,
        &vec![&eval],
        QM31::one(),
        &vec![ColumnSampleBatch { point, columns_and_values: vec![(1, QM31::zero())] }],
        1,
    );

    assert!(result.is_none());
}

#[test]
fn samples_are_grouped_by_point_in_the_order_of_first_use() {
    let p = SecureCirclePoint::generator();
    let q = p.double();
    let v = |n: u32| QM31::from_u32_unchecked(n, 0, 0, 0);
    let column0 = vec![PointSample { point: p, value: v(1) }, PointSample { point: q, value: v(2) }];
    let column1 = vec![PointSample { point: q, value: v(3) }];
    let column2 = vec![PointSample { point: p, value: v(4) }];

    let batches = ColumnSampleBatch::new_vec(&vec![&column0, &column1, &column2]);

    assert_eq!(batches.len(), 2);
    assert_eq!(batches[0].point, p);
    assert_eq!(batches[0].columns_and_values, vec![(0, v(1)), (2, v(4))]);
    assert_eq!(batches[1].point, q);
    assert_eq!(batches[1].columns_and_values, vec![(0, v(2)), (1, v(3))]);
}

#[test]
fn batch_inverse_inverts_each_element() {
    let column: Vec<CM31> =
        (1..20u32).map(|i| CM31::from_u32_unchecked(i, 3 * i + 1)).collect();

    let inverses = batch_inverse(&column).unwrap();

    assert_eq!(inverses.len(), column.len());
    for (x, y) in column.iter().zip(&inverses) {
        assert_eq!(x.mul(*y), CM31::one());
        assert_eq!(*y, x.inverse());
    }
    assert_eq!(batch_inverse(&vec![]), Ok(vec![]));
    assert_eq!(
        batch_inverse(&vec![CM31::from_u32_unchecked(0, 1)]),
        Ok(vec![CM31::from_u32_unchecked(0, 2147483646)])
    );
}

#[test]
fn batch_inverse_refuses_a_zero() {
    let mut column: Vec<CM31> =
        (1..6u32).map(|i| CM31::from_u32_unchecked(i, 3 * i + 1)).collect();
    column[3] = CM31::zero();

    assert_eq!(batch_inverse(&column), Err(DivisionByZero));
    assert_eq!(batch_inverse(&vec![CM31::zero()]), Err(DivisionByZero));
}

#[test]
fn decompose_coeff_out_fft_space_test() {
    for domain_log_size in 5..9 {
        let domain_log_half_size = domain_log_size - 1;
        let s = CanonicCoset::new(domain_log_size);
        let domain = s.circle_domain();

        let mut coeffs = vec![M31::zero(); 1 << domain_log_size];

        // Polynomial is out of FFT space.
        coeffs[1 << domain_log_half_size] = M31::from_u32(1);
        assert!(!CirclePoly::new(coeffs.clone()).is_in_fft_space(domain_log_half_size));

        let poly = CirclePoly::new(coeffs);
        let values = poly.evaluate(domain);
        let secure: Vec<QM31> = values
            .values
            .iter()
            .map(|v| QM31::from_m31(*v, *v, *v, *v))
            .collect();
        let secure_eval =
            SecureEvaluation::new(domain, SecureColumnByCoords::from_vec(&secure));

        let (g, lambda) = <CpuBackend as FriOps>::decompose(&secure_eval);

        // Sanity check.
        assert_ne!(lambda, QM31::zero());

        // Assert the new polynomial is in the FFT space.
        for i in 0..4 {
            let basefield_column = g.values.column(i).clone();
            let eval = CircleEvaluation::new(domain, basefield_column);
            let coeffs = eval.interpolate().coeffs;
            assert!(CirclePoly::new(coeffs).is_in_fft_space(domain_log_half_size));
        }

        // The evaluation is its part in the space plus lambda times the
        // polynomial that is one on the first half and minus one on the second.
        let n = secure.len();
        for (i, f) in secure.iter().enumerate() {
            let back = if i < n / 2 { g.values.at(i).add(lambda) } else { g.values.at(i).sub(lambda) };
            assert_eq!(back, *f);
        }
    }
}
