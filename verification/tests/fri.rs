use zyrkom::channel::blake2s::Blake2sChannel;
use zyrkom::circle::coset::Coset;
use zyrkom::fields::m31::{BaseField, M31};
use zyrkom::fields::qm31::{SecureField, QM31};
use zyrkom::fri::config::{
    CirclePolyDegreeBound, FriConfig, FriVerificationError, CIRCLE_TO_LINE_FOLD_STEP,
};
use zyrkom::fri::fold::{fold_circle_into_line, fold_line};
use zyrkom::fri::verification::FriVerifier as GenericFriVerifier;
use zyrkom::poly::domain::CircleDomain;
use zyrkom::poly::line::{LineDomain, LinePoly};
use zyrkom::prover::fri::{CpuBackend, FriProver as GenericFriProver};
use zyrkom::prover::line::LineEvaluation;
use zyrkom::prover::poly::circle::{CirclePoly, SecureEvaluation};
use zyrkom::prover::secure_column::SecureColumnByCoords;
use zyrkom::queries::Queries;
use zyrkom::utils::bit_reverse;
use zyrkom::vcs::blake2_merkle::Blake2sMerkleChannel;

/// Default blowup factor used for tests.
const LOG_BLOWUP_FACTOR: u32 = 2;

type FriProver<'a> = GenericFriProver<'a, Blake2sMerkleChannel>;
type FriVerifier = GenericFriVerifier<Blake2sMerkleChannel>;

fn test_channel() -> Blake2sChannel {
    Blake2sChannel::default()
}

fn commit<'a>(config: FriConfig, columns: &'a Vec<SecureEvaluation>) -> FriProver<'a> {
    FriProver::commit::<CpuBackend>(&mut test_channel(), config, columns).expect("invalid degree")
}

/// Returns an evaluation of a random polynomial with degree `2^log_degree`.
///
/// The evaluation domain size is `2^(log_degree + log_blowup_factor)`.
fn polynomial_evaluation(log_degree: u32, log_blowup_factor: u32) -> SecureEvaluation {
    let poly = CirclePoly::new(vec![BaseField::one(); 1 << log_degree]);
    let coset = Coset::half_odds(log_degree + log_blowup_factor - 1);
    let domain = CircleDomain::new(coset);
    let values = poly.evaluate(domain);
    let secure: Vec<SecureField> = values.values.into_iter().map(SecureField::from_base).collect();
    SecureEvaluation::new(domain, SecureColumnByCoords::from_vec(&secure))
}

/// Returns the log degree bound of a polynomial.
fn log_degree_bound(polynomial: LineEvaluation) -> u32 {
    let coeffs = polynomial.interpolate().into_ordered_coefficients();
    let degree = coeffs.into_iter().rposition(|c| !c.is_zero()).unwrap_or(0);
    (degree + 1).ilog2()
}

fn query_polynomial(polynomial: &SecureEvaluation, queries: &Queries) -> Vec<SecureField> {
    let queries = queries.fold(queries.log_domain_size() - polynomial.domain.log_size());
    query_polynomial_at_positions(polynomial, queries.positions())
}

fn query_polynomial_at_positions(
    polynomial: &SecureEvaluation,
    query_positions: &[usize],
) -> Vec<SecureField> {
    query_positions.iter().map(|p| polynomial.at(*p)).collect()
}

#[test]
fn fold_line_works() {
    const DEGREE: usize = 8;
    // Coefficients are bit-reversed.
    let even_coeffs: [SecureField; DEGREE / 2] =
        [1, 2, 1, 3].map(|v| SecureField::from_base(M31::from_u32(v)));
    let odd_coeffs: [SecureField; DEGREE / 2] =
        [3, 5, 4, 1].map(|v| SecureField::from_base(M31::from_u32(v)));
    let poly = LinePoly::new([even_coeffs, odd_coeffs].concat());
    let even_poly = LinePoly::new(even_coeffs.to_vec());
    let odd_poly = LinePoly::new(odd_coeffs.to_vec());
    let alpha = SecureField::from_base(BaseField::from_u32_unchecked(19283));
    let domain = LineDomain::new(Coset::half_odds(DEGREE.ilog2()));
    let mut values: Vec<SecureField> = domain
        .iter()
        .into_iter()
        .map(|p| poly.eval_at_point(SecureField::from_base(p)))
        .collect();
    bit_reverse(&mut values, DEGREE.ilog2());

    let (drp_domain, drp_evals) = fold_line(&values, domain, alpha);
    let mut drp_evals = drp_evals;
    bit_reverse(&mut drp_evals, (DEGREE / 2).ilog2());

    assert_eq!(drp_evals.len(), DEGREE / 2);
    for (i, (&drp_eval, x)) in drp_evals.iter().zip(drp_domain.iter()).enumerate() {
        let f_e: SecureField = even_poly.eval_at_point(SecureField::from_base(x));
        let f_o: SecureField = odd_poly.eval_at_point(SecureField::from_base(x));
        assert_eq!(drp_eval, f_e.add(alpha.mul(f_o)).double(), "mismatch at {i}");
    }
}

#[test]
fn fold_circle_to_line_works() {
    const LOG_DEGREE: u32 = 4;
    let circle_evaluation = polynomial_evaluation(LOG_DEGREE, LOG_BLOWUP_FACTOR);
    let alpha = SecureField::one();
    let folded_domain = LineDomain::new(circle_evaluation.domain.half_coset());

    let mut folded_evaluation = vec![SecureField::zero(); folded_domain.size()];
    fold_circle_into_line(
        &mut folded_evaluation,
        &circle_evaluation.values.to_vec(),
        circle_evaluation.domain,
        alpha,
    );
    let folded_evaluation =
        LineEvaluation::new(folded_domain, SecureColumnByCoords::from_vec(&folded_evaluation));

    assert_eq!(
        log_degree_bound(folded_evaluation),
        LOG_DEGREE - CIRCLE_TO_LINE_FOLD_STEP
    );
}

#[test]
fn valid_proof_passes_verification() {
    const LOG_DEGREE: u32 = 4;
    let column = polynomial_evaluation(LOG_DEGREE, LOG_BLOWUP_FACTOR);
    let queries = Queries::from_positions(vec![5], column.domain.log_size());
    let config = FriConfig::new(1, LOG_BLOWUP_FACTOR, queries.len());
    let decommitment_value = query_polynomial(&column, &queries);
    let columns = vec![column];
    let prover = commit(config, &columns);
    let proof = prover.decommit_on_queries(&queries);
    let bound = vec![CirclePolyDegreeBound::new(LOG_DEGREE)];
    let verifier = FriVerifier::commit(&mut test_channel(), config, proof, bound).unwrap();

    verifier.decommit_on_queries(&queries, vec![decommitment_value]).unwrap();
}

#[test]
fn valid_proof_with_constant_last_layer_passes_verification() {
    const LOG_DEGREE: u32 = 3;
    const LAST_LAYER_LOG_BOUND: u32 = 0;
    let column = polynomial_evaluation(LOG_DEGREE, LOG_BLOWUP_FACTOR);
    let queries = Queries::from_positions(vec![5], column.domain.log_size());
    let config = FriConfig::new(LAST_LAYER_LOG_BOUND, LOG_BLOWUP_FACTOR, queries.len());
    let decommitment_value = query_polynomial(&column, &queries);
    let columns = vec![column];
    let prover = commit(config, &columns);
    let proof = prover.decommit_on_queries(&queries);
    let bound = vec![CirclePolyDegreeBound::new(LOG_DEGREE)];
    let verifier = FriVerifier::commit(&mut test_channel(), config, proof, bound).unwrap();

    verifier.decommit_on_queries(&queries, vec![decommitment_value]).unwrap();
}

#[test]
fn valid_mixed_degree_proof_passes_verification() {
    const LOG_DEGREES: [u32; 3] = [6, 5, 4];
    let columns = LOG_DEGREES.map(|log_d| polynomial_evaluation(log_d, LOG_BLOWUP_FACTOR)).to_vec();
    let log_domain_size = columns[0].domain.log_size();
    let queries = Queries::from_positions(vec![7, 70], log_domain_size);
    let config = FriConfig::new(2, LOG_BLOWUP_FACTOR, queries.len());
    let prover = commit(config, &columns);
    let proof = prover.decommit_on_queries(&queries);
    let query_evals = columns.iter().map(|p| query_polynomial(p, &queries)).collect();
    let bounds = LOG_DEGREES.map(CirclePolyDegreeBound::new).to_vec();
    let verifier = FriVerifier::commit(&mut test_channel(), config, proof, bounds).unwrap();

    verifier.decommit_on_queries(&queries, query_evals).unwrap();
}

#[test]
fn mixed_degree_proof_with_queries_sampled_from_channel_passes_verification() {
    const LOG_DEGREES: [u32; 3] = [6, 5, 4];
    let columns = LOG_DEGREES.map(|log_d| polynomial_evaluation(log_d, LOG_BLOWUP_FACTOR)).to_vec();
    let config = FriConfig::new(2, LOG_BLOWUP_FACTOR, 3);
    let prover = commit(config, &columns);
    let (proof, prover_query_positions_by_log_size) = prover.decommit(&mut test_channel());
    let query_evals_by_column: Vec<Vec<SecureField>> = columns
        .iter()
        .map(|eval| {
            let query_positions = &prover_query_positions_by_log_size[&eval.domain.log_size()];
            query_polynomial_at_positions(eval, query_positions)
        })
        .collect();
    let bounds = LOG_DEGREES.map(CirclePolyDegreeBound::new).to_vec();

    let mut verifier = FriVerifier::commit(&mut test_channel(), config, proof, bounds).unwrap();
    let verifier_query_positions_by_log_size =
        verifier.sample_query_positions(&mut test_channel());

    assert_eq!(
        prover_query_positions_by_log_size,
        verifier_query_positions_by_log_size
    );
    verifier.decommit(query_evals_by_column).unwrap();
}

#[test]
fn proof_with_removed_layer_fails_verification() {
    const LOG_DEGREE: u32 = 6;
    let evaluation = polynomial_evaluation(6, LOG_BLOWUP_FACTOR);
    let log_domain_size = evaluation.domain.log_size();
    let queries = Queries::from_positions(vec![1], log_domain_size);
    let config = FriConfig::new(2, LOG_BLOWUP_FACTOR, queries.len());
    let columns = vec![evaluation];
    let prover = commit(config, &columns);
    let proof = prover.decommit_on_queries(&queries);
    let bound = vec![CirclePolyDegreeBound::new(LOG_DEGREE)];
    // Set verifier's config to expect one extra layer than prover config.
    let mut invalid_config = config;
    invalid_config.log_last_layer_degree_bound -= 1;

    let verifier = FriVerifier::commit(&mut test_channel(), invalid_config, proof, bound);

    assert!(matches!(
        verifier,
        Err(FriVerificationError::InvalidNumFriLayers)
    ));
}

#[test]
fn proof_with_added_layer_fails_verification() {
    const LOG_DEGREE: u32 = 6;
    let evaluation = polynomial_evaluation(LOG_DEGREE, LOG_BLOWUP_FACTOR);
    let log_domain_size = evaluation.domain.log_size();
    let queries = Queries::from_positions(vec![1], log_domain_size);
    let config = FriConfig::new(2, LOG_BLOWUP_FACTOR, queries.len());
    let columns = vec![evaluation];
    let prover = commit(config, &columns);
    let proof = prover.decommit_on_queries(&queries);
    let bound = vec![CirclePolyDegreeBound::new(LOG_DEGREE)];
    // Set verifier's config to expect one less layer than prover config.
    let mut invalid_config = config;
    invalid_config.log_last_layer_degree_bound += 1;

    let verifier = FriVerifier::commit(&mut test_channel(), invalid_config, proof, bound);

    assert!(matches!(
        verifier,
        Err(FriVerificationError::InvalidNumFriLayers)
    ));
}

#[test]
fn proof_with_invalid_inner_layer_evaluation_fails_verification() {
    const LOG_DEGREE: u32 = 6;
    let evaluation = polynomial_evaluation(LOG_DEGREE, LOG_BLOWUP_FACTOR);
    let log_domain_size = evaluation.domain.log_size();
    let queries = Queries::from_positions(vec![5], log_domain_size);
    let config = FriConfig::new(2, LOG_BLOWUP_FACTOR, queries.len());
    let decommitment_value = query_polynomial(&evaluation, &queries);
    let columns = vec![evaluation];
    let prover = commit(config, &columns);
    let bound = vec![CirclePolyDegreeBound::new(LOG_DEGREE)];
    let mut proof = prover.decommit_on_queries(&queries);
    // Remove an evaluation from the second layer's proof.
    proof.inner_layers[1].fri_witness.pop();
    let verifier = FriVerifier::commit(&mut test_channel(), config, proof, bound).unwrap();

    let verification_result = verifier.decommit_on_queries(&queries, vec![decommitment_value]);

    assert!(matches!(
        verification_result,
        Err(FriVerificationError::InnerLayerEvaluationsInvalid { inner_layer: 1 })
    ));
}

#[test]
fn proof_with_invalid_inner_layer_decommitment_fails_verification() {
    const LOG_DEGREE: u32 = 6;
    let evaluation = polynomial_evaluation(LOG_DEGREE, LOG_BLOWUP_FACTOR);
    let log_domain_size = evaluation.domain.log_size();
    let queries = Queries::from_positions(vec![5], log_domain_size);
    let config = FriConfig::new(2, LOG_BLOWUP_FACTOR, queries.len());
    let decommitment_value = query_polynomial(&evaluation, &queries);
    let columns = vec![evaluation];
    let prover = commit(config, &columns);
    let bound = vec![CirclePolyDegreeBound::new(LOG_DEGREE)];
    let mut proof = prover.decommit_on_queries(&queries);
    // Modify the committed values in the second layer.
    let changed = proof.inner_layers[1].fri_witness[0].add_m31(BaseField::one());
    proof.inner_layers[1].fri_witness[0] = changed;
    let verifier = FriVerifier::commit(&mut test_channel(), config, proof, bound).unwrap();

    let verification_result = verifier.decommit_on_queries(&queries, vec![decommitment_value]);

    assert!(matches!(
        verification_result,
        Err(FriVerificationError::InnerLayerCommitmentInvalid { inner_layer: 1, .. })
    ));
}

#[test]
fn proof_with_invalid_last_layer_degree_fails_verification() {
    const LOG_DEGREE: u32 = 6;
    const LOG_MAX_LAST_LAYER_DEGREE: u32 = 2;
    let evaluation = polynomial_evaluation(LOG_DEGREE, LOG_BLOWUP_FACTOR);
    let log_domain_size = evaluation.domain.log_size();
    let queries = Queries::from_positions(vec![1, 7, 8], log_domain_size);
    let config = FriConfig::new(LOG_MAX_LAST_LAYER_DEGREE, LOG_BLOWUP_FACTOR, queries.len());
    let columns = vec![evaluation];
    let prover = commit(config, &columns);
    let bound = vec![CirclePolyDegreeBound::new(LOG_DEGREE)];
    let mut proof = prover.decommit_on_queries(&queries);
    let bad_last_layer_coeffs = vec![QM31::one(); 1 << (LOG_MAX_LAST_LAYER_DEGREE + 1)];
    proof.last_layer_poly = LinePoly::new(bad_last_layer_coeffs);

    let verifier = FriVerifier::commit(&mut test_channel(), config, proof, bound);

    assert!(matches!(
        verifier,
        Err(FriVerificationError::LastLayerDegreeInvalid)
    ));
}

#[test]
fn proof_with_invalid_last_layer_fails_verification() {
    const LOG_DEGREE: u32 = 6;
    let evaluation = polynomial_evaluation(LOG_DEGREE, LOG_BLOWUP_FACTOR);
    let log_domain_size = evaluation.domain.log_size();
    let queries = Queries::from_positions(vec![1, 7, 8], log_domain_size);
    let config = FriConfig::new(2, LOG_BLOWUP_FACTOR, queries.len());
    let decommitment_value = query_polynomial(&evaluation, &queries);
    let columns = vec![evaluation];
    let prover = commit(config, &columns);
    let bound = vec![CirclePolyDegreeBound::new(LOG_DEGREE)];
    let mut proof = prover.decommit_on_queries(&queries);
    // Compromise the last layer polynomial's first coefficient.
    let mut coeffs = proof.last_layer_poly.coeffs().clone();
    coeffs[0] = coeffs[0].add_m31(BaseField::one());
    proof.last_layer_poly = LinePoly::new(coeffs);
    let verifier = FriVerifier::commit(&mut test_channel(), config, proof, bound).unwrap();

    let verification_result = verifier.decommit_on_queries(&queries, vec![decommitment_value]);

    assert!(matches!(
        verification_result,
        Err(FriVerificationError::LastLayerEvaluationsInvalid)
    ));
}

#[test]
fn committing_high_degree_polynomial_is_refused() {
    const LOG_EXPECTED_BLOWUP_FACTOR: u32 = LOG_BLOWUP_FACTOR;
    const LOG_INVALID_BLOWUP_FACTOR: u32 = LOG_BLOWUP_FACTOR - 1;
    let config = FriConfig::new(2, LOG_EXPECTED_BLOWUP_FACTOR, 3);
    let columns = vec![polynomial_evaluation(6, LOG_INVALID_BLOWUP_FACTOR)];

    assert!(FriProver::commit::<CpuBackend>(&mut test_channel(), config, &columns).is_none());
}

#[test]
fn column_one_above_the_last_layer_with_a_long_last_layer_is_refused() {
    const LOG_DEGREE: u32 = 3;
    let column = polynomial_evaluation(LOG_DEGREE, LOG_BLOWUP_FACTOR);
    let queries = Queries::from_positions(vec![5], column.domain.log_size());
    let config = FriConfig::new(2, LOG_BLOWUP_FACTOR, queries.len());
    let columns = vec![column];
    let prover = commit(config, &columns);
    let mut proof = prover.decommit_on_queries(&queries);
    proof.last_layer_poly = LinePoly::new(vec![QM31::one(); 8]);
    let bound = vec![CirclePolyDegreeBound::new(LOG_DEGREE)];

    let verifier = FriVerifier::commit(&mut test_channel(), config, proof, bound);

    assert!(matches!(verifier, Err(FriVerificationError::LastLayerDegreeInvalid)));
}

#[test]
fn column_one_above_the_last_layer_folds_into_no_layer() {
    const LOG_DEGREE: u32 = 3;
    let column = polynomial_evaluation(LOG_DEGREE, LOG_BLOWUP_FACTOR);
    let queries = Queries::from_positions(vec![5], column.domain.log_size());
    let config = FriConfig::new(2, LOG_BLOWUP_FACTOR, queries.len());
    let columns = vec![column];
    let prover = commit(config, &columns);
    let proof = prover.decommit_on_queries(&queries);
    assert_eq!(proof.inner_layers.len(), 0);
    let bound = vec![CirclePolyDegreeBound::new(LOG_DEGREE)];

    let verifier = FriVerifier::commit(&mut test_channel(), config, proof, bound).unwrap();

    assert!(!verifier.columns_fold());
}
