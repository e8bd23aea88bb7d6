use zyrkom::air::accumulation::PointEvaluationAccumulator;
use zyrkom::air::component::Component;
use zyrkom::channel::blake2s::Blake2sChannel;
use zyrkom::channel::{Channel, MerkleChannel};
use zyrkom::circle::secure_point::SecureCirclePoint;
use zyrkom::constraints::{coset_vanishing, secure_coset_vanishing};
use zyrkom::fields::m31::M31;
use zyrkom::fields::qm31::QM31;
use zyrkom::fri::config::FriConfig;
use zyrkom::pcs::commitment::CommitmentSchemeVerifier;
use zyrkom::pcs::quotients::PcsConfig;
use zyrkom::poly::domain::CanonicCoset;
use zyrkom::prover::air::{
    AccumulatorModel, ComponentProver, DomainEvaluationAccumulator, Trace, TraceModel,
};
use zyrkom::prover::fri::CpuBackend;
use zyrkom::prover::pcs::CommitmentSchemeProver;
use zyrkom::prover::poly::circle::{CircleEvaluation, CirclePoly};
use zyrkom::prover::stark::prove;
use zyrkom::stark::verify;
use zyrkom::stark_proof::StarkProof;
use zyrkom::utils::bit_reverse_index;
use zyrkom::vcs::blake2_merkle::{Blake2sMerkleChannel, Blake2sMerkleHasher};
use zyrkom::verification::{ProvingError, VerificationErrorKind};

const LOG_SIZE: u32 = 4;

/// Three columns `a, b, c` with the constraint `c = a^2 + b^2` on every row.
struct SquaresComponent {
    log_size: u32,
}

impl Component for SquaresComponent {
    fn spec_n_constraints(&self) -> usize {
        unreachable!()
    }

    fn spec_max_constraint_log_degree_bound(&self) -> u32 {
        unreachable!()
    }

    fn spec_trace_log_degree_bounds(&self) -> vstd::seq::Seq<vstd::seq::Seq<u32>> {
        unreachable!()
    }

    fn spec_mask_points(
        &self,
        _: SecureCirclePoint,
    ) -> vstd::seq::Seq<vstd::seq::Seq<vstd::seq::Seq<SecureCirclePoint>>> {
        unreachable!()
    }

    fn spec_preprocessed_column_indices(&self) -> vstd::seq::Seq<usize> {
        unreachable!()
    }

    fn spec_accepts_mask(&self, _: vstd::seq::Seq<vstd::seq::Seq<vstd::seq::Seq<QM31>>>) -> bool {
        unreachable!()
    }

    fn spec_evaluate_constraint_quotients_at_point(
        &self,
        _: SecureCirclePoint,
        _: vstd::seq::Seq<vstd::seq::Seq<vstd::seq::Seq<QM31>>>,
        _: PointEvaluationAccumulator,
    ) -> PointEvaluationAccumulator {
        unreachable!()
    }

    fn n_constraints(&self) -> usize {
        1
    }

    fn max_constraint_log_degree_bound(&self) -> u32 {
        self.log_size + 1
    }

    fn trace_log_degree_bounds(&self) -> Vec<Vec<u32>> {
        vec![vec![], vec![self.log_size; 3]]
    }

    fn mask_points(&self, point: SecureCirclePoint) -> Vec<Vec<Vec<SecureCirclePoint>>> {
        vec![vec![], vec![vec![point]; 3]]
    }

    fn preproccessed_column_indices(&self) -> Vec<usize> {
        vec![]
    }

    fn accepts_mask(&self, mask: &Vec<Vec<Vec<QM31>>>) -> bool {
        mask.len() >= 2 && mask[1].len() >= 3 && mask[1][..3].iter().all(|c| c.len() >= 1)
    }

    fn evaluate_constraint_quotients_at_point(
        &self,
        point: SecureCirclePoint,
        mask: &Vec<Vec<Vec<QM31>>>,
        evaluation_accumulator: &mut PointEvaluationAccumulator,
    ) {
        let a = mask[1][0][0];
        let b = mask[1][1][0];
        let c = mask[1][2][0];
        let denom = secure_coset_vanishing(CanonicCoset::new(self.log_size).coset(), point);
        let numerator = c.sub(a.square()).sub(b.square());
        evaluation_accumulator.accumulate(numerator.mul(denom.inverse()));
    }
}

impl ComponentProver for SquaresComponent {
    fn spec_on_domain(&self, _: TraceModel, _: AccumulatorModel) -> AccumulatorModel {
        unreachable!()
    }

    fn evaluate_constraint_quotients_on_domain(
        &self,
        trace: &Trace<'_>,
        evaluation_accumulator: &mut DomainEvaluationAccumulator,
    ) {
        let eval_log_size = self.log_size + 1;
        let eval_domain = CanonicCoset::new(eval_log_size).circle_domain();
        let columns: Vec<CircleEvaluation> =
            trace.polys[1].iter().map(|poly| poly.evaluate(eval_domain)).collect();
        let coeffs = evaluation_accumulator.take_coeffs(1);
        let trace_coset = CanonicCoset::new(self.log_size).coset();
        for row in 0..eval_domain.size() {
            let p = eval_domain.at(bit_reverse_index(row, eval_log_size));
            let denom = coset_vanishing(trace_coset, p);
            let a = columns[0].values[row];
            let b = columns[1].values[row];
            let c = columns[2].values[row];
            let numerator = c.sub(a.square()).sub(b.square());
            let value = coeffs[0].mul_m31(numerator.mul(denom.inverse()));
            evaluation_accumulator.accumulate(eval_log_size, row, value);
        }
    }
}

fn config() -> PcsConfig {
    PcsConfig { pow_bits: 5, fri_config: FriConfig::new(0, 1, 3) }
}

/// The columns `a, b, c` of a trace that satisfies the constraint.
fn honest_trace() -> Vec<Vec<M31>> {
    let n = 1usize << LOG_SIZE;
    let a: Vec<M31> = (0..n).map(|i| M31::from_u32(i as u32 + 1)).collect();
    let b: Vec<M31> = (0..n).map(|i| M31::from_u32(3 * i as u32 + 2)).collect();
    let c: Vec<M31> = a.iter().zip(&b).map(|(x, y)| x.square().add(y.square())).collect();
    vec![a, b, c]
}

fn interpolate_columns(columns: Vec<Vec<M31>>) -> Vec<CirclePoly> {
    let domain = CanonicCoset::new(LOG_SIZE).circle_domain();
    columns
        .into_iter()
        .map(|values| CircleEvaluation::new(domain, values).interpolate())
        .collect()
}

fn prove_trace(
    columns: Vec<Vec<M31>>,
) -> Result<StarkProof<Blake2sMerkleHasher>, ProvingError> {
    let channel = &mut Blake2sChannel::default();
    let mut commitment_scheme = CommitmentSchemeProver::<Blake2sMerkleChannel>::new(config());
    assert!(commitment_scheme.commit(vec![], channel));
    assert!(commitment_scheme.commit(interpolate_columns(columns), channel));
    let components = vec![SquaresComponent { log_size: LOG_SIZE }];
    prove::<CpuBackend, Blake2sMerkleChannel, SquaresComponent>(
        &components,
        channel,
        &mut commitment_scheme,
    )
}

fn verify_proof(
    proof: StarkProof<Blake2sMerkleHasher>,
) -> Result<(), VerificationErrorKind> {
    let channel = &mut Blake2sChannel::default();
    let mut commitment_scheme = CommitmentSchemeVerifier::<Blake2sMerkleChannel>::new(config());
    commitment_scheme.commit(proof.0.commitments[0], &vec![], channel);
    commitment_scheme.commit(proof.0.commitments[1], &vec![LOG_SIZE; 3], channel);
    let components = vec![SquaresComponent { log_size: LOG_SIZE }];
    verify::<Blake2sMerkleChannel, SquaresComponent>(
        &components,
        channel,
        &mut commitment_scheme,
        proof,
    )
    .map_err(|e| e.kind())
}

#[test]
fn honest_proof_is_accepted() {
    let proof = prove_trace(honest_trace()).unwrap();

    assert_eq!(verify_proof(proof), Ok(()));
}

#[test]
fn perturbed_trace_is_not_proved() {
    let mut columns = honest_trace();
    columns[2][5] = columns[2][5].add(M31::one());

    assert!(matches!(
        prove_trace(columns),
        Err(ProvingError::ConstraintsNotSatisfied)
    ));
}

#[test]
fn proof_with_zero_nonce_fails_the_proof_of_work() {
    let mut proof = prove_trace(honest_trace()).unwrap();
    assert_ne!(proof.0.proof_of_work, 0);
    proof.0.proof_of_work = 0;

    assert_eq!(verify_proof(proof), Err(VerificationErrorKind::ProofOfWork));
}

#[test]
fn proof_with_changed_sample_does_not_match_out_of_domain() {
    let mut proof = prove_trace(honest_trace()).unwrap();
    let changed = proof.0.sampled_values[1][0][0].add_m31(M31::one());
    proof.0.sampled_values[1][0][0] = changed;

    assert_eq!(verify_proof(proof), Err(VerificationErrorKind::OodsNotMatching));
}

#[test]
fn proof_with_changed_queried_value_fails_the_merkle_check() {
    let mut proof = prove_trace(honest_trace()).unwrap();
    let changed = proof.0.queried_values[1][0].add(M31::one());
    proof.0.queried_values[1][0] = changed;

    assert!(matches!(
        verify_proof(proof),
        Err(VerificationErrorKind::Merkle(_))
    ));
}

#[test]
fn proof_without_commitments_has_an_invalid_structure() {
    let mut proof = prove_trace(honest_trace()).unwrap();
    let commitments = proof.0.commitments.clone();
    proof.0.commitments.clear();
    let channel = &mut Blake2sChannel::default();
    let mut commitment_scheme = CommitmentSchemeVerifier::<Blake2sMerkleChannel>::new(config());
    commitment_scheme.commit(commitments[0], &vec![], channel);
    commitment_scheme.commit(commitments[1], &vec![LOG_SIZE; 3], channel);
    let components = vec![SquaresComponent { log_size: LOG_SIZE }];

    let result = verify::<Blake2sMerkleChannel, SquaresComponent>(
        &components,
        channel,
        &mut commitment_scheme,
        proof,
    );

    assert_eq!(
        result.map_err(|e| e.kind()),
        Err(VerificationErrorKind::InvalidStructure)
    );
}

#[test]
fn channel_draws_are_determined_by_what_was_mixed() {
    let mut first = Blake2sChannel::default();
    let mut second = Blake2sChannel::default();
    first.mix_u64(17);
    second.mix_u64(17);
    first.mix_felts(&vec![QM31::from_u32_unchecked(1, 2, 3, 4)]);
    second.mix_felts(&vec![QM31::from_u32_unchecked(1, 2, 3, 4)]);

    assert_eq!(first.draw_secure_felt(), second.draw_secure_felt());
    assert_eq!(first.draw_secure_felts(5), second.draw_secure_felts(5));
    assert_eq!(first.draw_random_bytes(), second.draw_random_bytes());

    let mut third = Blake2sChannel::default();
    third.mix_u64(18);
    assert_ne!(third.draw_secure_felt(), Blake2sChannel::default().draw_secure_felt());
    let root = zyrkom::vcs::blake2_hash::Blake2sHash::hash(&vec![1u8, 2, 3]);
    let mut fourth = Blake2sChannel::default();
    Blake2sMerkleChannel::mix_root(&mut fourth, root);
    assert_ne!(fourth.digest(), Blake2sChannel::default().digest());
}

#[test]
fn proving_and_verifying_add_the_tree_of_the_composition_polynomial() {
    let components = vec![SquaresComponent { log_size: LOG_SIZE }];
    let channel = &mut Blake2sChannel::default();
    let mut prover = CommitmentSchemeProver::<Blake2sMerkleChannel>::new(config());
    assert!(prover.commit(vec![], channel));
    assert!(prover.commit(interpolate_columns(honest_trace()), channel));

    let proof = prove::<CpuBackend, Blake2sMerkleChannel, SquaresComponent>(
        &components,
        channel,
        &mut prover,
    )
    .unwrap();

    assert_eq!(prover.trees.len(), 3);
    assert_eq!(prover.trees[2].polynomials.len(), 4);
    assert_eq!(proof.0.commitments.len(), 3);
    for tree in 0..3 {
        assert_eq!(proof.0.commitments[tree], prover.trees[tree].commitment.root());
    }

    let channel = &mut Blake2sChannel::default();
    let mut verifier = CommitmentSchemeVerifier::<Blake2sMerkleChannel>::new(config());
    verifier.commit(proof.0.commitments[0], &vec![], channel);
    verifier.commit(proof.0.commitments[1], &vec![LOG_SIZE; 3], channel);
    let roots = proof.0.commitments.clone();

    let result =
        verify::<Blake2sMerkleChannel, SquaresComponent>(&components, channel, &mut verifier, proof);

    assert!(result.is_ok());
    assert_eq!(verifier.trees.len(), 3);
    for tree in 0..3 {
        assert_eq!(verifier.trees[tree].root, roots[tree]);
    }
    assert_eq!(verifier.trees[1].column_log_sizes, vec![LOG_SIZE + 1; 3]);
    assert_eq!(verifier.trees[2].column_log_sizes, vec![LOG_SIZE + 2; 4]);
}

#[test]
fn a_trace_that_is_not_proved_still_gets_its_composition_tree() {
    let mut columns = honest_trace();
    columns[2][3] = columns[2][3].add(M31::one());
    let components = vec![SquaresComponent { log_size: LOG_SIZE }];
    let channel = &mut Blake2sChannel::default();
    let mut prover = CommitmentSchemeProver::<Blake2sMerkleChannel>::new(config());
    assert!(prover.commit(vec![], channel));
    assert!(prover.commit(interpolate_columns(columns), channel));

    let result = prove::<CpuBackend, Blake2sMerkleChannel, SquaresComponent>(
        &components,
        channel,
        &mut prover,
    );

    assert_eq!(result.err(), Some(ProvingError::ConstraintsNotSatisfied));
    assert_eq!(prover.trees.len(), 3);
}
