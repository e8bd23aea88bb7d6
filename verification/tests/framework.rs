use zyrkom::air::accumulation::PointEvaluationAccumulator;
use zyrkom::air::component::Component;
use zyrkom::channel::blake2s::Blake2sChannel;
use zyrkom::circle::secure_point::SecureCirclePoint;
use zyrkom::fields::m31::M31;
use zyrkom::fields::qm31::QM31;
use zyrkom::framework::columns::{PreProcessedColumnId, TraceLocationAllocator, TreeSubspan};
use zyrkom::framework::component::{AllocationError, FrameworkComponent, FrameworkEval};
use zyrkom::framework::cpu_domain::offset_bit_reversed_circle_domain_index;
use zyrkom::framework::eval::EvalAtRow;
use zyrkom::framework::logup::LookupElements;
use zyrkom::fri::config::FriConfig;
use zyrkom::pcs::commitment::CommitmentSchemeVerifier;
use zyrkom::pcs::quotients::PcsConfig;
use zyrkom::poly::domain::CanonicCoset;
use zyrkom::prover::fri::CpuBackend;
use zyrkom::prover::pcs::CommitmentSchemeProver;
use zyrkom::prover::poly::circle::{CircleEvaluation, CirclePoly};
use zyrkom::prover::stark::prove;
use zyrkom::stark::verify;
use zyrkom::stark_proof::StarkProof;
use zyrkom::vcs::blake2_merkle::{Blake2sMerkleChannel, Blake2sMerkleHasher};
use zyrkom::verification::{ProvingError, VerificationErrorKind};

const LOG_SIZE: u32 = 5;

/// Three columns `a, b, c` with `c = a * b + k` on every row, where `k` is a
/// preprocessed column.
struct Product {
    log_size: u32,
}

impl FrameworkEval for Product {
    fn spec_log_size(&self) -> u32 {
        unreachable!()
    }

    fn spec_max_constraint_log_degree_bound(&self) -> u32 {
        unreachable!()
    }

    fn spec_evaluate<E: EvalAtRow>(&self, _: E::Model) -> E::Model {
        unreachable!()
    }

    fn log_size(&self) -> u32 {
        self.log_size
    }

    fn max_constraint_log_degree_bound(&self) -> u32 {
        self.log_size + 1
    }

    fn evaluate<E: EvalAtRow>(&self, mut eval: E) -> E {
        let k = eval.get_preprocessed_column(PreProcessedColumnId { id: "k".to_string() });
        let a = eval.next_trace_mask();
        let b = eval.next_trace_mask();
        let c = eval.next_trace_mask();
        let product = E::ef_mul(E::embed(a), E::embed(b));
        let expected = E::ef_add(product, E::embed(k));
        eval.add_constraint(E::ef_sub(E::embed(c), expected));
        eval
    }
}

fn config() -> PcsConfig {
    PcsConfig { pow_bits: 4, fri_config: FriConfig::new(0, 1, 4) }
}

fn constants() -> Vec<M31> {
    (0..1u32 << LOG_SIZE).map(|i| M31::from_u32(7 * i + 3)).collect()
}

fn honest_trace() -> Vec<Vec<M31>> {
    let n = 1u32 << LOG_SIZE;
    let a: Vec<M31> = (0..n).map(|i| M31::from_u32(i + 1)).collect();
    let b: Vec<M31> = (0..n).map(|i| M31::from_u32(5 * i + 2)).collect();
    let k = constants();
    let c: Vec<M31> = (0..n as usize).map(|i| a[i].mul(b[i]).add(k[i])).collect();
    vec![a, b, c]
}

fn interpolate_columns(columns: Vec<Vec<M31>>) -> Vec<CirclePoly> {
    let domain = CanonicCoset::new(LOG_SIZE).circle_domain();
    columns
        .into_iter()
        .map(|values| CircleEvaluation::new(domain, values).interpolate())
        .collect()
}

fn component() -> FrameworkComponent<Product> {
    let mut allocator = TraceLocationAllocator::default();
    FrameworkComponent::new(&mut allocator, Product { log_size: LOG_SIZE }, QM31::zero())
        .ok()
        .unwrap()
}

fn prove_trace(columns: Vec<Vec<M31>>) -> Result<StarkProof<Blake2sMerkleHasher>, ProvingError> {
    let channel = &mut Blake2sChannel::default();
    let mut commitment_scheme = CommitmentSchemeProver::<Blake2sMerkleChannel>::new(config());
    assert!(commitment_scheme.commit(interpolate_columns(vec![constants()]), channel));
    assert!(commitment_scheme.commit(interpolate_columns(columns), channel));
    let components = vec![component()];
    prove::<CpuBackend, Blake2sMerkleChannel, FrameworkComponent<Product>>(
        &components,
        channel,
        &mut commitment_scheme,
    )
}

fn verify_proof(proof: StarkProof<Blake2sMerkleHasher>) -> Result<(), VerificationErrorKind> {
    let channel = &mut Blake2sChannel::default();
    let mut commitment_scheme = CommitmentSchemeVerifier::<Blake2sMerkleChannel>::new(config());
    commitment_scheme.commit(proof.0.commitments[0], &vec![LOG_SIZE; 1], channel);
    commitment_scheme.commit(proof.0.commitments[1], &vec![LOG_SIZE; 3], channel);
    let components = vec![component()];
    verify::<Blake2sMerkleChannel, FrameworkComponent<Product>>(
        &components,
        channel,
        &mut commitment_scheme,
        proof,
    )
    .map_err(|e| e.kind())
}

#[test]
fn test_lookup_elements_combine() {
    let mut channel = Blake2sChannel::default();
    let lookup_elements = LookupElements::<3>::draw(&mut channel);
    let values = vec![
        M31::from_u32_unchecked(123),
        M31::from_u32_unchecked(456),
        M31::from_u32_unchecked(789),
    ];

    assert_eq!(
        lookup_elements.combine(&values),
        lookup_elements.z.sub(
            QM31::from_base(M31::from_u32_unchecked(123))
                .add(lookup_elements.alpha.mul_m31(M31::from_u32_unchecked(456)))
                .add(lookup_elements.alpha.pow(2).mul_m31(M31::from_u32_unchecked(789)))
        )
    );
}

#[test]
fn component_learns_its_columns_from_its_declaration() {
    let mut allocator = TraceLocationAllocator::default();
    let first = FrameworkComponent::new(&mut allocator, Product { log_size: 5 }, QM31::zero())
        .ok()
        .unwrap();
    let second = FrameworkComponent::new(&mut allocator, Product { log_size: 6 }, QM31::zero())
        .ok()
        .unwrap();

    assert_eq!(first.n_constraints(), 1);
    assert_eq!(first.max_constraint_log_degree_bound(), 6);
    assert_eq!(first.trace_log_degree_bounds(), vec![vec![5], vec![5, 5, 5]]);
    assert_eq!(first.preproccessed_column_indices(), vec![0]);
    assert_eq!(
        first.trace_locations(),
        &vec![
            TreeSubspan { tree_index: 0, col_start: 0, col_end: 0 },
            TreeSubspan { tree_index: 1, col_start: 0, col_end: 3 },
        ]
    );
    assert_eq!(second.preproccessed_column_indices(), vec![0]);
    assert_eq!(
        second.trace_locations(),
        &vec![
            TreeSubspan { tree_index: 0, col_start: 0, col_end: 0 },
            TreeSubspan { tree_index: 1, col_start: 3, col_end: 6 },
        ]
    );
    assert_eq!(allocator.preprocessed_columns().len(), 1);
    assert!(allocator.validate_preprocessed_columns(&vec![PreProcessedColumnId { id: "k".to_string() }]));
    assert!(!allocator.validate_preprocessed_columns(&vec![PreProcessedColumnId { id: "j".to_string() }]));
}

#[test]
fn static_allocation_refuses_an_unknown_preprocessed_column() {
    let known = vec![PreProcessedColumnId { id: "other".to_string() }];
    let mut allocator = TraceLocationAllocator::new_with_preproccessed_columns(&known);

    let result = FrameworkComponent::new(&mut allocator, Product { log_size: 5 }, QM31::zero());

    assert!(matches!(result, Err(AllocationError::MissingPreprocessedColumn)));
    assert_eq!(allocator.preprocessed_columns(), &known);
}

#[test]
fn static_allocation_finds_a_known_preprocessed_column() {
    let known = vec![
        PreProcessedColumnId { id: "other".to_string() },
        PreProcessedColumnId { id: "k".to_string() },
    ];
    let mut allocator = TraceLocationAllocator::new_with_preproccessed_columns(&known);

    let component =
        FrameworkComponent::new(&mut allocator, Product { log_size: 5 }, QM31::zero()).ok().unwrap();

    assert_eq!(component.preproccessed_column_indices(), vec![1]);
}

#[test]
fn mask_points_follow_the_offsets() {
    let component = component();
    let point = SecureCirclePoint::generator();

    let points = component.mask_points(point);

    assert_eq!(points.len(), 2);
    assert!(points[0].is_empty());
    assert_eq!(points[1], vec![vec![point], vec![point], vec![point]]);
}

#[test]
fn point_evaluation_divides_by_the_vanishing_polynomial() {
    let component = component();
    let point = SecureCirclePoint::generator();
    let k = QM31::from_u32_unchecked(1, 2, 3, 4);
    let a = QM31::from_u32_unchecked(5, 6, 7, 8);
    let b = QM31::from_u32_unchecked(9, 10, 11, 12);
    let c = QM31::from_u32_unchecked(13, 14, 15, 16);
    let mask = vec![vec![vec![k]], vec![vec![a], vec![b], vec![c]]];
    assert!(component.accepts_mask(&mask));
    assert!(!component.accepts_mask(&vec![vec![vec![k]], vec![vec![a], vec![b]]]));
    let mut accumulator = PointEvaluationAccumulator::new(QM31::from_u32_unchecked(2, 0, 0, 0));

    component.evaluate_constraint_quotients_at_point(point, &mask, &mut accumulator);

    let vanishing = zyrkom::constraints::secure_coset_vanishing(
        CanonicCoset::new(LOG_SIZE).coset(),
        point,
    );
    let expected = vanishing.inverse().mul(c.sub(a.mul(b).add(k)));
    assert_eq!(accumulator.finalize(), expected);
}

#[test]
fn offset_zero_keeps_the_row() {
    for row in 0..64usize {
        assert_eq!(offset_bit_reversed_circle_domain_index(row, 5, 6, 0), row);
    }
}

#[test]
fn offsets_add_up() {
    for row in 0..64usize {
        let one = offset_bit_reversed_circle_domain_index(row, 5, 6, 1);
        let two = offset_bit_reversed_circle_domain_index(one, 5, 6, 1);
        assert_eq!(offset_bit_reversed_circle_domain_index(row, 5, 6, 2), two);
        assert_eq!(offset_bit_reversed_circle_domain_index(one, 5, 6, -1), row);
    }
}

#[test]
fn framework_component_proves_and_verifies() {
    let proof = prove_trace(honest_trace()).unwrap();

    assert_eq!(verify_proof(proof), Ok(()));
}

#[test]
fn framework_component_rejects_a_wrong_trace() {
    let mut columns = honest_trace();
    columns[0][3] = columns[0][3].add(M31::one());

    assert!(matches!(
        prove_trace(columns),
        Err(ProvingError::ConstraintsNotSatisfied)
    ));
}

/// One column that holds, on every row, the product of a ratio and a
/// coefficient.
struct Scaled {
    product: M31,
}

impl FrameworkEval for Scaled {
    fn spec_log_size(&self) -> u32 {
        unreachable!()
    }

    fn spec_max_constraint_log_degree_bound(&self) -> u32 {
        unreachable!()
    }

    fn spec_evaluate<E: EvalAtRow>(&self, _: E::Model) -> E::Model {
        unreachable!()
    }

    fn log_size(&self) -> u32 {
        LOG_SIZE
    }

    fn max_constraint_log_degree_bound(&self) -> u32 {
        LOG_SIZE + 1
    }

    fn evaluate<E: EvalAtRow>(&self, mut eval: E) -> E {
        let witness = eval.next_trace_mask();
        eval.add_constraint(E::ef_sub(E::embed(witness), E::embed(E::base(self.product))));
        eval
    }
}

fn scaled(ratio: u32, coefficient: u32) -> FrameworkComponent<Scaled> {
    let product = M31::from_u32(ratio).mul(M31::from_u32(coefficient));
    let mut allocator = TraceLocationAllocator::default();
    FrameworkComponent::new(&mut allocator, Scaled { product }, QM31::zero()).ok().unwrap()
}

fn verify_scaled(
    proof: StarkProof<Blake2sMerkleHasher>,
    ratio: u32,
    coefficient: u32,
) -> Result<(), VerificationErrorKind> {
    let channel = &mut Blake2sChannel::default();
    let mut commitment_scheme = CommitmentSchemeVerifier::<Blake2sMerkleChannel>::new(config());
    commitment_scheme.commit(proof.0.commitments[0], &vec![], channel);
    commitment_scheme.commit(proof.0.commitments[1], &vec![LOG_SIZE], channel);
    verify::<Blake2sMerkleChannel, FrameworkComponent<Scaled>>(
        &vec![scaled(ratio, coefficient)],
        channel,
        &mut commitment_scheme,
        proof,
    )
    .map_err(|e| e.kind())
}

fn prove_scaled(ratio: u32, coefficient: u32) -> StarkProof<Blake2sMerkleHasher> {
    let product = M31::from_u32(ratio).mul(M31::from_u32(coefficient));
    let channel = &mut Blake2sChannel::default();
    let mut commitment_scheme = CommitmentSchemeProver::<Blake2sMerkleChannel>::new(config());
    assert!(commitment_scheme.commit(vec![], channel));
    assert!(commitment_scheme
        .commit(interpolate_columns(vec![vec![product; 1 << LOG_SIZE]]), channel));
    prove::<CpuBackend, Blake2sMerkleChannel, FrameworkComponent<Scaled>>(
        &vec![scaled(ratio, coefficient)],
        channel,
        &mut commitment_scheme,
    )
    .unwrap()
}

#[test]
fn perfect_fifth_is_proved_and_a_changed_coefficient_is_caught() {
    // The ratio 1.5 scaled by 2^20, and 2^20 / 1.5.
    let proof = prove_scaled(1_572_864, 699_050);
    assert_eq!(verify_scaled(proof, 1_572_864, 699_050), Ok(()));

    let proof = prove_scaled(1_572_864, 699_050);
    assert_eq!(
        verify_scaled(proof, 1_572_864, 699_051),
        Err(VerificationErrorKind::OodsNotMatching)
    );
}
