use zyrkom::channel::blake2s::Blake2sChannel;
use zyrkom::channel::Channel;
use zyrkom::fields::m31::M31;
use zyrkom::fields::qm31::QM31;
use zyrkom::framework::columns::TraceLocationAllocator;
use zyrkom::framework::component::{FrameworkComponent, FrameworkEval};
use zyrkom::framework::counts::{count_use, scaled, RelationCounts};
use zyrkom::framework::eval::{add_to_relation, finalize_logup, EvalAtRow, Relation, RelationEntry};
use zyrkom::framework::logup::LookupElements;
use zyrkom::framework::logup_trace::LogupTraceGenerator;
use zyrkom::fri::config::FriConfig;
use zyrkom::pcs::commitment::CommitmentSchemeVerifier;
use zyrkom::pcs::quotients::PcsConfig;
use zyrkom::poly::domain::CanonicCoset;
use zyrkom::prover::fri::CpuBackend;
use zyrkom::prover::pcs::CommitmentSchemeProver;
use zyrkom::prover::poly::circle::{CircleEvaluation, CirclePoly};
use zyrkom::prover::stark::prove;
use zyrkom::stark::verify;
use zyrkom::stark_proof::StarkProof;
use zyrkom::vcs::blake2_merkle::{Blake2sMerkleChannel, Blake2sMerkleHasher};
use zyrkom::verification::VerificationErrorKind;

const LOG_SIZE: u32 = 4;

/// One column whose value at every row is yielded to, or used from, a
/// relation.
struct Lookup {
    relation: Relation,
    yields: bool,
}

impl Lookup {
    fn new(elements: &LookupElements<1>, yields: bool) -> Self {
        Lookup {
            relation: Relation {
                name: "values".to_string(),
                z: elements.z,
                alpha_powers: elements.alpha_powers.clone(),
            },
            yields,
        }
    }

    fn multiplicity(&self) -> QM31 {
        if self.yields {
            QM31::one()
        } else {
            QM31::one().neg()
        }
    }
}

impl FrameworkEval for Lookup {
    fn spec_log_size(&self) -> u32 {
        unreachable!()
    }

    fn spec_max_constraint_log_degree_bound(&self) -> u32 {
        unreachable!()
    }

    fn spec_evaluate<E: EvalAtRow>(&self, _: E::Model) -> E::Model {
        unreachable!()
    }

    fn log_size(&self) -> u32 {
        LOG_SIZE
    }

    fn max_constraint_log_degree_bound(&self) -> u32 {
        LOG_SIZE + 1
    }

    fn evaluate<E: EvalAtRow>(&self, mut eval: E) -> E {
        let value = eval.next_trace_mask();
        let values = vec![value];
        add_to_relation(
            &mut eval,
            RelationEntry::new(&self.relation, E::secure(self.multiplicity()), &values),
        );
        finalize_logup(&mut eval);
        eval
    }
}

fn config() -> PcsConfig {
    PcsConfig { pow_bits: 3, fri_config: FriConfig::new(0, 1, 4) }
}

fn interpolate(columns: Vec<Vec<M31>>) -> Vec<CirclePoly> {
    let domain = CanonicCoset::new(LOG_SIZE).circle_domain();
    columns.into_iter().map(|v| CircleEvaluation::new(domain, v).interpolate()).collect()
}

/// The columns of cumulative sums of one side, and its claimed sum.
fn interaction_trace(
    values: &[M31],
    elements: &LookupElements<1>,
    multiplicity: QM31,
) -> (Vec<CirclePoly>, QM31) {
    let mut generator = LogupTraceGenerator::new(LOG_SIZE);
    let fracs: Vec<(QM31, QM31)> =
        values.iter().map(|v| (multiplicity, elements.combine(&vec![*v]))).collect();
    generator.col_from_iter(&fracs);
    let (evals, claimed_sum) = generator.finalize_last();
    (evals.into_iter().map(|e| e.interpolate()).collect(), claimed_sum)
}

fn yielded() -> Vec<M31> {
    (0..1u32 << LOG_SIZE).map(|i| M31::from_u32(3 * i + 1)).collect()
}

/// The same values in another order.
fn used() -> Vec<M31> {
    let mut values = yielded();
    values.reverse();
    values.swap(2, 9);
    values
}

fn components(
    elements: &LookupElements<1>,
    claimed_sums: [QM31; 2],
) -> Vec<FrameworkComponent<Lookup>> {
    let mut allocator = TraceLocationAllocator::default();
    vec![
        FrameworkComponent::new(&mut allocator, Lookup::new(elements, true), claimed_sums[0])
            .ok()
            .unwrap(),
        FrameworkComponent::new(&mut allocator, Lookup::new(elements, false), claimed_sums[1])
            .ok()
            .unwrap(),
    ]
}

fn prove_lookup(used: Vec<M31>) -> (Option<StarkProof<Blake2sMerkleHasher>>, [QM31; 2]) {
    let channel = &mut Blake2sChannel::default();
    let mut scheme = CommitmentSchemeProver::<Blake2sMerkleChannel>::new(config());
    assert!(scheme.commit(vec![], channel));
    assert!(scheme.commit(interpolate(vec![yielded(), used.clone()]), channel));
    let elements = LookupElements::<1>::draw(channel);
    let (mut columns, yielded_sum) = interaction_trace(&yielded(), &elements, QM31::one());
    let (more, used_sum) = interaction_trace(&used, &elements, QM31::one().neg());
    columns.extend(more);
    assert!(scheme.commit(columns, channel));
    let claimed_sums = [yielded_sum, used_sum];
    let proof = prove::<CpuBackend, Blake2sMerkleChannel, FrameworkComponent<Lookup>>(
        &components(&elements, claimed_sums),
        channel,
        &mut scheme,
    );
    (proof.ok(), claimed_sums)
}

fn verify_lookup(
    proof: StarkProof<Blake2sMerkleHasher>,
    claimed_sums: [QM31; 2],
) -> Result<(), VerificationErrorKind> {
    let channel = &mut Blake2sChannel::default();
    let mut scheme = CommitmentSchemeVerifier::<Blake2sMerkleChannel>::new(config());
    scheme.commit(proof.0.commitments[0], &vec![], channel);
    scheme.commit(proof.0.commitments[1], &vec![LOG_SIZE; 2], channel);
    let elements = LookupElements::<1>::draw(channel);
    scheme.commit(proof.0.commitments[2], &vec![LOG_SIZE; 8], channel);
    verify::<Blake2sMerkleChannel, FrameworkComponent<Lookup>>(
        &components(&elements, claimed_sums),
        channel,
        &mut scheme,
        proof,
    )
    .map_err(|e| e.kind())
}

#[test]
fn lookups_that_close_have_claimed_sums_that_cancel() {
    let (proof, claimed_sums) = prove_lookup(used());

    assert_ne!(claimed_sums[0], QM31::zero());
    assert_eq!(claimed_sums[0].add(claimed_sums[1]), QM31::zero());
    assert_eq!(verify_lookup(proof.unwrap(), claimed_sums), Ok(()));
}

#[test]
fn lookups_that_do_not_close_have_claimed_sums_that_do_not_cancel() {
    let mut values = used();
    values[5] = values[5].add(M31::one());

    let (proof, claimed_sums) = prove_lookup(values);

    // Each side is proved for itself; that the lookups close is read off the sums.
    assert!(proof.is_some());
    assert_ne!(claimed_sums[0].add(claimed_sums[1]), QM31::zero());
}

#[test]
fn a_wrong_claimed_sum_is_caught() {
    let (proof, claimed_sums) = prove_lookup(used());
    let wrong = [claimed_sums[0].add(QM31::one()), claimed_sums[1]];

    assert_eq!(
        verify_lookup(proof.unwrap(), wrong),
        Err(VerificationErrorKind::OodsNotMatching)
    );
}

#[test]
fn last_cell_of_the_cumulative_sum_is_zero() {
    let mut channel = Blake2sChannel::default();
    channel.mix_u64(5);
    let elements = LookupElements::<1>::draw(&mut channel);
    let mut generator = LogupTraceGenerator::new(LOG_SIZE);
    let fracs: Vec<(QM31, QM31)> =
        yielded().iter().map(|v| (QM31::one(), elements.combine(&vec![*v]))).collect();
    generator.col_from_iter(&fracs);

    let (evals, claimed_sum) = generator.finalize_last();

    let direct = fracs.iter().fold(QM31::zero(), |acc, (n, d)| acc.add(n.mul(d.inverse())));
    assert_eq!(claimed_sum, direct);
    // The last point of the trace domain stands at the second row.
    let size = 1usize << LOG_SIZE;
    let last_row = zyrkom::utils::bit_reverse_index(
        zyrkom::utils::coset_index_to_circle_domain_index(size - 1, LOG_SIZE),
        LOG_SIZE,
    );
    for coordinate in &evals {
        assert_eq!(coordinate.values[last_row], M31::zero());
    }
}

#[test]
fn test_frac_writer() {
    let numerator = QM31::from_u32_unchecked(1, 2, 3, 4);
    let denominator = QM31::from_u32_unchecked(5, 6, 7, 8);
    let expected_sum =
        numerator.mul(denominator.inverse()).mul_m31(M31::from_u32_unchecked(1 << 6));

    let mut log_gen = LogupTraceGenerator::new(6);
    let mut col_gen = log_gen.new_col();
    for row in 0..1usize << 6 {
        col_gen.write_frac(&mut log_gen, row, numerator, denominator);
    }

    col_gen.finalize_col(&mut log_gen);
    let (_, sum) = log_gen.finalize_last();
    assert_eq!(sum, expected_sum);
}

#[test]
fn test_col_from_iter() {
    let log_size = 8;
    let numerator = QM31::from_u32_unchecked(1, 2, 3, 4);
    let denominator = QM31::from_u32_unchecked(5, 6, 7, 8);
    let expected_sum =
        numerator.mul(denominator.inverse()).mul_m31(M31::from_u32_unchecked(1 << log_size));

    let mut log_gen = LogupTraceGenerator::new(log_size);
    let fracs: Vec<(QM31, QM31)> = (0..1usize << log_size).map(|_| (numerator, denominator)).collect();
    log_gen.col_from_iter(&fracs);

    let (_, sum) = log_gen.finalize_last();
    assert_eq!(sum, expected_sum);
}

#[test]
fn uses_of_a_relation_are_counted_over_all_rows() {
    let mut channel = Blake2sChannel::default();
    channel.mix_u64(5);
    let elements = LookupElements::<1>::draw(&mut channel);
    let components = components(&elements, [QM31::zero(), QM31::zero()]);

    let counts = components[0].logup_counts();

    assert_eq!(counts.get(&"values".to_string()), Some(1 << LOG_SIZE));
    assert_eq!(counts.get(&"other".to_string()), None);
    assert_eq!(counts.entries(), vec![("values".to_string(), 1usize << LOG_SIZE)]);
}

#[test]
fn relation_counts_add_up() {
    let mut counts = RelationCounts::new();
    assert_eq!(counts.entries(), vec![]);
    count_use(&mut counts, &"a".to_string());
    count_use(&mut counts, &"b".to_string());
    count_use(&mut counts, &"a".to_string());
    assert_eq!(counts.get(&"a".to_string()), Some(2));
    assert_eq!(counts.get(&"b".to_string()), Some(1));
    counts.insert("c".to_string(), usize::MAX);
    count_use(&mut counts, &"c".to_string());
    assert_eq!(counts.get(&"c".to_string()), Some(usize::MAX));

    assert!(scaled(&counts, 2).is_none());
    counts.insert("c".to_string(), 5);
    let doubled = scaled(&counts, 2).unwrap();
    let mut entries = doubled.entries();
    entries.sort();
    assert_eq!(
        entries,
        vec![("a".to_string(), 4), ("b".to_string(), 2), ("c".to_string(), 10)]
    );
}
