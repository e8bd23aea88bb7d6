use zyrkom::channel::blake2s::Blake2sChannel;
use zyrkom::channel::Channel;
use zyrkom::fields::m31::M31;
use zyrkom::fields::qm31::QM31;
use zyrkom::framework::columns::TraceLocationAllocator;
use zyrkom::framework::component::{FrameworkComponent, FrameworkEval};
use zyrkom::framework::eval::{add_to_relation, finalize_logup, EvalAtRow, Relation, RelationEntry};
use zyrkom::framework::logup::LookupElements;
use zyrkom::framework::relation_tracker::{
    add_to_relation_entries, offset_row, trace_holds, trim, RelationSummary,
    RelationTrackerEntry,
};
use zyrkom::prover::fri::CpuBackend;
use zyrkom::prover::vcs::ops::MerkleOps;
use zyrkom::utils::{bit_reverse_index, coset_index_to_circle_domain_index};
use zyrkom::vcs::blake2_merkle::Blake2sMerkleHasher;
use zyrkom::vcs::hasher::MerkleHasher;

const LOG_ROWS: u32 = 3;

/// One column whose value at every row, with the value of the row before
/// it, is yielded to, or used from, a relation.
struct Pairs {
    relation: Relation,
    yields: bool,
}

impl FrameworkEval for Pairs {
    fn spec_log_size(&self) -> u32 {
        unreachable!()
    }

    fn spec_max_constraint_log_degree_bound(&self) -> u32 {
        unreachable!()
    }

    fn spec_evaluate<E: EvalAtRow>(&self, _: E::Model) -> E::Model {
        unreachable!()
    }

    fn log_size(&self) -> u32 {
        LOG_ROWS
    }

    fn max_constraint_log_degree_bound(&self) -> u32 {
        LOG_ROWS + 1
    }

    fn evaluate<E: EvalAtRow>(&self, mut eval: E) -> E {
        let values = eval.next_interaction_mask(1, &vec![-1, 0]);
        let multiplicity = if self.yields { QM31::one() } else { QM31::one().neg() };
        add_to_relation(
            &mut eval,
            RelationEntry::new(&self.relation, E::secure(multiplicity), &values),
        );
        finalize_logup(&mut eval);
        eval
    }
}

fn pairs(yields: bool) -> Pairs {
    let mut channel = Blake2sChannel::default();
    channel.mix_u64(11);
    let elements = LookupElements::<2>::draw(&mut channel);
    Pairs {
        relation: Relation {
            name: "pairs".to_string(),
            z: elements.z,
            alpha_powers: elements.alpha_powers.clone(),
        },
        yields,
    }
}

fn components() -> Vec<FrameworkComponent<Pairs>> {
    let mut allocator = TraceLocationAllocator::default();
    vec![
        FrameworkComponent::new(&mut allocator, pairs(true), QM31::zero()).ok().unwrap(),
        FrameworkComponent::new(&mut allocator, pairs(false), QM31::zero()).ok().unwrap(),
    ]
}

/// The value at each row, in the order of the rows.
fn column(seed: u32) -> Vec<M31> {
    (0..1u32 << LOG_ROWS).map(|i| M31::from_u32(seed + 5 * i)).collect()
}

/// The row of the point that comes `k`-th on the trace domain.
fn row_of(k: usize) -> usize {
    bit_reverse_index(coset_index_to_circle_domain_index(k, LOG_ROWS), LOG_ROWS)
}

#[test]
fn offsets_walk_along_the_trace_domain() {
    let size = 1usize << LOG_ROWS;
    for k in 0..size {
        let row = row_of(k);
        assert_eq!(offset_row(row, LOG_ROWS, 1), row_of((k + 1) % size));
        assert_eq!(offset_row(row, LOG_ROWS, -1), row_of((k + size - 1) % size));
        assert_eq!(offset_row(row, LOG_ROWS, 8), row);
        assert_eq!(offset_row(row, LOG_ROWS, -19), row_of((k + 5) % size));
        assert_eq!(offset_row(offset_row(row, LOG_ROWS, 3), LOG_ROWS, -3), row);
    }
}

#[test]
fn entries_are_noted_row_by_row() {
    let first = column(2);
    let second = column(2);
    let preprocessed: Vec<&Vec<M31>> = vec![];
    let trace = vec![preprocessed, vec![&first, &second]];
    let components = components();
    assert!(trace_holds(&components[0], &trace));

    let entries = add_to_relation_entries(&components[0], &trace);

    assert_eq!(entries.len(), 1 << LOG_ROWS);
    for (row, entry) in entries.iter().enumerate() {
        assert_eq!(entry.relation, "pairs");
        assert_eq!(entry.mult, M31::one());
        assert_eq!(
            entry.values,
            vec![first[offset_row(row, LOG_ROWS, -1)], first[row]]
        );
    }
    let used = add_to_relation_entries(&components[1], &trace);
    assert_eq!(used[0].mult, M31::one().neg());
}

#[test]
fn a_trace_without_the_columns_does_not_hold() {
    let first = column(2);
    let preprocessed: Vec<&Vec<M31>> = vec![];
    let components = components();
    assert!(!trace_holds(&components[1], &vec![preprocessed.clone(), vec![&first]]));
    assert!(!trace_holds(&components[0], &vec![preprocessed]));
}

#[test]
fn lookups_that_close_leave_nothing_in_the_summary() {
    let first = column(2);
    let second = column(2);
    let preprocessed: Vec<&Vec<M31>> = vec![];
    let trace = vec![preprocessed, vec![&first, &second]];
    let components = components();
    let mut entries = add_to_relation_entries(&components[0], &trace);
    entries.extend(add_to_relation_entries(&components[1], &trace));

    let summary = RelationSummary::summarize_relations(&entries);

    let info = summary.get_relation_info(&"pairs".to_string()).unwrap();
    assert_eq!(info.len(), 1 << LOG_ROWS);
    assert!(info.iter().all(|(_, sum)| *sum == M31::zero()));
    assert!(summary.get_relation_info(&"other".to_string()).is_none());
    assert!(summary.cleaned().get_relation_info(&"pairs".to_string()).is_none());
}

#[test]
fn lookups_that_do_not_close_stay_in_the_summary() {
    let first = column(2);
    let second = column(3);
    let preprocessed: Vec<&Vec<M31>> = vec![];
    let trace = vec![preprocessed, vec![&first, &second]];
    let components = components();
    let mut entries = add_to_relation_entries(&components[0], &trace);
    entries.extend(add_to_relation_entries(&components[1], &trace));

    let cleaned = RelationSummary::summarize_relations(&entries).cleaned();

    let info = cleaned.get_relation_info(&"pairs".to_string()).unwrap();
    assert_eq!(info.len(), 2 << LOG_ROWS);
    assert_eq!(info[0], (vec![first[offset_row(0, LOG_ROWS, -1)], first[0]], M31::one()));
}

#[test]
fn zeros_at_the_end_of_a_tuple_do_not_count() {
    let entry = |relation: &str, mult: u32, values: Vec<u32>| RelationTrackerEntry {
        relation: relation.to_string(),
        mult: M31::from_u32(mult),
        values: values.into_iter().map(M31::from_u32).collect(),
    };
    assert_eq!(
        trim(&vec![M31::from_u32(0), M31::from_u32(4), M31::zero(), M31::zero()]),
        vec![M31::from_u32(0), M31::from_u32(4)]
    );
    assert_eq!(trim(&vec![M31::zero()]), vec![]);
    let entries = vec![
        entry("a", 1, vec![7, 0]),
        entry("b", 2, vec![7]),
        entry("a", 3, vec![7]),
        entry("a", 5, vec![0, 7]),
        entry("a", 2147483646, vec![0, 7, 0, 0]),
    ];

    let summary = RelationSummary::summarize_relations(&entries);

    assert_eq!(
        summary.get_relation_info(&"a".to_string()).unwrap(),
        &vec![
            (vec![M31::from_u32(7)], M31::from_u32(4)),
            (vec![M31::zero(), M31::from_u32(7)], M31::from_u32(4)),
        ]
    );
    assert_eq!(
        summary.get_relation_info(&"b".to_string()).unwrap(),
        &vec![(vec![M31::from_u32(7)], M31::from_u32(2))]
    );
}

#[test]
fn the_processor_hashes_a_layer_as_the_hasher_does() {
    let left = vec![M31::from_u32(1), M31::from_u32(2)];
    let right = vec![M31::from_u32(3), M31::from_u32(4)];

    let layer = <CpuBackend as MerkleOps<Blake2sMerkleHasher>>::commit_on_layer(
        1,
        None,
        &vec![&left, &right],
    );

    assert_eq!(
        layer,
        vec![
            Blake2sMerkleHasher::hash_node(None, &vec![left[0], right[0]]),
            Blake2sMerkleHasher::hash_node(None, &vec![left[1], right[1]]),
        ]
    );
    let top = <CpuBackend as MerkleOps<Blake2sMerkleHasher>>::commit_on_layer(
        0,
        Some(&layer),
        &vec![],
    );
    assert_eq!(top, vec![Blake2sMerkleHasher::hash_node(Some((layer[0], layer[1])), &vec![])]);
}
