use std::collections::BTreeMap;

use rand::rngs::StdRng;
use rand::{Rng, SeedableRng};
use starknet_ff::FieldElement as FieldElement252;
use zyrkom::fields::m31::M31;
use zyrkom::prover::vcs::merkle_prover::MerkleProver;
use zyrkom::vcs::blake2_merkle::Blake2sMerkleHasher;
use zyrkom::vcs::hasher::MerkleHasher;
use zyrkom::vcs::merkle_verifier::{MerkleDecommitment, MerkleVerificationError, MerkleVerifier};
use zyrkom::vcs::poseidon252_merkle::{
    construct_felt252_from_m31s, Poseidon252Hash, Poseidon252MerkleHasher, ELEMENTS_IN_BLOCK,
};

fn prepare_merkle<H: MerkleHasher>() -> (
    BTreeMap<u32, Vec<usize>>,
    MerkleDecommitment<H>,
    Vec<M31>,
    MerkleVerifier<H>,
) {
    const N_COLS: usize = 10;
    const N_QUERIES: usize = 3;
    let log_size_range = 3u32..5;

    let mut rng = StdRng::seed_from_u64(0);
    let log_sizes: Vec<u32> =
        (0..N_COLS).map(|_| rng.gen_range(log_size_range.clone())).collect();
    let cols: Vec<Vec<M31>> = log_sizes
        .iter()
        .map(|&log_size| {
            (0..(1 << log_size)).map(|_| M31::from_u32(rng.gen_range(1..(1 << 30)))).collect()
        })
        .collect();
    let col_refs: Vec<&Vec<M31>> = cols.iter().collect();
    let max_log_size = *log_sizes.iter().max().unwrap();
    let merkle = MerkleProver::<H>::commit(&col_refs, max_log_size);

    let mut queries = BTreeMap::<u32, Vec<usize>>::new();
    for log_size in log_size_range.rev() {
        let mut layer_queries: Vec<usize> =
            (0..N_QUERIES).map(|_| rng.gen_range(0..(1 << log_size))).collect();
        layer_queries.sort();
        layer_queries.dedup();
        queries.insert(log_size, layer_queries);
    }

    let (values, decommitment) = merkle.decommit(&queries, &col_refs);
    let verifier = MerkleVerifier::new(merkle.root(), log_sizes);
    (queries, decommitment, values, verifier)
}

fn felt_of(hash: Poseidon252Hash) -> FieldElement252 {
    let mut bytes = [0u8; 32];
    bytes[..16].copy_from_slice(&hash.hi().to_be_bytes());
    bytes[16..].copy_from_slice(&hash.lo().to_be_bytes());
    FieldElement252::from_bytes_be(&bytes).unwrap()
}

fn hash_of(felt: FieldElement252) -> Poseidon252Hash {
    let bytes = felt.to_bytes_be();
    let mut hi = [0u8; 16];
    let mut lo = [0u8; 16];
    hi.copy_from_slice(&bytes[..16]);
    lo.copy_from_slice(&bytes[16..]);
    Poseidon252Hash::new(u128::from_be_bytes(hi), u128::from_be_bytes(lo)).unwrap()
}

#[test]
fn test_vector() {
    assert_eq!(
        felt_of(Poseidon252MerkleHasher::hash_node(
            None,
            &vec![M31::from_u32(0), M31::from_u32(1)]
        )),
        FieldElement252::from_dec_str(
            "2978883932528585652864046122079599882777358126302490183268546077323303473078"
        )
        .unwrap()
    );

    assert_eq!(
        felt_of(Poseidon252MerkleHasher::hash_node(
            Some((hash_of(FieldElement252::from(1u32)), hash_of(FieldElement252::from(2u32)))),
            &vec![M31::from_u32(3)]
        )),
        FieldElement252::from_dec_str(
            "3286095315900630438551061262740794783852190427874264245042874292062185873630"
        )
        .unwrap()
    );
}

#[test]
fn test_merkle_success() {
    let (queries, decommitment, values, verifier) = prepare_merkle::<Poseidon252MerkleHasher>();
    verifier.verify(&queries, &values, &decommitment).unwrap();
}

#[test]
fn test_merkle_invalid_witness() {
    let (queries, mut decommitment, values, verifier) =
        prepare_merkle::<Poseidon252MerkleHasher>();
    decommitment.hash_witness[4] = Poseidon252Hash::zero();

    assert_eq!(
        verifier.verify(&queries, &values, &decommitment).unwrap_err(),
        MerkleVerificationError::RootMismatch
    );
}

#[test]
fn test_merkle_invalid_value() {
    let (queries, decommitment, mut values, verifier) =
        prepare_merkle::<Poseidon252MerkleHasher>();
    values[6] = M31::zero();

    assert_eq!(
        verifier.verify(&queries, &values, &decommitment).unwrap_err(),
        MerkleVerificationError::RootMismatch
    );
}

#[test]
fn test_merkle_witness_too_short() {
    let (queries, mut decommitment, values, verifier) =
        prepare_merkle::<Poseidon252MerkleHasher>();
    decommitment.hash_witness.pop();

    assert_eq!(
        verifier.verify(&queries, &values, &decommitment).unwrap_err(),
        MerkleVerificationError::WitnessTooShort
    );
}

#[test]
fn test_merkle_witness_too_long() {
    let (queries, mut decommitment, values, verifier) =
        prepare_merkle::<Poseidon252MerkleHasher>();
    decommitment.hash_witness.push(Poseidon252Hash::zero());

    assert_eq!(
        verifier.verify(&queries, &values, &decommitment).unwrap_err(),
        MerkleVerificationError::WitnessTooLong
    );
}

#[test]
fn test_merkle_values_too_long() {
    let (queries, decommitment, mut values, verifier) =
        prepare_merkle::<Poseidon252MerkleHasher>();
    values.insert(3, M31::zero());

    assert_eq!(
        verifier.verify(&queries, &values, &decommitment).unwrap_err(),
        MerkleVerificationError::TooManyQueriedValues
    );
}

#[test]
fn test_merkle_values_too_short() {
    let (queries, decommitment, mut values, verifier) =
        prepare_merkle::<Poseidon252MerkleHasher>();
    values.remove(3);

    assert_eq!(
        verifier.verify(&queries, &values, &decommitment).unwrap_err(),
        MerkleVerificationError::TooFewQueriedValues
    );
}

#[test]
fn test_construct_word() {
    let mut rng = StdRng::seed_from_u64(1638);
    let random_values: Vec<M31> =
        (0..8 * 1000 + 5).map(|_| M31::from_u32(rng.gen_range(0..0x7fff_ffffu32))).collect();

    let expected: Vec<FieldElement252> = random_values
        .chunks(ELEMENTS_IN_BLOCK)
        .map(|word| {
            let mut felt = FieldElement252::default();
            for x in word {
                felt = felt * FieldElement252::from(2u64.pow(31)) + FieldElement252::from(x.value());
            }
            if word.len() < ELEMENTS_IN_BLOCK {
                let shift_124 = FieldElement252::from(2u128.pow(124));
                let shift_248 = shift_124 * shift_124;
                felt += FieldElement252::from(word.len()) * shift_248;
            }
            felt
        })
        .collect();

    let result: Vec<FieldElement252> = random_values
        .chunks(ELEMENTS_IN_BLOCK)
        .map(|word| felt_of(construct_felt252_from_m31s(&word.to_vec())))
        .collect();

    assert_eq!(expected, result);
}

#[test]
fn blake2s_tree_is_verified_and_tampering_is_caught() {
    let (queries, mut decommitment, values, verifier) = prepare_merkle::<Blake2sMerkleHasher>();
    assert_eq!(verifier.verify(&queries, &values, &decommitment), Ok(()));

    decommitment.column_witness.push(M31::zero());
    assert!(verifier.verify(&queries, &values, &decommitment).is_err());
}

#[test]
fn residue_beyond_the_prime_is_no_hash() {
    assert!(Poseidon252Hash::new(0x800_0000_0000_0011_0000_0000_0000_0000, 0).is_some());
    assert!(Poseidon252Hash::new(0x800_0000_0000_0011_0000_0000_0000_0000, 1).is_none());
    assert!(Poseidon252Hash::new(u128::MAX, 0).is_none());
}
