use zyrkom::channel::blake2s::Blake2sChannel;
use zyrkom::channel::{grind, verify_pow_nonce, Channel};
use zyrkom::circle::index::CirclePointIndex;
use zyrkom::circle::point::CirclePoint;
use zyrkom::fields::cm31::CM31;
use zyrkom::fields::m31::{M31, P};
use zyrkom::fields::qm31::QM31;
use zyrkom::fri::config::{FriConfig, LinePolyDegreeBound};
use zyrkom::poly::domain::CanonicCoset;
use zyrkom::poly::line::LineDomain;
use zyrkom::prover::line::line_ifft;
use zyrkom::prover::poly::circle::{CircleEvaluation, CirclePoly};
use zyrkom::queries::Queries;
use zyrkom::utils::{
    bit_reverse, bit_reverse_index, circle_domain_index_to_coset_index,
    coset_index_to_circle_domain_index, exact_log2,
};
use zyrkom::vcs::blake2_hash::Blake2sHash;
use zyrkom::zk::claims::{
    extract_public_inputs, infer_structure_type, validate_counts, validate_public_inputs,
    ClaimError, StructureType,
};
use zyrkom::zk::constraints::{
    ConstraintRelationship, ConstraintSystem, ConstraintType, InvalidConstraintIndex,
    MusicalConstraint, RelationshipType,
};

fn base_samples() -> Vec<M31> {
    vec![0, 1, 2, 3, 12345, 0x4000_0000, P - 2, P - 1].into_iter().map(M31::from_u32).collect()
}

fn secure_samples() -> Vec<QM31> {
    let b = base_samples();
    (0..b.len())
        .map(|i| QM31::from_m31(b[i], b[(i + 3) % 8], b[(i + 5) % 8], b[(i + 6) % 8]))
        .collect()
}

#[test]
fn reduction_takes_every_word_to_its_residue() {
    assert_eq!(M31::from_u32(P).value(), 0);
    assert_eq!(M31::from_u32(P + 5).value(), 5);
    assert_eq!(M31::from_u32(u32::MAX).value(), 1);
    assert_eq!(M31::reduce(((P as u64) - 1) * ((P as u64) - 1)).value(), 1);
    assert_eq!(M31::from_u32(P - 1).add(M31::from_u32(2)).value(), 1);
    assert_eq!(M31::from_u32(3).sub(M31::from_u32(5)).value(), P - 2);
    assert_eq!(M31::from_u32(0).neg().value(), 0);
    assert_eq!(M31::from_u32(0x4000_0000).mul(M31::from_u32(4)).value(), 2);
}

#[test]
fn base_field_laws_hold_on_samples() {
    let s = base_samples();
    for &a in &s {
        assert_eq!(a.add(M31::zero()), a);
        assert_eq!(a.mul(M31::one()), a);
        assert_eq!(a.add(a.neg()), M31::zero());
        assert_eq!(a.square(), a.mul(a));
        assert_eq!(a.double(), a.add(a));
        assert_eq!(a.pow(5), a.mul(a).mul(a).mul(a).mul(a));
        if !a.is_zero() {
            assert_eq!(a.mul(a.inverse()), M31::one());
        }
        assert_eq!(M31::zero().inverse_or_zero(), M31::zero());
        for &b in &s {
            assert_eq!(a.add(b), b.add(a));
            assert_eq!(a.mul(b), b.mul(a));
            assert_eq!(a.sub(b).add(b), a);
            for &c in &s {
                assert_eq!(a.add(b).add(c), a.add(b.add(c)));
                assert_eq!(a.mul(b).mul(c), a.mul(b.mul(c)));
                assert_eq!(a.mul(b.add(c)), a.mul(b).add(a.mul(c)));
            }
        }
    }
}

#[test]
fn extension_field_laws_hold_on_samples() {
    let s = secure_samples();
    for &a in &s {
        assert_eq!(a.add(QM31::zero()), a);
        assert_eq!(a.mul(QM31::one()), a);
        if a != QM31::zero() {
            assert_eq!(a.mul(a.inverse()), QM31::one());
        }
        for &b in &s {
            assert_eq!(a.add(b), b.add(a));
            assert_eq!(a.mul(b), b.mul(a));
            assert_eq!(a.sub(b).add(b), a);
            for &c in &s {
                assert_eq!(a.mul(b).mul(c), a.mul(b.mul(c)));
                assert_eq!(a.mul(b.add(c)), a.mul(b).add(a.mul(c)));
            }
        }
    }
    //  i^2 = -1 and u^2 = 2 + i.
    let i = CM31::from_u32_unchecked(0, 1);
    assert_eq!(i.mul(i), CM31::from_u32_unchecked(P - 1, 0));
    let u = QM31::from_u32_unchecked(0, 0, 1, 0);
    assert_eq!(u.mul(u), QM31::from_u32_unchecked(2, 1, 0, 0));
    let x = QM31::from_u32_unchecked(1, 2, 3, 4);
    let parts = x.to_m31_array().map(QM31::from_base);
    assert_eq!(QM31::from_partial_evals(parts), x);
}

#[test]
fn generator_has_order_two_to_the_thirty_one() {
    let g = CirclePoint::generator();
    assert_eq!(g.x.value(), 2);
    assert_eq!(g.y.value(), 1268011823);
    assert_eq!(g.log_order(), 31);
    assert_eq!(g.repeated_double(30), CirclePoint { x: M31::from_u32(P - 1), y: M31::zero() });
    assert_eq!(g.repeated_double(31), CirclePoint::zero());
    assert_eq!(g.mul(1u128 << 31), CirclePoint::zero());
    assert_eq!(g.add(g.neg()), CirclePoint::zero());
    assert_eq!(g.add(g), g.double());
    let a = CirclePointIndex::new(12345);
    let b = CirclePointIndex::new(0x7fff_0000);
    assert_eq!(a.add(b).to_point(), a.to_point().add(b.to_point()));
    assert_eq!(a.mul_signed(-3).to_point(), a.to_point().mul(3).neg());
}

#[test]
fn bit_reversal_is_its_own_inverse() {
    assert_eq!(bit_reverse_index(0b0001, 4), 0b1000);
    assert_eq!(bit_reverse_index(0b0110, 4), 0b0110);
    assert_eq!(bit_reverse_index(5, 0), 5);
    let mut v: Vec<u32> = (0..8).collect();
    bit_reverse(&mut v, 3);
    assert_eq!(v, vec![0, 4, 2, 6, 1, 5, 3, 7]);
    bit_reverse(&mut v, 3);
    assert_eq!(v, (0..8).collect::<Vec<u32>>());
    assert_eq!(exact_log2(1), Some(0));
    assert_eq!(exact_log2(1024), Some(10));
    assert_eq!(exact_log2(0), None);
    assert_eq!(exact_log2(12), None);
    for i in 0..16 {
        let c = coset_index_to_circle_domain_index(i, 4);
        assert_eq!(circle_domain_index_to_coset_index(c, 4), i);
    }
}

#[test]
fn interpolation_and_evaluation_undo_each_other() {
    for log_size in 1..8u32 {
        let domain = CanonicCoset::new(log_size).circle_domain();
        let values: Vec<M31> =
            (0..1u32 << log_size).map(|i| M31::from_u32(i * i + 7 * i + 3)).collect();
        let poly = CircleEvaluation::new(domain, values.clone()).interpolate();
        assert_eq!(poly.evaluate(domain).values, values);

        let coeffs: Vec<M31> =
            (0..1u32 << log_size).map(|i| M31::from_u32(5 * i + 1)).collect();
        let back = CirclePoly::new(coeffs.clone()).evaluate(domain).interpolate();
        assert_eq!(back.coeffs, coeffs);
    }
}

#[test]
fn line_transform_is_linear() {
    let log_size = 4u32;
    let domain = LineDomain::new(zyrkom::circle::coset::Coset::half_odds(log_size));
    let f: Vec<QM31> = (0..16u32).map(|i| QM31::from_u32_unchecked(i, 2 * i, 3, i * i)).collect();
    let g: Vec<QM31> = (0..16u32).map(|i| QM31::from_u32_unchecked(7, i + 1, 5 * i, 2)).collect();
    let a = QM31::from_u32_unchecked(3, 1, 4, 1);
    let b = QM31::from_u32_unchecked(5, 9, 2, 6);

    let mut combined: Vec<QM31> =
        f.iter().zip(&g).map(|(x, y)| a.mul(*x).add(b.mul(*y))).collect();
    line_ifft(&mut combined, domain);
    let mut f_hat = f.clone();
    line_ifft(&mut f_hat, domain);
    let mut g_hat = g.clone();
    line_ifft(&mut g_hat, domain);

    let expected: Vec<QM31> =
        f_hat.iter().zip(&g_hat).map(|(x, y)| a.mul(*x).add(b.mul(*y))).collect();
    assert_eq!(combined, expected);
}

#[test]
fn grinding_finds_the_least_nonce() {
    let mut channel = Blake2sChannel::default();
    channel.mix_u64(77);

    let nonce = grind(&channel, 10).unwrap();

    assert!(verify_pow_nonce(&channel, nonce, 10));
    for n in 0..nonce {
        assert!(!verify_pow_nonce(&channel, n, 10));
    }
    assert_eq!(grind(&channel, 10), Some(nonce));
    assert!(verify_pow_nonce(&channel, 0, 0));
}

#[test]
fn test_grind_blake_is_determinstic() {
    let pow_bits = 2;
    let n_attempts = 1000;
    let mut channel = Blake2sChannel::default();
    channel.mix_u64(0);

    let results: Vec<Option<u64>> = (0..n_attempts).map(|_| grind(&channel, pow_bits)).collect();

    assert!(results[0].is_some());
    assert!(results.iter().all(|r| r == &results[0]));
}

#[test]
fn blake2s_digest_is_the_known_one() {
    // The digest of the empty string.
    let digest = Blake2sHash::hash(&vec![]);
    assert_eq!(
        digest.0[..8],
        [0x69, 0x21, 0x7a, 0x30, 0x79, 0x90, 0x80, 0x94]
    );
    assert_ne!(Blake2sHash::hash(&vec![0u8]), digest);
    assert_eq!(
        Blake2sHash::concat_and_hash(&digest, &digest),
        Blake2sHash::hash(&[digest.0, digest.0].concat())
    );
}

#[test]
fn queries_are_sorted_distinct_and_fold() {
    let mut channel = Blake2sChannel::default();
    let queries = Queries::generate(&mut channel, 10, 40);
    let positions = queries.positions().clone();
    assert!(!positions.is_empty() && positions.len() <= 40);
    assert!(positions.windows(2).all(|w| w[0] < w[1]));
    assert!(positions.iter().all(|&p| p < 1 << 10));
    let mut again = Blake2sChannel::default();
    assert_eq!(Queries::generate(&mut again, 10, 40).positions(), &positions);

    let folded = Queries::from_positions(vec![4, 5, 6, 9, 12, 13], 4).fold(2);
    assert_eq!(folded.positions(), &vec![1, 2, 3]);
    assert_eq!(folded.log_domain_size(), 2);
}

#[test]
fn parameters_out_of_range_are_refused() {
    assert!(FriConfig::try_new(0, 1, 3).is_some());
    assert!(FriConfig::try_new(10, 16, 3).is_some());
    assert!(FriConfig::try_new(11, 1, 3).is_none());
    assert!(FriConfig::try_new(0, 0, 3).is_none());
    assert!(FriConfig::try_new(0, 17, 3).is_none());
    let config = FriConfig::new(2, 3, 20);
    assert_eq!(config.last_layer_domain_size(), 32);
    assert_eq!(config.security_bits(), 60);
    assert_eq!(
        LinePolyDegreeBound { log_degree_bound: 5 }.fold(2),
        Some(LinePolyDegreeBound { log_degree_bound: 3 })
    );
    assert_eq!(LinePolyDegreeBound { log_degree_bound: 1 }.fold(2), None);
}

#[test]
fn constraint_system_checks_its_relationships() {
    let fifth = MusicalConstraint::from_scaled_ratio(1_572_864, ConstraintType::HarmonicRatio, 699_050)
        .unwrap();
    assert_eq!(fifth.ratio_m31, M31::from_u32(1_572_864));
    assert_eq!(fifth.coefficient, M31::from_u32(699_050));
    let tiny = MusicalConstraint::from_scaled_ratio(0, ConstraintType::Consonance, 1).unwrap();
    assert_eq!(tiny.scaled_ratio, 0);
    assert_eq!(tiny.ratio_m31, M31::from_u32_unchecked(0));
    assert!(MusicalConstraint::from_scaled_ratio(10_485_761, ConstraintType::Consonance, 1).is_none());
    assert!(MusicalConstraint::from_scaled_ratio(10_485_760, ConstraintType::Consonance, 1).is_some());

    let mut system = ConstraintSystem::new();
    assert_eq!(system.add_constraint(fifth), 0);
    assert_eq!(system.add_constraint(fifth), 1);
    assert_eq!(system.constraint_count(), 2);
    system.add_relationship(ConstraintRelationship {
        constraint_indices: vec![0, 1],
        relationship_type: RelationshipType::Conjunction,
    });
    assert_eq!(system.validate(), Ok(()));
    system.add_relationship(ConstraintRelationship {
        constraint_indices: vec![1, 2],
        relationship_type: RelationshipType::Exclusion,
    });
    assert_eq!(system.validate(), Err(InvalidConstraintIndex { relationship: 1, index: 2 }));
}

#[test]
fn public_inputs_name_the_count_and_the_kinds() {
    let mut system = ConstraintSystem::new();
    system.add_constraint(
        MusicalConstraint::from_scaled_ratio(1_572_864, ConstraintType::HarmonicRatio, 1).unwrap(),
    );
    system.add_constraint(
        MusicalConstraint::from_scaled_ratio(2_097_152, ConstraintType::OctaveEquivalence, 1)
            .unwrap(),
    );
    system.add_constraint(
        MusicalConstraint::from_scaled_ratio(1_310_720, ConstraintType::TuningConsistency, 1)
            .unwrap(),
    );

    let inputs = extract_public_inputs(&system);

    assert_eq!(inputs, vec![3, 1, 2, 5]);
    assert_eq!(validate_public_inputs(&system, &inputs), Ok(()));
    assert_eq!(validate_public_inputs(&system, &vec![3, 1, 2, 5, 9]), Ok(()));
    assert_eq!(validate_public_inputs(&system, &vec![]), Err(ClaimError::NoPublicInputs));
    assert_eq!(
        validate_public_inputs(&system, &vec![2, 1, 2, 5]),
        Err(ClaimError::PublicCountMismatch)
    );
    assert_eq!(
        validate_public_inputs(&system, &vec![3, 1, 3, 4]),
        Err(ClaimError::TypeMismatch { index: 1, claimed: 3, expected: 2 })
    );
    assert_eq!(
        validate_public_inputs(&system, &vec![3, 1, 2]),
        Err(ClaimError::MissingType { index: 2 })
    );
    assert_eq!(validate_counts(&system, 3, 3), Ok(()));
    assert_eq!(
        validate_counts(&system, 2, 3),
        Err(ClaimError::ConstraintCountMismatch { claimed_count: 2, expected_count: 3 })
    );
    assert_eq!(validate_counts(&system, 3, 4), Err(ClaimError::RatioCountMismatch));
}

#[test]
fn structure_is_told_by_the_number_of_constraints() {
    assert_eq!(infer_structure_type(0), StructureType::Complex);
    assert_eq!(infer_structure_type(1), StructureType::Interval);
    assert_eq!(infer_structure_type(2), StructureType::Chord);
    assert_eq!(infer_structure_type(5), StructureType::Chord);
    assert_eq!(infer_structure_type(6), StructureType::Scale);
    assert_eq!(infer_structure_type(12), StructureType::Scale);
    assert_eq!(infer_structure_type(13), StructureType::Complex);
}
