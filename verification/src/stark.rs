//! The verification of a STARK: the composition polynomial is committed,
//! a point out of the domain is drawn, the value of the composition
//! polynomial there is checked against the samples of the trace, and the
//! samples are checked against the commitments.

use vstd::prelude::*;
use crate::air::accumulation::PointEvaluationAccumulator;
use crate::air::component::{
    spec_accumulate_components, spec_all_accept, spec_all_mask_points,
    spec_composition_log_degree_bound, spec_mask_view, spec_points_view, Component, Components,
};
use crate::channel::{Channel, MerkleChannel};
use crate::circle::secure_point::SecureCirclePoint;
use crate::fields::qm31::QM31;
use crate::pcs::commitment::CommitmentSchemeVerifier;
use crate::stark_proof::StarkProof;
use crate::vcs::hasher::MerkleHasher;
use crate::verification::{VerificationError, VerificationErrorKind, PREPROCESSED_TRACE_IDX};

verus! {

/// The stage of the verification that ends with the check of the
/// composition polynomial out of the domain: the transcript after the
/// stage, the drawn point, and the error with which the stage ends, if it
/// does. The proof must hold a commitment to the composition polynomial and
/// its four samples, every component must find its values in the samples,
/// and the value that the components compute from the samples must be the
/// sampled one.
pub open spec fn spec_oods_stage<MC: MerkleChannel, C: Component>(
    components: Seq<C>,
    log_blowup_factor: u32,
    proof: StarkProof<MC::H>,
    channel: MC::C,
) -> (MC::C, SecureCirclePoint, Option<VerificationErrorKind>) {
    let (c1, random_coeff) = channel.spec_draw_secure_felt();
    let bound = spec_composition_log_degree_bound(components, components.len());
    let start = SecureCirclePoint::spec_of_parameter(QM31::spec_zero());
    if proof.0.commitments.len() == 0 || bound + log_blowup_factor > u32::MAX {
        (c1, start, Some(VerificationErrorKind::InvalidStructure))
    } else {
        let commitment = proof.0.commitments[proof.0.commitments.len() - 1];
        let (c3, t) = MC::spec_mix_root(c1, commitment).spec_draw_secure_felt();
        let oods_point = SecureCirclePoint::spec_of_parameter(t);
        let mask = spec_mask_view(proof.0.sampled_values@);
        match proof.spec_extract_composition_oods_eval() {
            None => (c3, oods_point, Some(VerificationErrorKind::InvalidStructure)),
            Some(composition_oods_eval) => {
                if !spec_all_accept(components, mask) {
                    (c3, oods_point, Some(VerificationErrorKind::InvalidStructure))
                } else if composition_oods_eval != spec_accumulate_components(
                    components,
                    oods_point,
                    mask,
                    PointEvaluationAccumulator::spec_new(random_coeff),
                    components.len(),
                ).spec_accumulation() {
                    (c3, oods_point, Some(VerificationErrorKind::OodsNotMatching))
                } else {
                    (c3, oods_point, None)
                }
            },
        }
    }
}

/// The points at which the columns of all the trees are sampled: those of
/// the components, and the drawn point for each of the four coordinates of
/// the composition polynomial, whose tree is the last.
pub open spec fn spec_sample_points<C: Component>(
    components: Seq<C>,
    n_preprocessed_columns: nat,
    oods_point: SecureCirclePoint,
) -> Seq<Seq<Seq<SecureCirclePoint>>> {
    spec_all_mask_points(components, n_preprocessed_columns, oods_point).push(
        Seq::new(4, |k: int| seq![oods_point]),
    )
}

/// Verifies a proof for the components. The commitment scheme holds the
/// trees of the preprocessed and of the trace columns; the tree of the
/// composition polynomial is read from the proof.
pub fn verify<MC: MerkleChannel, C: Component>(
    components: &Vec<C>,
    channel: &mut MC::C,
    commitment_scheme: &mut CommitmentSchemeVerifier<MC>,
    proof: StarkProof<MC::H>,
) -> (r: Result<(), VerificationError>)
    requires
        old(commitment_scheme).trees.len() >= 1,
    ensures
        final(commitment_scheme).config == old(commitment_scheme).config,
        forall|t: int|
            0 <= t < old(commitment_scheme).trees.len() && t < final(commitment_scheme).trees.len()
                ==> final(commitment_scheme).trees[t] == old(commitment_scheme).trees[t],
        ({
            let blowup = old(commitment_scheme).config.fri_config.log_blowup_factor;
            let bound = spec_composition_log_degree_bound(components@, components.len() as nat);
            let n = old(commitment_scheme).trees.len() as int;
            if proof.0.commitments.len() == 0 || bound + blowup > u32::MAX {
                final(commitment_scheme).trees.len() == n
            } else {
                &&& final(commitment_scheme).trees.len() == n + 1
                &&& final(commitment_scheme).trees[n].root
                    == proof.0.commitments[proof.0.commitments.len() - 1]
                &&& final(commitment_scheme).trees[n].column_log_sizes@ == Seq::new(
                    4,
                    |i: int| (bound + blowup) as u32,
                )
            }
        }),
        ({
            let (c3, oods_point, stage) = spec_oods_stage::<MC, C>(
                components@,
                old(commitment_scheme).config.fri_config.log_blowup_factor,
                proof,
                *old(channel),
            );
            match stage {
                Some(kind) => r.is_err() && r.unwrap_err().spec_kind() == kind,
                None => match final(commitment_scheme).spec_outcome(
                    spec_sample_points(
                        components@,
                        old(commitment_scheme).trees[0].column_log_sizes.len() as nat,
                        oods_point,
                    ),
                    proof.0,
                    c3,
                ) {
                    Ok(_) => r.is_ok(),
                    Err(kind) => r.is_err() && r.unwrap_err().spec_kind() == kind,
                },
            }
        }),
{
    let n_preprocessed_columns =
        commitment_scheme.trees[PREPROCESSED_TRACE_IDX].column_log_sizes.len();
    let components = Components { components, n_preprocessed_columns };
    let random_coeff = channel.draw_secure_felt();
    // Read composition polynomial commitment.
    if proof.0.commitments.len() == 0 {
        return Err(VerificationError::InvalidStructure("No commitments".to_string()));
    }
    let commitment = proof.0.commitments[proof.0.commitments.len() - 1];
    let bound = components.composition_log_degree_bound();
    if bound > u32::MAX - commitment_scheme.config.fri_config.log_blowup_factor {
        return Err(
            VerificationError::InvalidStructure("Degree bound out of range".to_string()),
        );
    }
    let mut log_sizes: Vec<u32> = Vec::with_capacity(4);
    log_sizes.push(bound);
    log_sizes.push(bound);
    log_sizes.push(bound);
    log_sizes.push(bound);
    commitment_scheme.commit(commitment, &log_sizes, channel);
    // Draw OODS point.
    let oods_point = SecureCirclePoint::get_random_point(channel);
    // Get mask sample points relative to oods point.
    let mut sample_points = components.mask_points(oods_point);
    // Add the composition polynomial mask points.
    let mut composition_points: Vec<Vec<SecureCirclePoint>> = Vec::with_capacity(4);
    let mut k: usize = 0;
    while k < 4
        invariant
            k <= 4,
            composition_points.len() == k,
            forall|i: int| 0 <= i < k ==> (#[trigger] composition_points[i])@ == seq![oods_point],
        decreases 4 - k,
    {
        let mut only: Vec<SecureCirclePoint> = Vec::new();
        only.push(oods_point);
        proof {
            assert(only@ =~= seq![oods_point]);
        }
        composition_points.push(only);
        k = k + 1;
    }
    let ghost mask = spec_points_view(sample_points@);
    sample_points.push(composition_points);
    proof {
        assert(spec_points_view(sample_points@).len() == mask.len() + 1);
        assert forall|t: int| 0 <= t < mask.len() implies spec_points_view(sample_points@)[t]
            == mask[t] by {
            assert(spec_points_view(sample_points@)[t] =~= mask[t]);
        }
        assert(spec_points_view(sample_points@)[mask.len() as int] =~= Seq::new(
            4,
            |k: int| seq![oods_point],
        ));
        assert(spec_points_view(sample_points@) =~= spec_sample_points(
            components.components@,
            n_preprocessed_columns as nat,
            oods_point,
        ));
    }
    let composition_oods_eval = match proof.extract_composition_oods_eval() {
        None => {
            return Err(
                VerificationError::InvalidStructure(
                    "Unexpected sampled_values structure".to_string(),
                ),
            );
        },
        Some(v) => v,
    };
    if !components.all_accept(&proof.0.sampled_values) {
        return Err(
            VerificationError::InvalidStructure("Samples do not fit the components".to_string()),
        );
    }
    if composition_oods_eval != components.eval_composition_polynomial_at_point(
        oods_point,
        &proof.0.sampled_values,
        random_coeff,
    ) {
        return Err(VerificationError::OodsNotMatching);
    }
    commitment_scheme.verify_values(sample_points, proof.0, channel)
}

} // verus!
