//! The proving of a STARK.

use vstd::prelude::*;
use crate::air::accumulation::PointEvaluationAccumulator;
use vstd::arithmetic::power2::pow2;
use crate::air::component::{
    spec_accumulate_components, spec_all_accept, spec_composition_log_degree_bound,
    spec_mask_view, spec_points_view,
};
use crate::channel::{Channel, MerkleChannel};
use crate::circle::secure_point::SecureCirclePoint;
use crate::fields::qm31::QM31;
use crate::prover::air::{
    spec_evals_model, spec_polys_model, ComponentProver, ComponentProvers, Trace, TraceModel,
};
use crate::prover::fri::FriOps;
use crate::prover::pcs::{
    spec_least_nonce, spec_poly_fits, spec_polys_fit, spec_tree_opened, CommitmentSchemeProver,
    QuotientOps,
};
use crate::stark::{spec_oods_stage, spec_sample_points};
use crate::prover::poly::circle::{CircleEvaluation, CirclePoly};
use crate::stark_proof::StarkProof;
use crate::verification::{ProvingError, PREPROCESSED_TRACE_IDX};

verus! {

/// Whether the composition polynomial can be computed and committed: the
/// number of the constraints fits a `usize`, the degree bound of the
/// composition polynomial is at most 30, and the domain of its coordinate
/// polynomials, blown up, has at least two and at most `2^30` points.
pub open spec fn spec_composition_fits<C: ComponentProver>(
    components: Seq<C>,
    random_coeff: QM31,
    trace: TraceModel,
    log_blowup_factor: u32,
) -> bool {
    &&& ComponentProvers::<C>::spec_total_constraints(components, components.len()) <= usize::MAX
    &&& spec_composition_log_degree_bound(components, components.len()) <= 30
    &&& exists|log_size: nat|
        #[trigger] pow2(log_size) == ComponentProvers::<C>::spec_composition(
            components,
            random_coeff,
            trace,
            0,
        ).len() && 1 <= log_size + log_blowup_factor <= 30
}

/// The value of the composition polynomial that the sampled values hold,
/// if their last tree has four columns of one value each: the four values
/// combined as partial evaluations.
pub open spec fn spec_composition_value(values: Seq<Seq<Seq<QM31>>>) -> Option<QM31> {
    if values.len() >= 1 && values.last().len() == 4 && (forall|i: int|
        0 <= i < 4 ==> (#[trigger] values.last()[i]).len() == 1) {
        let mask = values.last();
        Some(QM31::spec_from_partial_evals(seq![mask[0][0], mask[1][0], mask[2][0], mask[3][0]]))
    } else {
        None
    }
}

/// Proves that the trace held by the commitment scheme satisfies the
/// constraints of the components: the random coefficient of the
/// constraints is drawn, the composition polynomial is computed and
/// committed as one more tree of the scheme, a point out of the domain is
/// drawn, the columns are sampled around it, and the samples are proved.
///
/// A proof that is given out passes the stage of the verification that
/// ends with the check of the composition polynomial out of the domain, on
/// the transcript that the proving started with.
///
/// The only error is `ConstraintsNotSatisfied`. It is given where the
/// composition polynomial cannot be computed or committed, and then the
/// scheme is unchanged; where the samples cannot be proved; where the
/// samples do not hold the value of the composition polynomial, or a
/// component does not find its values in them; and where the value of the
/// composition polynomial at the point is not the one that the components
/// compute from the samples.
pub fn prove<B: QuotientOps + FriOps, MC: MerkleChannel, C: ComponentProver>(
    components: &Vec<C>,
    channel: &mut MC::C,
    commitment_scheme: &mut CommitmentSchemeProver<MC>,
) -> (r: Result<StarkProof<MC::H>, ProvingError>)
    requires
        old(commitment_scheme).wf(),
        old(commitment_scheme).trees.len() >= 1,
    ensures
        final(commitment_scheme).wf(),
        final(commitment_scheme).config == old(commitment_scheme).config,
        match r {
            Ok(_) => true,
            Err(e) => e == ProvingError::ConstraintsNotSatisfied,
        },
        ({
            let start = *old(commitment_scheme);
            let scheme = *final(commitment_scheme);
            let n = start.trees.len() as int;
            let (c1, random_coeff) = old(channel).spec_draw_secure_felt();
            let trace = start.spec_trace();
            if !spec_composition_fits(
                components@,
                random_coeff,
                trace,
                start.config.fri_config.log_blowup_factor,
            ) {
                r.is_err() && scheme == start
            } else {
                let tree = scheme.trees[n];
                let (c3, t) = MC::spec_mix_root(
                    c1,
                    tree.commitment.layers[0][0],
                ).spec_draw_secure_felt();
                let oods_point = SecureCirclePoint::spec_of_parameter(t);
                let points = spec_sample_points(
                    components@,
                    start.trees[0].polynomials.len() as nat,
                    oods_point,
                );
                let values = scheme.spec_sampled_values(points);
                &&& scheme.trees.len() == n + 1
                &&& forall|t: int|
                    0 <= t < n ==> scheme.trees[t] == start.trees[t]
                &&& tree.polynomials.len() == 4
                &&& forall|k: int|
                    0 <= k < 4 ==> (#[trigger] tree.polynomials[k]).coeffs@
                        == ComponentProvers::<C>::spec_composition(
                        components@,
                        random_coeff,
                        trace,
                        k,
                    )
                &&& r.is_ok() <==> {
                    &&& scheme.spec_can_prove(points, c3)
                    &&& spec_composition_value(values).is_some()
                    &&& spec_all_accept(components@, values)
                    &&& spec_composition_value(values) == Some(
                        spec_accumulate_components(
                            components@,
                            oods_point,
                            values,
                            PointEvaluationAccumulator::spec_new(random_coeff),
                            components.len() as nat,
                        ).spec_accumulation(),
                    )
                }
                &&& match r {
                    Ok(proof) => {
                        let nonce = proof.0.proof_of_work;
                        &&& proof.0.config == start.config
                        &&& proof.0.commitments.len() == n + 1
                        &&& forall|t: int|
                            0 <= t <= n ==> proof.0.commitments[t] == (
                            #[trigger] scheme.trees[t]).commitment.layers[0][0]
                        &&& spec_mask_view(proof.0.sampled_values@) == values
                        &&& spec_least_nonce(
                            scheme.spec_before_grind(points, c3),
                            nonce,
                            start.config.pow_bits,
                        )
                        &&& *final(channel) == scheme.spec_opened_at(
                            points,
                            c3,
                            nonce,
                        ).0
                        &&& spec_oods_stage::<MC, C>(
                            components@,
                            start.config.fri_config.log_blowup_factor,
                            proof,
                            *old(channel),
                        ) == (c3, oods_point, None::<crate::verification::VerificationErrorKind>)
                        &&& scheme.spec_fri_opened(points, c3, nonce, proof.0.fri_proof)
                        &&& proof.0.queried_values.len() == n + 1
                        &&& proof.0.decommitments.len() == n + 1
                        &&& forall|t: int|
                            0 <= t <= n ==> spec_tree_opened(
                                #[trigger] scheme.trees[t],
                                scheme.spec_opened_at(points, c3, nonce).1,
                                proof.0.queried_values[t]@,
                                proof.0.decommitments[t],
                            )
                    },
                    Err(_) => true,
                }
            }
        }),
{
    assert(commitment_scheme.trees[0].wf());
    let ghost before = *commitment_scheme;
    let ghost model = commitment_scheme.spec_trace();
    let n_preprocessed_columns = commitment_scheme.trees[PREPROCESSED_TRACE_IDX].polynomials.len();
    let component_provers = ComponentProvers { components, n_preprocessed_columns };
    // Evaluate and commit on composition polynomial.
    let random_coeff = channel.draw_secure_felt();
    let composition_polys = {
        let mut polys: Vec<Vec<&CirclePoly>> = Vec::with_capacity(commitment_scheme.trees.len());
        let mut evals: Vec<Vec<&CircleEvaluation>> = Vec::with_capacity(
            commitment_scheme.trees.len(),
        );
        let mut t: usize = 0;
        while t < commitment_scheme.trees.len()
            invariant
                t <= commitment_scheme.trees.len(),
                *commitment_scheme == before,
                polys.len() == t,
                evals.len() == t,
                forall|k: int|
                    0 <= k < t ==> (#[trigger] spec_polys_model(polys@)[k])
                        == commitment_scheme.trees[k].polynomials@,
                forall|k: int|
                    0 <= k < t ==> (#[trigger] spec_evals_model(evals@)[k])
                        == commitment_scheme.trees[k].evaluations@,
            decreases commitment_scheme.trees.len() - t,
        {
            let tree = &commitment_scheme.trees[t];
            let mut tree_polys: Vec<&CirclePoly> = Vec::with_capacity(tree.polynomials.len());
            let mut p: usize = 0;
            while p < tree.polynomials.len()
                invariant
                    p <= tree.polynomials.len(),
                    tree_polys.len() == p,
                    forall|j: int| 0 <= j < p ==> *(#[trigger] tree_polys[j]) == tree.polynomials[j],
                decreases tree.polynomials.len() - p,
            {
                tree_polys.push(&tree.polynomials[p]);
                p = p + 1;
            }
            let mut tree_evals: Vec<&CircleEvaluation> = Vec::with_capacity(
                tree.evaluations.len(),
            );
            let mut e: usize = 0;
            while e < tree.evaluations.len()
                invariant
                    e <= tree.evaluations.len(),
                    tree_evals.len() == e,
                    forall|j: int| 0 <= j < e ==> *(#[trigger] tree_evals[j]) == tree.evaluations[j],
                decreases tree.evaluations.len() - e,
            {
                tree_evals.push(&tree.evaluations[e]);
                e = e + 1;
            }
            let ghost polys_before = polys@;
            let ghost evals_before = evals@;
            polys.push(tree_polys);
            evals.push(tree_evals);
            proof {
                assert forall|k: int| 0 <= k < t + 1 implies (#[trigger] spec_polys_model(polys@)[k])
                    == commitment_scheme.trees[k].polynomials@ by {
                    if k < t {
                        assert(polys[k] == polys_before[k]);
                        assert(spec_polys_model(polys@)[k] =~= spec_polys_model(polys_before)[k]);
                    } else {
                        assert(spec_polys_model(polys@)[k] =~= tree.polynomials@);
                    }
                }
                assert forall|k: int| 0 <= k < t + 1 implies (#[trigger] spec_evals_model(evals@)[k])
                    == commitment_scheme.trees[k].evaluations@ by {
                    if k < t {
                        assert(evals[k] == evals_before[k]);
                        assert(spec_evals_model(evals@)[k] =~= spec_evals_model(evals_before)[k]);
                    } else {
                        assert(spec_evals_model(evals@)[k] =~= tree.evaluations@);
                    }
                }
            }
            t = t + 1;
        }
        let trace = Trace { polys, evals };
        proof {
            assert(trace.model().polys =~= model.polys);
            assert(trace.model().evals =~= model.evals);
            assert(trace.model() == model);
        }
        match component_provers.compute_composition_polynomial(random_coeff, &trace) {
            None => {
                return Err(ProvingError::ConstraintsNotSatisfied);
            },
            Some(p) => p,
        }
    };
    let ghost composition = composition_polys@;
    proof {
        let len = ComponentProvers::<C>::spec_composition(components@, random_coeff, model, 0).len();
        let blowup = commitment_scheme.config.fri_config.log_blowup_factor;
        assert(composition[0].wf());
        assert(len == pow2(composition[0].log_size as nat));
        if spec_polys_fit(composition, blowup) {
            assert(spec_poly_fits(composition[0], blowup));
        }
        if exists|log_size: nat| #[trigger]
            pow2(log_size) == len && 1 <= log_size + blowup <= 30 {
            let log_size = choose|log_size: nat| #[trigger]
                pow2(log_size) == len && 1 <= log_size + blowup <= 30;
            if log_size < composition[0].log_size {
                vstd::arithmetic::power2::lemma_pow2_strictly_increases(
                    log_size,
                    composition[0].log_size as nat,
                );
            }
            if log_size > composition[0].log_size {
                vstd::arithmetic::power2::lemma_pow2_strictly_increases(
                    composition[0].log_size as nat,
                    log_size,
                );
            }
            assert forall|i: int| 0 <= i < composition.len() implies spec_poly_fits(
                #[trigger] composition[i],
                blowup,
            ) by {}
        }
    }
    if !commitment_scheme.commit(composition_polys, channel) {
        return Err(ProvingError::ConstraintsNotSatisfied);
    }
    // Draw OODS point.
    let oods_point = SecureCirclePoint::get_random_point(channel);
    let ghost after_point = *channel;
    // Get mask sample points relative to oods point.
    let mut sample_points = component_provers.components().mask_points(oods_point);
    // Add the composition polynomial mask points.
    let mut composition_points: Vec<Vec<SecureCirclePoint>> = Vec::with_capacity(4);
    let mut k: usize = 0;
    while k < 4
        invariant
            k <= 4,
            composition_points.len() == k,
            forall|i: int| 0 <= i < k ==> (#[trigger] composition_points[i])@ == seq![oods_point],
        decreases 4 - k,
    {
        let mut only: Vec<SecureCirclePoint> = Vec::new();
        only.push(oods_point);
        proof {
            assert(only@ =~= seq![oods_point]);
        }
        composition_points.push(only);
        k = k + 1;
    }
    let ghost mask = spec_points_view(sample_points@);
    sample_points.push(composition_points);
    let ghost points = spec_sample_points(
        components@,
        n_preprocessed_columns as nat,
        oods_point,
    );
    proof {
        assert(spec_points_view(sample_points@).len() == mask.len() + 1);
        assert forall|t: int| 0 <= t < mask.len() implies spec_points_view(sample_points@)[t]
            == mask[t] by {
            assert(spec_points_view(sample_points@)[t] =~= mask[t]);
        }
        assert(spec_points_view(sample_points@)[mask.len() as int] =~= Seq::new(
            4,
            |k: int| seq![oods_point],
        ));
        assert(spec_points_view(sample_points@) =~= points);
    }
    // Prove the trace and composition OODS values, and retrieve them.
    let commitment_scheme_proof = match commitment_scheme.prove_values::<B>(
        &sample_points,
        channel,
    ) {
        None => {
            return Err(ProvingError::ConstraintsNotSatisfied);
        },
        Some(p) => p,
    };
    let proof = StarkProof(commitment_scheme_proof);
    let ghost values = commitment_scheme.spec_sampled_values(points);
    proof {
        let sampled = proof.0.sampled_values@;
        assert(spec_mask_view(sampled) == values);
        assert(sampled.len() == values.len());
        if sampled.len() >= 1 {
            let last = sampled[sampled.len() - 1];
            assert(values.last() == spec_mask_view(sampled)[sampled.len() - 1]);
            assert(values.last().len() == last.len());
            assert forall|i: int| 0 <= i < last.len() implies (#[trigger] values.last()[i]).len()
                == last[i].len() by {}
            if last.len() == 4 {
                assert(values.last()[0] == last[0]@);
                assert(values.last()[1] == last[1]@);
                assert(values.last()[2] == last[2]@);
                assert(values.last()[3] == last[3]@);
            }
        }
        assert(proof.spec_extract_composition_oods_eval() == spec_composition_value(values));
    }
    // Evaluate composition polynomial at OODS point and check that it matches the trace OODS
    // values. This is a sanity check.
    let composition_oods_eval = match proof.extract_composition_oods_eval() {
        None => {
            return Err(ProvingError::ConstraintsNotSatisfied);
        },
        Some(v) => v,
    };
    if !component_provers.components().all_accept(&proof.0.sampled_values) {
        return Err(ProvingError::ConstraintsNotSatisfied);
    }
    let expected = component_provers.components().eval_composition_polynomial_at_point(
        oods_point,
        &proof.0.sampled_values,
        random_coeff,
    );
    if composition_oods_eval != expected {
        return Err(ProvingError::ConstraintsNotSatisfied);
    }
    proof {
        let n = before.trees.len() as int;
        assert(proof.0.commitments.len() == n + 1);
        assert(proof.0.commitments[n] == commitment_scheme.trees[n].commitment.layers[0][0]);
        assert(spec_oods_stage::<MC, C>(
            components@,
            before.config.fri_config.log_blowup_factor,
            proof,
            *old(channel),
        ).2.is_none());
    }
    Ok(proof)
}

} // verus!
