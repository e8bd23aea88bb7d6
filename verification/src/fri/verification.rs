//! The FRI verifier: it reads the commitments of the layers, draws the
//! folding coefficients and the queries, and checks that the values at the
//! queries fold, layer by layer, into the polynomial of the last layer.

use vstd::prelude::*;
use std::collections::BTreeMap;
use vstd::arithmetic::power2::{lemma2_to64, pow2};
use crate::channel::{Channel, MerkleChannel};
use crate::fields::m31::M31;
use crate::fields::qm31::QM31;
use crate::fri::config::{
    CirclePolyDegreeBound, FriConfig, FriLayerProof, FriProof, FriVerificationError,
    LinePolyDegreeBound,
};
use crate::fri::fold::{accumulate_line, spec_accumulate_line};
use crate::fri::layers::{
    spec_evals_view, spec_first_layer_verify, spec_inner_layer_verify, spec_sparse_view,
    FriFirstLayerVerifier, FriInnerLayerVerifier,
};
use crate::fri::sparse::{spec_sparse_fold_circle, FoldSubset, SparseEvaluation};
use crate::circle::coset::Coset;
use crate::poly::domain::{CanonicCoset, CircleDomain};
use crate::poly::line::{LineDomain, LinePoly};
use crate::queries::{lemma_fold_twice, spec_fold_positions, spec_generate, Queries};
use crate::utils::{bit_reverse_index, copy_vec, pow2_usize, spec_bit_reverse_index};
use crate::vcs::hasher::MerkleHasher;

verus! {

/// The transcript after the commitments of the inner layers from the `i`-th
/// on were absorbed, each followed by the draw of its folding coefficient;
/// the coefficients; and whether the degree bound, which starts at `bound`
/// and loses one with each layer, never fell below zero.
pub open spec fn spec_commit_inner_layers<MC: MerkleChannel>(
    channel: MC::C,
    layers: Seq<FriLayerProof<MC::H>>,
    i: nat,
    bound: int,
) -> (MC::C, Seq<QM31>, bool)
    decreases layers.len() - i,
{
    if i >= layers.len() {
        (channel, Seq::empty(), true)
    } else {
        let (after, alpha) = MC::spec_mix_root(
            channel,
            layers[i as int].commitment,
        ).spec_draw_secure_felt();
        if bound < 1 {
            (after, seq![alpha], false)
        } else {
            let (last, rest, ok) = spec_commit_inner_layers::<MC>(after, layers, i + 1, bound - 1);
            (last, seq![alpha] + rest, ok)
        }
    }
}

/// The transcript after the commitment stage, the folding coefficients of
/// the first and of the inner layers, and the outcome: the number of inner
/// layers must lead from the largest bound to that of the last layer, and
/// the polynomial of the last layer must respect its bound.
pub open spec fn spec_commit<MC: MerkleChannel>(
    channel: MC::C,
    config: FriConfig,
    proof: FriProof<MC::H>,
    max_bound: u32,
) -> (MC::C, QM31, Seq<QM31>, Result<(), FriVerificationError>) {
    let (c1, first_alpha) = MC::spec_mix_root(
        channel,
        proof.first_layer.commitment,
    ).spec_draw_secure_felt();
    let (c2, alphas, ok) = spec_commit_inner_layers::<MC>(
        c1,
        proof.inner_layers@,
        0,
        max_bound - 1,
    );
    if !ok || max_bound - 1 - proof.inner_layers.len() != config.log_last_layer_degree_bound {
        (c2, first_alpha, alphas, Err(FriVerificationError::InvalidNumFriLayers))
    } else if proof.last_layer_poly@.len() > pow2(config.log_last_layer_degree_bound as nat) {
        (c2, first_alpha, alphas, Err(FriVerificationError::LastLayerDegreeInvalid))
    } else {
        (c2.spec_mix_felts(proof.last_layer_poly@), first_alpha, alphas, Ok(()))
    }
}

/// The values of a layer after the columns of the first layer that fold
/// into it, from the `at`-th on, were folded and accumulated; and the first
/// column that does not fold into it.
pub open spec fn spec_fold_columns(
    bounds: Seq<CirclePolyDegreeBound>,
    domains: Seq<CircleDomain>,
    sparse: Seq<Seq<FoldSubset>>,
    at: nat,
    degree_bound: u32,
    alpha: QM31,
    evals: Seq<QM31>,
) -> (nat, Seq<QM31>)
    decreases bounds.len() - at,
{
    if at < bounds.len() && bounds[at as int].log_degree_bound - 1 == degree_bound {
        spec_fold_columns(
            bounds,
            domains,
            sparse,
            at + 1,
            degree_bound,
            alpha,
            spec_accumulate_line(
                evals,
                spec_sparse_fold_circle(sparse[at as int], alpha, domains[at as int]),
                alpha,
            ),
        )
    } else {
        (at, evals)
    }
}

/// The queries and values of the last layer, if the inner layers from the
/// `k`-th on are accepted: before each layer the columns of its size are
/// folded in with the coefficient of the layer before.
pub open spec fn spec_inner_layers<H: MerkleHasher>(
    layers: Seq<FriInnerLayerVerifier<H>>,
    k: nat,
    bounds: Seq<CirclePolyDegreeBound>,
    domains: Seq<CircleDomain>,
    sparse: Seq<Seq<FoldSubset>>,
    at: nat,
    previous_alpha: QM31,
    queries: Seq<usize>,
    evals: Seq<QM31>,
) -> Result<(Seq<usize>, Seq<QM31>), FriVerificationError>
    decreases layers.len() - k,
{
    if k >= layers.len() {
        Ok((queries, evals))
    } else {
        let layer = layers[k as int];
        let (next_at, with_columns) = spec_fold_columns(
            bounds,
            domains,
            sparse,
            at,
            layer.degree_bound.log_degree_bound,
            previous_alpha,
            evals,
        );
        match spec_inner_layer_verify::<H>(
            layer.domain,
            layer.folding_alpha,
            layer.layer_index,
            layer.proof.commitment,
            layer.proof.fri_witness@,
            layer.proof.decommitment.hash_witness@,
            layer.proof.decommitment.column_witness@,
            queries,
            with_columns,
        ) {
            Err(e) => Err(e),
            Ok((folded_queries, folded_evals)) => spec_inner_layers::<H>(
                layers,
                k + 1,
                bounds,
                domains,
                sparse,
                next_at,
                layer.folding_alpha,
                folded_queries,
                folded_evals,
            ),
        }
    }
}

/// The point of the last domain at which the `i`-th query lives.
pub open spec fn spec_last_layer_point(domain: LineDomain, query: usize) -> QM31 {
    QM31::spec_from_m31(
        domain.spec_at(spec_bit_reverse_index(query as nat, domain.spec_log_size())),
    )
}

/// Whether the polynomial of the last layer takes the folded values at the queries.
pub open spec fn spec_last_layer_holds(
    domain: LineDomain,
    poly: LinePoly,
    queries: Seq<usize>,
    evals: Seq<QM31>,
) -> bool {
    forall|i: int|
        0 <= i < queries.len() && i < evals.len() ==> evals[i] == poly.spec_eval_at_point(
            spec_last_layer_point(domain, #[trigger] queries[i]),
        )
}

/// While the degree bound is at least the number of layers still to be
/// read, it never falls below zero.
pub proof fn lemma_enough_bound_for_layers<MC: MerkleChannel>(
    channel: MC::C,
    layers: Seq<FriLayerProof<MC::H>>,
    i: nat,
    bound: int,
)
    requires
        i <= layers.len(),
        bound >= layers.len() - i,
    ensures
        spec_commit_inner_layers::<MC>(channel, layers, i, bound).2,
    decreases layers.len() - i,
{
    if i < layers.len() {
        let (after, alpha) = MC::spec_mix_root(
            channel,
            layers[i as int].commitment,
        ).spec_draw_secure_felt();
        lemma_enough_bound_for_layers::<MC>(after, layers, i + 1, bound - 1);
    }
}

/// A proof is refused for its number of layers exactly when the number of
/// its inner layers is not the largest degree bound, less one for the fold
/// onto a line, less the bound of the last layer: one layer more or one
/// layer fewer is refused for this reason whatever else the proof holds.
pub proof fn lemma_layer_count_decides<MC: MerkleChannel>(
    channel: MC::C,
    config: FriConfig,
    proof: FriProof<MC::H>,
    max_bound: u32,
)
    requires
        max_bound >= config.log_last_layer_degree_bound + 1,
    ensures
        (spec_commit::<MC>(channel, config, proof, max_bound).3 == Err::<
            (),
            FriVerificationError,
        >(FriVerificationError::InvalidNumFriLayers)) <==> (proof.inner_layers.len() != max_bound
            - 1 - config.log_last_layer_degree_bound),
{
    let (c1, first_alpha) = MC::spec_mix_root(
        channel,
        proof.first_layer.commitment,
    ).spec_draw_secure_felt();
    if proof.inner_layers.len() == max_bound - 1 - config.log_last_layer_degree_bound {
        lemma_enough_bound_for_layers::<MC>(c1, proof.inner_layers@, 0, max_bound - 1);
    }
}

/// The domain of the `k`-th inner layer: the line domain of the largest
/// column, doubled `k` times.
pub open spec fn spec_line_layer_domain(first: CircleDomain, k: nat) -> LineDomain
    decreases k,
{
    if k == 0 {
        LineDomain::spec_from_circle_domain(first)
    } else {
        spec_line_layer_domain(first, (k - 1) as nat).spec_double()
    }
}

/// The domains on which the columns of the given degree bounds are
/// committed.
pub open spec fn spec_commitment_domains(
    config: FriConfig,
    bounds: Seq<CirclePolyDegreeBound>,
) -> Seq<CircleDomain> {
    Seq::new(
        bounds.len(),
        |i: int|
            CanonicCoset::spec_circle_domain_of(
                (bounds[i].log_degree_bound + config.log_blowup_factor) as nat,
            ),
    )
}

/// The verifiers of the inner layers of a proof: the `k`-th has the largest
/// degree bound less `k + 1`, the line domain of the largest column doubled
/// `k` times, and the `k`-th folding coefficient.
pub open spec fn spec_layer_verifiers<H: MerkleHasher>(
    config: FriConfig,
    layers: Seq<FriLayerProof<H>>,
    max_bound: u32,
    alphas: Seq<QM31>,
) -> Seq<FriInnerLayerVerifier<H>> {
    Seq::new(
        layers.len(),
        |k: int|
            (FriInnerLayerVerifier {
                degree_bound: LinePolyDegreeBound { log_degree_bound: (max_bound - 1 - k) as u32 },
                domain: spec_line_layer_domain(
                    CanonicCoset::spec_circle_domain_of(
                        (max_bound + config.log_blowup_factor) as nat,
                    ),
                    k as nat,
                ),
                folding_alpha: alphas[k],
                layer_index: k as usize,
                proof: layers[k],
            }),
    )
}

/// Whether the layers accept values at queries: the first layer is
/// accepted, then the inner layers, and the polynomial of the last layer
/// takes the values that were folded down to it.
pub open spec fn spec_layers_accept<H: MerkleHasher>(
    bounds: Seq<CirclePolyDegreeBound>,
    domains: Seq<CircleDomain>,
    first_proof: FriLayerProof<H>,
    first_alpha: QM31,
    layers: Seq<FriInnerLayerVerifier<H>>,
    last_domain: LineDomain,
    last_poly: LinePoly,
    queries: Seq<usize>,
    log_domain_size: nat,
    evals: Seq<Seq<QM31>>,
) -> Result<(), FriVerificationError> {
    match spec_first_layer_verify::<H>(
        domains,
        first_proof.commitment,
        first_proof.fri_witness@,
        first_proof.decommitment.hash_witness@,
        first_proof.decommitment.column_witness@,
        queries,
        log_domain_size,
        evals,
    ) {
        Err(e) => Err(e),
        Ok(sparse) => {
            let inner_queries = spec_fold_positions(queries, 1);
            match spec_inner_layers::<H>(
                layers,
                0,
                bounds,
                domains,
                sparse,
                0,
                first_alpha,
                inner_queries,
                spec_zeros(inner_queries.len()),
            ) {
                Err(e) => Err(e),
                Ok((last_queries, last_evals)) => {
                    if spec_last_layer_holds(last_domain, last_poly, last_queries, last_evals) {
                        Ok(())
                    } else {
                        Err(FriVerificationError::LastLayerEvaluationsInvalid)
                    }
                },
            }
        },
    }
}

/// Whether a proof that passed the commitment stage, in which the given
/// folding coefficients were drawn, is accepted at the queries with the
/// given values of the columns.
pub open spec fn spec_decommit_stage<H: MerkleHasher>(
    config: FriConfig,
    proof: FriProof<H>,
    bounds: Seq<CirclePolyDegreeBound>,
    first_alpha: QM31,
    alphas: Seq<QM31>,
    queries: Seq<usize>,
    evals: Seq<Seq<QM31>>,
) -> Result<(), FriVerificationError> {
    let max_bound = bounds[0].log_degree_bound;
    let largest = CanonicCoset::spec_circle_domain_of((max_bound + config.log_blowup_factor) as nat);
    spec_layers_accept::<H>(
        bounds,
        spec_commitment_domains(config, bounds),
        proof.first_layer,
        first_alpha,
        spec_layer_verifiers::<H>(config, proof.inner_layers@, max_bound, alphas),
        spec_line_layer_domain(largest, proof.inner_layers.len() as nat),
        proof.last_layer_poly,
        queries,
        (max_bound + config.log_blowup_factor) as nat,
        evals,
    )
}

/// As many zeros as there are positions.
pub open spec fn spec_zeros(n: nat) -> Seq<QM31> {
    Seq::new(n, |i: int| QM31::spec_zero())
}

/// The verifier of a FRI proof, after the commitment stage.
pub struct FriVerifier<MC: MerkleChannel> {
    config: FriConfig,
    first_layer: FriFirstLayerVerifier<MC::H>,
    inner_layers: Vec<FriInnerLayerVerifier<MC::H>>,
    last_layer_domain: LineDomain,
    last_layer_poly: LinePoly,
    /// The queries, once they were sampled.
    queries: Option<Queries>,
}

impl<MC: MerkleChannel> FriVerifier<MC> {
    pub closed spec fn spec_config(self) -> FriConfig {
        self.config
    }

    pub closed spec fn spec_first_layer(self) -> FriFirstLayerVerifier<MC::H> {
        self.first_layer
    }

    pub closed spec fn spec_inner_layers(self) -> Seq<FriInnerLayerVerifier<MC::H>> {
        self.inner_layers@
    }

    pub closed spec fn spec_last_layer_domain(self) -> LineDomain {
        self.last_layer_domain
    }

    pub closed spec fn spec_last_layer_poly(self) -> LinePoly {
        self.last_layer_poly
    }

    pub closed spec fn spec_queries(self) -> Option<Queries> {
        self.queries
    }

    /// The logarithm of the size of the largest column.
    pub open spec fn spec_max_log_size(self) -> nat {
        self.spec_first_layer().column_commitment_domains[0].spec_log_size()
    }

    /// The layers lead from the largest column down to the last layer, each
    /// column folds into one of them, and the queries, once sampled, are on
    /// the domain of the largest column.
    #[verifier::type_invariant]
    pub open spec fn wf(self) -> bool {
        let first = self.spec_first_layer();
        let layers = self.spec_inner_layers();
        let config = self.spec_config();
        &&& config.wf()
        &&& first.column_bounds.len() >= 1
        &&& first.column_commitment_domains.len() == first.column_bounds.len()
        &&& forall|i: int, j: int|
            0 <= i <= j < first.column_bounds.len() ==> first.column_bounds[i].log_degree_bound
                >= first.column_bounds[j].log_degree_bound
        &&& forall|i: int|
            0 <= i < first.column_bounds.len() ==> {
                &&& (#[trigger] first.column_bounds[i]).log_degree_bound
                    >= config.log_last_layer_degree_bound + 1
                &&& first.column_bounds[i].log_degree_bound <= first.column_bounds[0].log_degree_bound
                &&& first.column_commitment_domains[i].wf()
                &&& first.column_commitment_domains[i].spec_log_size()
                    == first.column_bounds[i].log_degree_bound + config.log_blowup_factor
                &&& first.column_commitment_domains[i].spec_log_size() <= 30
            }
        &&& layers.len() == first.column_bounds[0].log_degree_bound - 1
            - config.log_last_layer_degree_bound
        &&& forall|k: int|
            0 <= k < layers.len() ==> {
                &&& (#[trigger] layers[k]).degree_bound.log_degree_bound
                    == first.column_bounds[0].log_degree_bound - 1 - k
                &&& layers[k].domain.wf()
                &&& layers[k].domain.spec_log_size() == layers[k].degree_bound.log_degree_bound
                    + config.log_blowup_factor
                &&& layers[k].layer_index == k
            }
        &&& self.spec_last_layer_domain().wf()
        &&& self.spec_last_layer_domain().spec_log_size() == config.log_last_layer_degree_bound
            + config.log_blowup_factor
        &&& self.spec_last_layer_poly().wf()
        &&& match self.spec_queries() {
            Some(q) => q.wf() && q.spec_log_domain_size() == self.spec_max_log_size(),
            None => true,
        }
    }

    /// What the commitment stage asks of the degree bounds: there is one,
    /// they descend, each exceeds the bound of the last layer by one at
    /// least, and none leads to a domain of more than `2^30` points.
    pub open spec fn spec_bounds_fit(config: FriConfig, column_bounds: Seq<CirclePolyDegreeBound>) -> bool {
        &&& config.wf()
        &&& column_bounds.len() >= 1
        &&& forall|i: int, j: int|
            0 <= i <= j < column_bounds.len() ==> column_bounds[i].log_degree_bound
                >= column_bounds[j].log_degree_bound
        &&& forall|i: int|
            0 <= i < column_bounds.len() ==> {
                &&& (#[trigger] column_bounds[i]).log_degree_bound
                    >= config.log_last_layer_degree_bound + 1
                &&& column_bounds[i].log_degree_bound + config.log_blowup_factor <= 30
            }
    }

    /// Whether every column folds into an inner layer: the degree bound of
    /// each exceeds that of the last layer by two at least.
    pub open spec fn spec_bounds_fold(config: FriConfig, column_bounds: Seq<CirclePolyDegreeBound>) -> bool {
        forall|i: int|
            0 <= i < column_bounds.len() ==> (#[trigger] column_bounds[i]).log_degree_bound
                >= config.log_last_layer_degree_bound + 2
    }

    /// Whether every column folds into an inner layer.
    pub open spec fn spec_columns_fold(self) -> bool {
        Self::spec_bounds_fold(self.spec_config(), self.spec_first_layer().column_bounds@)
    }

    /// Whether every column folds into an inner layer.
    pub fn columns_fold(&self) -> (r: bool)
        ensures
            r == self.spec_columns_fold(),
    {
        proof {
            use_type_invariant(self);
        }
        let mut i: usize = 0;
        while i < self.first_layer.column_bounds.len()
            invariant
                i <= self.first_layer.column_bounds.len(),
                self.wf(),
                forall|k: int|
                    0 <= k < i ==> (#[trigger] self.first_layer.column_bounds[k]).log_degree_bound
                        >= self.config.log_last_layer_degree_bound + 2,
            decreases self.first_layer.column_bounds.len() - i,
        {
            if self.first_layer.column_bounds[i].log_degree_bound
                < self.config.log_last_layer_degree_bound + 2 {
                return false;
            }
            i = i + 1;
        }
        true
    }

    /// Whether the degree bounds are what the commitment stage asks for.
    pub fn bounds_fit(config: FriConfig, column_bounds: &Vec<CirclePolyDegreeBound>) -> (r: bool)
        ensures
            r == Self::spec_bounds_fit(config, column_bounds@),
    {
        if !(1 <= config.log_blowup_factor && config.log_blowup_factor <= 16
            && config.log_last_layer_degree_bound <= 10) {
            return false;
        }
        if column_bounds.len() == 0 {
            return false;
        }
        let mut i: usize = 0;
        while i < column_bounds.len()
            invariant
                i <= column_bounds.len(),
                config.wf(),
                forall|a: int, b: int|
                    0 <= a <= b < i ==> column_bounds[a].log_degree_bound
                        >= column_bounds[b].log_degree_bound,
                forall|k: int|
                    0 <= k < i ==> {
                        &&& (#[trigger] column_bounds[k]).log_degree_bound
                            >= config.log_last_layer_degree_bound + 1
                        &&& column_bounds[k].log_degree_bound + config.log_blowup_factor <= 30
                    },
            decreases column_bounds.len() - i,
        {
            let b = column_bounds[i].log_degree_bound;
            if b < config.log_last_layer_degree_bound + 1 || b > 30 - config.log_blowup_factor {
                assert(!((#[trigger] column_bounds[i as int]).log_degree_bound
                    >= config.log_last_layer_degree_bound + 1
                    && column_bounds[i as int].log_degree_bound + config.log_blowup_factor
                    <= 30));
                return false;
            }
            if i > 0 && column_bounds[i - 1].log_degree_bound < b {
                return false;
            }
            i = i + 1;
        }
        true
    }

    /// Verifies the commitment stage of FRI: absorbs the commitments of the
    /// layers, draws their folding coefficients and checks the number of
    /// layers and the degree of the last one.
    pub fn commit(
        channel: &mut MC::C,
        config: FriConfig,
        proof: FriProof<MC::H>,
        column_bounds: Vec<CirclePolyDegreeBound>,
    ) -> (r: Result<FriVerifier<MC>, FriVerificationError>)
        requires
            Self::spec_bounds_fit(config, column_bounds@),
        ensures
            ({
                let (after, first_alpha, alphas, outcome) = spec_commit::<MC>(
                    *old(channel),
                    config,
                    proof,
                    column_bounds[0].log_degree_bound,
                );
                &&& *final(channel) == after
                &&& match (r, outcome) {
                    (Ok(v), Ok(_)) => {
                        &&& v.wf()
                        &&& v.spec_config() == config
                        &&& v.spec_queries().is_none()
                        &&& v.spec_first_layer().column_bounds == column_bounds
                        &&& v.spec_first_layer().folding_alpha == first_alpha
                        &&& v.spec_first_layer().proof == proof.first_layer
                        &&& v.spec_inner_layers().len() == proof.inner_layers.len()
                        &&& forall|k: int|
                            0 <= k < proof.inner_layers.len() ==> {
                                &&& (#[trigger] v.spec_inner_layers()[k]).folding_alpha == alphas[k]
                                &&& v.spec_inner_layers()[k].proof == proof.inner_layers[k]
                            }
                        &&& v.spec_last_layer_poly() == proof.last_layer_poly
                        &&& v.spec_first_layer().column_commitment_domains@
                            == spec_commitment_domains(config, column_bounds@)
                        &&& v.spec_inner_layers() == spec_layer_verifiers::<MC::H>(
                            config,
                            proof.inner_layers@,
                            column_bounds[0].log_degree_bound,
                            alphas,
                        )
                        &&& forall|i: int|
                            0 <= i < column_bounds.len() ==> (
                            #[trigger] v.spec_first_layer().column_commitment_domains[i])
                                == CanonicCoset::spec_circle_domain_of(
                                (column_bounds[i].log_degree_bound + config.log_blowup_factor) as nat,
                            )
                        &&& forall|k: int|
                            0 <= k < proof.inner_layers.len() ==> (
                            #[trigger] v.spec_inner_layers()[k]).domain == spec_line_layer_domain(
                                CanonicCoset::spec_circle_domain_of(
                                    (column_bounds[0].log_degree_bound + config.log_blowup_factor) as nat,
                                ),
                                k as nat,
                            )
                        &&& v.spec_last_layer_domain() == spec_line_layer_domain(
                            CanonicCoset::spec_circle_domain_of(
                                (column_bounds[0].log_degree_bound + config.log_blowup_factor) as nat,
                            ),
                            proof.inner_layers.len() as nat,
                        )
                    },
                    (Err(e), Err(spec_e)) => e == spec_e,
                    _ => false,
                }
            }),
    {
        let ghost start = *channel;
        MC::mix_root(channel, proof.first_layer.commitment);
        let max_column_bound = column_bounds[0];
        let mut column_commitment_domains: Vec<CircleDomain> = Vec::with_capacity(
            column_bounds.len(),
        );
        let mut i: usize = 0;
        while i < column_bounds.len()
            invariant
                i <= column_bounds.len(),
                Self::spec_bounds_fit(config, column_bounds@),
                column_commitment_domains.len() == i,
                forall|j: int|
                    0 <= j < i ==> {
                        &&& (#[trigger] column_commitment_domains[j]).wf()
                        &&& column_commitment_domains[j].spec_log_size()
                            == column_bounds[j].log_degree_bound + config.log_blowup_factor
                        &&& column_commitment_domains[j] == CanonicCoset::spec_circle_domain_of(
                            (column_bounds[j].log_degree_bound + config.log_blowup_factor) as nat,
                        )
                    },
            decreases column_bounds.len() - i,
        {
            let log_size = column_bounds[i].log_degree_bound + config.log_blowup_factor;
            column_commitment_domains.push(CanonicCoset::new(log_size).circle_domain());
            i = i + 1;
        }
        let first_alpha = channel.draw_secure_felt();
        let ghost after_first = *channel;
        let FriProof { first_layer: first_layer_proof, inner_layers: inner_layer_proofs, last_layer_poly } =
            proof;
        let first_layer = FriFirstLayerVerifier::<MC::H> {
            column_bounds,
            column_commitment_domains,
            proof: first_layer_proof,
            folding_alpha: first_alpha,
        };
        let mut inner_layers: Vec<FriInnerLayerVerifier<MC::H>> = Vec::new();
        let mut layer_bound = max_column_bound.fold_to_line();
        let mut layer_domain = LineDomain::from_circle_domain(
            CanonicCoset::new(
                max_column_bound.log_degree_bound + config.log_blowup_factor,
            ).circle_domain(),
        );
        let ghost largest = CanonicCoset::spec_circle_domain_of(
            (max_column_bound.log_degree_bound + config.log_blowup_factor) as nat,
        );
        let ghost total = spec_commit_inner_layers::<MC>(
            after_first,
            proof.inner_layers@,
            0,
            max_column_bound.log_degree_bound - 1,
        );
        let ghost mut alphas: Seq<QM31> = Seq::empty();
        let n_layers = inner_layer_proofs.len();
        let mut remaining = inner_layer_proofs;
        let mut layer_index: usize = 0;
        // The layers are taken from the back of a reversed list.
        reverse_layers::<MC::H>(&mut remaining);
        while layer_index < n_layers
            invariant
                config.wf(),
                max_column_bound == column_bounds[0],
                (after_first, first_alpha) == MC::spec_mix_root(
                    *old(channel),
                    proof.first_layer.commitment,
                ).spec_draw_secure_felt(),
                total == spec_commit_inner_layers::<MC>(
                    after_first,
                    proof.inner_layers@,
                    0,
                    max_column_bound.log_degree_bound - 1,
                ),
                layer_index <= n_layers,
                n_layers == proof.inner_layers.len(),
                remaining.len() == n_layers - layer_index,
                forall|j: int|
                    0 <= j < remaining.len() ==> remaining[j] == proof.inner_layers[n_layers - 1
                        - j],
                inner_layers.len() == layer_index,
                alphas.len() == layer_index,
                layer_bound.log_degree_bound == max_column_bound.log_degree_bound - 1 - layer_index,
                max_column_bound.log_degree_bound + config.log_blowup_factor <= 30,
                layer_domain.wf(),
                layer_domain.spec_log_size() == layer_bound.log_degree_bound
                    + config.log_blowup_factor,
                largest == CanonicCoset::spec_circle_domain_of(
                    (max_column_bound.log_degree_bound + config.log_blowup_factor) as nat,
                ),
                layer_domain == spec_line_layer_domain(largest, layer_index as nat),
                forall|k: int|
                    0 <= k < layer_index ==> (#[trigger] inner_layers[k]).domain
                        == spec_line_layer_domain(largest, k as nat),
                forall|k: int|
                    0 <= k < layer_index ==> {
                        &&& (#[trigger] inner_layers[k]).degree_bound.log_degree_bound
                            == max_column_bound.log_degree_bound - 1 - k
                        &&& inner_layers[k].domain.wf()
                        &&& inner_layers[k].domain.spec_log_size()
                            == inner_layers[k].degree_bound.log_degree_bound
                            + config.log_blowup_factor
                        &&& inner_layers[k].layer_index == k
                        &&& inner_layers[k].folding_alpha == alphas[k]
                        &&& inner_layers[k].proof == proof.inner_layers[k]
                    },
                ({
                    let (last, rest, ok) = spec_commit_inner_layers::<MC>(
                        *channel,
                        proof.inner_layers@,
                        layer_index as nat,
                        layer_bound.log_degree_bound as int,
                    );
                    total == (last, alphas + rest, ok)
                }),
            decreases n_layers - layer_index,
        {
            let ghost at_head = spec_commit_inner_layers::<MC>(
                *channel,
                proof.inner_layers@,
                layer_index as nat,
                layer_bound.log_degree_bound as int,
            );
            let ghost head_channel = *channel;
            let layer_proof = remaining.pop().unwrap();
            assert(layer_proof == proof.inner_layers[layer_index as int]);
            MC::mix_root(channel, layer_proof.commitment);
            let folding_alpha = channel.draw_secure_felt();
            let ghost rest_before = spec_commit_inner_layers::<MC>(
                *channel,
                proof.inner_layers@,
                (layer_index + 1) as nat,
                layer_bound.log_degree_bound - 1,
            );
            inner_layers.push(
                FriInnerLayerVerifier::<MC::H> {
                    degree_bound: layer_bound,
                    domain: layer_domain,
                    folding_alpha,
                    layer_index,
                    proof: layer_proof,
                },
            );
            proof {
                assert(alphas + (seq![folding_alpha] + rest_before.1) =~= alphas.push(folding_alpha)
                    + rest_before.1);
                assert(alphas + seq![folding_alpha] =~= alphas.push(folding_alpha));
                alphas = alphas.push(folding_alpha);
            }
            match layer_bound.fold(1) {
                None => {
                    assert(at_head == (*channel, seq![folding_alpha], false));
                    return Err(FriVerificationError::InvalidNumFriLayers);
                },
                Some(folded) => {
                    layer_bound = folded;
                },
            }
            layer_domain = layer_domain.double();
            layer_index = layer_index + 1;
        }
        proof {
            assert(alphas + Seq::<QM31>::empty() =~= alphas);
        }
        if layer_bound.log_degree_bound != config.log_last_layer_degree_bound {
            return Err(FriVerificationError::InvalidNumFriLayers);
        }
        let last_layer_domain = layer_domain;
        if last_layer_poly.len() > pow2_usize(config.log_last_layer_degree_bound) {
            return Err(FriVerificationError::LastLayerDegreeInvalid);
        }
        channel.mix_felts(last_layer_poly.coeffs());
        last_layer_poly.valid();
        proof {
            assert(first_layer.column_commitment_domains@ =~= spec_commitment_domains(
                config,
                first_layer.column_bounds@,
            ));
            assert(inner_layers@ =~= spec_layer_verifiers::<MC::H>(
                config,
                proof.inner_layers@,
                max_column_bound.log_degree_bound,
                alphas,
            ));
        }
        Ok(
            FriVerifier {
                config,
                first_layer,
                inner_layers,
                last_layer_domain,
                last_layer_poly,
                queries: None,
            },
        )
    }
}


impl<MC: MerkleChannel> FriVerifier<MC> {
    /// Whether a proof is accepted at the given queries: the first layer is
    /// accepted, then the inner layers, and the polynomial of the last layer
    /// takes the values that were folded down to it.
    pub open spec fn spec_decommit(self, queries: Queries, query_evals: Seq<Vec<QM31>>) -> Result<
        (),
        FriVerificationError,
    > {
        let first = self.spec_first_layer();
        spec_layers_accept::<MC::H>(
            first.column_bounds@,
            first.column_commitment_domains@,
            first.proof,
            first.folding_alpha,
            self.spec_inner_layers(),
            self.spec_last_layer_domain(),
            self.spec_last_layer_poly(),
            queries@,
            queries.spec_log_domain_size(),
            spec_evals_view(query_evals),
        )
    }

    /// Verifies the decommitment stage of FRI at the queries that were
    /// sampled. The values of each column come in the order of its queries.
    pub fn decommit(self, first_layer_query_evals: Vec<Vec<QM31>>) -> (r: Result<
        (),
        FriVerificationError,
    >)
        requires
            self.spec_queries().is_some(),
            self.spec_columns_fold(),
            self.spec_first_layer().spec_fits(
                self.spec_queries().unwrap(),
                first_layer_query_evals@,
            ),
        ensures
            r == self.spec_decommit(self.spec_queries().unwrap(), first_layer_query_evals@),
    {
        let mut this = self;
        proof {
            use_type_invariant(&this);
        }
        let queries = match &this.queries {
            Some(q) => q.clone(),
            None => Queries::from_positions(Vec::new(), 0),
        };
        this.decommit_on_queries(&queries, first_layer_query_evals)
    }

    /// Verifies the decommitment stage of FRI at the given queries.
    pub fn decommit_on_queries(self, queries: &Queries, first_layer_query_evals: Vec<Vec<QM31>>) -> (r:
        Result<(), FriVerificationError>)
        requires
            self.spec_columns_fold(),
            self.spec_first_layer().spec_fits(*queries, first_layer_query_evals@),
        ensures
            r == self.spec_decommit(*queries, first_layer_query_evals@),
    {
        proof {
            use_type_invariant(&self);
        }
        queries.valid();
        let first_layer_sparse_evals = match self.decommit_first_layer(
            queries,
            &first_layer_query_evals,
        ) {
            Err(e) => {
                return Err(e);
            },
            Ok(sparse) => sparse,
        };
        let inner_layer_queries = queries.fold(1);
        let (last_layer_queries, last_layer_query_evals) = match self.decommit_inner_layers(
            queries,
            inner_layer_queries,
            first_layer_sparse_evals,
        ) {
            Err(e) => {
                return Err(e);
            },
            Ok(last) => last,
        };
        self.decommit_last_layer(last_layer_queries, last_layer_query_evals)
    }

    /// Verifies the decommitment of the first layer.
    fn decommit_first_layer(&self, queries: &Queries, first_layer_query_evals: &Vec<Vec<QM31>>) -> (r:
        Result<Vec<SparseEvaluation>, FriVerificationError>)
        requires
            self.spec_first_layer().spec_fits(*queries, first_layer_query_evals@),
        ensures
            match (r, spec_first_layer_verify::<MC::H>(
                self.spec_first_layer().column_commitment_domains@,
                self.spec_first_layer().proof.commitment,
                self.spec_first_layer().proof.fri_witness@,
                self.spec_first_layer().proof.decommitment.hash_witness@,
                self.spec_first_layer().proof.decommitment.column_witness@,
                queries@,
                queries.spec_log_domain_size(),
                spec_evals_view(first_layer_query_evals@),
            )) {
                (Ok(sparse), Ok(spec_sparse)) => spec_sparse_view(sparse@) == spec_sparse,
                (Err(e), Err(spec_e)) => e == spec_e,
                _ => false,
            },
            r.is_ok() ==> r.unwrap().len() == self.spec_first_layer().column_commitment_domains.len()
                && forall|i: int|
                0 <= i < self.spec_first_layer().column_commitment_domains.len() ==> (
                #[trigger] r.unwrap()[i]).subsets.len() == spec_fold_positions(
                    spec_fold_positions(
                        queries@,
                        (queries.spec_log_domain_size()
                            - self.spec_first_layer().column_commitment_domains[i].spec_log_size()) as nat,
                    ),
                    1,
                ).len(),
    {
        self.first_layer.verify(queries, first_layer_query_evals)
    }

    /// Verifies the decommitments of the inner layers, and returns the
    /// queries and the values to check on the last layer.
    fn decommit_inner_layers(
        &self,
        queries: &Queries,
        inner_layer_queries: Queries,
        first_layer_sparse_evals: Vec<SparseEvaluation>,
    ) -> (r: Result<(Queries, Vec<QM31>), FriVerificationError>)
        requires
            queries.wf(),
            queries.spec_log_domain_size() == self.spec_max_log_size(),
            inner_layer_queries@ == spec_fold_positions(queries@, 1),
            inner_layer_queries.spec_log_domain_size() == queries.spec_log_domain_size() - 1,
            first_layer_sparse_evals.len() == self.spec_first_layer().column_bounds.len(),
            forall|i: int|
                0 <= i < first_layer_sparse_evals.len() ==> (
                #[trigger] first_layer_sparse_evals[i]).subsets.len() == spec_fold_positions(
                    spec_fold_positions(
                        queries@,
                        (queries.spec_log_domain_size()
                            - self.spec_first_layer().column_commitment_domains[i].spec_log_size()) as nat,
                    ),
                    1,
                ).len(),
        ensures
            match (r, spec_inner_layers::<MC::H>(
                self.spec_inner_layers(),
                0,
                self.spec_first_layer().column_bounds@,
                self.spec_first_layer().column_commitment_domains@,
                spec_sparse_view(first_layer_sparse_evals@),
                0,
                self.spec_first_layer().folding_alpha,
                inner_layer_queries@,
                spec_zeros(inner_layer_queries@.len()),
            )) {
                (Ok((last_queries, last_evals)), Ok((spec_queries, spec_evals))) => {
                    &&& last_queries@ == spec_queries
                    &&& last_evals@ == spec_evals
                },
                (Err(e), Err(spec_e)) => e == spec_e,
                _ => false,
            },
    {
        proof {
            use_type_invariant(self);
        }
        inner_layer_queries.valid();
        let ghost all = queries@;
        let ghost max_log = queries.spec_log_domain_size();
        let ghost sparse = spec_sparse_view(first_layer_sparse_evals@);
        let ghost start_queries = inner_layer_queries@;
        let n_columns = self.first_layer.column_bounds.len();
        let mut layer_queries = inner_layer_queries;
        let mut layer_query_evals: Vec<QM31> = Vec::new();
        let mut z: usize = 0;
        while z < layer_queries.len()
            invariant
                z <= layer_queries@.len(),
                layer_query_evals.len() == z,
                forall|j: int| 0 <= j < z ==> layer_query_evals[j] == QM31::spec_zero(),
            decreases layer_queries@.len() - z,
        {
            layer_query_evals.push(QM31::zero());
            z = z + 1;
        }
        proof {
            assert(layer_query_evals@ =~= spec_zeros(start_queries.len()));
        }
        let mut at: usize = 0;
        let mut previous_folding_alpha = self.first_layer.folding_alpha;
        let mut k: usize = 0;
        while k < self.inner_layers.len()
            invariant
                self.wf(),
                all == queries@,
                max_log == queries.spec_log_domain_size(),
                max_log == self.spec_max_log_size(),
                sparse == spec_sparse_view(first_layer_sparse_evals@),
                start_queries == spec_fold_positions(all, 1),
                start_queries == inner_layer_queries@,
                n_columns == self.first_layer.column_bounds.len(),
                first_layer_sparse_evals.len() == n_columns,
                forall|i: int|
                    0 <= i < first_layer_sparse_evals.len() ==> (
                    #[trigger] first_layer_sparse_evals[i]).subsets.len() == spec_fold_positions(
                        spec_fold_positions(
                            all,
                            (max_log
                                - self.first_layer.column_commitment_domains[i].spec_log_size()) as nat,
                        ),
                        1,
                    ).len(),
                k <= self.inner_layers.len(),
                at <= n_columns,
                layer_queries.wf(),
                layer_queries@ == spec_fold_positions(all, (k + 1) as nat),
                layer_queries.spec_log_domain_size() == max_log - 1 - k,
                layer_query_evals.len() == layer_queries@.len(),
                spec_inner_layers::<MC::H>(
                    self.inner_layers@,
                    k as nat,
                    self.first_layer.column_bounds@,
                    self.first_layer.column_commitment_domains@,
                    sparse,
                    at as nat,
                    previous_folding_alpha,
                    layer_queries@,
                    layer_query_evals@,
                ) == spec_inner_layers::<MC::H>(
                    self.inner_layers@,
                    0,
                    self.first_layer.column_bounds@,
                    self.first_layer.column_commitment_domains@,
                    sparse,
                    0,
                    self.first_layer.folding_alpha,
                    start_queries,
                    spec_zeros(start_queries.len()),
                ),
            decreases self.inner_layers.len() - k,
        {
            let layer = &self.inner_layers[k];
            let ghost at_before = at;
            let ghost evals_before = layer_query_evals@;
            // The columns of the first layer that fold into this layer.
            while at < n_columns && self.first_layer.column_bounds[at].log_degree_bound - 1
                == layer.degree_bound.log_degree_bound
                invariant
                    self.wf(),
                    *layer == self.inner_layers[k as int],
                    k < self.inner_layers.len(),
                    max_log == self.spec_max_log_size(),
                    sparse == spec_sparse_view(first_layer_sparse_evals@),
                    n_columns == self.first_layer.column_bounds.len(),
                    first_layer_sparse_evals.len() == n_columns,
                    forall|i: int|
                        0 <= i < first_layer_sparse_evals.len() ==> (
                        #[trigger] first_layer_sparse_evals[i]).subsets.len() == spec_fold_positions(
                            spec_fold_positions(
                                all,
                                (max_log
                                    - self.first_layer.column_commitment_domains[i].spec_log_size()) as nat,
                            ),
                            1,
                        ).len(),
                    at_before <= at <= n_columns,
                    layer_queries@ == spec_fold_positions(all, (k + 1) as nat),
                    layer_query_evals.len() == layer_queries@.len(),
                    spec_fold_columns(
                        self.first_layer.column_bounds@,
                        self.first_layer.column_commitment_domains@,
                        sparse,
                        at as nat,
                        layer.degree_bound.log_degree_bound,
                        previous_folding_alpha,
                        layer_query_evals@,
                    ) == spec_fold_columns(
                        self.first_layer.column_bounds@,
                        self.first_layer.column_commitment_domains@,
                        sparse,
                        at_before as nat,
                        layer.degree_bound.log_degree_bound,
                        previous_folding_alpha,
                        evals_before,
                    ),
                decreases n_columns - at,
            {
                let column_domain = self.first_layer.column_commitment_domains[at];
                proof {
                    let shift = (max_log - column_domain.spec_log_size()) as nat;
                    assert(self.first_layer.column_bounds[at as int].log_degree_bound
                        == self.first_layer.column_bounds[0].log_degree_bound - k);
                    assert(shift == k);
                    lemma_fold_twice(all, shift, 1);
                    assert(first_layer_sparse_evals[at as int].subsets.len() == layer_queries@.len());
                    assert(sparse[at as int] == first_layer_sparse_evals[at as int].subsets@);
                }
                let folded_column_evals = first_layer_sparse_evals[at].fold_circle(
                    previous_folding_alpha,
                    column_domain,
                );
                accumulate_line(
                    &mut layer_query_evals,
                    &folded_column_evals,
                    previous_folding_alpha,
                );
                at = at + 1;
            }
            let ghost with_columns = layer_query_evals@;
            proof {
                lemma_fold_twice(all, (k + 1) as nat, 1);
                assert(spec_fold_columns(
                    self.first_layer.column_bounds@,
                    self.first_layer.column_commitment_domains@,
                    sparse,
                    at as nat,
                    layer.degree_bound.log_degree_bound,
                    previous_folding_alpha,
                    with_columns,
                ) == (at as nat, with_columns));
                assert(spec_fold_columns(
                    self.first_layer.column_bounds@,
                    self.first_layer.column_commitment_domains@,
                    sparse,
                    at_before as nat,
                    layer.degree_bound.log_degree_bound,
                    previous_folding_alpha,
                    evals_before,
                ) == (at as nat, with_columns));
                assert(self.inner_layers@[k as int] == *layer);
            }
            match layer.verify_and_fold(layer_queries, layer_query_evals) {
                Err(e) => {
                    return Err(e);
                },
                Ok((folded_queries, folded_evals)) => {
                    layer_queries = folded_queries;
                    layer_query_evals = folded_evals;
                },
            }
            previous_folding_alpha = layer.folding_alpha;
            k = k + 1;
        }
        Ok((layer_queries, layer_query_evals))
    }

    /// Checks that the polynomial of the last layer takes the folded values.
    fn decommit_last_layer(self, queries: Queries, query_evals: Vec<QM31>) -> (r: Result<
        (),
        FriVerificationError,
    >)
        ensures
            r == (if spec_last_layer_holds(
                self.spec_last_layer_domain(),
                self.spec_last_layer_poly(),
                queries@,
                query_evals@,
            ) {
                Ok::<(), FriVerificationError>(())
            } else {
                Err::<(), FriVerificationError>(FriVerificationError::LastLayerEvaluationsInvalid)
            }),
    {
        proof {
            use_type_invariant(&self);
        }
        let domain = self.last_layer_domain;
        let log_size = domain.log_size();
        let mut i: usize = 0;
        while i < queries.len() && i < query_evals.len()
            invariant
                log_size == domain.spec_log_size(),
                log_size <= 31,
                domain == self.last_layer_domain,
                forall|j: int|
                    0 <= j < i ==> query_evals[j] == self.last_layer_poly.spec_eval_at_point(
                        spec_last_layer_point(domain, #[trigger] queries@[j]),
                    ),
            decreases queries@.len() - i,
        {
            let query = queries.positions()[i];
            let x = domain.at(bit_reverse_index(query, log_size));
            if query_evals[i] != self.last_layer_poly.eval_at_point(QM31::from_base(x)) {
                return Err(FriVerificationError::LastLayerEvaluationsInvalid);
            }
            i = i + 1;
        }
        Ok(())
    }
}


/// The queries of each column size: the queries folded down to the size.
pub open spec fn spec_query_positions(
    queries: Seq<usize>,
    log_domain_size: nat,
    column_log_sizes: Seq<u32>,
) -> Map<u32, Seq<usize>>
    decreases column_log_sizes.len(),
{
    if column_log_sizes.len() == 0 {
        Map::empty()
    } else {
        spec_query_positions(queries, log_domain_size, column_log_sizes.drop_last()).insert(
            column_log_sizes.last(),
            spec_fold_positions(queries, (log_domain_size - column_log_sizes.last()) as nat),
        )
    }
}

/// The logarithms of the sizes of the domains.
pub open spec fn spec_domain_log_sizes(domains: Seq<CircleDomain>) -> Seq<u32> {
    Seq::new(domains.len(), |i: int| domains[i].spec_log_size() as u32)
}

/// The query positions of each column size, given the queries on the
/// largest domain and the sizes, none of which exceeds that of the domain.
pub fn get_query_positions_by_log_size(queries: &Queries, column_log_sizes: &Vec<u32>) -> (r:
    BTreeMap<u32, Vec<usize>>)
    requires
        forall|i: int|
            0 <= i < column_log_sizes.len() ==> column_log_sizes[i]
                <= queries.spec_log_domain_size(),
    ensures
        crate::vcs::merkle_verifier::spec_positions(r@) == spec_query_positions(
            queries@,
            queries.spec_log_domain_size(),
            column_log_sizes@,
        ),
{
    broadcast use vstd::std_specs::btree::group_btree_axioms;

    let mut out: BTreeMap<u32, Vec<usize>> = BTreeMap::new();
    let log_domain_size = queries.log_domain_size();
    let mut i: usize = 0;
    proof {
        assert(crate::vcs::merkle_verifier::spec_positions(out@) =~= Map::<
            u32,
            Seq<usize>,
        >::empty());
    }
    while i < column_log_sizes.len()
        invariant
            i <= column_log_sizes.len(),
            log_domain_size == queries.spec_log_domain_size(),
            forall|j: int|
                0 <= j < column_log_sizes.len() ==> column_log_sizes[j]
                    <= queries.spec_log_domain_size(),
            crate::vcs::merkle_verifier::spec_positions(out@) == spec_query_positions(
                queries@,
                log_domain_size as nat,
                column_log_sizes@.subrange(0, i as int),
            ),
        decreases column_log_sizes.len() - i,
    {
        let column_log_size = column_log_sizes[i];
        let column_queries = queries.fold(log_domain_size - column_log_size);
        let ghost before = crate::vcs::merkle_verifier::spec_positions(out@);
        let positions = copy_vec(column_queries.positions());
        let ghost inserted = positions@;
        out.insert(column_log_size, positions);
        proof {
            let s = column_log_sizes@.subrange(0, i + 1);
            assert(s.drop_last() =~= column_log_sizes@.subrange(0, i as int));
            assert(crate::vcs::merkle_verifier::spec_positions(out@) =~= before.insert(
                column_log_size,
                inserted,
            ));
        }
        i = i + 1;
    }
    proof {
        assert(column_log_sizes@.subrange(0, column_log_sizes.len() as int) =~= column_log_sizes@);
    }
    out
}

impl<MC: MerkleChannel> FriVerifier<MC> {
    /// Samples the queries from the transcript and returns their positions
    /// by the size of the columns. The positions of the largest size are
    /// the queries themselves: no position occurs twice among them, and
    /// there are as many as the parameters ask for at most.
    pub fn sample_query_positions(&mut self, channel: &mut MC::C) -> (r: BTreeMap<u32, Vec<usize>>)
        requires
            old(self).spec_config().n_queries >= 1,
        ensures
            final(self).spec_queries().is_some(),
            (*final(channel), final(self).spec_queries().unwrap()@) == spec_generate(
                *old(channel),
                old(self).spec_max_log_size(),
                Seq::empty(),
                old(self).spec_config().n_queries as nat,
            ),
            final(self).spec_queries().unwrap().spec_log_domain_size() == old(
                self,
            ).spec_max_log_size(),
            crate::vcs::merkle_verifier::spec_positions(r@) == spec_query_positions(
                final(self).spec_queries().unwrap()@,
                old(self).spec_max_log_size(),
                spec_domain_log_sizes(old(self).spec_first_layer().column_commitment_domains@),
            ),
            ({
                let largest = old(self).spec_max_log_size() as u32;
                let queries = final(self).spec_queries().unwrap()@;
                &&& crate::vcs::merkle_verifier::spec_positions(r@).contains_key(largest)
                &&& crate::vcs::merkle_verifier::spec_positions(r@)[largest] == queries
                &&& crate::queries::spec_strictly_sorted(queries)
                &&& queries.len() <= old(self).spec_config().n_queries
            }),
            final(self).spec_config() == old(self).spec_config(),
            final(self).spec_first_layer() == old(self).spec_first_layer(),
            final(self).spec_inner_layers() == old(self).spec_inner_layers(),
            final(self).spec_last_layer_domain() == old(self).spec_last_layer_domain(),
            final(self).spec_last_layer_poly() == old(self).spec_last_layer_poly(),
    {
        proof {
            use_type_invariant(&*self);
        }
        let n = self.first_layer.column_commitment_domains.len();
        let mut column_log_sizes: Vec<u32> = Vec::with_capacity(n);
        let mut i: usize = 0;
        while i < n
            invariant
                i <= n,
                self.wf(),
                *self == *old(self),
                n == self.first_layer.column_commitment_domains.len(),
                column_log_sizes.len() == i,
                forall|j: int|
                    0 <= j < i ==> column_log_sizes[j]
                        == self.first_layer.column_commitment_domains[j].spec_log_size(),
            decreases n - i,
        {
            column_log_sizes.push(self.first_layer.column_commitment_domains[i].log_size());
            i = i + 1;
        }
        proof {
            assert(column_log_sizes@ =~= spec_domain_log_sizes(
                self.first_layer.column_commitment_domains@,
            ));
        }
        let max_column_log_size = self.first_layer.column_commitment_domains[0].log_size();
        let queries = Queries::generate(channel, max_column_log_size, self.config.n_queries);
        proof {
            assert forall|j: int| 0 <= j < column_log_sizes.len() implies column_log_sizes[j]
                <= queries.spec_log_domain_size() by {
                let b = self.first_layer.column_bounds[j];
                let b0 = self.first_layer.column_bounds[0];
                assert(b.log_degree_bound <= b0.log_degree_bound);
            }
        }
        let query_positions_by_log_size = get_query_positions_by_log_size(
            &queries,
            &column_log_sizes,
        );
        proof {
            assert(column_log_sizes@[0] == max_column_log_size);
            assert(column_log_sizes@.contains(max_column_log_size));
            crate::pcs::commitment::lemma_query_positions_lookup(
                queries@,
                max_column_log_size as nat,
                column_log_sizes@,
                max_column_log_size,
            );
            crate::queries::lemma_fold_none(queries@);
        }
        self.queries = Some(queries);
        query_positions_by_log_size
    }
}

/// Reverses the order of the layers.
fn reverse_layers<H: MerkleHasher>(layers: &mut Vec<FriLayerProof<H>>)
    ensures
        final(layers).len() == old(layers).len(),
        forall|j: int|
            0 <= j < old(layers).len() ==> final(layers)[j] == old(layers)[old(layers).len() - 1
                - j],
{
    let mut out: Vec<FriLayerProof<H>> = Vec::new();
    let ghost n = layers.len();
    while layers.len() > 0
        invariant
            layers.len() + out.len() == n,
            n == old(layers).len(),
            forall|j: int| 0 <= j < layers.len() ==> layers[j] == old(layers)[j],
            forall|j: int| 0 <= j < out.len() ==> out[j] == old(layers)[n - 1 - j],
        decreases layers.len(),
    {
        let last = layers.pop().unwrap();
        out.push(last);
    }
    *layers = out;
}

} // verus!
