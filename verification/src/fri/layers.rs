//! The verification of one layer: the pairs at the queries are rebuilt from
//! the proof, checked against the commitment of the layer, and folded.

use vstd::prelude::*;
use std::collections::BTreeMap;
use vstd::arithmetic::power2::pow2;
use crate::fields::m31::M31;
use crate::fields::qm31::QM31;
use crate::fri::config::{
    CirclePolyDegreeBound, FriLayerProof, FriVerificationError, LinePolyDegreeBound,
};
use crate::fri::sparse::{
    compute_decommitment_positions_and_rebuild_evals, spec_rebuild, spec_rebuild_start,
    spec_sparse_fold_line, FoldSubset, SparseEvaluation,
};
use crate::poly::domain::CircleDomain;
use crate::poly::line::LineDomain;
use crate::queries::{lemma_fold_positions, spec_fold_positions, Queries};
use crate::vcs::hasher::MerkleHasher;
use crate::vcs::merkle_verifier::{spec_positions, spec_verify, MerkleVerifier};

verus! {

/// The base-field coordinates of the values of the pairs, in their order.
pub open spec fn spec_subset_values(subsets: Seq<FoldSubset>) -> Seq<M31>
    decreases subsets.len(),
{
    if subsets.len() == 0 {
        Seq::empty()
    } else {
        spec_subset_values(subsets.drop_last()) + subsets.last().first.spec_to_m31_array()
            + subsets.last().second.spec_to_m31_array()
    }
}

/// The base-field coordinates of the values of the pairs, in their order.
pub fn subset_values(subsets: &Vec<FoldSubset>, out: &mut Vec<M31>)
    ensures
        final(out)@ == old(out)@ + spec_subset_values(subsets@),
{
    let ghost before = out@;
    let mut i: usize = 0;
    while i < subsets.len()
        invariant
            i <= subsets.len(),
            out@ == before + spec_subset_values(subsets@.subrange(0, i as int)),
        decreases subsets.len() - i,
    {
        proof {
            let s = subsets@.subrange(0, i + 1);
            assert(s.drop_last() =~= subsets@.subrange(0, i as int));
            assert(s.last() == subsets[i as int]);
        }
        let ghost seen = out@;
        let a = subsets[i].first.to_m31_array();
        let b = subsets[i].second.to_m31_array();
        out.push(a[0]);
        out.push(a[1]);
        out.push(a[2]);
        out.push(a[3]);
        out.push(b[0]);
        out.push(b[1]);
        out.push(b[2]);
        out.push(b[3]);
        proof {
            assert(out@ =~= seen + subsets[i as int].first.spec_to_m31_array() + subsets[i as int].second.spec_to_m31_array());
            assert(out@ =~= before + spec_subset_values(subsets@.subrange(0, i + 1)));
        }
        i = i + 1;
    }
    proof {
        assert(subsets@.subrange(0, subsets.len() as int) =~= subsets@);
    }
}

/// Four times the size of each domain: one for each coordinate column.
pub open spec fn spec_coordinate_log_sizes(domains: Seq<CircleDomain>) -> Seq<u32>
    decreases domains.len(),
{
    if domains.len() == 0 {
        Seq::empty()
    } else {
        let l = domains.last().spec_log_size() as u32;
        spec_coordinate_log_sizes(domains.drop_last()) + seq![l, l, l, l]
    }
}

/// What the verification of the first layer has read and rebuilt.
pub struct FirstLayerState {
    /// The next value of the witness.
    pub witness_at: nat,
    /// The positions to decommit, by the size of the columns.
    pub positions: Map<u32, Seq<usize>>,
    /// The base-field values at these positions.
    pub values: Seq<M31>,
    /// The pairs of each column.
    pub sparse: Seq<Seq<FoldSubset>>,
}

/// The columns of the first layer from the `i`-th on: the queries are folded
/// to the size of each column and its pairs are completed from the witness.
pub open spec fn spec_first_layer_columns(
    domains: Seq<CircleDomain>,
    queries: Seq<usize>,
    log_domain_size: nat,
    query_evals_by_column: Seq<Seq<QM31>>,
    witness: Seq<QM31>,
    i: nat,
    st: FirstLayerState,
) -> Option<FirstLayerState>
    decreases domains.len() - i,
{
    if i >= domains.len() {
        Some(st)
    } else {
        let log_size = domains[i as int].spec_log_size();
        let column_queries = spec_fold_positions(queries, (log_domain_size - log_size) as nat);
        match spec_rebuild(
            column_queries,
            log_size,
            query_evals_by_column[i as int],
            witness,
            spec_rebuild_start(st.witness_at),
        ) {
            None => None,
            Some(rebuilt) => spec_first_layer_columns(
                domains,
                queries,
                log_domain_size,
                query_evals_by_column,
                witness,
                i + 1,
                FirstLayerState {
                    witness_at: rebuilt.witness_at,
                    positions: st.positions.insert(log_size as u32, rebuilt.positions),
                    values: st.values + spec_subset_values(rebuilt.subsets),
                    sparse: st.sparse.push(rebuilt.subsets),
                },
            ),
        }
    }
}

/// The state in which the verification of the first layer starts.
pub open spec fn spec_first_layer_start() -> FirstLayerState {
    FirstLayerState {
        witness_at: 0,
        positions: Map::empty(),
        values: Seq::empty(),
        sparse: Seq::empty(),
    }
}

/// The pairs of each column of the first layer, if the layer is accepted:
/// the witness holds exactly the values that the pairs lack, and the values
/// of the pairs resolve to the commitment of the layer.
pub open spec fn spec_first_layer_verify<H: MerkleHasher>(
    domains: Seq<CircleDomain>,
    commitment: H::Hash,
    witness: Seq<QM31>,
    hash_witness: Seq<H::Hash>,
    column_witness: Seq<M31>,
    queries: Seq<usize>,
    log_domain_size: nat,
    query_evals_by_column: Seq<Seq<QM31>>,
) -> Result<Seq<Seq<FoldSubset>>, FriVerificationError> {
    match spec_first_layer_columns(
        domains,
        queries,
        log_domain_size,
        query_evals_by_column,
        witness,
        0,
        spec_first_layer_start(),
    ) {
        None => Err(FriVerificationError::FirstLayerEvaluationsInvalid),
        Some(st) => {
            if st.witness_at != witness.len() {
                Err(FriVerificationError::FirstLayerEvaluationsInvalid)
            } else {
                match spec_verify::<H>(
                    commitment,
                    spec_coordinate_log_sizes(domains),
                    st.positions,
                    st.values,
                    hash_witness,
                    column_witness,
                ) {
                    Err(error) => Err(FriVerificationError::FirstLayerCommitmentInvalid { error }),
                    Ok(_) => Ok(st.sparse),
                }
            }
        },
    }
}

/// The folded queries and values of an inner layer, if the layer is
/// accepted: the witness holds exactly the values that the pairs lack, and
/// the values of the pairs resolve to the commitment of the layer.
pub open spec fn spec_inner_layer_verify<H: MerkleHasher>(
    domain: LineDomain,
    folding_alpha: QM31,
    layer_index: usize,
    commitment: H::Hash,
    witness: Seq<QM31>,
    hash_witness: Seq<H::Hash>,
    column_witness: Seq<M31>,
    queries: Seq<usize>,
    evals_at_queries: Seq<QM31>,
) -> Result<(Seq<usize>, Seq<QM31>), FriVerificationError> {
    let log_size = domain.spec_log_size();
    match spec_rebuild(queries, log_size, evals_at_queries, witness, spec_rebuild_start(0)) {
        None => Err(FriVerificationError::InnerLayerEvaluationsInvalid { inner_layer: layer_index }),
        Some(rebuilt) => {
            if rebuilt.witness_at != witness.len() {
                Err(
                    FriVerificationError::InnerLayerEvaluationsInvalid {
                        inner_layer: layer_index,
                    },
                )
            } else {
                let l = log_size as u32;
                match spec_verify::<H>(
                    commitment,
                    seq![l, l, l, l],
                    Map::empty().insert(l, rebuilt.positions),
                    spec_subset_values(rebuilt.subsets),
                    hash_witness,
                    column_witness,
                ) {
                    Err(error) => Err(
                        FriVerificationError::InnerLayerCommitmentInvalid {
                            inner_layer: layer_index,
                            error,
                        },
                    ),
                    Ok(_) => Ok(
                        (
                            spec_fold_positions(queries, 1),
                            spec_sparse_fold_line(rebuilt.subsets, folding_alpha, domain),
                        ),
                    ),
                }
            }
        },
    }
}

/// The pairs of each column.
pub open spec fn spec_sparse_view(sparse: Seq<SparseEvaluation>) -> Seq<Seq<FoldSubset>> {
    Seq::new(sparse.len(), |i: int| sparse[i].subsets@)
}

/// The values of each column.
pub open spec fn spec_evals_view(evals: Seq<Vec<QM31>>) -> Seq<Seq<QM31>> {
    Seq::new(evals.len(), |i: int| evals[i]@)
}

/// The first layer: all the circle polynomials, each on its own domain.
pub struct FriFirstLayerVerifier<H: MerkleHasher> {
    /// The degree bounds of the polynomials, in descending order.
    pub column_bounds: Vec<CirclePolyDegreeBound>,
    /// The domain on which each polynomial was committed.
    pub column_commitment_domains: Vec<CircleDomain>,
    pub folding_alpha: QM31,
    pub proof: FriLayerProof<H>,
}

impl<H: MerkleHasher> FriFirstLayerVerifier<H> {
    /// The queries fit the columns: they are on the domain of the first
    /// column, no column is larger, and each column comes with one value
    /// for each of its queries.
    pub open spec fn spec_fits(self, queries: Queries, query_evals_by_column: Seq<Vec<QM31>>) -> bool {
        &&& self.column_commitment_domains.len() >= 1
        &&& query_evals_by_column.len() == self.column_commitment_domains.len()
        &&& queries.spec_log_domain_size() == self.column_commitment_domains[0].spec_log_size()
        &&& forall|i: int|
            0 <= i < self.column_commitment_domains.len() ==> {
                &&& (#[trigger] self.column_commitment_domains[i]).spec_log_size()
                    <= queries.spec_log_domain_size()
                &&& query_evals_by_column[i].len() == spec_fold_positions(
                    queries@,
                    (queries.spec_log_domain_size()
                        - self.column_commitment_domains[i].spec_log_size()) as nat,
                ).len()
            }
    }

    /// Verifies the decommitment of the first layer and returns the pairs
    /// that fold each column into its layer.
    pub fn verify(&self, queries: &Queries, query_evals_by_column: &Vec<Vec<QM31>>) -> (r: Result<
        Vec<SparseEvaluation>,
        FriVerificationError,
    >)
        requires
            self.spec_fits(*queries, query_evals_by_column@),
        ensures
            match (r, spec_first_layer_verify::<H>(
                self.column_commitment_domains@,
                self.proof.commitment,
                self.proof.fri_witness@,
                self.proof.decommitment.hash_witness@,
                self.proof.decommitment.column_witness@,
                queries@,
                queries.spec_log_domain_size(),
                spec_evals_view(query_evals_by_column@),
            )) {
                (Ok(sparse), Ok(spec_sparse)) => spec_sparse_view(sparse@) == spec_sparse,
                (Err(e), Err(spec_e)) => e == spec_e,
                _ => false,
            },
            r.is_ok() ==> r.unwrap().len() == self.column_commitment_domains.len() && forall|
                i: int,
            |
                0 <= i < self.column_commitment_domains.len() ==> (#[trigger] r.unwrap()[i]).subsets.len()
                    == spec_fold_positions(
                    spec_fold_positions(
                        queries@,
                        (queries.spec_log_domain_size()
                            - self.column_commitment_domains[i].spec_log_size()) as nat,
                    ),
                    1,
                ).len(),
    {
        broadcast use vstd::std_specs::btree::group_btree_axioms;

        let n = self.column_commitment_domains.len();
        let log_domain_size = queries.log_domain_size();
        let mut witness_at: usize = 0;
        let mut positions: BTreeMap<u32, Vec<usize>> = BTreeMap::new();
        let mut values: Vec<M31> = Vec::new();
        let mut sparse_evals: Vec<SparseEvaluation> = Vec::new();
        let mut log_sizes: Vec<u32> = Vec::new();
        let mut i: usize = 0;
        proof {
            assert(spec_positions(positions@) =~= Map::<u32, Seq<usize>>::empty());
            assert(spec_sparse_view(sparse_evals@) =~= Seq::<Seq<FoldSubset>>::empty());
        }
        while i < n
            invariant
                i <= n,
                n == self.column_commitment_domains.len(),
                log_domain_size == queries.spec_log_domain_size(),
                self.spec_fits(*queries, query_evals_by_column@),
                witness_at <= self.proof.fri_witness.len(),
                sparse_evals.len() == i,
                forall|j: int|
                    0 <= j < i ==> (#[trigger] sparse_evals[j]).subsets.len() == spec_fold_positions(
                        spec_fold_positions(
                            queries@,
                            (queries.spec_log_domain_size()
                                - self.column_commitment_domains[j].spec_log_size()) as nat,
                        ),
                        1,
                    ).len(),
                log_sizes@ == spec_coordinate_log_sizes(
                    self.column_commitment_domains@.subrange(0, i as int),
                ),
                spec_first_layer_columns(
                    self.column_commitment_domains@,
                    queries@,
                    log_domain_size as nat,
                    spec_evals_view(query_evals_by_column@),
                    self.proof.fri_witness@,
                    i as nat,
                    FirstLayerState {
                        witness_at: witness_at as nat,
                        positions: spec_positions(positions@),
                        values: values@,
                        sparse: spec_sparse_view(sparse_evals@),
                    },
                ) == spec_first_layer_columns(
                    self.column_commitment_domains@,
                    queries@,
                    log_domain_size as nat,
                    spec_evals_view(query_evals_by_column@),
                    self.proof.fri_witness@,
                    0,
                    spec_first_layer_start(),
                ),
            decreases n - i,
        {
            let column_domain = self.column_commitment_domains[i];
            let log_size = column_domain.log_size();
            let column_queries = queries.fold(log_domain_size - log_size);
            column_queries.valid();
            let ghost old_positions = spec_positions(positions@);
            let ghost old_sparse = spec_sparse_view(sparse_evals@);
            let rebuilt = compute_decommitment_positions_and_rebuild_evals(
                column_queries.positions(),
                log_size,
                &query_evals_by_column[i],
                &self.proof.fri_witness,
                witness_at,
                1,
            );
            match rebuilt {
                Err(_) => {
                    return Err(FriVerificationError::FirstLayerEvaluationsInvalid);
                },
                Ok((column_positions, sparse_evaluation, at)) => {
                    let ghost rebuilt_positions = column_positions@;
                    positions.insert(log_size, column_positions);
                    subset_values(&sparse_evaluation.subsets, &mut values);
                    sparse_evals.push(sparse_evaluation);
                    witness_at = at;
                    log_sizes.push(log_size);
                    log_sizes.push(log_size);
                    log_sizes.push(log_size);
                    log_sizes.push(log_size);
                    proof {
                        assert(spec_positions(positions@) =~= old_positions.insert(
                            log_size,
                            rebuilt_positions,
                        ));
                        assert(spec_sparse_view(sparse_evals@) =~= old_sparse.push(
                            sparse_evaluation.subsets@,
                        ));
                        let s = self.column_commitment_domains@.subrange(0, i + 1);
                        assert(s.drop_last() =~= self.column_commitment_domains@.subrange(
                            0,
                            i as int,
                        ));
                        assert(log_sizes@ =~= spec_coordinate_log_sizes(s));
                    }
                },
            }
            i = i + 1;
        }
        proof {
            assert(self.column_commitment_domains@.subrange(0, n as int)
                =~= self.column_commitment_domains@);
        }
        if witness_at != self.proof.fri_witness.len() {
            return Err(FriVerificationError::FirstLayerEvaluationsInvalid);
        }
        let merkle_verifier = MerkleVerifier::<H>::new(self.proof.commitment, log_sizes);
        match merkle_verifier.verify(&positions, &values, &self.proof.decommitment) {
            Err(error) => Err(FriVerificationError::FirstLayerCommitmentInvalid { error }),
            Ok(_) => Ok(sparse_evals),
        }
    }
}

/// An inner layer: a line polynomial on the domain of the layer.
pub struct FriInnerLayerVerifier<H: MerkleHasher> {
    pub degree_bound: LinePolyDegreeBound,
    pub domain: LineDomain,
    pub folding_alpha: QM31,
    pub layer_index: usize,
    pub proof: FriLayerProof<H>,
}

impl<H: MerkleHasher> FriInnerLayerVerifier<H> {
    /// Verifies the decommitment of the layer and returns the queries and
    /// the values folded into the next layer.
    pub fn verify_and_fold(&self, queries: Queries, evals_at_queries: Vec<QM31>) -> (r: Result<
        (Queries, Vec<QM31>),
        FriVerificationError,
    >)
        requires
            queries.spec_log_domain_size() == self.domain.spec_log_size(),
            queries.spec_log_domain_size() >= 1,
            queries@.len() == evals_at_queries.len(),
        ensures
            match (r, spec_inner_layer_verify::<H>(
                self.domain,
                self.folding_alpha,
                self.layer_index,
                self.proof.commitment,
                self.proof.fri_witness@,
                self.proof.decommitment.hash_witness@,
                self.proof.decommitment.column_witness@,
                queries@,
                evals_at_queries@,
            )) {
                (Ok((folded_queries, folded_evals)), Ok((spec_queries, spec_evals))) => {
                    &&& folded_queries@ == spec_queries
                    &&& folded_evals@ == spec_evals
                    &&& folded_queries.spec_log_domain_size() == queries.spec_log_domain_size() - 1
                    &&& folded_queries.wf()
                    &&& folded_evals.len() == folded_queries@.len()
                },
                (Err(e), Err(spec_e)) => e == spec_e,
                _ => false,
            },
    {
        broadcast use vstd::std_specs::btree::group_btree_axioms;

        queries.valid();
        let log_size = self.domain.log_size();
        let rebuilt = compute_decommitment_positions_and_rebuild_evals(
            queries.positions(),
            log_size,
            &evals_at_queries,
            &self.proof.fri_witness,
            0,
            1,
        );
        match rebuilt {
            Err(_) => Err(
                FriVerificationError::InnerLayerEvaluationsInvalid { inner_layer: self.layer_index },
            ),
            Ok((decommitment_positions, sparse_evaluation, at)) => {
                if at != self.proof.fri_witness.len() {
                    return Err(
                        FriVerificationError::InnerLayerEvaluationsInvalid {
                            inner_layer: self.layer_index,
                        },
                    );
                }
                let mut values: Vec<M31> = Vec::new();
                subset_values(&sparse_evaluation.subsets, &mut values);
                let mut log_sizes: Vec<u32> = Vec::new();
                log_sizes.push(log_size);
                log_sizes.push(log_size);
                log_sizes.push(log_size);
                log_sizes.push(log_size);
                let ghost rebuilt_positions = decommitment_positions@;
                let mut positions: BTreeMap<u32, Vec<usize>> = BTreeMap::new();
                positions.insert(log_size, decommitment_positions);
                proof {
                    assert(log_sizes@ =~= seq![log_size, log_size, log_size, log_size]);
                    assert(spec_positions(positions@) =~= Map::<u32, Seq<usize>>::empty().insert(
                        log_size,
                        rebuilt_positions,
                    ));
                    assert(values@ =~= spec_subset_values(sparse_evaluation.subsets@));
                }
                let merkle_verifier = MerkleVerifier::<H>::new(self.proof.commitment, log_sizes);
                match merkle_verifier.verify(&positions, &values, &self.proof.decommitment) {
                    Err(error) => Err(
                        FriVerificationError::InnerLayerCommitmentInvalid {
                            inner_layer: self.layer_index,
                            error,
                        },
                    ),
                    Ok(_) => {
                        let folded_queries = queries.fold(1);
                        let folded_evals = sparse_evaluation.fold_line(
                            self.folding_alpha,
                            self.domain,
                        );
                        Ok((folded_queries, folded_evals))
                    },
                }
            },
        }
    }
}

} // verus!
