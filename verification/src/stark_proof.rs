//! The proof of a STARK, and estimates of its size.

use vstd::prelude::*;
use crate::fields::m31::M31;
use crate::fields::qm31::QM31;
use crate::fri::config::{FriLayerProof, FriProof};
use crate::pcs::quotients::CommitmentSchemeProof;
use crate::vcs::hasher::MerkleHasher;
use crate::vcs::merkle_verifier::MerkleDecommitment;

verus! {

/// Number of bytes of an element of the base field.
pub const BASE_FIELD_BYTES: usize = 4;

/// Number of bytes of an element of the extension field.
pub const SECURE_FIELD_BYTES: usize = 16;

/// A non-negative number, cut off at the largest `usize`.
pub open spec fn spec_clamp(n: int) -> usize {
    if n > usize::MAX {
        usize::MAX
    } else {
        n as usize
    }
}

/// The sum, cut off at the largest `usize`.
pub fn sat_add(a: usize, b: usize) -> (r: usize)
    ensures
        r == spec_clamp(a + b),
{
    if a > usize::MAX - b {
        usize::MAX
    } else {
        a + b
    }
}

/// The product, cut off at the largest `usize`.
pub fn sat_mul(a: usize, b: usize) -> (r: usize)
    ensures
        r == spec_clamp(a * b),
{
    if b == 0 {
        assert(a * b == 0) by (nonlinear_arith)
            requires
                b == 0,
        ;
        0
    } else if a > usize::MAX / b {
        assert(a * b > usize::MAX) by (nonlinear_arith)
            requires
                a > usize::MAX / b,
                b > 0,
                a >= 0,
        ;
        usize::MAX
    } else {
        assert(a * b <= usize::MAX) by (nonlinear_arith)
            requires
                a <= usize::MAX / b,
                b > 0,
                a >= 0,
        ;
        a * b
    }
}

/// The bytes of the samples of the first `n` columns of one tree.
pub open spec fn spec_columns_bytes(columns: Seq<Vec<QM31>>, n: nat) -> int
    decreases n,
{
    if n == 0 {
        0
    } else {
        spec_columns_bytes(columns, (n - 1) as nat) + SECURE_FIELD_BYTES * columns[n - 1].len()
    }
}

/// The bytes of the samples of the first `n` trees.
pub open spec fn spec_samples_bytes(trees: Seq<Vec<Vec<QM31>>>, n: nat) -> int
    decreases n,
{
    if n == 0 {
        0
    } else {
        spec_samples_bytes(trees, (n - 1) as nat) + spec_columns_bytes(
            trees[n - 1]@,
            trees[n - 1].len() as nat,
        )
    }
}

/// The bytes of the queried values of the first `n` trees.
pub open spec fn spec_values_bytes(trees: Seq<Vec<M31>>, n: nat) -> int
    decreases n,
{
    if n == 0 {
        0
    } else {
        spec_values_bytes(trees, (n - 1) as nat) + BASE_FIELD_BYTES * trees[n - 1].len()
    }
}

/// The bytes of a decommitment: its hashes and its column values.
pub open spec fn spec_decommitment_bytes<H: MerkleHasher>(d: MerkleDecommitment<H>) -> int {
    vstd::layout::size_of::<H::Hash>() * d.hash_witness.len() + BASE_FIELD_BYTES
        * d.column_witness.len()
}

/// The bytes of the first `n` decommitments.
pub open spec fn spec_decommitments_bytes<H: MerkleHasher>(
    decommitments: Seq<MerkleDecommitment<H>>,
    n: nat,
) -> int
    decreases n,
{
    if n == 0 {
        0
    } else {
        spec_decommitments_bytes::<H>(decommitments, (n - 1) as nat) + spec_decommitment_bytes::<H>(
            decommitments[n - 1],
        )
    }
}

/// The bytes of the witness values of the first `n` layers.
pub open spec fn spec_layers_samples_bytes<H: MerkleHasher>(
    layers: Seq<FriLayerProof<H>>,
    n: nat,
) -> int
    decreases n,
{
    if n == 0 {
        0
    } else {
        spec_layers_samples_bytes::<H>(layers, (n - 1) as nat) + SECURE_FIELD_BYTES
            * layers[n - 1].fri_witness.len()
    }
}

/// The bytes of the decommitments and commitments of the first `n` layers.
pub open spec fn spec_layers_hashes_bytes<H: MerkleHasher>(
    layers: Seq<FriLayerProof<H>>,
    n: nat,
) -> int
    decreases n,
{
    if n == 0 {
        0
    } else {
        spec_layers_hashes_bytes::<H>(layers, (n - 1) as nat) + spec_decommitment_bytes::<H>(
            layers[n - 1].decommitment,
        ) + vstd::layout::size_of::<H::Hash>()
    }
}

/// The estimated sizes, in bytes, of the parts of a proof.
#[derive(Debug, Clone, Copy, PartialEq, Eq, Structural)]
pub struct StarkProofSizeBreakdown {
    pub oods_samples: usize,
    pub queries_values: usize,
    pub fri_samples: usize,
    pub fri_decommitments: usize,
    pub trace_decommitments: usize,
}

/// The sizes of the parts of a proof, before they are cut off.
pub open spec fn spec_breakdown<H: MerkleHasher>(proof: CommitmentSchemeProof<H>) -> (
    int,
    int,
    int,
    int,
    int,
) {
    let fri = proof.fri_proof;
    (
        spec_samples_bytes(proof.sampled_values@, proof.sampled_values.len() as nat),
        spec_values_bytes(proof.queried_values@, proof.queried_values.len() as nat),
        SECURE_FIELD_BYTES * fri.last_layer_poly@.len() + spec_layers_samples_bytes::<H>(
            fri.inner_layers@,
            fri.inner_layers.len() as nat,
        ) + SECURE_FIELD_BYTES * fri.first_layer.fri_witness.len(),
        spec_layers_hashes_bytes::<H>(fri.inner_layers@, fri.inner_layers.len() as nat)
            + spec_decommitment_bytes::<H>(fri.first_layer.decommitment) + vstd::layout::size_of::<
            H::Hash,
        >(),
        vstd::layout::size_of::<H::Hash>() * proof.commitments.len() + spec_decommitments_bytes::<
            H,
        >(proof.decommitments@, proof.decommitments.len() as nat),
    )
}

/// The proof of a STARK.
pub struct StarkProof<H: MerkleHasher>(pub CommitmentSchemeProof<H>);

/// The size of a decommitment.
fn decommitment_size<H: MerkleHasher>(d: &MerkleDecommitment<H>) -> (r: usize)
    ensures
        r == spec_clamp(spec_decommitment_bytes::<H>(*d)),
{
    let hash_size = core::mem::size_of::<H::Hash>();
    proof {
        assert(hash_size * d.hash_witness.len() >= 0) by (nonlinear_arith)
            requires
                hash_size >= 0,
                d.hash_witness.len() >= 0,
        ;
    }
    sat_add(
        sat_mul(hash_size, d.hash_witness.len()),
        sat_mul(BASE_FIELD_BYTES, d.column_witness.len()),
    )
}

impl<H: MerkleHasher> StarkProof<H> {
    /// The value of the composition polynomial out of the domain, if the
    /// last tree of the samples holds four columns of one sample each.
    pub open spec fn spec_extract_composition_oods_eval(self) -> Option<QM31> {
        if self.0.sampled_values.len() >= 1 && ({
            let mask = self.0.sampled_values[self.0.sampled_values.len() - 1];
            mask.len() == 4 && forall|i: int| 0 <= i < 4 ==> (#[trigger] mask[i]).len() == 1
        }) {
            let mask = self.0.sampled_values[self.0.sampled_values.len() - 1];
            Some(
                QM31::spec_from_partial_evals(seq![mask[0][0], mask[1][0], mask[2][0], mask[3][0]]),
            )
        } else {
            None
        }
    }

    /// The value of the composition polynomial out of the domain, if the
    /// last tree of the samples holds four columns of one sample each: the
    /// four samples combined as partial evaluations.
    pub fn extract_composition_oods_eval(&self) -> (r: Option<QM31>)
        ensures
            r == self.spec_extract_composition_oods_eval(),
    {
        let trees = &self.0.sampled_values;
        if trees.len() == 0 {
            return None;
        }
        let mask = &trees[trees.len() - 1];
        if mask.len() != 4 {
            return None;
        }
        let mut i: usize = 0;
        while i < 4
            invariant
                i <= 4,
                mask.len() == 4,
                *mask == self.0.sampled_values[self.0.sampled_values.len() - 1],
                forall|k: int| 0 <= k < i ==> (#[trigger] mask[k]).len() == 1,
            decreases 4 - i,
        {
            if mask[i].len() != 1 {
                assert(mask[i as int].len() != 1);
                return None;
            }
            i = i + 1;
        }
        let evals = [mask[0][0], mask[1][0], mask[2][0], mask[3][0]];
        proof {
            assert(evals@ =~= seq![mask[0][0], mask[1][0], mask[2][0], mask[3][0]]);
        }
        Some(QM31::from_partial_evals(evals))
    }

    /// The estimated size of the proof in bytes: the sum of its parts, the
    /// nonce and the parameters, cut off at the largest `usize`.
    pub fn size_estimate(&self) -> (r: usize)
        ensures
            ({
                let b = spec_breakdown::<H>(self.0);
                r == spec_clamp(b.0 + b.1 + b.2 + b.3 + b.4 + 8 + 24)
            }),
    {
        let b = self.size_breakdown_estimate();
        proof {
            let s = spec_breakdown::<H>(self.0);
            lemma_breakdown_nonnegative::<H>(self.0);
        }
        sat_add(
            sat_add(
                sat_add(
                    sat_add(sat_add(b.oods_samples, b.queries_values), b.fri_samples),
                    b.fri_decommitments,
                ),
                b.trace_decommitments,
            ),
            32,
        )
    }

    /// The estimated sizes of the parts of the proof in bytes, each cut off
    /// at the largest `usize`.
    pub fn size_breakdown_estimate(&self) -> (r: StarkProofSizeBreakdown)
        ensures
            ({
                let b = spec_breakdown::<H>(self.0);
                r == (StarkProofSizeBreakdown {
                    oods_samples: spec_clamp(b.0),
                    queries_values: spec_clamp(b.1),
                    fri_samples: spec_clamp(b.2),
                    fri_decommitments: spec_clamp(b.3),
                    trace_decommitments: spec_clamp(b.4),
                })
            }),
    {
        let proof = &self.0;
        let fri_proof = &proof.fri_proof;
        let hash_size = core::mem::size_of::<H::Hash>();
        proof {
            lemma_breakdown_nonnegative::<H>(self.0);
        }
        let mut inner_layers_samples_size: usize = 0;
        let mut inner_layers_hashes_size: usize = 0;
        let mut k: usize = 0;
        while k < fri_proof.inner_layers.len()
            invariant
                k <= fri_proof.inner_layers.len(),
                hash_size == vstd::layout::size_of::<H::Hash>(),
                inner_layers_samples_size == spec_clamp(
                    spec_layers_samples_bytes::<H>(fri_proof.inner_layers@, k as nat),
                ),
                inner_layers_hashes_size == spec_clamp(
                    spec_layers_hashes_bytes::<H>(fri_proof.inner_layers@, k as nat),
                ),
                spec_layers_samples_bytes::<H>(fri_proof.inner_layers@, k as nat) >= 0,
                spec_layers_hashes_bytes::<H>(fri_proof.inner_layers@, k as nat) >= 0,
            decreases fri_proof.inner_layers.len() - k,
        {
            let layer = &fri_proof.inner_layers[k];
            proof {
                lemma_decommitment_nonnegative::<H>(layer.decommitment);
            }
            inner_layers_samples_size = sat_add(
                inner_layers_samples_size,
                sat_mul(SECURE_FIELD_BYTES, layer.fri_witness.len()),
            );
            inner_layers_hashes_size = sat_add(
                inner_layers_hashes_size,
                sat_add(decommitment_size::<H>(&layer.decommitment), hash_size),
            );
            k = k + 1;
        }
        let mut oods_samples: usize = 0;
        let mut t: usize = 0;
        while t < proof.sampled_values.len()
            invariant
                t <= proof.sampled_values.len(),
                oods_samples == spec_clamp(spec_samples_bytes(proof.sampled_values@, t as nat)),
                spec_samples_bytes(proof.sampled_values@, t as nat) >= 0,
            decreases proof.sampled_values.len() - t,
        {
            let tree = &proof.sampled_values[t];
            let mut tree_size: usize = 0;
            let mut c: usize = 0;
            while c < tree.len()
                invariant
                    c <= tree.len(),
                    tree_size == spec_clamp(spec_columns_bytes(tree@, c as nat)),
                    spec_columns_bytes(tree@, c as nat) >= 0,
                decreases tree.len() - c,
            {
                tree_size = sat_add(tree_size, sat_mul(SECURE_FIELD_BYTES, tree[c].len()));
                c = c + 1;
            }
            oods_samples = sat_add(oods_samples, tree_size);
            t = t + 1;
        }
        let mut queries_values: usize = 0;
        let mut q: usize = 0;
        while q < proof.queried_values.len()
            invariant
                q <= proof.queried_values.len(),
                queries_values == spec_clamp(spec_values_bytes(proof.queried_values@, q as nat)),
                spec_values_bytes(proof.queried_values@, q as nat) >= 0,
            decreases proof.queried_values.len() - q,
        {
            queries_values = sat_add(
                queries_values,
                sat_mul(BASE_FIELD_BYTES, proof.queried_values[q].len()),
            );
            q = q + 1;
        }
        let mut decommitments_size: usize = 0;
        let mut d: usize = 0;
        while d < proof.decommitments.len()
            invariant
                d <= proof.decommitments.len(),
                decommitments_size == spec_clamp(
                    spec_decommitments_bytes::<H>(proof.decommitments@, d as nat),
                ),
                spec_decommitments_bytes::<H>(proof.decommitments@, d as nat) >= 0,
            decreases proof.decommitments.len() - d,
        {
            proof {
                lemma_decommitment_nonnegative::<H>(proof.decommitments[d as int]);
            }
            decommitments_size = sat_add(
                decommitments_size,
                decommitment_size::<H>(&proof.decommitments[d]),
            );
            d = d + 1;
        }
        proof {
            lemma_decommitment_nonnegative::<H>(fri_proof.first_layer.decommitment);
            assert(hash_size * proof.commitments.len() >= 0) by (nonlinear_arith)
                requires
                    hash_size >= 0,
                    proof.commitments.len() >= 0,
            ;
        }
        StarkProofSizeBreakdown {
            oods_samples,
            queries_values,
            fri_samples: sat_add(
                sat_add(
                    sat_mul(SECURE_FIELD_BYTES, fri_proof.last_layer_poly.len()),
                    inner_layers_samples_size,
                ),
                sat_mul(SECURE_FIELD_BYTES, fri_proof.first_layer.fri_witness.len()),
            ),
            fri_decommitments: sat_add(
                sat_add(
                    inner_layers_hashes_size,
                    decommitment_size::<H>(&fri_proof.first_layer.decommitment),
                ),
                hash_size,
            ),
            trace_decommitments: sat_add(
                sat_mul(hash_size, proof.commitments.len()),
                decommitments_size,
            ),
        }
    }
}

/// A decommitment has no negative size.
pub proof fn lemma_decommitment_nonnegative<H: MerkleHasher>(d: MerkleDecommitment<H>)
    ensures
        spec_decommitment_bytes::<H>(d) >= 0,
{
    assert(vstd::layout::size_of::<H::Hash>() * d.hash_witness.len() >= 0) by (nonlinear_arith)
        requires
            vstd::layout::size_of::<H::Hash>() >= 0,
            d.hash_witness.len() >= 0,
    ;
}

pub proof fn lemma_layers_nonnegative<H: MerkleHasher>(layers: Seq<FriLayerProof<H>>, n: nat)
    ensures
        spec_layers_samples_bytes::<H>(layers, n) >= 0,
        spec_layers_hashes_bytes::<H>(layers, n) >= 0,
    decreases n,
{
    if n > 0 {
        lemma_layers_nonnegative::<H>(layers, (n - 1) as nat);
        lemma_decommitment_nonnegative::<H>(layers[n - 1].decommitment);
    }
}

pub proof fn lemma_columns_nonnegative(columns: Seq<Vec<QM31>>, n: nat)
    ensures
        spec_columns_bytes(columns, n) >= 0,
    decreases n,
{
    if n > 0 {
        lemma_columns_nonnegative(columns, (n - 1) as nat);
    }
}

pub proof fn lemma_samples_nonnegative(trees: Seq<Vec<Vec<QM31>>>, n: nat)
    ensures
        spec_samples_bytes(trees, n) >= 0,
    decreases n,
{
    if n > 0 {
        lemma_samples_nonnegative(trees, (n - 1) as nat);
        lemma_columns_nonnegative(trees[n - 1]@, trees[n - 1].len() as nat);
    }
}

pub proof fn lemma_values_nonnegative(trees: Seq<Vec<M31>>, n: nat)
    ensures
        spec_values_bytes(trees, n) >= 0,
    decreases n,
{
    if n > 0 {
        lemma_values_nonnegative(trees, (n - 1) as nat);
    }
}

pub proof fn lemma_decommitments_nonnegative<H: MerkleHasher>(
    decommitments: Seq<MerkleDecommitment<H>>,
    n: nat,
)
    ensures
        spec_decommitments_bytes::<H>(decommitments, n) >= 0,
    decreases n,
{
    if n > 0 {
        lemma_decommitments_nonnegative::<H>(decommitments, (n - 1) as nat);
        lemma_decommitment_nonnegative::<H>(decommitments[n - 1]);
    }
}

/// No part of a proof has a negative size.
pub proof fn lemma_breakdown_nonnegative<H: MerkleHasher>(proof: CommitmentSchemeProof<H>)
    ensures
        ({
            let b = spec_breakdown::<H>(proof);
            b.0 >= 0 && b.1 >= 0 && b.2 >= 0 && b.3 >= 0 && b.4 >= 0
        }),
{
    let fri = proof.fri_proof;
    lemma_samples_nonnegative(proof.sampled_values@, proof.sampled_values.len() as nat);
    lemma_values_nonnegative(proof.queried_values@, proof.queried_values.len() as nat);
    lemma_layers_nonnegative::<H>(fri.inner_layers@, fri.inner_layers.len() as nat);
    lemma_decommitment_nonnegative::<H>(fri.first_layer.decommitment);
    lemma_decommitments_nonnegative::<H>(proof.decommitments@, proof.decommitments.len() as nat);
    assert(vstd::layout::size_of::<H::Hash>() * proof.commitments.len() >= 0) by (nonlinear_arith)
        requires
            vstd::layout::size_of::<H::Hash>() >= 0,
            proof.commitments.len() >= 0,
    ;
}

} // verus!
