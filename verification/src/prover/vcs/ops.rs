//! The hashing of the layers of a Merkle tree, by a processor.

use vstd::prelude::*;
use vstd::arithmetic::power2::pow2;
use crate::fields::m31::M31;
use crate::prover::fri::CpuBackend;
use crate::prover::vcs::merkle_prover::{commit_on_layer, spec_columns, spec_commit_on_layer};
use crate::vcs::hasher::MerkleHasher;

verus! {

/// A processor that can hash a layer of a Merkle tree.
pub trait MerkleOps<H: MerkleHasher> {
    /// The hashes of a layer of `2^log_size` nodes: each node is the hash
    /// of its two children in the layer below, if there is one, and of the
    /// values of the columns of the layer at its place.
    fn commit_on_layer(
        log_size: u32,
        prev_layer: Option<&Vec<H::Hash>>,
        columns: &Vec<&Vec<M31>>,
    ) -> (r: Vec<H::Hash>)
        requires
            log_size + 1 < usize::BITS,
            match prev_layer {
                Some(p) => p.len() == pow2((log_size + 1) as nat),
                None => true,
            },
            forall|k: int|
                0 <= k < columns.len() ==> (#[trigger] columns[k]).len() == pow2(log_size as nat),
        ensures
            r@ == spec_commit_on_layer::<H>(
                log_size as nat,
                match prev_layer {
                    Some(p) => Some(p@),
                    None => None,
                },
                spec_columns(columns@),
            ),
            r.len() == pow2(log_size as nat),
    ;
}

impl<H: MerkleHasher> MerkleOps<H> for CpuBackend {
    fn commit_on_layer(
        log_size: u32,
        prev_layer: Option<&Vec<H::Hash>>,
        columns: &Vec<&Vec<M31>>,
    ) -> (r: Vec<H::Hash>) {
        commit_on_layer::<H>(log_size, prev_layer, columns)
    }
}

} // verus!
