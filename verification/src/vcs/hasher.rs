//! The hash of a node of a Merkle tree.

use vstd::prelude::*;
use crate::fields::m31::M31;

verus! {

/// The hash of a node: of its two children, where it has any, and of one
/// value of each column that lives on its layer. The hash depends on these
/// values alone.
pub trait MerkleHasher: Sized {
    type Hash: Copy;

    /// The hash of a node with the given children and column values.
    spec fn spec_hash_node(
        children_hashes: Option<(Self::Hash, Self::Hash)>,
        column_values: Seq<M31>,
    ) -> Self::Hash;

    fn hash_node(children_hashes: Option<(Self::Hash, Self::Hash)>, column_values: &Vec<M31>) -> (r:
        Self::Hash)
        ensures
            r == Self::spec_hash_node(children_hashes, column_values@),
    ;

    /// Whether two hashes are the same.
    fn hash_eq(a: &Self::Hash, b: &Self::Hash) -> (r: bool)
        ensures
            r == (*a == *b),
    ;
}

} // verus!
