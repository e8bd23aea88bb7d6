//! Merkle trees hashed with Blake2s, and the transcript that absorbs their roots.

use vstd::prelude::*;
use crate::bytes::{push_bytes, push_u32_le, spec_u32_le};
use crate::channel::blake2s::{choose_array, lemma_choose_array, Blake2sChannel};
use crate::channel::MerkleChannel;
use crate::fields::m31::M31;
use crate::vcs::blake2_hash::{blake2s_digest, Blake2sHash};
use crate::vcs::hasher::MerkleHasher;

verus! {

/// The four little-endian bytes of each value, one after the other.
pub open spec fn spec_values_bytes(values: Seq<M31>) -> Seq<u8>
    decreases values.len(),
{
    if values.len() == 0 {
        Seq::empty()
    } else {
        spec_values_bytes(values.drop_last()) + spec_u32_le(values.last()@ as u32)
    }
}

/// The bytes that are hashed for a node: those of the two children, if
/// any, then those of the column values.
pub open spec fn spec_node_bytes(
    children_hashes: Option<(Blake2sHash, Blake2sHash)>,
    column_values: Seq<M31>,
) -> Seq<u8> {
    (match children_hashes {
        Some((left, right)) => left@ + right@,
        None => Seq::empty(),
    }) + spec_values_bytes(column_values)
}

/// The Merkle hash by Blake2s.
#[derive(Copy, Clone, Debug, Default)]
pub struct Blake2sMerkleHasher;

impl MerkleHasher for Blake2sMerkleHasher {
    type Hash = Blake2sHash;

    open spec fn spec_hash_node(
        children_hashes: Option<(Blake2sHash, Blake2sHash)>,
        column_values: Seq<M31>,
    ) -> Blake2sHash {
        Blake2sHash(choose_array(blake2s_digest(spec_node_bytes(children_hashes, column_values))))
    }

    fn hash_node(children_hashes: Option<(Blake2sHash, Blake2sHash)>, column_values: &Vec<M31>) -> (r:
        Blake2sHash) {
        let mut buf: Vec<u8> = Vec::new();
        match children_hashes {
            Some((left, right)) => {
                push_bytes(&mut buf, left.0.as_slice());
                push_bytes(&mut buf, right.0.as_slice());
            },
            None => {},
        }
        let ghost head = buf@;
        let mut i: usize = 0;
        while i < column_values.len()
            invariant
                i <= column_values.len(),
                buf@ == head + spec_values_bytes(column_values@.subrange(0, i as int)),
            decreases column_values.len() - i,
        {
            proof {
                let s = column_values@.subrange(0, i + 1);
                assert(s.drop_last() =~= column_values@.subrange(0, i as int));
                assert(s.last() == column_values[i as int]);
            }
            let ghost before = buf@;
            push_u32_le(&mut buf, column_values[i].value());
            proof {
                assert(buf@ =~= head + spec_values_bytes(column_values@.subrange(0, i + 1)));
            }
            i = i + 1;
        }
        proof {
            assert(column_values@.subrange(0, column_values.len() as int) =~= column_values@);
            assert(buf@ =~= spec_node_bytes(children_hashes, column_values@));
        }
        let r = Blake2sHash::hash(&buf);
        proof {
            lemma_choose_array(r.0);
        }
        r
    }

    fn hash_eq(a: &Blake2sHash, b: &Blake2sHash) -> (r: bool) {
        a.same(b)
    }
}

/// The Blake2s transcript, absorbing roots of Blake2s trees.
#[derive(Copy, Clone, Debug, Default)]
pub struct Blake2sMerkleChannel;

impl MerkleChannel for Blake2sMerkleChannel {
    type C = Blake2sChannel;

    type H = Blake2sMerkleHasher;

    /// The new digest is the hash of the old digest followed by the root.
    open spec fn spec_mix_root(channel: Blake2sChannel, root: Blake2sHash) -> Blake2sChannel {
        channel.spec_update_digest(
            Blake2sHash(choose_array(blake2s_digest(channel.digest@ + root@))),
        )
    }

    fn mix_root(channel: &mut Blake2sChannel, root: Blake2sHash) {
        let digest = channel.digest();
        let new_digest = Blake2sHash::concat_and_hash(&digest, &root);
        proof {
            lemma_choose_array(new_digest.0);
        }
        channel.update_digest(new_digest);
    }
}

} // verus!
