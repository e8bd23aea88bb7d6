//! Vector commitments: Merkle trees over columns of field elements.

pub mod blake2_hash;
pub mod blake2_merkle;
pub mod hasher;
pub mod merkle_verifier;
pub mod poseidon252_merkle;
