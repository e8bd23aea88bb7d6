//! The prover's side of the vector commitment.

pub mod merkle_prover;
pub mod ops;
