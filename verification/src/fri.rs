//! The FRI low-degree test: configuration, proofs, folding and the verifier.

pub mod config;
pub mod fold;
pub mod layers;
pub mod sparse;
pub mod verification;
