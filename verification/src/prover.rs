//! The prover: columns, evaluations, Merkle trees and the FRI commitment.

pub mod air;
pub mod fri;
pub mod line;
pub mod pcs;
pub mod poly;
pub mod secure_column;
pub mod stark;
pub mod vcs;
