//! A Circle-STARK engine over the Mersenne-31 field: field and circle-group
//! arithmetic, line polynomials, Merkle commitments, the Fiat-Shamir channel
//! and the FRI low-degree test, each function with a machine-checked contract.

pub mod air;
pub mod bytes;
pub mod channel;
pub mod circle;
pub mod constraints;
pub mod dsl;
pub mod fft;
pub mod fields;
pub mod fraction;
pub mod framework;
pub mod fri;
pub mod math;
pub mod pcs;
pub mod poly;
pub mod stark;
pub mod stark_proof;
pub mod prover;
pub mod queries;
pub mod utils;
pub mod vcs;
pub mod verification;
pub mod zk;
