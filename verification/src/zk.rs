//! Constraint systems as applications hand them to the prover.

pub mod claims;
pub mod component;
pub mod config;
pub mod constraints;
