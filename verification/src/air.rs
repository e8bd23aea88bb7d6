//! Accumulation of constraint evaluations.

pub mod accumulation;
pub mod component;
