//! The circle group, its cosets and the domains built from them.

pub mod coset;
pub mod index;
pub mod point;
pub mod secure_point;
pub mod order;
