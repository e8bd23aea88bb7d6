//! Domains of evaluation and the polynomials over them.

pub mod domain;
pub mod line;
pub mod utils;
