//! The polynomial commitment scheme: samples out of the domain and the
//! quotients that tie them to the committed columns.

pub mod commitment;
pub mod quotients;
pub mod sample_map;
