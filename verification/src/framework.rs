//! The constraint framework: the interface through which a component
//! declares its columns, lookups and constraints, and the evaluators that
//! run such a declaration.

pub mod assert_eval;
pub mod columns;
pub mod counts;
pub mod logup;
pub mod eval;
pub mod point;
pub mod info;
pub mod component;
pub mod cpu_domain;
pub mod logup_trace;
pub mod relation_tracker;
