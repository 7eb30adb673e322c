//! The analysis passes over the syntax tree.
pub mod semantic;
pub mod acyclic;
