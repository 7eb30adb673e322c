//! The acyclic analysis.
pub mod err;
