//! Optimization passes over the slot-based IR and the pipeline that runs them.
pub mod pass;
pub mod passes;
pub mod pipeline;

pub use pipeline::{Pipeline, optimize_ops_default};
