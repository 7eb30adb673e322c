//! The bytecode back end: its constants, stack instructions and encoded functions.
pub mod ir;
pub mod bytecode;
pub mod scheduler;
pub mod context;
