//! The optimization passes.
pub mod constant_folding;
pub mod sccp;
pub mod cse;
pub mod const_prop;

pub use constant_folding::ConstantFolding;
pub use sccp::SparseConditionalConstantProp;
pub use cse::CommonSubexpressionElimination;
pub use const_prop::ConstantPropagation;
pub mod copy_prop;
pub use copy_prop::CopyPropagation;
pub mod dce;
pub use dce::DeadCodeElim;
