//! The intermediate representations of the compiler and their optimizations.
pub mod slot;
pub mod value;
pub mod op;
pub mod irop;
pub mod irmod;
pub mod slotmap;
pub mod fold;
pub mod optimization;
pub mod scope;
pub mod meta;
pub mod valview;
pub mod opt;
pub mod lowered;
