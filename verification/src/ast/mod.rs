//! The abstract syntax tree of Mainstage scripts.
pub mod kind;
pub mod node;
pub mod err;

pub use kind::{AstNodeKind, BinaryOperator, UnaryOperator};
pub use node::AstNode;
