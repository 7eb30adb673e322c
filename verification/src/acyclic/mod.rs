//! Directed graphs over node ids with structural and data edges, and their
//! analysis (reachability, topological order, cycle detection).
pub mod edge;
pub mod node;
pub mod graph;
pub mod analyzer;
pub mod compact;

pub use edge::{AcyclicEdge, EdgeKind};
pub use node::AcyclicNode;
