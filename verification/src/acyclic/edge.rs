//! Lightweight DAG edges (store node ids only) with an explicit kind.
use vstd::prelude::*;
use crate::text::{push_str, str_eq};

verus! {

/// Kind of DAG edge.
#[derive(Debug, Clone, Copy, PartialEq, Eq, Hash, Structural)]
pub enum EdgeKind {
    /// Structural parent -> child (tree shape).
    Structure,
    /// Data dependency producer -> consumer.
    Data,
}

/// Represents an edge in a directed acyclic graph (DAG).
#[derive(Debug, Clone, PartialEq, Eq, Hash)]
pub struct AcyclicEdge {
    /// The source node id of the edge.
    pub source: String,
    /// The target node id of the edge.
    pub target: String,
    /// The kind of the edge.
    pub kind: EdgeKind,
}

/// The text of an edge kind in edge renderings.
pub open spec fn kind_text(kind: EdgeKind) -> Seq<char> {
    match kind {
        EdgeKind::Structure => "struct"@,
        EdgeKind::Data => "data"@,
    }
}

/// The rendering `source -[kind]-> target` of an edge.
pub open spec fn edge_text(e: AcyclicEdge) -> Seq<char> {
    e.source@ + " -["@ + kind_text(e.kind) + "]-> "@ + e.target@
}

impl AcyclicEdge {
    /// Creates an edge of the given kind.
    pub fn new_with_kind(source: String, target: String, kind: EdgeKind) -> (r: Self)
        ensures
            r.source == source,
            r.target == target,
            r.kind == kind,
    {
        Self { source, target, kind }
    }

    /// Creates a structural edge.
    pub fn new_structural(source: String, target: String) -> (r: Self)
        ensures
            r.source == source,
            r.target == target,
            r.kind == EdgeKind::Structure,
    {
        Self::new_with_kind(source, target, EdgeKind::Structure)
    }

    /// Creates a data edge.
    pub fn new_data(source: String, target: String) -> (r: Self)
        ensures
            r.source == source,
            r.target == target,
            r.kind == EdgeKind::Data,
    {
        Self::new_with_kind(source, target, EdgeKind::Data)
    }

    /// A copy of this edge, equal to it.
    pub fn duplicate(&self) -> (r: Self)
        ensures
            r == *self,
    {
        AcyclicEdge { source: self.source.clone(), target: self.target.clone(), kind: self.kind }
    }

    /// The id of the source node.
    pub fn source_id(&self) -> (r: &str)
        ensures
            r@ == self.source@,
    {
        self.source.as_str()
    }

    /// The id of the target node.
    pub fn target_id(&self) -> (r: &str)
        ensures
            r@ == self.target@,
    {
        self.target.as_str()
    }

    /// Whether the edge goes from `source_id` to `target_id`.
    pub fn is_between_ids(&self, source_id: &str, target_id: &str) -> (r: bool)
        ensures
            r == (self.source@ == source_id@ && self.target@ == target_id@),
    {
        str_eq(self.source.as_str(), source_id) && str_eq(self.target.as_str(), target_id)
    }

    /// Whether the edge starts and ends at the same node.
    pub fn is_self_loop(&self) -> (r: bool)
        ensures
            r == (self.source@ == self.target@),
    {
        self.source == self.target
    }

    /// The same edge in the opposite direction.
    pub fn reversed(&self) -> (r: AcyclicEdge)
        ensures
            r.source@ == self.target@,
            r.target@ == self.source@,
            r.kind == self.kind,
    {
        AcyclicEdge::new_with_kind(self.target.clone(), self.source.clone(), self.kind)
    }

    /// Renders the edge as `source -[struct|data]-> target`.
    pub fn to_string(&self) -> (r: String)
        ensures
            r@ == edge_text(*self),
    {
        let mut out = self.source.clone();
        push_str(&mut out, " -[");
        match self.kind {
            EdgeKind::Structure => push_str(&mut out, "struct"),
            EdgeKind::Data => push_str(&mut out, "data"),
        }
        push_str(&mut out, "]-> ");
        push_str(&mut out, self.target.as_str());
        out
    }
}

} // verus!
