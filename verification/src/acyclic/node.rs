//! Nodes of a directed graph, holding their outgoing and incoming edges.
use vstd::prelude::*;
use crate::acyclic::edge::{AcyclicEdge, EdgeKind, edge_text};
use crate::text::{push_str, str_eq};

verus! {

/// Represents a node in a directed acyclic graph (DAG).
#[derive(Debug, Clone, PartialEq, Eq, Hash)]
pub struct AcyclicNode {
    /// The unique identifier of the node.
    pub id: String,
    /// The edges connected to this node (outgoing).
    pub edges: Vec<AcyclicEdge>,
    /// The edges connected to this node (incoming).
    pub incoming: Vec<AcyclicEdge>,
}

/// Whether `edges` holds an edge to `target` of the given kind.
pub open spec fn has_out_edge(edges: Seq<AcyclicEdge>, target: Seq<char>, kind: EdgeKind) -> bool {
    exists|i: int| 0 <= i < edges.len() && edges[i].target@ == target && edges[i].kind == kind
}

/// Whether `edges` holds an edge from `source` of the given kind.
pub open spec fn has_in_edge(edges: Seq<AcyclicEdge>, source: Seq<char>, kind: EdgeKind) -> bool {
    exists|i: int| 0 <= i < edges.len() && edges[i].source@ == source && edges[i].kind == kind
}

/// `edges` with `edge` appended unless an edge to the same target with the same kind is there.
pub open spec fn push_out_spec(edges: Seq<AcyclicEdge>, edge: AcyclicEdge) -> Seq<AcyclicEdge> {
    if has_out_edge(edges, edge.target@, edge.kind) { edges } else { edges.push(edge) }
}

/// `edges` with `edge` appended unless an edge from the same source with the same kind is there.
pub open spec fn push_in_spec(edges: Seq<AcyclicEdge>, edge: AcyclicEdge) -> Seq<AcyclicEdge> {
    if has_in_edge(edges, edge.source@, edge.kind) { edges } else { edges.push(edge) }
}

/// The edges not ending at `target`, in order.
pub open spec fn edges_not_to(edges: Seq<AcyclicEdge>, target: Seq<char>) -> Seq<AcyclicEdge>
    decreases edges.len(),
{
    if edges.len() == 0 {
        edges
    } else if edges.last().target@ == target {
        edges_not_to(edges.drop_last(), target)
    } else {
        edges_not_to(edges.drop_last(), target).push(edges.last())
    }
}

/// The rendering of the edge lines of a node, one `\t| edge\n` per edge.
pub open spec fn edge_lines(edges: Seq<AcyclicEdge>) -> Seq<char>
    decreases edges.len(),
{
    if edges.len() == 0 {
        Seq::empty()
    } else {
        edge_lines(edges.drop_last()) + "\t| "@ + edge_text(edges.last()) + "\n"@
    }
}

/// The rendering of a node: its id, then its outgoing edges.
pub open spec fn node_text(n: AcyclicNode) -> Seq<char> {
    "Node("@ + n.id@ + ")\n"@ + "Edges:\n"@ + edge_lines(n.edges@)
}

fn contains_out(edges: &Vec<AcyclicEdge>, target: &String, kind: EdgeKind) -> (r: bool)
    ensures
        r == has_out_edge(edges@, target@, kind),
{
    let mut i: usize = 0;
    while i < edges.len()
        invariant
            i <= edges.len(),
            forall|j: int| 0 <= j < i ==> !(edges@[j].target@ == target@ && edges@[j].kind == kind),
        decreases edges.len() - i,
    {
        if edges[i].target == *target && edges[i].kind == kind {
            return true;
        }
        i += 1;
    }
    false
}

fn contains_in(edges: &Vec<AcyclicEdge>, source: &String, kind: EdgeKind) -> (r: bool)
    ensures
        r == has_in_edge(edges@, source@, kind),
{
    let mut i: usize = 0;
    while i < edges.len()
        invariant
            i <= edges.len(),
            forall|j: int| 0 <= j < i ==> !(edges@[j].source@ == source@ && edges@[j].kind == kind),
        decreases edges.len() - i,
    {
        if edges[i].source == *source && edges[i].kind == kind {
            return true;
        }
        i += 1;
    }
    false
}

impl AcyclicNode {
    /// Creates a node with no edges.
    pub fn new(id: String) -> (r: Self)
        ensures
            r.id == id,
            r.edges@ == Seq::<AcyclicEdge>::empty(),
            r.incoming@ == Seq::<AcyclicEdge>::empty(),
    {
        Self { id, edges: Vec::new(), incoming: Vec::new() }
    }

    /// Adds an outgoing edge unless one to the same target with the same kind exists.
    pub fn push_out(&mut self, edge: AcyclicEdge)
        ensures
            final(self).id == old(self).id,
            final(self).incoming == old(self).incoming,
            final(self).edges@ == push_out_spec(old(self).edges@, edge),
    {
        if !contains_out(&self.edges, &edge.target, edge.kind) {
            self.edges.push(edge);
        }
    }

    /// Adds an incoming edge unless one from the same source with the same kind exists.
    pub fn push_in(&mut self, edge: AcyclicEdge)
        ensures
            final(self).id == old(self).id,
            final(self).edges == old(self).edges,
            final(self).incoming@ == push_in_spec(old(self).incoming@, edge),
    {
        if !contains_in(&self.incoming, &edge.source, edge.kind) {
            self.incoming.push(edge);
        }
    }

    /// Adds an edge of the given kind from this node to `target_id`, unless present.
    pub fn add_edge_to_with_kind(&mut self, target_id: String, kind: EdgeKind)
        ensures
            final(self).id == old(self).id,
            final(self).incoming == old(self).incoming,
            final(self).edges@ == push_out_spec(
                old(self).edges@,
                AcyclicEdge { source: old(self).id, target: target_id, kind },
            ),
    {
        if !contains_out(&self.edges, &target_id, kind) {
            let e = AcyclicEdge::new_with_kind(self.id.clone(), target_id, kind);
            self.edges.push(e);
        }
    }

    /// Adds a structural edge from this node to `target_id`, unless present.
    pub fn add_structural_edge_to(&mut self, target_id: String)
        ensures
            final(self).id == old(self).id,
            final(self).incoming == old(self).incoming,
            final(self).edges@ == push_out_spec(
                old(self).edges@,
                AcyclicEdge { source: old(self).id, target: target_id, kind: EdgeKind::Structure },
            ),
    {
        let e = AcyclicEdge::new_structural(self.id.clone(), target_id);
        self.push_out(e);
    }

    /// Adds a data edge from this node to `target_id`, unless present.
    pub fn add_data_edge_to(&mut self, target_id: String)
        ensures
            final(self).id == old(self).id,
            final(self).incoming == old(self).incoming,
            final(self).edges@ == push_out_spec(
                old(self).edges@,
                AcyclicEdge { source: old(self).id, target: target_id, kind: EdgeKind::Data },
            ),
    {
        let e = AcyclicEdge::new_data(self.id.clone(), target_id);
        self.push_out(e);
    }

    /// Adds a structural edge to the given node.
    pub fn add_edge(&mut self, target: AcyclicNode)
        ensures
            final(self).id == old(self).id,
            final(self).incoming == old(self).incoming,
            final(self).edges@ == push_out_spec(
                old(self).edges@,
                AcyclicEdge { source: old(self).id, target: target.id, kind: EdgeKind::Structure },
            ),
    {
        self.add_structural_edge_to(target.id);
    }

    /// Removes every outgoing edge that ends at `target_id`.
    pub fn remove_edge(&mut self, target_id: &str)
        ensures
            final(self).id == old(self).id,
            final(self).incoming == old(self).incoming,
            final(self).edges@ == edges_not_to(old(self).edges@, target_id@),
    {
        let ghost old_edges = self.edges@;
        let mut kept: Vec<AcyclicEdge> = Vec::new();
        let mut i: usize = 0;
        while i < self.edges.len()
            invariant
                i <= self.edges.len(),
                self.edges@ == old_edges,
                kept@ == edges_not_to(old_edges.subrange(0, i as int), target_id@),
            decreases self.edges.len() - i,
        {
            assert(old_edges.subrange(0, i as int + 1).drop_last() =~= old_edges.subrange(0, i as int));
            if !str_eq(self.edges[i].target.as_str(), target_id) {
                kept.push(self.edges[i].duplicate());
            }
            i += 1;
        }
        assert(old_edges.subrange(0, i as int) =~= old_edges);
        self.edges = kept;
    }

    /// Whether some outgoing edge ends at `target_id`.
    pub fn has_edge_to(&self, target_id: &str) -> (r: bool)
        ensures
            r == exists|i: int| 0 <= i < self.edges@.len() && self.edges@[i].target@ == target_id@,
    {
        let mut i: usize = 0;
        while i < self.edges.len()
            invariant
                i <= self.edges.len(),
                forall|j: int| 0 <= j < i ==> self.edges@[j].target@ != target_id@,
            decreases self.edges.len() - i,
        {
            if str_eq(self.edges[i].target.as_str(), target_id) {
                return true;
            }
            i += 1;
        }
        false
    }

    /// Whether some outgoing edge ends at this node itself.
    pub fn has_self_loop(&self) -> (r: bool)
        ensures
            r == exists|i: int| 0 <= i < self.edges@.len() && self.edges@[i].target@ == self.id@,
    {
        self.has_edge_to(self.id.as_str())
    }

    /// The number of outgoing edges.
    pub fn out_degree(&self) -> (r: usize)
        ensures
            r == self.edges@.len(),
    {
        self.edges.len()
    }

    /// The number of incoming edges.
    pub fn in_degree(&self) -> (r: usize)
        ensures
            r == self.incoming@.len(),
    {
        self.incoming.len()
    }

    /// The targets of the outgoing edges, in order.
    pub fn neighbors(&self) -> (r: Vec<String>)
        ensures
            r@.len() == self.edges@.len(),
            forall|i: int| 0 <= i < r@.len() ==> r@[i] == self.edges@[i].target,
    {
        let mut out: Vec<String> = Vec::new();
        let mut i: usize = 0;
        while i < self.edges.len()
            invariant
                i <= self.edges.len(),
                out@.len() == i,
                forall|k: int| 0 <= k < i ==> out@[k] == self.edges@[k].target,
            decreases self.edges.len() - i,
        {
            out.push(self.edges[i].target.clone());
            i += 1;
        }
        out
    }

    /// The sources of the incoming edges, in order.
    pub fn incoming_sources(&self) -> (r: Vec<String>)
        ensures
            r@.len() == self.incoming@.len(),
            forall|i: int| 0 <= i < r@.len() ==> r@[i] == self.incoming@[i].source,
    {
        let mut out: Vec<String> = Vec::new();
        let mut i: usize = 0;
        while i < self.incoming.len()
            invariant
                i <= self.incoming.len(),
                out@.len() == i,
                forall|k: int| 0 <= k < i ==> out@[k] == self.incoming@[k].source,
            decreases self.incoming.len() - i,
        {
            out.push(self.incoming[i].source.clone());
            i += 1;
        }
        out
    }

    /// The lines that `print_edges` writes: one rendered edge per line.
    pub fn edge_lines(&self) -> (r: Vec<String>)
        ensures
            r@.len() == self.edges@.len(),
            forall|i: int| 0 <= i < r@.len() ==> r@[i]@ == edge_text(self.edges@[i]),
    {
        let mut out: Vec<String> = Vec::new();
        let mut i: usize = 0;
        while i < self.edges.len()
            invariant
                i <= self.edges.len(),
                out@.len() == i,
                forall|k: int| 0 <= k < i ==> out@[k]@ == edge_text(self.edges@[k]),
            decreases self.edges.len() - i,
        {
            out.push(self.edges[i].to_string());
            i += 1;
        }
        out
    }

    /// Renders the node: `Node(id)`, `Edges:`, then one `\t| edge` line per edge.
    pub fn to_string(&self) -> (r: String)
        ensures
            r@ == node_text(*self),
    {
        let mut out = String::new();
        push_str(&mut out, "Node(");
        push_str(&mut out, self.id.as_str());
        push_str(&mut out, ")\n");
        push_str(&mut out, "Edges:\n");
        let ghost head = out@;
        let mut i: usize = 0;
        while i < self.edges.len()
            invariant
                i <= self.edges.len(),
                out@ == head + edge_lines(self.edges@.subrange(0, i as int)),
            decreases self.edges.len() - i,
        {
            assert(self.edges@.subrange(0, i as int + 1).drop_last() =~= self.edges@.subrange(0, i as int));
            let line = self.edges[i].to_string();
            push_str(&mut out, "\t| ");
            push_str(&mut out, line.as_str());
            push_str(&mut out, "\n");
            i += 1;
        }
        assert(self.edges@.subrange(0, i as int) =~= self.edges@);
        assert(head =~= "Node("@ + self.id@ + ")\n"@ + "Edges:\n"@);
        out
    }
}

} // verus!
