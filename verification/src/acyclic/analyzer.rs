//! Analysis of directed graphs over string node ids: reachability from an entry
//! point, topological order, cycle detection, a compact index form and DOT export.
use vstd::prelude::*;
use crate::acyclic::edge::{AcyclicEdge, EdgeKind};
use crate::acyclic::node::AcyclicNode;
use crate::acyclic::graph::{
    kahn, kahn_result, lemma_kahn_decides, model, reach, reachable, wf_graph, is_acyclic,
    is_topo_order, pred_closed, has_edge, lemma_pred_closed_blocks_order,
    on_or_behind_cycle, lemma_stuck_is_cycle_part,
};
use crate::text::push_str;

verus! {

/// Whether the node ids are pairwise distinct.
pub open spec fn ids_unique(nodes: Seq<AcyclicNode>) -> bool {
    forall|i: int, j: int| 0 <= i < nodes.len() && 0 <= j < nodes.len() && i != j ==> nodes[i].id@ != nodes[j].id@
}

/// Whether some node has the id `id`.
pub open spec fn has_id(nodes: Seq<AcyclicNode>, id: Seq<char>) -> bool {
    exists|j: int| 0 <= j < nodes.len() && nodes[j].id@ == id
}

/// Whether every edge ends at a node of the graph.
pub open spec fn targets_closed(nodes: Seq<AcyclicNode>) -> bool {
    forall|i: int, k: int| 0 <= i < nodes.len() && 0 <= k < nodes[i].edges@.len()
        ==> has_id(nodes, #[trigger] nodes[i].edges@[k].target@)
}

/// The index of the node with id `id`.
pub open spec fn index_of(nodes: Seq<AcyclicNode>, id: Seq<char>) -> int {
    choose|j: int| 0 <= j < nodes.len() && nodes[j].id@ == id
}

/// Whether an edge of `kind` is kept by the filter (`None` keeps every edge).
pub open spec fn kept(filter: Option<EdgeKind>, kind: EdgeKind) -> bool {
    match filter {
        None => true,
        Some(k) => k == kind,
    }
}

/// The target indices of the kept edges among `edges`, in order.
pub open spec fn edge_targets(nodes: Seq<AcyclicNode>, edges: Seq<AcyclicEdge>, filter: Option<EdgeKind>) -> Seq<usize>
    decreases edges.len(),
{
    if edges.len() == 0 {
        Seq::empty()
    } else {
        let rest = edge_targets(nodes, edges.drop_last(), filter);
        if kept(filter, edges.last().kind) {
            rest.push(index_of(nodes, edges.last().target@) as usize)
        } else {
            rest
        }
    }
}

/// The graph as adjacency lists of node indices, keeping the edges the filter keeps.
pub open spec fn adjacency(nodes: Seq<AcyclicNode>, filter: Option<EdgeKind>) -> Seq<Seq<usize>> {
    Seq::new(nodes.len(), |i: int| edge_targets(nodes, nodes[i].edges@, filter))
}

/// The ids of the nodes at the given indices.
pub open spec fn ids_at(nodes: Seq<AcyclicNode>, idx: Seq<usize>) -> Seq<Seq<char>> {
    idx.map_values(|i: usize| nodes[i as int].id@)
}

/// The result of a topological sort of `g`: the ids in a topological order when the
/// graph has no cycle, and otherwise the ids, at least one, of the nodes on or behind
/// a cycle, by index.
pub open spec fn topo_result(nodes: Seq<AcyclicNode>, g: Seq<Seq<usize>>, r: Result<Vec<String>, Vec<String>>) -> bool {
    match r {
        Ok(ids) => is_acyclic(g) && exists|order: Seq<usize>|
            is_topo_order(g, order) && ids@.map_values(|s: String| s@) == ids_at(nodes, order),
        Err(ids) => !is_acyclic(g) && ids@.len() > 0 && exists|stuck: Seq<usize>|
            (forall|i: int, j: int| 0 <= i < j < stuck.len() ==> stuck[i] < stuck[j])
            && (forall|i: int| 0 <= i < stuck.len() ==> #[trigger] stuck[i] < g.len())
            && (forall|v: usize| v < g.len() ==> (#[trigger] stuck.contains(v) == on_or_behind_cycle(g, v)))
            && ids@.map_values(|s: String| s@) == ids_at(nodes, stuck),
    }
}

/// Analyzer for directed graphs whose nodes have distinct ids and whose edges all
/// end at nodes of the graph.
#[derive(Debug)]
pub struct DirectedAcyclicGraphAnalyzer {
    nodes: Vec<AcyclicNode>,
    entry_point: Option<String>,
}

impl DirectedAcyclicGraphAnalyzer {
    /// The nodes of the graph.
    pub closed spec fn node_seq(&self) -> Seq<AcyclicNode> {
        self.nodes@
    }

    /// The id of the entry point, if any.
    pub closed spec fn entry(&self) -> Option<String> {
        self.entry_point
    }

    #[verifier::type_invariant]
    spec fn inv(&self) -> bool {
        ids_unique(self.nodes@) && targets_closed(self.nodes@)
    }

    /// The graph over node indices, with the edges that the filter keeps.
    pub open spec fn graph(&self, filter: Option<EdgeKind>) -> Seq<Seq<usize>> {
        adjacency(self.node_seq(), filter)
    }
}

impl DirectedAcyclicGraphAnalyzer {
    /// The nodes of the graph, in insertion order.
    pub fn nodes(&self) -> (r: &Vec<AcyclicNode>)
        ensures
            r@ == self.node_seq(),
            ids_unique(r@),
            targets_closed(r@),
    {
        proof { use_type_invariant(self); }
        &self.nodes
    }

    /// The id of the entry point, if any.
    pub fn entry_point(&self) -> (r: &Option<String>)
        ensures
            *r == self.entry(),
    {
        &self.entry_point
    }

    /// The index of the node with the given id, if there is one.
    pub fn find_index(&self, id: &String) -> (r: Option<usize>)
        ensures
            match r {
                Some(j) => j < self.node_seq().len() && self.node_seq()[j as int].id@ == id@
                    && j as int == index_of(self.node_seq(), id@),
                None => !has_id(self.node_seq(), id@),
            },
    {
        proof { use_type_invariant(self); }
        let mut j: usize = 0;
        while j < self.nodes.len()
            invariant
                j <= self.nodes@.len(),
                ids_unique(self.nodes@),
                forall|i: int| 0 <= i < j ==> self.nodes@[i].id@ != id@,
            decreases self.nodes@.len() - j,
        {
            if self.nodes[j].id == *id {
                proof {
                    assert(self.nodes@[j as int].id@ == id@);
                    assert(has_id(self.nodes@, id@));
                    let c = index_of(self.nodes@, id@);
                    assert(0 <= c < self.nodes@.len() && self.nodes@[c].id@ == id@);
                    if c != j as int {
                        assert(self.nodes@[c].id@ != self.nodes@[j as int].id@);
                    }
                }
                return Some(j);
            }
            j += 1;
        }
        None
    }

    fn adjacency_row(&self, i: usize, filter: Option<EdgeKind>) -> (row: Vec<usize>)
        requires
            i < self.node_seq().len(),
        ensures
            row@ == edge_targets(self.node_seq(), self.node_seq()[i as int].edges@, filter),
            forall|k: int| 0 <= k < row@.len() ==> #[trigger] row@[k] < self.node_seq().len(),
    {
        proof { use_type_invariant(self); }
        let node = &self.nodes[i];
        let mut row: Vec<usize> = Vec::new();
        let mut k: usize = 0;
        while k < node.edges.len()
            invariant
                k <= node.edges@.len(),
                *node == self.nodes@[i as int],
                i < self.nodes@.len(),
                ids_unique(self.nodes@),
                targets_closed(self.nodes@),
                row@ == edge_targets(self.nodes@, node.edges@.subrange(0, k as int), filter),
                forall|q: int| 0 <= q < row@.len() ==> #[trigger] row@[q] < self.nodes@.len(),
            decreases node.edges@.len() - k,
        {
            assert(node.edges@.subrange(0, k as int + 1).drop_last() =~= node.edges@.subrange(0, k as int));
            let e = &node.edges[k];
            let keep = match filter {
                None => true,
                Some(kind) => kind == e.kind,
            };
            if keep {
                assert(has_id(self.nodes@, self.nodes@[i as int].edges@[k as int].target@));
                match self.find_index(&e.target) {
                    Some(j) => {
                        row.push(j);
                    },
                    None => {
                        assert(false);
                    },
                }
            }
            k += 1;
        }
        assert(node.edges@.subrange(0, k as int) =~= node.edges@);
        row
    }

    fn adjacency_lists(&self, filter: Option<EdgeKind>) -> (g: Vec<Vec<usize>>)
        ensures
            model(g@) == self.graph(filter),
            wf_graph(model(g@)),
            g@.len() == self.node_seq().len(),
    {
        let mut g: Vec<Vec<usize>> = Vec::new();
        let mut i: usize = 0;
        while i < self.nodes.len()
            invariant
                i <= self.node_seq().len(),
                self.nodes@ == self.node_seq(),
                g@.len() == i,
                forall|j: int| 0 <= j < i ==> #[trigger] g@[j]@ == edge_targets(self.node_seq(), self.node_seq()[j].edges@, filter),
                forall|j: int, k: int| 0 <= j < i && 0 <= k < g@[j]@.len() ==> #[trigger] g@[j]@[k] < self.node_seq().len(),
            decreases self.node_seq().len() - i,
        {
            let row = self.adjacency_row(i, filter);
            g.push(row);
            i += 1;
        }
        assert(model(g@) =~= self.graph(filter));
        g
    }

    fn ids_of(&self, idx: &Vec<usize>) -> (r: Vec<String>)
        requires
            forall|i: int| 0 <= i < idx@.len() ==> #[trigger] idx@[i] < self.node_seq().len(),
        ensures
            r@.map_values(|s: String| s@) == ids_at(self.node_seq(), idx@),
            r@.len() == idx@.len(),
    {
        let mut r: Vec<String> = Vec::new();
        let mut i: usize = 0;
        while i < idx.len()
            invariant
                i <= idx@.len(),
                self.nodes@ == self.node_seq(),
                forall|q: int| 0 <= q < idx@.len() ==> #[trigger] idx@[q] < self.node_seq().len(),
                r@.len() == i,
                forall|q: int| 0 <= q < i ==> #[trigger] r@[q]@ == self.node_seq()[idx@[q] as int].id@,
            decreases idx@.len() - i,
        {
            r.push(self.nodes[idx[i]].id.clone());
            i += 1;
        }
        assert(r@.map_values(|s: String| s@) =~= ids_at(self.node_seq(), idx@));
        r
    }

    fn topo_sort_filtered(&self, filter: Option<EdgeKind>) -> (r: Result<Vec<String>, Vec<String>>)
        ensures
            topo_result(self.node_seq(), self.graph(filter), r),
    {
        let g = self.adjacency_lists(filter);
        let (order, stuck) = kahn(&g);
        let ghost m = model(g@);
        proof {
            lemma_kahn_decides(m, order@, stuck@);
        }
        if stuck.len() == 0 {
            let ids = self.ids_of(&order);
            proof {
                assert(is_topo_order(m, order@));
            }
            Ok(ids)
        } else {
            proof {
                lemma_stuck_is_cycle_part(m, order@, stuck@);
            }
            let ids = self.ids_of(&stuck);
            Err(ids)
        }
    }

    /// Topological sort (Kahn's algorithm) over all edges: the node ids in an order in
    /// which every edge goes forward, or, when the graph has a cycle, the ids of the
    /// nodes that lie on a cycle or can be reached from one.
    pub fn topo_sort(&self) -> (r: Result<Vec<String>, Vec<String>>)
        ensures
            topo_result(self.node_seq(), self.graph(None), r),
    {
        self.topo_sort_filtered(None)
    }

    /// Topological sort over structural edges only.
    pub fn topo_sort_structural(&self) -> (r: Result<Vec<String>, Vec<String>>)
        ensures
            topo_result(self.node_seq(), self.graph(Some(EdgeKind::Structure)), r),
    {
        self.topo_sort_filtered(Some(EdgeKind::Structure))
    }

    /// Whether the graph (all edges) has a cycle.
    pub fn has_cycle(&self) -> (r: bool)
        ensures
            r == !is_acyclic(self.graph(None)),
    {
        let g = self.adjacency_lists(None);
        let (order, stuck) = kahn(&g);
        proof { lemma_kahn_decides(model(g@), order@, stuck@); }
        stuck.len() > 0
    }

    /// Whether the structural edges alone form a cycle.
    pub fn has_cycle_structural(&self) -> (r: bool)
        ensures
            r == !is_acyclic(self.graph(Some(EdgeKind::Structure))),
    {
        let g = self.adjacency_lists(Some(EdgeKind::Structure));
        let (order, stuck) = kahn(&g);
        proof { lemma_kahn_decides(model(g@), order@, stuck@); }
        stuck.len() > 0
    }
}

/// `idx` lists, in increasing order, exactly the indices below `n` that satisfy `p`.
pub open spec fn lists_exactly(idx: Seq<usize>, n: nat, p: spec_fn(usize) -> bool) -> bool {
    &&& forall|i: int, j: int| 0 <= i < j < idx.len() ==> idx[i] < idx[j]
    &&& forall|i: int| 0 <= i < idx.len() ==> #[trigger] idx[i] < n
    &&& forall|v: usize| v < n ==> (#[trigger] idx.contains(v) == p(v))
}

/// Whether node `i` is exported by `to_dot`: every node, or, with `reachable_only`,
/// the nodes reachable from the entry point.
pub open spec fn dot_includes(nodes: Seq<AcyclicNode>, entry: Option<String>, reachable_only: bool, i: int) -> bool {
    if !reachable_only {
        true
    } else {
        match entry {
            None => false,
            Some(e) => has_id(nodes, e@) && reachable(adjacency(nodes, None), index_of(nodes, e@) as usize, i as usize),
        }
    }
}

/// The colour and line style of an edge kind in DOT output.
pub open spec fn dot_attrs(kind: EdgeKind) -> Seq<char> {
    match kind {
        EdgeKind::Structure => "[color=\"black\", style=\"solid\"];\n"@,
        EdgeKind::Data => "[color=\"#1f77b4\", style=\"dashed\"];\n"@,
    }
}

/// The DOT line of an edge.
pub open spec fn dot_edge_line(e: AcyclicEdge) -> Seq<char> {
    "  \""@ + e.source@ + "\" -> \""@ + e.target@ + "\" "@ + dot_attrs(e.kind)
}

/// The DOT lines of the exported edges among `edges`.
pub open spec fn dot_edge_lines(
    nodes: Seq<AcyclicNode>,
    edges: Seq<AcyclicEdge>,
    entry: Option<String>,
    reachable_only: bool,
    include_data: bool,
) -> Seq<char>
    decreases edges.len(),
{
    if edges.len() == 0 {
        Seq::empty()
    } else {
        let e = edges.last();
        let rest = dot_edge_lines(nodes, edges.drop_last(), entry, reachable_only, include_data);
        if dot_includes(nodes, entry, reachable_only, index_of(nodes, e.target@))
            && (include_data || e.kind == EdgeKind::Structure) {
            rest + dot_edge_line(e)
        } else {
            rest
        }
    }
}

/// The DOT lines of the first `upto` nodes and their exported edges.
pub open spec fn dot_body(
    nodes: Seq<AcyclicNode>,
    upto: int,
    entry: Option<String>,
    reachable_only: bool,
    include_data: bool,
) -> Seq<char>
    decreases upto,
{
    if upto <= 0 {
        Seq::empty()
    } else {
        let rest = dot_body(nodes, upto - 1, entry, reachable_only, include_data);
        if dot_includes(nodes, entry, reachable_only, upto - 1) {
            rest + "  \""@ + nodes[upto - 1].id@ + "\";\n"@
                + dot_edge_lines(nodes, nodes[upto - 1].edges@, entry, reachable_only, include_data)
        } else {
            rest
        }
    }
}

/// The whole DOT export.
pub open spec fn dot_text(nodes: Seq<AcyclicNode>, entry: Option<String>, reachable_only: bool, include_data: bool) -> Seq<char> {
    "digraph G {\n  rankdir=TB;\n"@ + dot_body(nodes, nodes.len() as int, entry, reachable_only, include_data) + "}\n"@
}

impl DirectedAcyclicGraphAnalyzer {
    /// Creates an analyzer over the given nodes, or `None` when two nodes share an
    /// id or an edge ends at no node of the list.
    pub fn from_nodes(nodes: Vec<AcyclicNode>, entry_point: Option<String>) -> (r: Option<Self>)
        ensures
            match r {
                Some(a) => ids_unique(nodes@) && targets_closed(nodes@) && a.node_seq() == nodes@ && a.entry() == entry_point,
                None => !(ids_unique(nodes@) && targets_closed(nodes@)),
            },
    {
        let n = nodes.len();
        let mut i: usize = 0;
        while i < n
            invariant
                i <= n,
                n == nodes@.len(),
                forall|a: int, b: int| 0 <= a < i && 0 <= b < n && a != b ==> nodes@[a].id@ != nodes@[b].id@,
            decreases n - i,
        {
            let mut j: usize = 0;
            while j < n
                invariant
                    j <= n,
                    i < n,
                    n == nodes@.len(),
                    forall|a: int, b: int| 0 <= a < i && 0 <= b < n && a != b ==> nodes@[a].id@ != nodes@[b].id@,
                    forall|b: int| 0 <= b < j && b != i ==> nodes@[i as int].id@ != nodes@[b].id@,
                decreases n - j,
            {
                if j != i && nodes[i].id == nodes[j].id {
                    return None;
                }
                j += 1;
            }
            i += 1;
        }
        let mut u: usize = 0;
        while u < n
            invariant
                u <= n,
                n == nodes@.len(),
                forall|a: int, k: int| 0 <= a < u && 0 <= k < nodes@[a].edges@.len()
                    ==> has_id(nodes@, #[trigger] nodes@[a].edges@[k].target@),
            decreases n - u,
        {
            let mut k: usize = 0;
            while k < nodes[u].edges.len()
                invariant
                    k <= nodes@[u as int].edges@.len(),
                    u < n,
                    n == nodes@.len(),
                    forall|a: int, q: int| 0 <= a < u && 0 <= q < nodes@[a].edges@.len()
                        ==> has_id(nodes@, #[trigger] nodes@[a].edges@[q].target@),
                    forall|q: int| 0 <= q < k ==> has_id(nodes@, #[trigger] nodes@[u as int].edges@[q].target@),
                decreases nodes@[u as int].edges@.len() - k,
            {
                let mut found = false;
                let mut j: usize = 0;
                while j < n
                    invariant
                        j <= n,
                        u < n,
                        k < nodes@[u as int].edges@.len(),
                        n == nodes@.len(),
                        found ==> has_id(nodes@, nodes@[u as int].edges@[k as int].target@),
                        !found ==> forall|w: int| 0 <= w < j ==> nodes@[w].id@ != nodes@[u as int].edges@[k as int].target@,
                    decreases n - j,
                {
                    if nodes[j].id == nodes[u].edges[k].target {
                        found = true;
                    }
                    j += 1;
                }
                if !found {
                    proof {
                        assert(!targets_closed(nodes@)) by {
                            if targets_closed(nodes@) {
                                assert(has_id(nodes@, nodes@[u as int].edges@[k as int].target@));
                                let w = choose|w: int| 0 <= w < nodes@.len() && nodes@[w].id@ == nodes@[u as int].edges@[k as int].target@;
                                assert(nodes@[w].id@ != nodes@[u as int].edges@[k as int].target@);
                            }
                        }
                    }
                    return None;
                }
                k += 1;
            }
            u += 1;
        }
        Some(DirectedAcyclicGraphAnalyzer { nodes, entry_point })
    }
}


/// The ids that `build_from_entry` reports for the analyzer's state.
pub open spec fn entry_reach_ids(nodes: Seq<AcyclicNode>, entry: Option<String>, ids: Seq<Seq<char>>) -> bool {
    match entry {
        None => ids.len() == 0,
        Some(e) => if has_id(nodes, e@) {
            exists|idx: Seq<usize>|
                lists_exactly(idx, nodes.len(), |v: usize| reachable(adjacency(nodes, None), index_of(nodes, e@) as usize, v))
                && ids == ids_at(nodes, idx)
        } else {
            ids == seq![e@]
        },
    }
}

impl DirectedAcyclicGraphAnalyzer {
    /// For each node index, whether `to_dot` exports it.
    fn include_mask(&self, reachable_only: bool) -> (m: Vec<bool>)
        ensures
            m@.len() == self.node_seq().len(),
            forall|i: int| 0 <= i < m@.len() ==> #[trigger] m@[i] == dot_includes(self.node_seq(), self.entry(), reachable_only, i),
    {
        let n = self.nodes.len();
        if reachable_only {
            match &self.entry_point {
                Some(e) => {
                    match self.find_index(e) {
                        Some(s) => {
                            let g = self.adjacency_lists(None);
                            let vis = reach(&g, s);
                            assert forall|i: int| 0 <= i < vis@.len() implies #[trigger] vis@[i] == dot_includes(self.node_seq(), self.entry(), reachable_only, i) by {
                                assert(vis@[(i as usize) as int] == reachable(model(g@), s, i as usize));
                            }
                            return vis;
                        },
                        None => {},
                    }
                },
                None => {},
            }
            let mut m: Vec<bool> = Vec::new();
            let mut i: usize = 0;
            while i < n
                invariant
                    i <= n,
                    n == self.node_seq().len(),
                    m@.len() == i,
                    reachable_only,
                    self.entry() is None || !has_id(self.node_seq(), self.entry()->0@),
                    forall|j: int| 0 <= j < i ==> #[trigger] m@[j] == dot_includes(self.node_seq(), self.entry(), reachable_only, j),
                decreases n - i,
            {
                m.push(false);
                i += 1;
            }
            m
        } else {
            let mut m: Vec<bool> = Vec::new();
            let mut i: usize = 0;
            while i < n
                invariant
                    i <= n,
                    n == self.node_seq().len(),
                    m@.len() == i,
                    !reachable_only,
                    forall|j: int| 0 <= j < i ==> #[trigger] m@[j] == dot_includes(self.node_seq(), self.entry(), reachable_only, j),
                decreases n - i,
            {
                m.push(true);
                i += 1;
            }
            m
        }
    }

    /// The ids of the nodes reachable from the entry point (the entry itself included),
    /// in node order; just the entry id when it names no node; empty without an entry.
    pub fn build_from_entry(&self) -> (r: Vec<String>)
        ensures
            entry_reach_ids(self.node_seq(), self.entry(), r@.map_values(|s: String| s@)),
    {
        match &self.entry_point {
            None => {
                let r: Vec<String> = Vec::new();
                assert(r@.map_values(|s: String| s@) =~= Seq::<Seq<char>>::empty());
                r
            },
            Some(e) => {
                match self.find_index(e) {
                    None => {
                        let mut r: Vec<String> = Vec::new();
                        r.push(e.clone());
                        assert(r@.map_values(|s: String| s@) =~= seq![e@]);
                        r
                    },
                    Some(s) => {
                        let g = self.adjacency_lists(None);
                        let vis = reach(&g, s);
                        let n = vis.len();
                        let mut idx: Vec<usize> = Vec::new();
                        let mut i: usize = 0;
                        while i < n
                            invariant
                                i <= n,
                                n == vis@.len(),
                                n == self.node_seq().len(),
                                forall|a: int, b: int| 0 <= a < b < idx@.len() ==> idx@[a] < idx@[b],
                                forall|a: int| 0 <= a < idx@.len() ==> #[trigger] idx@[a] < i,
                                forall|v: usize| v < i ==> (#[trigger] idx@.contains(v) == vis@[v as int]),
                            decreases n - i,
                        {
                            if vis[i] {
                                proof {
                                    assert forall|v: usize| v < i + 1 implies (#[trigger] idx@.push(i).contains(v) == (if v == i { true } else { vis@[v as int] })) by {
                                        if v == i {
                                            assert(idx@.push(i)[idx@.len() as int] == v);
                                        } else if idx@.contains(v) {
                                            let w = choose|w: int| 0 <= w < idx@.len() && idx@[w] == v;
                                            assert(idx@.push(i)[w] == v);
                                        } else {
                                            if idx@.push(i).contains(v) {
                                                let w = choose|w: int| 0 <= w < idx@.len() + 1 && idx@.push(i)[w] == v;
                                                assert(w < idx@.len());
                                                assert(idx@[w] == v);
                                            }
                                        }
                                    }
                                }
                                idx.push(i);
                            } else {
                                proof {
                                    assert(!idx@.contains(i)) by {
                                        if idx@.contains(i) {
                                            let w = choose|w: int| 0 <= w < idx@.len() && idx@[w] == i;
                                            assert(idx@[w] < i);
                                        }
                                    }
                                }
                            }
                            i += 1;
                        }
                        let r = self.ids_of(&idx);
                        proof {
                            let p = |v: usize| reachable(adjacency(self.node_seq(), None), index_of(self.node_seq(), e@) as usize, v);
                            assert forall|v: usize| v < self.node_seq().len() implies (#[trigger] idx@.contains(v) == p(v)) by {
                                assert(vis@[v as int] == reachable(model(g@), s, v));
                            }
                            assert(lists_exactly(idx@, self.node_seq().len(), p));
                        }
                        r
                    },
                }
            },
        }
    }

    fn push_edge_lines(&self, out: &mut String, i: usize, mask: &Vec<bool>, reachable_only: bool, include_data: bool)
        requires
            i < self.node_seq().len(),
            mask@.len() == self.node_seq().len(),
            forall|q: int| 0 <= q < self.node_seq().len() ==> #[trigger] mask@[q] == dot_includes(self.node_seq(), self.entry(), reachable_only, q),
        ensures
            final(out)@ == old(out)@ + dot_edge_lines(self.node_seq(), self.node_seq()[i as int].edges@, self.entry(), reachable_only, include_data),
    {
        proof { use_type_invariant(self); }
        let ghost before = out@;
        let n = self.nodes.len();
        let edges = &self.nodes[i].edges;
        let mut k: usize = 0;
        while k < edges.len()
            invariant
                k <= edges@.len(),
                *edges == self.nodes@[i as int].edges,
                i < n,
                n == self.nodes@.len(),
                self.nodes@ == self.node_seq(),
                targets_closed(self.nodes@),
                ids_unique(self.nodes@),
                mask@.len() == n,
                forall|q: int| 0 <= q < n ==> #[trigger] mask@[q] == dot_includes(self.node_seq(), self.entry(), reachable_only, q),
                out@ == before + dot_edge_lines(self.node_seq(), edges@.subrange(0, k as int), self.entry(), reachable_only, include_data),
            decreases edges@.len() - k,
        {
            assert(edges@.subrange(0, k as int + 1).drop_last() =~= edges@.subrange(0, k as int));
            let e = &edges[k];
            assert(has_id(self.nodes@, self.nodes@[i as int].edges@[k as int].target@));
            let t = self.find_index(&e.target);
            match t {
                Some(ti) => {
                    if mask[ti] && (include_data || e.kind == EdgeKind::Structure) {
                        let ghost o = out@;
                        push_str(out, "  \"");
                        push_str(out, e.source.as_str());
                        push_str(out, "\" -> \"");
                        push_str(out, e.target.as_str());
                        push_str(out, "\" ");
                        match e.kind {
                            EdgeKind::Structure => push_str(out, "[color=\"black\", style=\"solid\"];\n"),
                            EdgeKind::Data => push_str(out, "[color=\"#1f77b4\", style=\"dashed\"];\n"),
                        }
                        assert(out@ =~= o + dot_edge_line(*e));
                    }
                },
                None => {
                    assert(false);
                },
            }
            k += 1;
        }
        assert(edges@.subrange(0, k as int) =~= edges@);
    }

    /// Graphviz/DOT export of the graph: every node, or with `reachable_only` only the
    /// nodes reachable from the entry point, each followed by its exported edges
    /// (structural edges always, data edges when `include_data`).
    #[verifier::rlimit(40)]
    #[verifier::spinoff_prover]
    pub fn to_dot(&self, reachable_only: bool, include_data: bool) -> (r: String)
        ensures
            r@ == dot_text(self.node_seq(), self.entry(), reachable_only, include_data),
    {
        proof { use_type_invariant(self); }
        let mask = self.include_mask(reachable_only);
        let mut out = String::new();
        push_str(&mut out, "digraph G {\n  rankdir=TB;\n");
        let n = self.nodes.len();
        let mut i: usize = 0;
        while i < n
            invariant
                i <= n,
                n == self.nodes@.len(),
                self.nodes@ == self.node_seq(),
                targets_closed(self.nodes@),
                ids_unique(self.nodes@),
                mask@.len() == n,
                forall|q: int| 0 <= q < n ==> #[trigger] mask@[q] == dot_includes(self.node_seq(), self.entry(), reachable_only, q),
                out@ == "digraph G {\n  rankdir=TB;\n"@ + dot_body(self.node_seq(), i as int, self.entry(), reachable_only, include_data),
            decreases n - i,
        {
            if mask[i] {
                push_str(&mut out, "  \"");
                push_str(&mut out, self.nodes[i].id.as_str());
                push_str(&mut out, "\";\n");
                self.push_edge_lines(&mut out, i, &mask, reachable_only, include_data);
            }
            i += 1;
        }
        push_str(&mut out, "}\n");
        out
    }

    /// DOT export of the structural edges only.
    pub fn to_dot_structural(&self, reachable_only: bool) -> (r: String)
        ensures
            r@ == dot_text(self.node_seq(), self.entry(), reachable_only, false),
    {
        self.to_dot(reachable_only, false)
    }
}


/// A kept structural edge is kept when every edge is.
proof fn lemma_structural_targets_among_all(nodes: Seq<AcyclicNode>, edges: Seq<AcyclicEdge>, v: usize)
    requires
        edge_targets(nodes, edges, Some(EdgeKind::Structure)).contains(v),
    ensures
        edge_targets(nodes, edges, None).contains(v),
    decreases edges.len(),
{
    if edges.len() > 0 {
        let rs = edge_targets(nodes, edges.drop_last(), Some(EdgeKind::Structure));
        let ra = edge_targets(nodes, edges.drop_last(), None);
        let t = index_of(nodes, edges.last().target@) as usize;
        let all = edge_targets(nodes, edges, None);
        assert(all == ra.push(t));
        if rs.contains(v) {
            lemma_structural_targets_among_all(nodes, edges.drop_last(), v);
            let k = choose|k: int| 0 <= k < ra.len() && ra[k] == v;
            assert(all[k] == v);
        } else {
            assert(kept(Some(EdgeKind::Structure), edges.last().kind) && v == t);
            assert(all[ra.len() as int] == v);
        }
    }
}

/// Law: a topological sort fails exactly when the matching cycle check finds a cycle,
/// over all edges (`topo_sort`, `has_cycle`) and over structural edges
/// (`topo_sort_structural`, `has_cycle_structural`).
pub proof fn law_sort_fails_exactly_on_cycles(
    a: DirectedAcyclicGraphAnalyzer,
    filter: Option<EdgeKind>,
    sorted: Result<Vec<String>, Vec<String>>,
    cyclic: bool,
)
    requires
        topo_result(a.node_seq(), a.graph(filter), sorted),
        cyclic == !is_acyclic(a.graph(filter)),
    ensures
        sorted is Ok <==> !cyclic,
        sorted matches Err(c) ==> c@.len() > 0,
{
}

/// Law: when the sort over all edges succeeds, so does the sort over structural
/// edges; every order of the whole graph is an order of its structural part.
pub proof fn law_structural_sort_follows_full_sort(
    a: DirectedAcyclicGraphAnalyzer,
    full: Result<Vec<String>, Vec<String>>,
    structural: Result<Vec<String>, Vec<String>>,
)
    requires
        topo_result(a.node_seq(), a.graph(None), full),
        topo_result(a.node_seq(), a.graph(Some(EdgeKind::Structure)), structural),
        full is Ok,
    ensures
        structural is Ok,
{
    let ga = a.graph(None);
    let gs = a.graph(Some(EdgeKind::Structure));
    let order = choose|order: Seq<usize>| is_topo_order(ga, order);
    assert(is_topo_order(ga, order));
    assert forall|x: int, y: int|
        0 <= x < order.len() && 0 <= y < order.len() && #[trigger] has_edge(gs, order[x], order[y]) implies x < y by {
        let u = order[x];
        let v = order[y];
        assert(gs[u as int] == edge_targets(a.node_seq(), a.node_seq()[u as int].edges@, Some(EdgeKind::Structure)));
        lemma_structural_targets_among_all(a.node_seq(), a.node_seq()[u as int].edges@, v);
        assert(has_edge(ga, u, v));
    }
    assert forall|v: usize| v < gs.len() implies #[trigger] order.contains(v) by {
        assert(order.contains(v));
    }
    assert(is_topo_order(gs, order));
}

/// With every edge structural, the data-inclusive edge lines are the structural ones.
proof fn lemma_dot_edge_lines_without_data(
    nodes: Seq<AcyclicNode>,
    edges: Seq<AcyclicEdge>,
    entry: Option<String>,
    reachable_only: bool,
)
    requires
        forall|k: int| 0 <= k < edges.len() ==> (#[trigger] edges[k]).kind == EdgeKind::Structure,
    ensures
        dot_edge_lines(nodes, edges, entry, reachable_only, true)
            == dot_edge_lines(nodes, edges, entry, reachable_only, false),
    decreases edges.len(),
{
    if edges.len() > 0 {
        assert(edges.last() == edges[edges.len() - 1]);
        lemma_dot_edge_lines_without_data(nodes, edges.drop_last(), entry, reachable_only);
    }
}

proof fn lemma_dot_body_without_data(
    nodes: Seq<AcyclicNode>,
    upto: int,
    entry: Option<String>,
    reachable_only: bool,
)
    requires
        upto <= nodes.len(),
        forall|i: int, k: int| 0 <= i < nodes.len() && 0 <= k < nodes[i].edges@.len()
            ==> (#[trigger] nodes[i].edges@[k]).kind == EdgeKind::Structure,
    ensures
        dot_body(nodes, upto, entry, reachable_only, true) == dot_body(nodes, upto, entry, reachable_only, false),
    decreases upto,
{
    if upto > 0 {
        lemma_dot_body_without_data(nodes, upto - 1, entry, reachable_only);
        let es = nodes[upto - 1].edges@;
        assert forall|k: int| 0 <= k < es.len() implies (#[trigger] es[k]).kind == EdgeKind::Structure by {
            assert(nodes[upto - 1].edges@[k] == es[k]);
        }
        lemma_dot_edge_lines_without_data(nodes, es, entry, reachable_only);
    }
}

/// Law: on a graph whose edges are all structural, `to_dot` with data edges
/// included gives the text of `to_dot_structural`.
pub proof fn law_dot_structural(a: DirectedAcyclicGraphAnalyzer, reachable_only: bool, with_data: Seq<char>, structural: Seq<char>)
    requires
        with_data == dot_text(a.node_seq(), a.entry(), reachable_only, true),
        structural == dot_text(a.node_seq(), a.entry(), reachable_only, false),
    ensures
        (forall|i: int, k: int| 0 <= i < a.node_seq().len() && 0 <= k < a.node_seq()[i].edges@.len()
            ==> (#[trigger] a.node_seq()[i].edges@[k]).kind == EdgeKind::Structure) ==> with_data == structural,
{
    let nodes = a.node_seq();
    if forall|i: int, k: int| 0 <= i < nodes.len() && 0 <= k < nodes[i].edges@.len()
        ==> (#[trigger] nodes[i].edges@[k]).kind == EdgeKind::Structure {
        lemma_dot_body_without_data(nodes, nodes.len() as int, a.entry(), reachable_only);
    }
}

} // verus!
