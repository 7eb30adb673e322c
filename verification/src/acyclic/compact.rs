//! The compact, index-based form of an analyzed graph: node ids in sorted order and,
//! per node, its outgoing and incoming edges as (index, kind) pairs.
use vstd::prelude::*;
use vstd::multiset::Multiset;
use crate::acyclic::edge::{AcyclicEdge, EdgeKind};
use crate::acyclic::node::AcyclicNode;
use crate::acyclic::analyzer::{DirectedAcyclicGraphAnalyzer, ids_unique, has_id, index_of};
use crate::text::{seq_char_lt, str_lt, lemma_seq_char_lt_total, lemma_seq_char_lt_trans};

verus! {

/// Compact DAG structure for efficient analysis.
#[derive(Debug)]
pub struct CompactDag {
    /// Node ids in increasing code-point order; a node's index is its position here.
    pub node_ids: Vec<String>,
    /// Outgoing edges of each node: (target index, edge kind).
    pub out_edges: Vec<Vec<(usize, EdgeKind)>>,
    /// Incoming edges of each node: (source index, edge kind).
    pub in_edges: Vec<Vec<(usize, EdgeKind)>>,
}

/// Structural edges order before data edges between the same pair of nodes.
pub open spec fn kind_rank(k: EdgeKind) -> int {
    match k {
        EdgeKind::Structure => 0,
        EdgeKind::Data => 1,
    }
}

/// The sort key of a compact edge: by index, then by kind.
pub open spec fn edge_key(e: (usize, EdgeKind)) -> int {
    2 * e.0 + kind_rank(e.1)
}

/// Whether the compact edges are in key order.
pub open spec fn sorted_by_key(s: Seq<(usize, EdgeKind)>) -> bool {
    forall|i: int, j: int| 0 <= i < j < s.len() ==> edge_key(s[i]) <= edge_key(s[j])
}

/// Whether `id` occurs among `ids`.
pub open spec fn in_ids(ids: Seq<Seq<char>>, id: Seq<char>) -> bool {
    exists|q: int| 0 <= q < ids.len() && ids[q] == id
}

/// The position of `id` among `ids`.
pub open spec fn id_pos(ids: Seq<Seq<char>>, id: Seq<char>) -> int {
    choose|q: int| 0 <= q < ids.len() && ids[q] == id
}

/// The edges in compact form: the other end (the target of an outgoing edge, the
/// source of an incoming one) by its position among `ids`; ends that are not among
/// `ids` are dropped.
pub open spec fn compact_edges(ids: Seq<Seq<char>>, edges: Seq<AcyclicEdge>, outgoing: bool) -> Seq<(usize, EdgeKind)>
    decreases edges.len(),
{
    if edges.len() == 0 {
        Seq::empty()
    } else {
        let rest = compact_edges(ids, edges.drop_last(), outgoing);
        let e = edges.last();
        let end = if outgoing { e.target@ } else { e.source@ };
        if in_ids(ids, end) {
            rest.push((id_pos(ids, end) as usize, e.kind))
        } else {
            rest
        }
    }
}

/// `ids` are the node ids in strictly increasing order.
pub open spec fn sorted_ids_of(nodes: Seq<AcyclicNode>, ids: Seq<Seq<char>>) -> bool {
    &&& ids.len() == nodes.len()
    &&& forall|i: int, j: int| 0 <= i < j < ids.len() ==> seq_char_lt(ids[i], ids[j])
    &&& forall|i: int| 0 <= i < nodes.len() ==> in_ids(ids, #[trigger] nodes[i].id@)
    &&& forall|q: int| 0 <= q < ids.len() ==> has_id(nodes, #[trigger] ids[q])
}

/// The views of a list of strings.
pub open spec fn views(v: Seq<String>) -> Seq<Seq<char>> {
    v.map_values(|s: String| s@)
}

/// `dag` is the compact form of the graph with the given nodes: sorted ids, and for
/// each node its edges in compact form, sorted by key.
pub open spec fn compact_of(nodes: Seq<AcyclicNode>, dag: CompactDag) -> bool {
    let ids = views(dag.node_ids@);
    &&& sorted_ids_of(nodes, ids)
    &&& dag.out_edges@.len() == ids.len()
    &&& dag.in_edges@.len() == ids.len()
    &&& forall|p: int| 0 <= p < ids.len() ==> {
        &&& sorted_by_key(#[trigger] dag.out_edges@[p]@)
        &&& dag.out_edges@[p]@.to_multiset()
            == compact_edges(ids, nodes[index_of(nodes, ids[p])].edges@, true).to_multiset()
    }
    &&& forall|p: int| 0 <= p < ids.len() ==> {
        &&& sorted_by_key(#[trigger] dag.in_edges@[p]@)
        &&& dag.in_edges@[p]@.to_multiset()
            == compact_edges(ids, nodes[index_of(nodes, ids[p])].incoming@, false).to_multiset()
    }
}

impl CompactDag {
    /// The outgoing edges of the node at `idx`.
    pub fn neighbors(&self, idx: usize) -> (r: &[(usize, EdgeKind)])
        requires
            idx < self.out_edges@.len(),
        ensures
            r@ == self.out_edges@[idx as int]@,
    {
        self.out_edges[idx].as_slice()
    }

    /// The incoming edges of the node at `idx`.
    pub fn incoming(&self, idx: usize) -> (r: &[(usize, EdgeKind)])
        requires
            idx < self.in_edges@.len(),
        ensures
            r@ == self.in_edges@[idx as int]@,
    {
        self.in_edges[idx].as_slice()
    }

    /// The index of the node with the given id, if there is one.
    pub fn index_of_id(&self, id: &String) -> (r: Option<usize>)
        ensures
            match r {
                Some(q) => q < self.node_ids@.len() && self.node_ids@[q as int]@ == id@,
                None => !in_ids(views(self.node_ids@), id@),
            },
    {
        let mut q: usize = 0;
        while q < self.node_ids.len()
            invariant
                q <= self.node_ids@.len(),
                forall|j: int| 0 <= j < q ==> self.node_ids@[j]@ != id@,
            decreases self.node_ids@.len() - q,
        {
            if self.node_ids[q] == *id {
                return Some(q);
            }
            q += 1;
        }
        proof {
            if in_ids(views(self.node_ids@), id@) {
                let w = choose|w: int| 0 <= w < views(self.node_ids@).len() && views(self.node_ids@)[w] == id@;
                assert(self.node_ids@[w]@ == id@);
            }
        }
        None
    }
}

fn edge_le(a: (usize, EdgeKind), b: (usize, EdgeKind)) -> (r: bool)
    ensures
        r == (edge_key(a) <= edge_key(b)),
{
    let ra: u8 = match a.1 { EdgeKind::Structure => 0, EdgeKind::Data => 1 };
    let rb: u8 = match b.1 { EdgeKind::Structure => 0, EdgeKind::Data => 1 };
    a.0 < b.0 || (a.0 == b.0 && ra <= rb)
}

/// Inserts `x` into a key-sorted list after every element whose key is not larger.
fn insert_sorted(v: &mut Vec<(usize, EdgeKind)>, x: (usize, EdgeKind))
    requires
        sorted_by_key(old(v)@),
    ensures
        sorted_by_key(final(v)@),
        final(v)@.to_multiset() == old(v)@.to_multiset().insert(x),
{
    let mut q: usize = 0;
    while q < v.len() && edge_le(v[q], x)
        invariant
            q <= v@.len(),
            v@ == old(v)@,
            sorted_by_key(v@),
            forall|j: int| 0 <= j < q ==> edge_key(v@[j]) <= edge_key(x),
        decreases v@.len() - q,
    {
        q += 1;
    }
    proof {
        vstd::seq_lib::to_multiset_insert(v@, q as int, x);
    }
    v.insert(q, x);
    assert forall|i: int, j: int| 0 <= i < j < v@.len() implies edge_key(v@[i]) <= edge_key(v@[j]) by {
        if i < q && j > q {
            assert(v@[j] == old(v)@[j - 1]);
        } else if i == q && j > q {
            assert(v@[j] == old(v)@[j - 1]);
            assert(edge_key(old(v)@[q as int]) > edge_key(x));
        } else if i < q && j == q {
        } else if i > q {
            assert(v@[i] == old(v)@[i - 1]);
            assert(v@[j] == old(v)@[j - 1]);
        }
    }
}

/// The position of `id` in a list of distinct strings.
fn find_pos(ids: &Vec<String>, id: &String) -> (r: Option<usize>)
    requires
        forall|i: int, j: int| 0 <= i < j < ids@.len() ==> ids@[i]@ != ids@[j]@,
    ensures
        match r {
            Some(q) => q < ids@.len() && in_ids(views(ids@), id@) && q as int == id_pos(views(ids@), id@),
            None => !in_ids(views(ids@), id@),
        },
{
    let mut q: usize = 0;
    while q < ids.len()
        invariant
            q <= ids@.len(),
            forall|j: int| 0 <= j < q ==> ids@[j]@ != id@,
            forall|i: int, j: int| 0 <= i < j < ids@.len() ==> ids@[i]@ != ids@[j]@,
        decreases ids@.len() - q,
    {
        if ids[q] == *id {
            proof {
                let vs = views(ids@);
                assert(vs[q as int] == id@);
                assert(in_ids(vs, id@));
                let c = id_pos(vs, id@);
                assert(vs.len() == ids@.len());
                if c != q as int {
                    assert(vs[c] == ids@[c]@);
                    assert(vs[c] == id@);
                    if c < q as int {
                        assert(ids@[c]@ != ids@[q as int]@);
                    } else {
                        assert(ids@[q as int]@ != ids@[c]@);
                    }
                }
            }
            return Some(q);
        }
        q += 1;
    }
    proof {
        if in_ids(views(ids@), id@) {
            let w = choose|w: int| 0 <= w < views(ids@).len() && views(ids@)[w] == id@;
            assert(ids@[w]@ == id@);
        }
    }
    None
}

/// The compact form of a list of edges, sorted by key.
fn compact_list(ids: &Vec<String>, edges: &Vec<AcyclicEdge>, outgoing: bool) -> (r: Vec<(usize, EdgeKind)>)
    requires
        forall|i: int, j: int| 0 <= i < j < ids@.len() ==> ids@[i]@ != ids@[j]@,
    ensures
        sorted_by_key(r@),
        r@.to_multiset() == compact_edges(views(ids@), edges@, outgoing).to_multiset(),
{
    let mut r: Vec<(usize, EdgeKind)> = Vec::new();
    let mut k: usize = 0;
    proof { broadcast use vstd::seq_lib::group_to_multiset_ensures; }
    assert(edges@.subrange(0, 0) =~= Seq::<AcyclicEdge>::empty());
    assert(r@.to_multiset() =~= Multiset::empty()) by {
        broadcast use vstd::seq_lib::group_to_multiset_ensures;
    }
    while k < edges.len()
        invariant
            k <= edges@.len(),
            forall|i: int, j: int| 0 <= i < j < ids@.len() ==> ids@[i]@ != ids@[j]@,
            sorted_by_key(r@),
            r@.to_multiset() == compact_edges(views(ids@), edges@.subrange(0, k as int), outgoing).to_multiset(),
        decreases edges@.len() - k,
    {
        let ghost prefix = edges@.subrange(0, k as int + 1);
        assert(prefix.drop_last() =~= edges@.subrange(0, k as int));
        let e = &edges[k];
        let end = if outgoing { &e.target } else { &e.source };
        match find_pos(ids, end) {
            Some(q) => {
                proof {
                    vstd::seq_lib::to_multiset_build(
                        compact_edges(views(ids@), edges@.subrange(0, k as int), outgoing), (q, e.kind));
                }
                insert_sorted(&mut r, (q, e.kind));
            },
            None => {},
        }
        k += 1;
    }
    assert(edges@.subrange(0, k as int) =~= edges@);
    r
}

/// Moves `x` into a list strictly sorted by id, at the place that keeps it sorted.
fn insert_index_by_id(order: &mut Vec<usize>, nodes: &Vec<AcyclicNode>, x: usize)
    requires
        x < nodes@.len(),
        ids_unique(nodes@),
        forall|j: int| 0 <= j < old(order)@.len() ==> #[trigger] old(order)@[j] < nodes@.len() && old(order)@[j] != x,
        forall|i: int, j: int| 0 <= i < j < old(order)@.len()
            ==> seq_char_lt(nodes@[old(order)@[i] as int].id@, nodes@[old(order)@[j] as int].id@),
    ensures
        final(order)@.len() == old(order)@.len() + 1,
        forall|j: int| 0 <= j < final(order)@.len() ==> #[trigger] final(order)@[j] < nodes@.len(),
        forall|i: int, j: int| 0 <= i < j < final(order)@.len()
            ==> seq_char_lt(nodes@[final(order)@[i] as int].id@, nodes@[final(order)@[j] as int].id@),
        forall|v: usize| (#[trigger] final(order)@.contains(v)) == (old(order)@.contains(v) || v == x),
{
    let mut q: usize = 0;
    while q < order.len() && str_lt(nodes[order[q]].id.as_str(), nodes[x].id.as_str())
        invariant
            q <= order@.len(),
            order@ == old(order)@,
            x < nodes@.len(),
            forall|j: int| 0 <= j < order@.len() ==> #[trigger] order@[j] < nodes@.len(),
            forall|j: int| 0 <= j < q ==> seq_char_lt(nodes@[order@[j] as int].id@, nodes@[x as int].id@),
        decreases order@.len() - q,
    {
        q += 1;
    }
    let ghost o = order@;
    order.insert(q, x);
    proof {
        let idx = |v: usize| nodes@[v as int].id@;
        if q < o.len() {
            let y = o[q as int];
            assert(y != x);
            assert(idx(y) != idx(x));
            lemma_seq_char_lt_total(idx(y), idx(x));
            assert(seq_char_lt(idx(x), idx(y)));
        }
        assert forall|i: int, j: int| 0 <= i < j < order@.len()
            implies seq_char_lt(nodes@[order@[i] as int].id@, nodes@[order@[j] as int].id@) by {
            if i < q && j == q {
            } else if i == q && j > q {
                if j > q + 1 {
                    lemma_seq_char_lt_trans(idx(x), idx(o[q as int]), idx(o[j - 1]));
                }
            } else if i < q && j > q {
                assert(order@[j] == o[j - 1]);
            } else if i > q {
                assert(order@[i] == o[i - 1]);
                assert(order@[j] == o[j - 1]);
            }
        }
        assert forall|v: usize| (#[trigger] order@.contains(v)) == (o.contains(v) || v == x) by {
            if order@.contains(v) {
                let w = choose|w: int| 0 <= w < order@.len() && order@[w] == v;
                if w < q { assert(o[w] == v); }
                else if w > q { assert(o[w - 1] == v); }
            }
            if o.contains(v) {
                let w = choose|w: int| 0 <= w < o.len() && o[w] == v;
                if w < q { assert(order@[w] == v); } else { assert(order@[w + 1] == v); }
            }
            if v == x {
                assert(order@[q as int] == x);
            }
        }
    }
}

impl DirectedAcyclicGraphAnalyzer {
    /// Builds the compact index-based representation of the graph.
    pub fn build_compact(&self) -> (r: CompactDag)
        ensures
            compact_of(self.node_seq(), r),
    {
        let nodes = self.nodes();
        let n = nodes.len();
        let mut order: Vec<usize> = Vec::new();
        let mut i: usize = 0;
        while i < n
            invariant
                i <= n,
                n == nodes@.len(),
                ids_unique(nodes@),
                order@.len() == i,
                forall|j: int| 0 <= j < order@.len() ==> #[trigger] order@[j] < nodes@.len(),
                forall|a: int, b: int| 0 <= a < b < order@.len()
                    ==> seq_char_lt(nodes@[order@[a] as int].id@, nodes@[order@[b] as int].id@),
                forall|v: usize| (#[trigger] order@.contains(v)) == (v < i),
            decreases n - i,
        {
            proof {
                assert forall|j: int| 0 <= j < order@.len() implies #[trigger] order@[j] < nodes@.len() && order@[j] != i by {
                    assert(order@.contains(order@[j]));
                }
            }
            insert_index_by_id(&mut order, nodes, i);
            i += 1;
        }
        let mut node_ids: Vec<String> = Vec::new();
        let mut p: usize = 0;
        while p < n
            invariant
                p <= n,
                n == nodes@.len(),
                order@.len() == n,
                forall|j: int| 0 <= j < order@.len() ==> #[trigger] order@[j] < nodes@.len(),
                node_ids@.len() == p,
                forall|j: int| 0 <= j < p ==> #[trigger] node_ids@[j]@ == nodes@[order@[j] as int].id@,
            decreases n - p,
        {
            node_ids.push(nodes[order[p]].id.clone());
            p += 1;
        }
        let ghost ids = views(node_ids@);
        proof {
            assert forall|a: int, b: int| 0 <= a < b < ids.len() implies seq_char_lt(ids[a], ids[b]) by {
                assert(ids[a] == node_ids@[a]@);
                assert(ids[b] == node_ids@[b]@);
            }
            assert forall|a: int, b: int| 0 <= a < b < node_ids@.len() implies node_ids@[a]@ != node_ids@[b]@ by {
                lemma_seq_char_lt_total(node_ids@[a]@, node_ids@[b]@);
            }
            assert forall|k: int| 0 <= k < nodes@.len() implies in_ids(ids, #[trigger] nodes@[k].id@) by {
                assert(order@.contains(k as usize));
                let w = choose|w: int| 0 <= w < order@.len() && order@[w] == k as usize;
                assert(ids[w] == nodes@[k].id@);
            }
            assert forall|q: int| 0 <= q < ids.len() implies has_id(nodes@, #[trigger] ids[q]) by {
                assert(ids[q] == nodes@[order@[q] as int].id@);
            }
        }
        let mut out_edges: Vec<Vec<(usize, EdgeKind)>> = Vec::new();
        let mut in_edges: Vec<Vec<(usize, EdgeKind)>> = Vec::new();
        let mut p: usize = 0;
        while p < n
            invariant
                p <= n,
                n == nodes@.len(),
                nodes@ == self.node_seq(),
                ids_unique(nodes@),
                ids == views(node_ids@),
                ids.len() == n,
                order@.len() == n,
                forall|j: int| 0 <= j < order@.len() ==> #[trigger] order@[j] < nodes@.len(),
                forall|j: int| 0 <= j < n ==> #[trigger] node_ids@[j]@ == nodes@[order@[j] as int].id@,
                forall|a: int, b: int| 0 <= a < b < node_ids@.len() ==> node_ids@[a]@ != node_ids@[b]@,
                out_edges@.len() == p,
                in_edges@.len() == p,
                forall|q: int| 0 <= q < p ==> {
                    &&& sorted_by_key(#[trigger] out_edges@[q]@)
                    &&& out_edges@[q]@.to_multiset()
                        == compact_edges(ids, nodes@[index_of(nodes@, ids[q])].edges@, true).to_multiset()
                },
                forall|q: int| 0 <= q < p ==> {
                    &&& sorted_by_key(#[trigger] in_edges@[q]@)
                    &&& in_edges@[q]@.to_multiset()
                        == compact_edges(ids, nodes@[index_of(nodes@, ids[q])].incoming@, false).to_multiset()
                },
            decreases n - p,
        {
            let k = order[p];
            proof {
                let c = index_of(nodes@, ids[p as int]);
                assert(ids[p as int] == nodes@[k as int].id@);
                assert(0 <= c < nodes@.len() && nodes@[c].id@ == ids[p as int]);
                if c != k as int {
                    assert(nodes@[c].id@ != nodes@[k as int].id@);
                }
            }
            let o = compact_list(&node_ids, &nodes[k].edges, true);
            let inc = compact_list(&node_ids, &nodes[k].incoming, false);
            out_edges.push(o);
            in_edges.push(inc);
            p += 1;
        }
        CompactDag { node_ids, out_edges, in_edges }
    }
}

} // verus!
