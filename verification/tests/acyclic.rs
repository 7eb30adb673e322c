use mainstage_core::acyclic::analyzer::DirectedAcyclicGraphAnalyzer;
use mainstage_core::acyclic::edge::{AcyclicEdge, EdgeKind};
use mainstage_core::acyclic::node::AcyclicNode;
use mainstage_core::acyclic::graph::{kahn, reach};

fn n(id: &str, structural: &[&str], data: &[&str]) -> AcyclicNode {
    let mut x = AcyclicNode::new(id.to_string());
    for t in structural { x.add_structural_edge_to(t.to_string()); }
    for t in data { x.add_data_edge_to(t.to_string()); }
    x
}

fn dag(nodes: Vec<AcyclicNode>, entry: Option<&str>) -> DirectedAcyclicGraphAnalyzer {
    DirectedAcyclicGraphAnalyzer::from_nodes(nodes, entry.map(|s| s.to_string())).unwrap()
}

fn forward(order: &[String], nodes: &[(&str, &[&str])]) -> bool {
    let pos = |id: &str| order.iter().position(|x| x == id).unwrap();
    nodes.iter().all(|(s, ts)| ts.iter().all(|t| pos(s) < pos(t)))
}

#[test]
fn edges_render_and_reverse() {
    let e = AcyclicEdge::new_structural("a".to_string(), "b".to_string());
    assert_eq!(e.to_string(), "a -[struct]-> b");
    let d = AcyclicEdge::new_data("x".to_string(), "x".to_string());
    assert_eq!(d.to_string(), "x -[data]-> x");
    assert!(d.is_self_loop());
    assert!(!e.is_self_loop());
    let r = e.reversed();
    assert_eq!((r.source_id(), r.target_id(), r.kind), ("b", "a", EdgeKind::Structure));
    assert!(e.is_between_ids("a", "b"));
    assert!(!e.is_between_ids("b", "a"));
    assert_eq!(AcyclicEdge::new_with_kind("p".to_string(), "q".to_string(), EdgeKind::Data).kind, EdgeKind::Data);
}

#[test]
fn node_edges_and_degrees() {
    let mut a = n("a", &["b", "c"], &["c"]);
    assert_eq!(a.out_degree(), 3);
    assert!(a.has_edge_to("c"));
    assert!(!a.has_self_loop());
    a.remove_edge("c");
    assert_eq!(a.out_degree(), 1);
    assert_eq!(a.neighbors(), vec!["b".to_string()]);
    a.push_in(AcyclicEdge::new_structural("z".to_string(), "a".to_string()));
    assert_eq!(a.in_degree(), 1);
    assert_eq!(a.incoming_sources(), vec!["z".to_string()]);
    a.add_edge(AcyclicNode::new("a".to_string()));
    assert!(a.has_self_loop());
    assert_eq!(a.edge_lines(), vec!["a -[struct]-> b".to_string(), "a -[struct]-> a".to_string()]);
    assert_eq!(n("q", &["r"], &[]).to_string(), "Node(q)\nEdges:\n\t| q -[struct]-> r\n");
}

#[test]
fn analyzer_refuses_duplicate_ids_and_dangling_edges() {
    assert!(DirectedAcyclicGraphAnalyzer::from_nodes(vec![n("a", &[], &[]), n("a", &[], &[])], None).is_none());
    assert!(DirectedAcyclicGraphAnalyzer::from_nodes(vec![n("a", &["nowhere"], &[])], None).is_none());
    assert!(DirectedAcyclicGraphAnalyzer::from_nodes(vec![n("a", &[], &[])], Some("zz".to_string())).is_some());
}

#[test]
fn topological_sort_orders_every_edge_forward() {
    let g = dag(vec![n("c", &[], &[]), n("a", &["b"], &["c"]), n("b", &["c"], &[])], Some("a"));
    let order = g.topo_sort().unwrap();
    assert_eq!(order.len(), 3);
    assert!(forward(&order, &[("a", &["b", "c"]), ("b", &["c"])]));
    assert!(!g.has_cycle());
    assert!(!g.has_cycle_structural());
    let s = g.topo_sort_structural().unwrap();
    assert!(forward(&s, &[("a", &["b"]), ("b", &["c"])]));
}

#[test]
fn cycles_are_reported_with_their_nodes() {
    let g = dag(vec![n("a", &["b"], &[]), n("b", &[], &["a"]), n("c", &[], &[]), n("d", &["a"], &[])], None);
    assert!(g.has_cycle());
    let mut stuck = g.topo_sort().unwrap_err();
    stuck.sort();
    assert_eq!(stuck, vec!["a".to_string(), "b".to_string()]);
    // the data edge closes the cycle: on structural edges alone there is none
    assert!(!g.has_cycle_structural());
    assert!(g.topo_sort_structural().is_ok());
}

#[test]
fn nodes_behind_a_cycle_are_reported_too() {
    let g = dag(vec![n("a", &["b"], &[]), n("b", &["a", "c"], &[]), n("c", &[], &[])], None);
    let mut stuck = g.topo_sort().unwrap_err();
    stuck.sort();
    assert_eq!(stuck, vec!["a".to_string(), "b".to_string(), "c".to_string()]);
}

#[test]
fn build_from_entry_lists_reachable_nodes() {
    let g = dag(vec![n("a", &["b"], &[]), n("b", &[], &[]), n("x", &["a"], &[])], Some("a"));
    let mut r = g.build_from_entry();
    r.sort();
    assert_eq!(r, vec!["a".to_string(), "b".to_string()]);
    let none = dag(vec![n("a", &[], &[])], None);
    assert!(none.build_from_entry().is_empty());
    assert_eq!(none.entry_point(), &None);
    assert_eq!(none.nodes().len(), 1);
}

#[test]
fn dot_export() {
    let g = dag(vec![n("a", &["b"], &["c"]), n("b", &[], &[]), n("c", &[], &[])], Some("a"));
    assert_eq!(g.to_dot(false, true),
        "digraph G {\n  rankdir=TB;\n  \"a\";\n  \"a\" -> \"b\" [color=\"black\", style=\"solid\"];\n  \"a\" -> \"c\" [color=\"#1f77b4\", style=\"dashed\"];\n  \"b\";\n  \"c\";\n}\n");
    assert_eq!(g.to_dot_structural(false),
        "digraph G {\n  rankdir=TB;\n  \"a\";\n  \"a\" -> \"b\" [color=\"black\", style=\"solid\"];\n  \"b\";\n  \"c\";\n}\n");
    let h = dag(vec![n("a", &["b"], &[]), n("b", &[], &[]), n("z", &[], &[])], Some("a"));
    assert_eq!(h.to_dot(true, true),
        "digraph G {\n  rankdir=TB;\n  \"a\";\n  \"a\" -> \"b\" [color=\"black\", style=\"solid\"];\n  \"b\";\n}\n");
}

#[test]
fn compact_form_sorts_ids() {
    let mut a = n("a", &[], &["c"]);
    a.push_in(AcyclicEdge::new_structural("b".to_string(), "a".to_string()));
    let g = dag(vec![n("b", &["a"], &[]), a, n("c", &[], &[])], None);
    let c = g.build_compact();
    assert_eq!(c.node_ids, vec!["a".to_string(), "b".to_string(), "c".to_string()]);
    assert_eq!(c.neighbors(1), &[(0, EdgeKind::Structure)]);
    assert_eq!(c.neighbors(0), &[(2, EdgeKind::Data)]);
    assert_eq!(c.incoming(0), &[(1, EdgeKind::Structure)]);
    // incoming edges come from the nodes' own incoming lists
    assert!(c.incoming(2).is_empty());
    assert_eq!(c.index_of_id(&"c".to_string()), Some(2));
    assert_eq!(c.index_of_id(&"q".to_string()), None);
    assert_eq!(g.find_index(&"a".to_string()), Some(1));
}

#[test]
fn kahn_and_reach_on_index_graphs() {
    let g = vec![vec![1], vec![2], vec![], vec![3]];
    let (order, stuck) = kahn(&g);
    assert_eq!(order, vec![0, 1, 2]);
    assert_eq!(stuck, vec![3]);
    assert_eq!(reach(&g, 0), vec![true, true, true, false]);
    assert_eq!(reach(&g, 3), vec![false, false, false, true]);
}

#[test]
fn sort_fails_exactly_when_a_cycle_is_found() {
    let cyclic = dag(vec![n("a", &["b"], &[]), n("b", &["a"], &[])], None);
    assert_eq!(cyclic.topo_sort().is_ok(), !cyclic.has_cycle());
    assert_eq!(cyclic.topo_sort_structural().is_ok(), !cyclic.has_cycle_structural());
    let acyclic = dag(vec![n("a", &["b"], &["b"]), n("b", &[], &[])], None);
    assert_eq!(acyclic.topo_sort().is_ok(), !acyclic.has_cycle());
    assert!(acyclic.topo_sort().is_ok());
    assert!(acyclic.topo_sort_structural().is_ok());
}

#[test]
fn dot_with_data_equals_structural_dot_without_data_edges() {
    let g = dag(vec![n("a", &["b"], &[]), n("b", &["c"], &[]), n("c", &[], &[])], Some("b"));
    assert_eq!(g.to_dot(false, true), g.to_dot_structural(false));
    assert_eq!(g.to_dot(true, true), g.to_dot_structural(true));
}
