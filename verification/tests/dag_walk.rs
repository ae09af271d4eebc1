//! Tests of the walk check.

use resurreccion::dag::graph::DagEdge;
use resurreccion::dag::walk::{walk, Topology, Visitor};

fn e(from: &'static str, event: &'static str, to: &'static str) -> DagEdge {
    DagEdge::new(from, event, to)
}

/// Collect visited node names in DFS pre-order.
struct Collector(Vec<String>);
impl Visitor for Collector {
    type Answer = Vec<String>;
    fn enter(&mut self, node: &str, _: Option<(&str, &str)>) { self.0.push(node.into()); }
    fn finish(self) -> Vec<String> { self.0 }
}

#[test]
fn walk_visits_all_nodes_in_linear_chain() {
    let edges = [e("a", "E1", "b"), e("b", "E2", "c")];
    let t = Topology::new(&edges);
    let visited = walk(&t, Collector(vec![]));
    assert_eq!(visited.len(), 3);
    assert_eq!(visited[0], "a"); // source first
}

#[test]
fn walk_visits_every_node_in_diamond() {
    let edges = [e("a","E1","b"), e("a","E2","c"), e("b","E3","d"), e("c","E4","d")];
    let t = Topology::new(&edges);
    let visited = walk(&t, Collector(vec![]));
    assert_eq!(visited.len(), 4);
    assert!(visited.contains(&"a".into()));
    assert!(visited.contains(&"d".into()));
}

#[test]
fn topology_sources_have_no_incoming_edges() {
    let edges = [e("a", "E1", "b"), e("b", "E2", "c")];
    let t = Topology::new(&edges);
    let sources: Vec<_> = t.sources().into_iter().collect();
    assert_eq!(sources, ["a"]);
}

#[test]
fn topology_sinks_have_no_outgoing_edges() {
    let edges = [e("a", "E1", "b"), e("b", "E2", "c")];
    let t = Topology::new(&edges);
    let sinks: Vec<_> = t.sinks().into_iter().collect();
    assert_eq!(sinks, ["c"]);
}

#[test]
fn back_edge_called_on_cycle() {
    struct CycleDetector(bool);
    impl Visitor for CycleDetector {
        type Answer = bool;
        fn enter(&mut self, _: &str, _: Option<(&str, &str)>) {}
        fn back_edge(&mut self, _: &str, _: &str, _: &str) { self.0 = true; }
        fn finish(self) -> bool { self.0 }
    }

    let edges = [e("a", "E1", "b"), e("b", "E2", "a")];
    let t = Topology::new(&edges);
    assert!(walk(&t, CycleDetector(false)));
}

#[test]
fn via_carries_incoming_event_and_source() {
    struct EdgeRecorder(Vec<(Option<String>, Option<String>)>);
    impl Visitor for EdgeRecorder {
        type Answer = Vec<(Option<String>, Option<String>)>;
        fn enter(&mut self, _: &str, via: Option<(&str, &str)>) {
            self.0.push(via.map(|(ev, from)| (ev.to_string(), from.to_string()))
                .map_or((None, None), |(ev, from)| (Some(ev), Some(from))));
        }
        fn finish(self) -> Self::Answer { self.0 }
    }

    let edges = [e("src", "MyEvent", "dst")];
    let t = Topology::new(&edges);
    let records = walk(&t, EdgeRecorder(vec![]));
    // src is a source: via = None
    assert!(records.iter().any(|(ev, _)| ev.is_none()));
    // dst is reached via MyEvent from src
    assert!(records.iter().any(|(ev, _)| ev.as_deref() == Some("MyEvent")));
}

#[test]
fn neighbors_are_the_outgoing_edges_in_order() {
    let edges = vec![
        DagEdge::new("A", "e1", "B"),
        DagEdge::new("B", "e2", "C"),
        DagEdge::new("A", "e3", "C"),
    ];
    let t = Topology::new(&edges);
    assert_eq!(
        t.neighbors("A"),
        vec![("e1".to_string(), "B".to_string()), ("e3".to_string(), "C".to_string())]
    );
    assert!(t.neighbors("C").is_empty());
    assert!(t.neighbors("Z").is_empty());
}
