//! Tests of the cycle check.

use resurreccion::dag::cycle::{check_acyclic, CycleError};
use resurreccion::dag::graph::DagEdge;

fn edge(from: &'static str, event: &'static str, to: &'static str) -> DagEdge {
    DagEdge::new(from, event, to)
}

// ── Acyclic cases (must return Ok) ────────────────────────────────────

#[test]
fn empty_graph_is_acyclic() {
    assert!(check_acyclic(&[]).is_ok());
}

#[test]
fn single_edge_is_acyclic() {
    assert!(check_acyclic(&[edge("a", "E", "b")]).is_ok());
}

#[test]
fn linear_chain_is_acyclic() {
    let edges = [edge("a", "E1", "b"), edge("b", "E2", "c"), edge("c", "E3", "d")];
    assert!(check_acyclic(&edges).is_ok());
}

#[test]
fn diamond_is_acyclic() {
    // a → b, a → c, b → d, c → d  (diamond shape, not a cycle)
    let edges = [
        edge("a", "E1", "b"),
        edge("a", "E2", "c"),
        edge("b", "E3", "d"),
        edge("c", "E4", "d"),
    ];
    assert!(check_acyclic(&edges).is_ok());
}

#[test]
fn disconnected_acyclic_components() {
    let edges = [
        edge("a", "E1", "b"),
        edge("c", "E2", "d"),
    ];
    assert!(check_acyclic(&edges).is_ok());
}

#[test]
fn fan_out_is_acyclic() {
    // One event type going to multiple sinks is fine.
    let edges = [
        edge("protocol", "WorkspaceCreated", "tui"),
        edge("protocol", "WorkspaceCreated", "search"),
        edge("protocol", "WorkspaceCreated", "store"),
    ];
    assert!(check_acyclic(&edges).is_ok());
}

// ── Cyclic cases (must return Err) ────────────────────────────────────

#[test]
fn self_loop_is_cycle() {
    let err = check_acyclic(&[edge("a", "E", "a")]).unwrap_err();
    // trace: ["a", "E", "a"]
    assert_eq!(err.trace.len(), 3);
    assert_eq!(err.trace[0], "a");
    assert_eq!(err.trace[2], "a");
}

#[test]
fn two_node_cycle() {
    let err = check_acyclic(&[
        edge("a", "Ping", "b"),
        edge("b", "Pong", "a"),
    ])
    .unwrap_err();
    // Must contain both nodes
    let nodes: Vec<_> = err.trace.iter().step_by(2).collect();
    assert!(nodes.contains(&&"a".to_string()));
    assert!(nodes.contains(&&"b".to_string()));
    // First and last node of trace are the same (cycle is closed)
    assert_eq!(err.trace.first(), err.trace.last());
}

#[test]
fn three_node_cycle() {
    let err = check_acyclic(&[
        edge("a", "E1", "b"),
        edge("b", "E2", "c"),
        edge("c", "E3", "a"),
    ])
    .unwrap_err();
    // trace length for 3-node cycle: 3 nodes + 3 events + 1 closing = 7
    assert_eq!(err.trace.len(), 7);
    assert_eq!(err.trace.first(), err.trace.last());
}

#[test]
fn cycle_among_otherwise_valid_edges() {
    // Most edges are fine; one sub-graph contains a cycle.
    let err = check_acyclic(&[
        edge("source", "E1", "a"),
        edge("a", "E2", "b"),
        edge("b", "E3", "c"),  // c → b is the cycle
        edge("c", "E4", "b"),
        edge("c", "E5", "sink"),
    ])
    .unwrap_err();
    // Cycle is b → c → b (or c → b → c); either way trace is closed
    assert_eq!(err.trace.first(), err.trace.last());
}

// ── Display format ────────────────────────────────────────────────────

#[test]
fn display_formats_as_arrow_chain() {
    let err = CycleError {
        trace: vec![
            "store".into(), "WorkspaceCreated".into(),
            "tui".into(),   "RefreshCmd".into(),
            "store".into(),
        ],
    };
    let s = err.to_string();
    assert_eq!(s, "store -[WorkspaceCreated]-> tui -[RefreshCmd]-> store");
}

#[test]
fn display_self_loop() {
    let err = CycleError {
        trace: vec!["a".into(), "E".into(), "a".into()],
    };
    assert_eq!(err.to_string(), "a -[E]-> a");
}

// ── Trace content ─────────────────────────────────────────────────────

#[test]
fn trace_includes_event_names() {
    // Event names are the edges — they must appear in the trace.
    let err = check_acyclic(&[
        edge("p", "CycleEvent", "q"),
        edge("q", "BackEvent", "p"),
    ])
    .unwrap_err();
    let events: Vec<_> = err.trace.iter().skip(1).step_by(2).collect();
    // At least one of the two event names must appear
    assert!(
        events.contains(&&"CycleEvent".to_string())
            || events.contains(&&"BackEvent".to_string())
    );
}
