//! Tests of the termination check.

use resurreccion::dag::termination::{check_termination, TerminationViolation};
use resurreccion::dag::graph::DagEdge;

fn e(from: &'static str, event: &'static str, to: &'static str) -> DagEdge {
    DagEdge::new(from, event, to)
}

#[test]
fn empty_graph_terminates() {
    assert!(check_termination(&[]).is_ok());
}

#[test]
fn single_edge_terminates() {
    assert!(check_termination(&[e("a", "E", "b")]).is_ok());
}

#[test]
fn linear_chain_terminates() {
    let edges = [e("a", "E1", "b"), e("b", "E2", "c"), e("c", "E3", "d")];
    assert!(check_termination(&edges).is_ok());
}

#[test]
fn diamond_terminates() {
    let edges = [
        e("a", "E1", "b"),
        e("a", "E2", "c"),
        e("b", "E3", "d"),
        e("c", "E4", "d"),
    ];
    assert!(check_termination(&edges).is_ok());
}

#[test]
fn disconnected_acyclic_terminates() {
    let edges = [e("a", "E1", "b"), e("c", "E2", "d")];
    assert!(check_termination(&edges).is_ok());
}

#[test]
fn fan_out_terminates() {
    let edges = [
        e("protocol", "WorkspaceCreated", "tui"),
        e("protocol", "WorkspaceCreated", "search"),
        e("protocol", "WorkspaceCreated", "store"),
    ];
    assert!(check_termination(&edges).is_ok());
}

#[test]
fn self_loop_violates_termination() {
    let err = check_termination(&[e("a", "E", "a")]).unwrap_err();
    assert_eq!(err.trace.len(), 3);
    assert_eq!(err.trace[0], "a");
    assert_eq!(err.trace[2], "a");
}

#[test]
fn two_node_cycle_violates_termination() {
    let err =
        check_termination(&[e("a", "Ping", "b"), e("b", "Pong", "a")]).unwrap_err();
    let nodes: Vec<_> = err.trace.iter().step_by(2).collect();
    assert!(nodes.contains(&&"a".to_string()));
    assert!(nodes.contains(&&"b".to_string()));
    assert_eq!(err.trace.first(), err.trace.last());
}

#[test]
fn three_node_cycle_violates_termination() {
    let err = check_termination(&[
        e("a", "E1", "b"),
        e("b", "E2", "c"),
        e("c", "E3", "a"),
    ])
    .unwrap_err();
    assert_eq!(err.trace.len(), 7);
    assert_eq!(err.trace.first(), err.trace.last());
}

#[test]
fn cycle_among_valid_edges_violates_termination() {
    let err = check_termination(&[
        e("source", "E1", "a"),
        e("a", "E2", "b"),
        e("b", "E3", "c"),
        e("c", "E4", "b"),
        e("c", "E5", "sink"),
    ])
    .unwrap_err();
    assert_eq!(err.trace.first(), err.trace.last());
}

#[test]
fn display_shows_termination_violated_prefix() {
    let err = TerminationViolation {
        trace: vec![
            "store".into(),
            "WorkspaceCreated".into(),
            "tui".into(),
            "RefreshCmd".into(),
            "store".into(),
        ],
    };
    let s = err.to_string();
    assert!(s.starts_with("termination violated:"));
    assert!(s.contains("store -[WorkspaceCreated]-> tui -[RefreshCmd]-> store"));
}

#[test]
fn trace_contains_event_names() {
    let err =
        check_termination(&[e("p", "CycleEvent", "q"), e("q", "BackEvent", "p")])
            .unwrap_err();
    let events: Vec<_> = err.trace.iter().skip(1).step_by(2).collect();
    assert!(
        events.contains(&&"CycleEvent".to_string())
            || events.contains(&&"BackEvent".to_string())
    );
}
