//! Tests of the completeness check.

use resurreccion::dag::completeness::{check_completeness, CompletenessViolation};
use resurreccion::dag::graph::DagEdge;

fn e(from: &'static str, event: &'static str, to: &'static str) -> DagEdge {
    DagEdge::new(from, event, to)
}

#[test]
fn empty_is_complete() {
    assert!(check_completeness(&[], &[]).is_ok());
}

#[test]
fn single_edge_is_complete() {
    assert!(check_completeness(&[], &[e("a", "E", "b")]).is_ok());
}

#[test]
fn linear_chain_is_complete() {
    let edges = [e("a", "E1", "b"), e("b", "E2", "c"), e("c", "E3", "d")];
    assert!(check_completeness(&[], &edges).is_ok());
}

#[test]
fn diamond_is_complete() {
    let edges = [
        e("a", "E1", "b"),
        e("a", "E2", "c"),
        e("b", "E3", "d"),
        e("c", "E4", "d"),
    ];
    assert!(check_completeness(&[], &edges).is_ok());
}

#[test]
fn fan_out_is_complete() {
    let edges = [e("source", "E1", "sink_a"), e("source", "E2", "sink_b")];
    assert!(check_completeness(&[], &edges).is_ok());
}

#[test]
fn fan_in_is_complete() {
    let edges = [e("source_a", "E1", "sink"), e("source_b", "E2", "sink")];
    assert!(check_completeness(&[], &edges).is_ok());
}

#[test]
fn declared_node_absent_from_edges_violates_completeness() {
    let edges = [e("protocol", "WorkspaceListCmd", "store")];
    let err = check_completeness(&["protocol", "store", "orphan"], &edges).unwrap_err();
    assert!(err.unreachable.contains(&"orphan".to_string()));
    assert!(err.dead_ends.contains(&"orphan".to_string()));
}

#[test]
fn all_declared_nodes_in_edges_is_complete() {
    let edges = [e("protocol", "WorkspaceListCmd", "store")];
    assert!(check_completeness(&["protocol", "store"], &edges).is_ok());
}

#[test]
fn completeness_multiple_unwired_nodes_all_reported() {
    let edges = [e("a", "E", "b")];
    let err = check_completeness(&["a", "b", "x", "y"], &edges).unwrap_err();
    assert!(err.unreachable.contains(&"x".to_string()));
    assert!(err.unreachable.contains(&"y".to_string()));
}

#[test]
fn disconnected_components_are_complete() {
    let edges = [e("a", "E1", "b"), e("c", "E2", "d")];
    assert!(check_completeness(&[], &edges).is_ok());
}

#[test]
fn display_shows_completeness_violated_prefix() {
    let err = CompletenessViolation {
        unreachable: vec!["ghost".into()],
        dead_ends: vec!["void".into()],
    };
    let s = err.to_string();
    assert!(s.starts_with("completeness violated:"));
    assert!(s.contains("ghost"));
    assert!(s.contains("void"));
}
