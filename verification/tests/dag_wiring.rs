//! Tests of the wiring check.

use resurreccion::dag::wiring::{check_wiring, WiringError};
use resurreccion::dag::graph::DagEdge;

fn e(from: &'static str, event: &'static str, to: &'static str) -> DagEdge {
    DagEdge::new(from, event, to)
}

// ── Empty / trivial ───────────────────────────────────────────────────

#[test]
fn empty_edges_no_declared_nodes_is_ok() {
    assert!(check_wiring(&[], &[]).is_ok());
}

#[test]
fn single_edge_is_fully_wired() {
    assert!(check_wiring(&[], &[e("a", "E", "b")]).is_ok());
}

// ── Valid DAG topologies ───────────────────────────────────────────────

#[test]
fn linear_chain_is_wired() {
    let edges = [e("a", "E1", "b"), e("b", "E2", "c"), e("c", "E3", "d")];
    assert!(check_wiring(&[], &edges).is_ok());
}

#[test]
fn diamond_is_wired() {
    let edges = [
        e("a", "E1", "b"),
        e("a", "E2", "c"),
        e("b", "E3", "d"),
        e("c", "E4", "d"),
    ];
    assert!(check_wiring(&[], &edges).is_ok());
}

#[test]
fn fan_out_is_wired() {
    let edges = [
        e("source", "E1", "sink_a"),
        e("source", "E2", "sink_b"),
    ];
    assert!(check_wiring(&[], &edges).is_ok());
}

#[test]
fn fan_in_is_wired() {
    let edges = [
        e("source_a", "E1", "sink"),
        e("source_b", "E2", "sink"),
    ];
    assert!(check_wiring(&[], &edges).is_ok());
}

// ── Isolated declared nodes (the key wiring guarantee) ────────────────

#[test]
fn declared_node_missing_from_all_edges_is_unwired() {
    // "orphan" is declared in the DAG but wired to nothing.
    let edges = [e("protocol", "WorkspaceListCmd", "store")];
    let err = check_wiring(&["protocol", "store", "orphan"], &edges).unwrap_err();

    assert!(err.unreachable.contains(&"orphan".to_string()));
    assert!(err.dead_ends.contains(&"orphan".to_string()));
}

#[test]
fn all_declared_nodes_present_in_edges_is_ok() {
    let edges = [e("protocol", "WorkspaceListCmd", "store")];
    assert!(check_wiring(&["protocol", "store"], &edges).is_ok());
}

#[test]
fn extra_declared_sources_and_sinks_are_ok() {
    // Declaring more nodes than appear in edges, but all wired.
    let edges = [
        e("a", "E1", "b"),
        e("b", "E2", "c"),
    ];
    assert!(check_wiring(&["a", "b", "c"], &edges).is_ok());
}

// ── Multiple unwired nodes reported together ───────────────────────────

#[test]
fn wiring_multiple_unwired_nodes_all_reported() {
    let edges = [e("a", "E", "b")];
    let err = check_wiring(&["a", "b", "x", "y"], &edges).unwrap_err();

    assert!(err.unreachable.contains(&"x".to_string()));
    assert!(err.unreachable.contains(&"y".to_string()));
}

// ── Error display ─────────────────────────────────────────────────────

#[test]
fn wiring_error_display_lists_problem_nodes() {
    let err = WiringError {
        unreachable: vec!["ghost".into()],
        dead_ends: vec!["void".into()],
    };
    let s = err.to_string();
    assert!(s.contains("ghost"));
    assert!(s.contains("void"));
}

// ── Disconnected components ────────────────────────────────────────────

#[test]
fn disconnected_components_each_with_source_and_sink_are_ok() {
    // Two independent flows — each has its own beginning and end.
    let edges = [
        e("a", "E1", "b"),
        e("c", "E2", "d"),
    ];
    assert!(check_wiring(&[], &edges).is_ok());
}

#[test]
fn acyclic_edges_with_nothing_declared_are_wired() {
    let edges = vec![
        e("a", "E1", "b"),
        e("b", "E2", "c"),
        e("a", "E3", "c"),
        e("d", "E4", "b"),
        e("c", "E5", "f"),
        e("c", "E6", "g"),
    ];
    assert!(check_wiring(&[], &edges).is_ok());
}

#[test]
fn wiring_report_ignores_order_and_repetition() {
    let edges = vec![e("s", "E1", "a"), e("a", "E2", "b"), e("b", "E3", "a"), e("x", "E4", "t")];
    let shuffled = vec![e("x", "E4", "t"), e("b", "E3", "a"), e("a", "E2", "b"), e("s", "E1", "a"), e("b", "E3", "a")];
    let first = check_wiring(&["z", "s"], &edges).unwrap_err();
    let second = check_wiring(&["s", "z", "z"], &shuffled).unwrap_err();
    assert_eq!(first.unreachable, second.unreachable);
    assert_eq!(first.dead_ends, second.dead_ends);
    assert_eq!(first.unreachable, vec!["z".to_string()]);
    assert_eq!(first.dead_ends, vec!["a".to_string(), "b".to_string(), "s".to_string(), "z".to_string()]);
}

#[test]
fn wiring_and_completeness_report_alike() {
    let edges = vec![e("s", "E1", "a"), e("a", "E2", "b"), e("b", "E3", "a")];
    let wiring = check_wiring(&["q"], &edges).unwrap_err();
    let completeness = resurreccion::dag::completeness::check_completeness(&["q"], &edges).unwrap_err();
    assert_eq!(wiring.unreachable, completeness.unreachable);
    assert_eq!(wiring.dead_ends, completeness.dead_ends);
    assert!(check_wiring(&["a"], &[e("a", "E1", "b")]).is_ok());
    assert!(resurreccion::dag::completeness::check_completeness(&["a"], &[e("a", "E1", "b")]).is_ok());
}
