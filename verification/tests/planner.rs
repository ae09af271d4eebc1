//! Tests of the planner.

use resurreccion::mux::{Capability, LayoutCapture, LayoutSpec, Mux, MuxError, TopologyEvent};
use resurreccion::planner::{execute, plan_capture, plan_restore, verbs, NodeId, Plan, PlanNode, SnapshotManifest};

#[test]
fn verb_constants_nonempty() {
    assert!(!verbs::CAPTURE_LAYOUT.is_empty());
    assert!(!verbs::RESTORE_LAYOUT.is_empty());
}

#[test]
fn empty_plan_has_no_nodes() {
    let plan = Plan::empty();
    assert!(plan.nodes.is_empty());
}

#[test]
fn node_id_is_unique() {
    let a = NodeId::new();
    let b = NodeId::new();
    assert_ne!(a, b);
}

#[test]
fn test_plan_capture_returns_single_node() {
    let cap = Capability::empty();
    let plan = plan_capture(&cap);

    assert_eq!(plan.nodes.len(), 1, "plan should have exactly one node");
    assert_eq!(plan.nodes[0].verb, verbs::CAPTURE_LAYOUT, "node verb should be CAPTURE_LAYOUT");
    assert_eq!(plan.nodes[0].depends_on.len(), 0, "CAPTURE_LAYOUT node should have no dependencies");
}

#[test]
fn test_plan_restore_returns_single_node() {
    let manifest = SnapshotManifest { workspace_id: "test-workspace".to_string(), layout: "{}".to_string() };
    let cap = Capability::empty();
    let plan = plan_restore(&manifest, &cap);

    assert_eq!(plan.nodes.len(), 1, "plan should have exactly one node");
    assert_eq!(plan.nodes[0].verb, verbs::RESTORE_LAYOUT, "node verb should be RESTORE_LAYOUT");
    assert_eq!(plan.nodes[0].depends_on.len(), 0, "RESTORE_LAYOUT node should have no dependencies");
}

#[test]
fn plan_arguments_are_json() {
    let plan = plan_capture(&Capability::COPY_MODE().union(Capability::SCROLLBACK_TEXT()));
    assert_eq!(plan.nodes[0].args, "{\"capabilities\":6}");
    assert_eq!(plan.description, "Capture workspace layout");
    let manifest = SnapshotManifest { workspace_id: "ws\"1".to_string(), layout: "{\"tabs\":[]}".to_string() };
    let plan = plan_restore(&manifest, &Capability::PLUGIN_EMBEDDING());
    let args: serde_json::Value = serde_json::from_str(&plan.nodes[0].args).unwrap();
    assert_eq!(args["capabilities"], 1);
    assert_eq!(args["workspace_id"], "ws\"1");
    assert!(args["layout"]["tabs"].as_array().unwrap().is_empty());
}

struct MockMux;

impl Mux for MockMux {
    fn discover(&self) -> Result<Vec<String>, MuxError> {
        Ok(vec![])
    }
    fn create(&self, _: &str, _: &LayoutSpec) -> Result<(), MuxError> {
        Ok(())
    }
    fn attach(&self, _: &str) -> Result<(), MuxError> {
        Ok(())
    }
    fn capture(&self, _: &str) -> Result<LayoutCapture, MuxError> {
        Err(MuxError::SessionNotFound("none".to_string()))
    }
    fn apply_layout(&self, _: &str, _: &LayoutSpec) -> Result<(), MuxError> {
        Ok(())
    }
    fn send_keys(&self, _: &str, _: &str) -> Result<(), MuxError> {
        Ok(())
    }
    fn subscribe_topology(&self, _: &str) -> Result<std::sync::mpsc::Receiver<TopologyEvent>, MuxError> {
        Err(MuxError::NotAvailable("mock".to_string()))
    }
    fn capabilities(&self) -> Capability {
        Capability::empty()
    }
}

#[test]
fn test_dry_run_plan_returns_without_executing() {
    let plan = Plan::empty().as_dry_run();
    let result = execute(&plan, &MockMux);
    assert!(result.is_ok(), "execute should succeed on dry_run plan");
    assert_eq!(result.unwrap().node_results.len(), 0, "dry_run plan should return empty node results");
}

#[test]
fn test_empty_plan_executes_successfully() {
    let plan = Plan::empty();
    let result = execute(&plan, &MockMux);
    assert!(result.is_ok(), "execute should succeed on empty plan");
    assert_eq!(result.unwrap().node_results.len(), 0);
}

#[test]
fn execute_reports_each_node() {
    let capture = plan_capture(&Capability::empty());
    let result = execute(&capture, &MockMux).unwrap();
    assert_eq!(result.node_results.len(), 1);
    assert!(result.node_results[0].success);
    assert_eq!(result.node_results[0].node_id, capture.nodes[0].id);
    let odd = Plan::single(PlanNode::leaf("capture.shell", "{}".to_string()), "odd");
    let result = execute(&odd, &MockMux).unwrap();
    assert!(!result.node_results[0].success);
    assert_eq!(result.node_results[0].error.as_deref(), Some("unknown verb: capture.shell"));
    let dry = plan_capture(&Capability::empty()).as_dry_run();
    assert!(execute(&dry, &MockMux).unwrap().node_results.is_empty());
}
