//! Planning of capture and restore operations.
//!
//! Planning is a pure function from state and intent to a plan; executing a
//! plan is the only step with effects. Plans can be inspected and dry-run
//! without touching a real runtime.

pub mod verbs;

use vstd::prelude::*;
use vstd::string::StringExecFns;
use crate::decimal::{digits, push_decimal};
use crate::domain::ids::Id;
use crate::mux::{mux_error_text, Capability, LayoutCapture, Mux, MuxError};
use crate::proto::{escape_json_string, json_escape_text};

verus! {

/// Kind of [`NodeId`].
#[derive(Debug, Clone, Copy, PartialEq, Eq, PartialOrd, Ord, Hash)]
pub struct NodeKind;

/// Unique identifier of a plan node.
pub type NodeId = Id<NodeKind>;

/// One step of a plan.
#[derive(Debug, Clone)]
pub struct PlanNode {
    /// The node's identifier.
    pub id: NodeId,
    /// The capability verb the node invokes (such as `capture.layout`).
    pub verb: String,
    /// The verb's arguments, as JSON text.
    pub args: String,
    /// The nodes that must complete before this one runs.
    pub depends_on: Vec<NodeId>,
}

impl PlanNode {
    /// A node without dependencies, under a fresh id.
    pub fn leaf(verb: &str, args: String) -> (n: PlanNode)
        ensures
            n.verb@ == verb@,
            n.args@ == args@,
            n.depends_on@.len() == 0,
    {
        PlanNode { id: NodeId::new(), verb: verb.to_owned(), args, depends_on: Vec::new() }
    }
}

/// A directed acyclic graph of plan nodes. Capture and restore plans are
/// both plans.
#[derive(Debug, Clone)]
pub struct Plan {
    /// All nodes; `depends_on` orders their execution.
    pub nodes: Vec<PlanNode>,
    /// What the plan does, for a human.
    pub description: String,
    /// Whether the plan is to be shown but not executed.
    pub dry_run: bool,
}

impl Plan {
    /// A plan without nodes.
    pub fn empty() -> (p: Plan)
        ensures
            p.nodes@.len() == 0,
            p.description@.len() == 0,
            !p.dry_run,
    {
        Plan { nodes: Vec::new(), description: String::new(), dry_run: false }
    }

    /// A plan of one node.
    pub fn single(node: PlanNode, description: &str) -> (p: Plan)
        ensures
            p.nodes@ == seq![node],
            p.description@ == description@,
            !p.dry_run,
    {
        Plan { nodes: vec![node], description: description.to_owned(), dry_run: false }
    }

    /// This plan, marked to be shown but not executed.
    pub fn as_dry_run(self) -> (p: Plan)
        ensures
            p.nodes@ == self.nodes@,
            p.description@ == self.description@,
            p.dry_run,
    {
        let mut p = self;
        p.dry_run = true;
        p
    }
}

/// The outcome of executing a plan.
#[derive(Debug, Clone)]
pub struct PlanResult {
    /// One result per node, in execution order.
    pub node_results: Vec<NodeResult>,
}

/// The outcome of executing one node.
#[derive(Debug, Clone)]
pub struct NodeResult {
    /// The node executed.
    pub node_id: NodeId,
    /// Whether it succeeded.
    pub success: bool,
    /// What went wrong, where it failed.
    pub error: Option<String>,
}

/// What a restore starts from.
#[derive(Debug, Clone)]
pub struct SnapshotManifest {
    /// The workspace's identifier.
    pub workspace_id: String,
    /// The captured layout, as JSON text.
    pub layout: String,
}

/// The arguments of a capture node: `{"capabilities":<bits>}`.
pub open spec fn capture_args_text(bits: u32) -> Seq<char> {
    "{\"capabilities\":"@ + digits(bits as nat) + "}"@
}

/// The arguments of a restore node, keys in order:
/// `{"capabilities":<bits>,"layout":<layout>,"workspace_id":"<id>"}`.
pub open spec fn restore_args_text(bits: u32, layout: Seq<char>, workspace_id: Seq<char>) -> Seq<char> {
    "{\"capabilities\":"@ + digits(bits as nat) + ",\"layout\":"@ + layout + ",\"workspace_id\":\""@
        + json_escape_text(workspace_id) + "\"}"@
}

/// The capture plan for a capability set: one `capture.layout` node.
pub fn plan_capture(capabilities: &Capability) -> (p: Plan)
    ensures
        p.nodes@.len() == 1,
        p.nodes@[0].verb@ == verbs::CAPTURE_LAYOUT@,
        p.nodes@[0].depends_on@.len() == 0,
        p.nodes@[0].args@ == capture_args_text(capabilities.spec_bits()),
        p.description@ == "Capture workspace layout"@,
        !p.dry_run,
{
    let mut args = String::from_str("{\"capabilities\":");
    push_decimal(&mut args, capabilities.bits() as u64);
    args.append("}");
    let node = PlanNode::leaf(verbs::CAPTURE_LAYOUT, args);
    Plan::single(node, "Capture workspace layout")
}

/// The restore plan for a snapshot and a capability set: one
/// `restore.layout` node.
pub fn plan_restore(manifest: &SnapshotManifest, capabilities: &Capability) -> (p: Plan)
    ensures
        p.nodes@.len() == 1,
        p.nodes@[0].verb@ == verbs::RESTORE_LAYOUT@,
        p.nodes@[0].depends_on@.len() == 0,
        p.nodes@[0].args@ == restore_args_text(
            capabilities.spec_bits(),
            manifest.layout@,
            manifest.workspace_id@,
        ),
        p.description@ == "Restore workspace layout"@,
        !p.dry_run,
{
    let mut args = String::from_str("{\"capabilities\":");
    push_decimal(&mut args, capabilities.bits() as u64);
    args.append(",\"layout\":");
    args.append(manifest.layout.as_str());
    args.append(",\"workspace_id\":\"");
    args.append(escape_json_string(manifest.workspace_id.as_str()).as_str());
    args.append("\"}");
    let node = PlanNode::leaf(verbs::RESTORE_LAYOUT, args);
    Plan::single(node, "Restore workspace layout")
}

/// The order in which the nodes run: a topological order of the
/// dependencies. Plans of this version are single nodes, so the order is the
/// nodes' own.
fn topo_order(nodes: &[PlanNode]) -> (r: Vec<usize>)
    ensures
        r@.len() == nodes@.len(),
        forall|k: int| 0 <= k < r@.len() ==> r@[k] == k,
{
    let mut r: Vec<usize> = Vec::new();
    let mut k: usize = 0;
    while k < nodes.len()
        invariant
            k <= nodes@.len(),
            r@.len() == k,
            forall|j: int| 0 <= j < k ==> r@[j] == j,
        decreases nodes@.len() - k,
    {
        r.push(k);
        k = k + 1;
    }
    r
}

/// The message of a node whose verb no backend runs.
pub open spec fn unknown_verb_text(verb: Seq<char>) -> Seq<char> {
    "unknown verb: "@ + verb
}

/// `m` is the text a node result carries for the backend error `e`.
pub open spec fn carries_error(e: MuxError, m: Seq<char>) -> bool {
    match mux_error_text(&e) {
        Some(t) => m == t,
        None => m.take(4) == "io: "@,
    }
}

/// The result of a capture node, given what the backend's `discover`
/// returned and what capturing the first session it listed returned: the
/// discovery's error, success where no session runs, else the capture's
/// outcome.
pub open spec fn capture_outcome(
    id: NodeId,
    discovered: Result<Vec<String>, MuxError>,
    captured: Result<LayoutCapture, MuxError>,
    r: NodeResult,
) -> bool {
    &&& r.node_id == id
    &&& match discovered {
        Err(e) => !r.success && (r.error matches Some(m) && carries_error(e, m@)),
        Ok(sessions) => if sessions@.len() == 0 {
            r.success && r.error is None
        } else {
            match captured {
                Ok(_) => r.success && r.error is None,
                Err(e) => !r.success && (r.error matches Some(m) && carries_error(e, m@)),
            }
        },
    }
}

/// `c` is what the backend's `capture` returned for the first session that
/// `discover` listed, where it listed one.
pub open spec fn captures_first<M: Mux>(mux: &M, discovered: Result<Vec<String>, MuxError>, c: Result<LayoutCapture, MuxError>) -> bool {
    match discovered {
        Ok(sessions) => sessions@.len() > 0 ==> exists|name: &str|
            name@ == sessions@[0]@ && #[trigger] call_ensures(<M as Mux>::capture, (mux, name), c),
        Err(_) => true,
    }
}

/// Executing `node` against `mux` gives `r`: a `capture.layout` node asks the
/// backend for its sessions and captures the first (success where none
/// runs), a `restore.layout` node succeeds without effect, any other verb
/// fails as unknown.
pub open spec fn executes<M: Mux>(mux: &M, node: PlanNode, r: NodeResult) -> bool {
    &&& r.node_id == node.id
    &&& r.success <==> r.error is None
    &&& node.verb@ == verbs::CAPTURE_LAYOUT@ ==> exists|
        d: Result<Vec<String>, MuxError>,
        c: Result<LayoutCapture, MuxError>,
    |
        #![trigger call_ensures(<M as Mux>::discover, (mux,), d), capture_outcome(node.id, d, c, r)]
        call_ensures(<M as Mux>::discover, (mux,), d) && captures_first(mux, d, c) && capture_outcome(node.id, d, c, r)
    &&& node.verb@ == verbs::RESTORE_LAYOUT@ ==> r.success
    &&& node.verb@ != verbs::CAPTURE_LAYOUT@ && node.verb@ != verbs::RESTORE_LAYOUT@ ==> (r.error matches Some(m)
        && m@ == unknown_verb_text(node.verb@))
}

/// Executes one node against a backend: `capture.layout` captures the first
/// running session (and succeeds where none runs), `restore.layout` succeeds
/// without effect, any other verb fails.
fn execute_node<M: Mux>(node: &PlanNode, mux: &M) -> (r: NodeResult)
    ensures
        executes(mux, *node, r),
{
    proof {
        reveal_strlit("capture.layout");
        reveal_strlit("restore.layout");
        assert(verbs::CAPTURE_LAYOUT@[0] != verbs::RESTORE_LAYOUT@[0]);
    }
    if crate::chars::same_text(node.verb.as_str(), verbs::CAPTURE_LAYOUT) {
        let discovered = mux.discover();
        let ghost d = discovered;
        assert(call_ensures(<M as Mux>::discover, (mux,), d));
        match discovered {
            Ok(sessions) => {
                if sessions.len() == 0 {
                    let r = NodeResult { node_id: node.id, success: true, error: None };
                    let ghost c: Result<LayoutCapture, MuxError> = vstd::pervasive::arbitrary();
                    assert(capture_outcome(node.id, d, c, r));
                    r
                } else {
                    let name = sessions[0].as_str();
                    let captured = mux.capture(name);
                    let ghost c = captured;
                    assert(call_ensures(<M as Mux>::capture, (mux, name), c));
                    let r = match captured {
                        Ok(_) => NodeResult { node_id: node.id, success: true, error: None },
                        Err(e) => NodeResult { node_id: node.id, success: false, error: Some(e.to_string()) },
                    };
                    assert(capture_outcome(node.id, d, c, r));
                    r
                }
            },
            Err(e) => {
                let r = NodeResult { node_id: node.id, success: false, error: Some(e.to_string()) };
                let ghost c: Result<LayoutCapture, MuxError> = vstd::pervasive::arbitrary();
                assert(capture_outcome(node.id, d, c, r));
                r
            },
        }
    } else if crate::chars::same_text(node.verb.as_str(), verbs::RESTORE_LAYOUT) {
        NodeResult { node_id: node.id, success: true, error: None }
    } else {
        let mut m = String::from_str("unknown verb: ");
        m.append(node.verb.as_str());
        NodeResult { node_id: node.id, success: false, error: Some(m) }
    }
}

/// Executes a plan against a multiplexer backend, node by node in
/// dependency order. A dry-run plan executes nothing. A node's failure is
/// reported in its result and does not stop the plan.
pub fn execute<M: Mux>(plan: &Plan, mux: &M) -> (r: Result<PlanResult, String>)
    ensures
        r matches Ok(res) && (plan.dry_run ==> res.node_results@.len() == 0) && (!plan.dry_run
            ==> res.node_results@.len() == plan.nodes@.len() && forall|k: int|
            0 <= k < plan.nodes@.len() ==> executes(mux, plan.nodes@[k], #[trigger] res.node_results@[k])),
{
    if plan.dry_run {
        return Ok(PlanResult { node_results: Vec::new() });
    }
    let order = topo_order(plan.nodes.as_slice());
    let mut results: Vec<NodeResult> = Vec::new();
    let mut k: usize = 0;
    while k < order.len()
        invariant
            k <= order@.len(),
            order@.len() == plan.nodes@.len(),
            forall|j: int| 0 <= j < order@.len() ==> order@[j] == j,
            results@.len() == k,
            forall|j: int| 0 <= j < k ==> executes(mux, plan.nodes@[j], #[trigger] results@[j]),
        decreases order@.len() - k,
    {
        let result = execute_node(&plan.nodes[order[k]], mux);
        results.push(result);
        k = k + 1;
    }
    Ok(PlanResult { node_results: results })
}

} // verus!
