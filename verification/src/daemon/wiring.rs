//! The daemon's event topology: the executable architecture diagram.
//!
//! Every edge declares which event flows, which node emits it and which node
//! receives it. The nodes are `Protocol` (the verb layer), `Mux` (the
//! multiplexer backend), `Store` (persistent storage) and `Recorder` (the
//! durable event log). [`verify`] runs once at startup: a wiring error is a
//! programming mistake, never a runtime condition.

use vstd::prelude::*;
use vstd::string::StringExecFns;
use crate::dag::graph::{DagEdge, acyclic, is_node, linked, lemma_ranked_graph_is_acyclic};
use crate::dag::reach::{covered, has_incoming, has_outgoing, is_origin, is_walk, walk_step, dir_linked};
use crate::dag::wiring::{is_declared, unreachable_node, dead_end_node};
use crate::dag::termination::check_termination;
use crate::dag::completeness::check_completeness;
use crate::dag::wiring::fully_wired;

verus! {

/// `(from, event, to)` of an edge.
pub open spec fn edge_triple(e: DagEdge) -> (Seq<char>, Seq<char>, Seq<char>) {
    (e.from@, e.event@, e.to@)
}

/// The daemon's event arcs: one per domain event type.
pub open spec fn daemon_edge_triples() -> Seq<(Seq<char>, Seq<char>, Seq<char>)> {
    seq![
        ("Protocol"@, "WorkspaceOpened"@, "Recorder"@),
        ("Protocol"@, "WorkspaceClosed"@, "Recorder"@),
        ("Mux"@, "RuntimeAttached"@, "Recorder"@),
        ("Mux"@, "RuntimeDetached"@, "Recorder"@),
        ("Mux"@, "PaneOpened"@, "Recorder"@),
        ("Mux"@, "PaneClosed"@, "Recorder"@),
        ("Mux"@, "FocusChanged"@, "Recorder"@),
        ("Mux"@, "LayoutChanged"@, "Recorder"@),
        ("Store"@, "SnapshotCreated"@, "Recorder"@),
        ("Store"@, "SnapshotRestored"@, "Recorder"@),
    ]
}

/// The node names the topology declares.
pub open spec fn daemon_node_texts() -> Seq<Seq<char>> {
    seq!["Protocol"@, "Mux"@, "Store"@, "Recorder"@]
}

/// All event arcs of the daemon, each read `event: from -> to`.
///
/// Workspace lifecycle: the protocol layer emits, the recorder logs.
/// Multiplexer lifecycle: the mux backend emits. Snapshot outcomes: the store
/// emits after commit.
pub fn edges() -> (r: Vec<DagEdge>)
    ensures
        r@.map_values(|e: DagEdge| edge_triple(e)) == daemon_edge_triples(),
{
    let r = vec![
        DagEdge::new("Protocol", "WorkspaceOpened", "Recorder"),
        DagEdge::new("Protocol", "WorkspaceClosed", "Recorder"),
        DagEdge::new("Mux", "RuntimeAttached", "Recorder"),
        DagEdge::new("Mux", "RuntimeDetached", "Recorder"),
        DagEdge::new("Mux", "PaneOpened", "Recorder"),
        DagEdge::new("Mux", "PaneClosed", "Recorder"),
        DagEdge::new("Mux", "FocusChanged", "Recorder"),
        DagEdge::new("Mux", "LayoutChanged", "Recorder"),
        DagEdge::new("Store", "SnapshotCreated", "Recorder"),
        DagEdge::new("Store", "SnapshotRestored", "Recorder"),
    ];
    assert(r@.map_values(|e: DagEdge| edge_triple(e)) =~= daemon_edge_triples());
    r
}

/// The node names this topology declares explicitly.
pub fn declared_nodes() -> (r: Vec<&'static str>)
    ensures
        r@.map_values(|s: &'static str| s@) == daemon_node_texts(),
{
    let r = vec!["Protocol", "Mux", "Store", "Recorder"];
    assert(r@.map_values(|s: &'static str| s@) =~= daemon_node_texts());
    r
}

/// Checks a topology: first that no event can trigger itself (no cycle),
/// then that every declared node lies on a source-to-sink path. The error
/// names the first violation found.
pub fn verify_topology(declared: &[&str], edges: &[DagEdge]) -> (r: Result<(), String>)
    ensures
        r is Ok <==> acyclic(edges@) && fully_wired(declared@, edges@),
        r matches Err(m) ==> m@.take(14) == "event wiring: "@,
{
    match check_termination(edges) {
        Err(e) => {
            let mut m = String::from_str("event wiring: ");
            m.append(e.to_string().as_str());
            proof {
                reveal_strlit("event wiring: ");
                assert(m@.take(14) =~= "event wiring: "@);
            }
            return Err(m);
        },
        Ok(()) => {},
    }
    match check_completeness(declared, edges) {
        Err(e) => {
            let mut m = String::from_str("event wiring: ");
            m.append(e.to_string().as_str());
            proof {
                reveal_strlit("event wiring: ");
                assert(m@.take(14) =~= "event wiring: "@);
            }
            Err(m)
        },
        Ok(()) => Ok(()),
    }
}

/// The node names are distinct.
proof fn lemma_node_names_distinct()
    ensures
        "Protocol"@ != "Recorder"@,
        "Mux"@ != "Recorder"@,
        "Store"@ != "Recorder"@,
{
    reveal_strlit("Protocol");
    reveal_strlit("Mux");
    reveal_strlit("Store");
    reveal_strlit("Recorder");
    assert("Protocol"@[0] != "Recorder"@[0]);
    assert("Mux"@[0] != "Recorder"@[0]);
    assert("Store"@[0] != "Recorder"@[0]);
}

/// Every arc of the daemon leaves the protocol layer, the mux or the store,
/// and enters the recorder.
proof fn lemma_daemon_edge(es: Seq<DagEdge>, i: int)
    requires
        es.map_values(|e: DagEdge| edge_triple(e)) == daemon_edge_triples(),
        0 <= i < es.len(),
    ensures
        es.len() == 10,
        es[i].to@ == "Recorder"@,
        es[i].from@ == "Protocol"@ || es[i].from@ == "Mux"@ || es[i].from@ == "Store"@,
{
    let t = daemon_edge_triples();
    assert(es.map_values(|e: DagEdge| edge_triple(e)).len() == t.len());
    assert(es.map_values(|e: DagEdge| edge_triple(e))[i] == edge_triple(es[i]));
    assert(t.len() == 10);
    if i == 0 { assert(t[0].2 == "Recorder"@); }
    else if i == 1 { assert(t[1].2 == "Recorder"@); }
    else if i == 2 { assert(t[2].2 == "Recorder"@); }
    else if i == 3 { assert(t[3].2 == "Recorder"@); }
    else if i == 4 { assert(t[4].2 == "Recorder"@); }
    else if i == 5 { assert(t[5].2 == "Recorder"@); }
    else if i == 6 { assert(t[6].2 == "Recorder"@); }
    else if i == 7 { assert(t[7].2 == "Recorder"@); }
    else if i == 8 { assert(t[8].2 == "Recorder"@); }
    else { assert(t[9].2 == "Recorder"@); }
}

/// Every arc leaves a node other than the recorder and enters the recorder.
proof fn lemma_arcs_enter_recorder(es: Seq<DagEdge>)
    requires
        es.map_values(|e: DagEdge| edge_triple(e)) == daemon_edge_triples(),
    ensures
        es.len() == 10,
        forall|i: int| 0 <= i < es.len() ==> (#[trigger] es[i]).to@ == "Recorder"@ && es[i].from@ != "Recorder"@,
{
    lemma_node_names_distinct();
    assert(es.map_values(|e: DagEdge| edge_triple(e)).len() == daemon_edge_triples().len());
    assert forall|i: int| 0 <= i < es.len() implies (#[trigger] es[i]).to@ == "Recorder"@ && es[i].from@
        != "Recorder"@ by {
        lemma_daemon_edge(es, i);
    }
}

/// No event of the daemon can trigger itself.
pub proof fn lemma_daemon_acyclic(es: Seq<DagEdge>)
    requires
        es.map_values(|e: DagEdge| edge_triple(e)) == daemon_edge_triples(),
    ensures
        acyclic(es),
{
    lemma_arcs_enter_recorder(es);
    let rec = "Recorder"@;
    let r = |n: Seq<char>| if n == rec { 0int } else { 1int };
    lemma_ranked_graph_is_acyclic(es, r);
}

/// Every node of the daemon's graph is reached from a source and reaches a
/// sink.
#[verifier::spinoff_prover]
proof fn lemma_daemon_nodes_covered(es: Seq<DagEdge>)
    requires
        es.map_values(|e: DagEdge| edge_triple(e)) == daemon_edge_triples(),
    ensures
        forall|n: Seq<char>| is_node(es, n) ==> covered(es, true, n) && covered(es, false, n),
{
    lemma_arcs_enter_recorder(es);
    let rec = "Recorder"@;
    let p0 = es[0].from@;
    assert(is_node(es, rec));
    assert(is_node(es, p0));
    assert(!has_outgoing(es, rec));
    assert(!has_incoming(es, p0));
    assert(linked(es, p0, rec));
    assert forall|n: Seq<char>| is_node(es, n) implies covered(es, true, n) && covered(es, false, n) by {
        if n == rec {
            let f = seq![p0, rec];
            assert(walk_step(es, true, f, 0));
            assert(is_walk(es, true, f));
            assert(is_origin(es, true, f[0]));
            let b = seq![rec];
            assert(is_walk(es, false, b));
            assert(is_origin(es, false, b[0]));
        } else {
            let i = choose|i: int| 0 <= i < es.len() && (#[trigger] es[i].from@ == n || es[i].to@ == n);
            assert(es[i].from@ == n);
            assert(!has_incoming(es, n));
            let f = seq![n];
            assert(is_walk(es, true, f));
            assert(is_origin(es, true, f[0]));
            let b = seq![rec, n];
            assert(linked(es, n, rec));
            assert(walk_step(es, false, b, 0));
            assert(is_walk(es, false, b));
            assert(is_origin(es, false, b[0]));
        }
    }
}

/// Every declared node of the daemon is a node of its graph.
#[verifier::spinoff_prover]
proof fn lemma_daemon_declared_are_nodes(es: Seq<DagEdge>, ds: Seq<&str>)
    requires
        es.map_values(|e: DagEdge| edge_triple(e)) == daemon_edge_triples(),
        ds.map_values(|s: &str| s@) == daemon_node_texts(),
    ensures
        forall|n: Seq<char>| is_declared(ds, n) ==> is_node(es, n),
{
    let t = daemon_edge_triples();
    assert(es.map_values(|e: DagEdge| edge_triple(e)).len() == t.len());
    assert(es.map_values(|e: DagEdge| edge_triple(e))[0] == edge_triple(es[0]));
    assert(es.map_values(|e: DagEdge| edge_triple(e))[2] == edge_triple(es[2]));
    assert(es.map_values(|e: DagEdge| edge_triple(e))[8] == edge_triple(es[8]));
    assert(t[0].0 == "Protocol"@ && t[0].2 == "Recorder"@);
    assert(t[2].0 == "Mux"@);
    assert(t[8].0 == "Store"@);
    assert(ds.map_values(|s: &str| s@).len() == 4);
    assert forall|n: Seq<char>| is_declared(ds, n) implies is_node(es, n) by {
        let k = choose|k: int| 0 <= k < ds.len() && #[trigger] ds[k]@ == n;
        assert(ds.map_values(|s: &str| s@)[k] == ds[k]@);
        if k == 0 {
            assert(es[0].from@ == n);
        } else if k == 1 {
            assert(es[2].from@ == n);
        } else if k == 2 {
            assert(es[8].from@ == n);
        } else {
            assert(es[0].to@ == n);
        }
    }
}

/// The daemon's topology is sound: no event can trigger itself, and every
/// declared node lies on a path from a source to a sink.
pub proof fn lemma_daemon_topology_sound(es: Seq<DagEdge>, ds: Seq<&str>)
    requires
        es.map_values(|e: DagEdge| edge_triple(e)) == daemon_edge_triples(),
        ds.map_values(|s: &str| s@) == daemon_node_texts(),
    ensures
        acyclic(es),
        fully_wired(ds, es),
{
    lemma_daemon_acyclic(es);
    lemma_daemon_nodes_covered(es);
    lemma_daemon_declared_are_nodes(es, ds);
    assert forall|n: Seq<char>| !#[trigger] unreachable_node(ds, es, n) by {}
    assert forall|n: Seq<char>| !#[trigger] dead_end_node(ds, es, n) by {}
}

/// `r` is the verdict on the daemon's topology, given as the edges `es` and
/// the declared nodes `ds`.
pub open spec fn verdict_on_daemon(r: Result<(), String>, es: Seq<DagEdge>, ds: Seq<&str>) -> bool {
    &&& es.map_values(|e: DagEdge| edge_triple(e)) == daemon_edge_triples()
    &&& ds.map_values(|s: &str| s@) == daemon_node_texts()
    &&& (r is Ok <==> acyclic(es) && fully_wired(ds, es))
}

/// Verifies the structural integrity of the daemon's event topology.
pub fn verify() -> (r: Result<(), String>)
    ensures
        exists|es: Seq<DagEdge>, ds: Seq<&str>| #[trigger] verdict_on_daemon(r, es, ds),
        r is Ok,
{
    let es = edges();
    let ds = declared_nodes();
    let r = verify_topology(ds.as_slice(), es.as_slice());
    assert(ds@.map_values(|s: &str| s@) =~= ds@.map_values(|s: &'static str| s@));
    assert(verdict_on_daemon(r, es@, ds@));
    proof {
        lemma_daemon_topology_sound(es@, ds@);
    }
    r
}

} // verus!
