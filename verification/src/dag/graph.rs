//! Edges, node names and the mathematical model of an event graph.

use vstd::prelude::*;

verus! {

/// A directed edge in the event DAG: `from --[event]--> to`.
///
/// One event type may appear on multiple edges (fan-out).
#[derive(Debug, Clone)]
pub struct DagEdge {
    /// Emitting node name.
    pub from: String,
    /// Event type name, the edge's identity.
    pub event: String,
    /// Receiving node name.
    pub to: String,
}

impl DagEdge {
    /// Builds an edge from its three names.
    pub fn new(from: &str, event: &str, to: &str) -> (e: DagEdge)
        ensures
            e.from@ == from@,
            e.event@ == event@,
            e.to@ == to@,
    {
        DagEdge { from: from.to_owned(), event: event.to_owned(), to: to.to_owned() }
    }
}

/// The text of each string in a sequence.
pub open spec fn texts(v: Seq<String>) -> Seq<Seq<char>> {
    v.map_values(|s: String| s@)
}

/// `u --[ev]--> v` is one of the edges.
pub open spec fn has_edge(edges: Seq<DagEdge>, u: Seq<char>, ev: Seq<char>, v: Seq<char>) -> bool {
    exists|i: int|
        0 <= i < edges.len() && #[trigger] edges[i].from@ == u && edges[i].event@ == ev
            && edges[i].to@ == v
}

/// `u --> v` along some edge, whatever its event.
pub open spec fn linked(edges: Seq<DagEdge>, u: Seq<char>, v: Seq<char>) -> bool {
    exists|i: int| 0 <= i < edges.len() && #[trigger] edges[i].from@ == u && edges[i].to@ == v
}

/// `n` is an endpoint of some edge.
pub open spec fn is_node(edges: Seq<DagEdge>, n: Seq<char>) -> bool {
    exists|i: int| 0 <= i < edges.len() && (#[trigger] edges[i].from@ == n || edges[i].to@ == n)
}

/// Step `k` of an alternating trace `[node, event, node, ...]` is an edge.
pub open spec fn trace_step(edges: Seq<DagEdge>, t: Seq<Seq<char>>, k: int) -> bool {
    has_edge(edges, t[2 * k], t[2 * k + 1], t[2 * k + 2])
}

/// `t = [node0, event0, node1, ..., nodeN]` follows edges of the graph.
pub open spec fn is_trace(edges: Seq<DagEdge>, t: Seq<Seq<char>>) -> bool {
    &&& t.len() >= 3
    &&& t.len() % 2 == 1
    &&& forall|k: int| 0 <= k < (t.len() - 1) / 2 ==> #[trigger] trace_step(edges, t, k)
}

/// A trace that returns to the node it started from.
pub open spec fn is_cycle_trace(edges: Seq<DagEdge>, t: Seq<Seq<char>>) -> bool {
    is_trace(edges, t) && t[0] == t[t.len() - 1]
}

/// The node at step `k` of a trace.
pub open spec fn node_at(t: Seq<Seq<char>>, k: int) -> Seq<char> {
    t[2 * k]
}

/// The trace goes round its cycle once: its nodes, all but the last, are
/// pairwise distinct.
pub open spec fn is_simple_trace(t: Seq<Seq<char>>) -> bool {
    forall|a: int, b: int|
        0 <= a < b < (t.len() - 1) / 2 ==> #[trigger] node_at(t, a) != #[trigger] node_at(t, b)
}

/// No event can trigger itself, directly or transitively.
pub open spec fn acyclic(edges: Seq<DagEdge>) -> bool {
    forall|t: Seq<Seq<char>>| !#[trigger] is_cycle_trace(edges, t)
}

/// A rank that strictly decreases along every edge.
pub open spec fn decreasing_rank(edges: Seq<DagEdge>, r: spec_fn(Seq<char>) -> int) -> bool {
    forall|i: int| 0 <= i < edges.len() ==> r(#[trigger] edges[i].from@) > r(edges[i].to@)
}

proof fn lemma_rank_along_trace(
    edges: Seq<DagEdge>,
    t: Seq<Seq<char>>,
    r: spec_fn(Seq<char>) -> int,
    m: int,
)
    requires
        is_trace(edges, t),
        decreasing_rank(edges, r),
        1 <= m <= (t.len() - 1) / 2,
    ensures
        r(t[0]) > r(t[2 * m]),
    decreases m,
{
    assert(trace_step(edges, t, m - 1));
    let i = choose|i: int|
        0 <= i < edges.len() && #[trigger] edges[i].from@ == t[2 * (m - 1)] && edges[i].event@
            == t[2 * (m - 1) + 1] && edges[i].to@ == t[2 * (m - 1) + 2];
    assert(r(edges[i].from@) > r(edges[i].to@));
    if m > 1 {
        lemma_rank_along_trace(edges, t, r, m - 1);
    }
}

/// A graph with a strictly decreasing rank has no cycle.
pub proof fn lemma_ranked_graph_is_acyclic(edges: Seq<DagEdge>, r: spec_fn(Seq<char>) -> int)
    requires
        decreasing_rank(edges, r),
    ensures
        acyclic(edges),
{
    assert forall|t: Seq<Seq<char>>| !#[trigger] is_cycle_trace(edges, t) by {
        if is_cycle_trace(edges, t) {
            let m = (t.len() - 1) / 2;
            lemma_rank_along_trace(edges, t, r, m);
            assert(2 * m == t.len() - 1);
        }
    }
}

/// A cycle witness shows the graph is not acyclic.
pub proof fn lemma_cycle_trace_refutes_acyclic(edges: Seq<DagEdge>, t: Seq<Seq<char>>)
    requires
        is_cycle_trace(edges, t),
    ensures
        !acyclic(edges),
{
}

} // verus!
