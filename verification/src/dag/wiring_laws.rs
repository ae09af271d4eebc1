//! Laws of the wiring check: an acyclic graph is fully wired, and the gaps
//! reported depend on the graph alone.

use vstd::prelude::*;
use crate::dag::graph::{
    DagEdge, texts, linked, is_node, has_edge, trace_step, is_cycle_trace, acyclic,
    lemma_cycle_trace_refutes_acyclic,
};
use crate::dag::reach::{is_walk, walk_step, is_origin, covered, dir_linked, has_incoming, has_outgoing};
use crate::dag::text::lemma_sorted_lists_equal;
use crate::dag::wiring::{unreachable_node, dead_end_node, fully_wired, is_declared, lists_sorted};

verus! {

/// The endpoints of the edges: the `from` of each edge, then the `to` of
/// each.
spec fn endpoints(edges: Seq<DagEdge>) -> Seq<Seq<char>> {
    Seq::new(edges.len(), |k: int| edges[k].from@) + Seq::new(edges.len(), |k: int| edges[k].to@)
}

/// A walk that meets no node twice is no longer than the edge list's
/// endpoints.
proof fn lemma_distinct_nodes_bound(edges: Seq<DagEdge>, p: Seq<Seq<char>>)
    requires
        p.no_duplicates(),
        forall|j: int| 0 <= j < p.len() ==> is_node(edges, #[trigger] p[j]),
    ensures
        p.len() <= 2 * edges.len(),
{
    let e = endpoints(edges);
    assert forall|x: Seq<char>| p.to_set().contains(x) implies e.to_set().contains(x) by {
        let j = choose|j: int| 0 <= j < p.len() && p[j] == x;
        assert(is_node(edges, p[j]));
        let i = choose|i: int| #![trigger edges[i]] 0 <= i < edges.len() && (edges[i].from@ == x || edges[i].to@ == x);
        if edges[i].from@ == x {
            assert(e[i] == x);
        } else {
            assert(e[edges.len() + i] == x);
        }
    }
    p.unique_seq_to_set();
    e.lemma_cardinality_of_set();
    vstd::seq_lib::seq_to_set_is_finite(e);
    vstd::set_lib::lemma_len_subset(p.to_set(), e.to_set());
}

/// The event of some edge `a --> b`.
spec fn event_between(edges: Seq<DagEdge>, a: Seq<char>, b: Seq<char>) -> Seq<char> {
    edges[choose|i: int| 0 <= i < edges.len() && #[trigger] edges[i].from@ == a && edges[i].to@ == b].event@
}

/// The trace `[p0, event, p1, event, ...]` of a walk along the edges.
spec fn walk_trace(edges: Seq<DagEdge>, p: Seq<Seq<char>>) -> Seq<Seq<char>>
    decreases p.len(),
{
    if p.len() <= 1 {
        p
    } else {
        walk_trace(edges, p.drop_last()) + seq![event_between(edges, p[p.len() - 2], p.last()), p.last()]
    }
}

proof fn lemma_walk_trace(edges: Seq<DagEdge>, p: Seq<Seq<char>>)
    requires
        is_walk(edges, true, p),
    ensures
        walk_trace(edges, p).len() == 2 * p.len() - 1,
        forall|k: int| 0 <= k < p.len() ==> #[trigger] walk_trace(edges, p)[2 * k] == p[k],
        forall|k: int| 0 <= k < p.len() - 1 ==> #[trigger] trace_step(edges, walk_trace(edges, p), k),
    decreases p.len(),
{
    if p.len() > 1 {
        let q = p.drop_last();
        assert forall|k: int| 0 <= k < q.len() - 1 implies #[trigger] walk_step(edges, true, q, k) by {
            assert(walk_step(edges, true, p, k));
        }
        lemma_walk_trace(edges, q);
        let t = walk_trace(edges, p);
        let tq = walk_trace(edges, q);
        assert forall|k: int| 0 <= k < p.len() implies #[trigger] t[2 * k] == p[k] by {
            if k < q.len() {
                assert(tq[2 * k] == q[k]);
            }
        }
        assert forall|k: int| 0 <= k < p.len() - 1 implies #[trigger] trace_step(edges, t, k) by {
            if k < q.len() - 1 {
                assert(trace_step(edges, tq, k));
                assert(t[2 * k] == tq[2 * k]);
                assert(t[2 * k + 1] == tq[2 * k + 1]);
                assert(t[2 * k + 2] == tq[2 * k + 2]);
            } else {
                assert(walk_step(edges, true, p, k));
                let a = p[p.len() - 2];
                let b = p.last();
                assert(linked(edges, a, b));
                let i = choose|i: int| 0 <= i < edges.len() && #[trigger] edges[i].from@ == a && edges[i].to@ == b;
                assert(t[2 * k] == tq[2 * k]);
                assert(tq[2 * k] == q[k]);
                assert(has_edge(edges, t[2 * k], t[2 * k + 1], t[2 * k + 2]));
            }
        }
    }
}

/// A walk along the edges with an edge back from its end to its start
/// closes a cycle.
proof fn lemma_walk_closing_edge(edges: Seq<DagEdge>, q: Seq<Seq<char>>)
    requires
        is_walk(edges, true, q),
        linked(edges, q.last(), q[0]),
    ensures
        !acyclic(edges),
{
    let q2 = q.push(q[0]);
    assert forall|k: int| 0 <= k < q2.len() - 1 implies #[trigger] walk_step(edges, true, q2, k) by {
        if k < q.len() - 1 {
            assert(walk_step(edges, true, q, k));
        }
    }
    lemma_walk_trace(edges, q2);
    let t = walk_trace(edges, q2);
    let z: int = 0;
    assert(t[2 * z] == q2[z]);
    assert(t[2 * (q2.len() - 1)] == q2[q2.len() - 1]);
    assert(is_cycle_trace(edges, t));
    lemma_cycle_trace_refutes_acyclic(edges, t);
}

/// In an acyclic graph every walk without repeated nodes extends, against
/// its direction, to one that starts at an origin: a source going forward,
/// a sink going backward.
proof fn lemma_reach_origin(edges: Seq<DagEdge>, forward: bool, p: Seq<Seq<char>>)
    requires
        acyclic(edges),
        is_walk(edges, forward, p),
        p.no_duplicates(),
        forall|j: int| 0 <= j < p.len() ==> is_node(edges, #[trigger] p[j]),
    ensures
        covered(edges, forward, p.last()),
    decreases 2 * edges.len() - p.len(),
{
    lemma_distinct_nodes_bound(edges, p);
    if is_origin(edges, forward, p[0]) {
        assert(is_walk(edges, forward, p) && is_origin(edges, forward, p[0]) && p[p.len() - 1] == p.last());
    } else {
        assert(is_node(edges, p[0]));
        let i = choose|i: int|
            0 <= i < edges.len() && (if forward { #[trigger] edges[i].to@ == p[0] } else { edges[i].from@ == p[0] });
        let a = if forward { edges[i].from@ } else { edges[i].to@ };
        if p.contains(a) {
            let j = choose|j: int| 0 <= j < p.len() && p[j] == a;
            let pj = p.take(j + 1);
            if forward {
                assert forall|k: int| 0 <= k < pj.len() - 1 implies #[trigger] walk_step(edges, true, pj, k) by {
                    assert(walk_step(edges, true, p, k));
                }
                assert(linked(edges, pj.last(), pj[0]));
                lemma_walk_closing_edge(edges, pj);
            } else {
                let q = pj.reverse();
                assert forall|k: int| 0 <= k < q.len() - 1 implies #[trigger] walk_step(edges, true, q, k) by {
                    assert(walk_step(edges, false, p, j - 1 - k));
                }
                assert(linked(edges, q.last(), q[0]));
                lemma_walk_closing_edge(edges, q);
            }
        } else {
            let p2 = seq![a] + p;
            assert forall|k: int| 0 <= k < p2.len() - 1 implies #[trigger] walk_step(edges, forward, p2, k) by {
                if k == 0 {
                    assert(dir_linked(edges, forward, a, p[0]));
                } else {
                    assert(walk_step(edges, forward, p, k - 1));
                }
            }
            assert forall|j: int| 0 <= j < p2.len() implies is_node(edges, #[trigger] p2[j]) by {
                if j > 0 {
                    assert(p2[j] == p[j - 1]);
                }
            }
            assert(p2.no_duplicates());
            lemma_distinct_nodes_bound(edges, p2);
            lemma_reach_origin(edges, forward, p2);
            assert(p2.last() == p.last());
        }
    }
}

/// An acyclic graph is fully wired: each of its nodes, and each declared
/// node among them, lies on a path from a source to a sink. In particular,
/// with nothing declared beside the edges, an acyclic edge list always
/// passes the wiring check.
pub proof fn lemma_acyclic_is_fully_wired(declared: Seq<&str>, edges: Seq<DagEdge>)
    requires
        acyclic(edges),
        forall|k: int| 0 <= k < declared.len() ==> is_node(edges, #[trigger] declared[k]@),
    ensures
        fully_wired(declared, edges),
{
    assert forall|n: Seq<char>| !#[trigger] unreachable_node(declared, edges, n) by {
        if is_declared(declared, n) {
            let k = choose|k: int| 0 <= k < declared.len() && #[trigger] declared[k]@ == n;
            assert(is_node(edges, declared[k]@));
        }
        if is_node(edges, n) {
            let p = seq![n];
            assert(p[0] == n);
            lemma_reach_origin(edges, true, p);
        }
    }
    assert forall|n: Seq<char>| !#[trigger] dead_end_node(declared, edges, n) by {
        if is_declared(declared, n) {
            let k = choose|k: int| 0 <= k < declared.len() && #[trigger] declared[k]@ == n;
            assert(is_node(edges, declared[k]@));
        }
        if is_node(edges, n) {
            let p = seq![n];
            assert(p[0] == n);
            lemma_reach_origin(edges, false, p);
        }
    }
}

/// Two graphs with the same edges, by their names, and the same declared
/// names, whatever the order or the repetitions of either.
pub open spec fn same_graph(d1: Seq<&str>, e1: Seq<DagEdge>, d2: Seq<&str>, e2: Seq<DagEdge>) -> bool {
    &&& forall|n: Seq<char>| is_declared(d1, n) <==> is_declared(d2, n)
    &&& forall|u: Seq<char>, ev: Seq<char>, v: Seq<char>| has_edge(e1, u, ev, v) <==> has_edge(e2, u, ev, v)
}

proof fn lemma_same_edges_same_walks(e1: Seq<DagEdge>, e2: Seq<DagEdge>, forward: bool, p: Seq<Seq<char>>)
    requires
        forall|u: Seq<char>, v: Seq<char>| linked(e1, u, v) ==> linked(e2, u, v),
        is_walk(e1, forward, p),
    ensures
        is_walk(e2, forward, p),
{
    assert forall|k: int| 0 <= k < p.len() - 1 implies #[trigger] walk_step(e2, forward, p, k) by {
        assert(walk_step(e1, forward, p, k));
    }
}

proof fn lemma_same_edges_cover(e1: Seq<DagEdge>, e2: Seq<DagEdge>, forward: bool, n: Seq<char>)
    requires
        forall|u: Seq<char>, ev: Seq<char>, v: Seq<char>| has_edge(e1, u, ev, v) ==> has_edge(e2, u, ev, v),
        forall|u: Seq<char>, ev: Seq<char>, v: Seq<char>| has_edge(e2, u, ev, v) ==> has_edge(e1, u, ev, v),
        covered(e1, forward, n),
    ensures
        covered(e2, forward, n),
{
    assert forall|u: Seq<char>, v: Seq<char>| linked(e1, u, v) implies linked(e2, u, v) by {
        let i = choose|i: int| 0 <= i < e1.len() && #[trigger] e1[i].from@ == u && e1[i].to@ == v;
        assert(has_edge(e1, u, e1[i].event@, v));
        assert(has_edge(e2, u, e1[i].event@, v));
    }
    let p = choose|p: Seq<Seq<char>>|
        #[trigger] is_walk(e1, forward, p) && is_origin(e1, forward, p[0]) && p[p.len() - 1] == n;
    lemma_same_edges_same_walks(e1, e2, forward, p);
    let o = p[0];
    assert(is_node(e1, o));
    lemma_same_edges_same_nodes(e1, e2, o);
    if forward {
        if has_incoming(e2, o) {
            let j = choose|j: int| 0 <= j < e2.len() && #[trigger] e2[j].to@ == o;
            assert(has_edge(e2, e2[j].from@, e2[j].event@, o));
            assert(has_edge(e1, e2[j].from@, e2[j].event@, o));
        }
    } else {
        if has_outgoing(e2, o) {
            let j = choose|j: int| 0 <= j < e2.len() && #[trigger] e2[j].from@ == o;
            assert(has_edge(e2, o, e2[j].event@, e2[j].to@));
            assert(has_edge(e1, o, e2[j].event@, e2[j].to@));
        }
    }
    assert(is_walk(e2, forward, p) && is_origin(e2, forward, p[0]) && p[p.len() - 1] == n);
}

proof fn lemma_same_edges_same_nodes(e1: Seq<DagEdge>, e2: Seq<DagEdge>, n: Seq<char>)
    requires
        forall|u: Seq<char>, ev: Seq<char>, v: Seq<char>| has_edge(e1, u, ev, v) ==> has_edge(e2, u, ev, v),
        is_node(e1, n),
    ensures
        is_node(e2, n),
{
    let i = choose|i: int| 0 <= i < e1.len() && (#[trigger] e1[i].from@ == n || e1[i].to@ == n);
    assert(has_edge(e1, e1[i].from@, e1[i].event@, e1[i].to@));
    assert(has_edge(e2, e1[i].from@, e1[i].event@, e1[i].to@));
}

/// What the wiring check finds depends on the graph alone: on two graphs
/// with the same edges and declared names, in any order and with any
/// repetitions, the same nodes are unreachable, the same are dead ends, and
/// either both are fully wired or neither is.
pub proof fn lemma_same_graph_same_gaps(d1: Seq<&str>, e1: Seq<DagEdge>, d2: Seq<&str>, e2: Seq<DagEdge>)
    requires
        same_graph(d1, e1, d2, e2),
    ensures
        forall|n: Seq<char>| unreachable_node(d1, e1, n) <==> #[trigger] unreachable_node(d2, e2, n),
        forall|n: Seq<char>| dead_end_node(d1, e1, n) <==> #[trigger] dead_end_node(d2, e2, n),
        fully_wired(d1, e1) <==> fully_wired(d2, e2),
{
    assert forall|n: Seq<char>| is_node(e1, n) <==> #[trigger] is_node(e2, n) by {
        if is_node(e1, n) {
            lemma_same_edges_same_nodes(e1, e2, n);
        }
        if is_node(e2, n) {
            lemma_same_edges_same_nodes(e2, e1, n);
        }
    }
    assert forall|f: bool, n: Seq<char>| covered(e1, f, n) <==> #[trigger] covered(e2, f, n) by {
        if covered(e1, f, n) {
            lemma_same_edges_cover(e1, e2, f, n);
        }
        if covered(e2, f, n) {
            lemma_same_edges_cover(e2, e1, f, n);
        }
    }
    assert forall|n: Seq<char>| unreachable_node(d1, e1, n) <==> #[trigger] unreachable_node(d2, e2, n) by {
        assert(is_node(e1, n) <==> is_node(e2, n));
        assert(covered(e1, true, n) <==> covered(e2, true, n));
    }
    assert forall|n: Seq<char>| dead_end_node(d1, e1, n) <==> #[trigger] dead_end_node(d2, e2, n) by {
        assert(is_node(e1, n) <==> is_node(e2, n));
        assert(covered(e1, false, n) <==> covered(e2, false, n));
    }
    if fully_wired(d1, e1) {
        assert forall|n: Seq<char>| !#[trigger] unreachable_node(d2, e2, n) by {
            assert(!unreachable_node(d1, e1, n));
        }
        assert forall|n: Seq<char>| !#[trigger] dead_end_node(d2, e2, n) by {
            assert(!dead_end_node(d1, e1, n));
        }
    }
    if fully_wired(d2, e2) {
        assert forall|n: Seq<char>| !#[trigger] unreachable_node(d1, e1, n) by {
            assert(!unreachable_node(d2, e2, n));
        }
        assert forall|n: Seq<char>| !#[trigger] dead_end_node(d1, e1, n) by {
            assert(!dead_end_node(d2, e2, n));
        }
    }
}

/// Two gap lists that each list, sorted and once, the nodes of one kind are
/// the same list: so `check_completeness` and `check_wiring` report the same
/// lists on one graph, and each reports the same lists on graphs that
/// differ only in order or repetition.
pub proof fn lemma_gap_lists_agree(
    v1: Seq<String>,
    v2: Seq<String>,
    p1: spec_fn(Seq<char>) -> bool,
    p2: spec_fn(Seq<char>) -> bool,
)
    requires
        lists_sorted(v1, p1),
        lists_sorted(v2, p2),
        forall|n: Seq<char>| #[trigger] p1(n) <==> p2(n),
    ensures
        texts(v1) == texts(v2),
{
    assert forall|x: Seq<char>| texts(v1).contains(x) <==> texts(v2).contains(x) by {
        assert(texts(v1).contains(x) <==> p1(x));
        assert(texts(v2).contains(x) <==> p2(x));
    }
    lemma_sorted_lists_equal(texts(v1), texts(v2));
}

} // verus!
