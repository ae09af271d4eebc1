//! Acyclicity of the event graph by depth-first search with three-colour
//! marking.

use vstd::prelude::*;
use crate::dag::graph::{
    DagEdge, texts, has_edge, trace_step, is_cycle_trace, is_simple_trace, node_at, acyclic, lemma_ranked_graph_is_acyclic,
    lemma_cycle_trace_refutes_acyclic,
};
use crate::dag::index::{NodeIndex, index_nodes, lemma_index_of};
use crate::dag::text::{arrow_chain, push_arrow_chain};
use crate::dag::marks::{
    Mark, unvisited_count, done_count, lemma_done_count_bound, lemma_done_count_mark,
    lemma_done_count_keep, lemma_unvisited_count_shrinks, fresh_marks, zeros,
};

verus! {

/// A cycle was detected in the event DAG.
///
/// `trace` alternates node names and event names and starts and ends at the
/// same node: `[node0, event0, node1, event1, ..., node0]`.
#[derive(Debug)]
pub struct CycleError {
    pub trace: Vec<String>,
}

impl CycleError {
    /// Renders the trace as `store -[WorkspaceCreated]-> tui -[RefreshCmd]-> store`.
    pub fn to_string(&self) -> (s: String)
        ensures
            s@ == arrow_chain(texts(self.trace@), "cycle detected (empty trace)"@),
    {
        let mut s = String::new();
        push_arrow_chain(&mut s, &self.trace, "cycle detected (empty trace)");
        s
    }
}

/// Search state: marks, finishing ranks and the number of finished nodes.
///
/// Every edge leaving a finished node enters a finished node of smaller rank.
pub open spec fn search_ok(g: NodeIndex, mark: Seq<Mark>, order: Seq<usize>, counter: nat) -> bool {
    &&& mark.len() == g.n()
    &&& order.len() == g.n()
    &&& counter == done_count(mark)
    &&& forall|x: int| 0 <= x < mark.len() && (#[trigger] mark[x] is Done) ==> order[x] < counter
    &&& forall|i: int|
        0 <= i < g.from_ix@.len() && mark[#[trigger] g.from_ix@[i] as int] is Done ==> {
            &&& mark[g.to_ix@[i] as int] is Done
            &&& order[g.from_ix@[i] as int] > order[g.to_ix@[i] as int]
        }
}

/// `p` lists `(node, edge)` pairs, each edge leaving its node and entering the
/// next node of the list, the last one entering `cur`.
pub open spec fn path_ok(g: NodeIndex, p: Seq<(usize, usize)>, cur: usize) -> bool {
    forall|k: int|
        0 <= k < p.len() ==> {
            &&& #[trigger] p[k].1 < g.from_ix@.len()
            &&& p[k].0 < g.n()
            &&& g.from_ix@[p[k].1 as int] == p[k].0
            &&& g.to_ix@[p[k].1 as int] == if k + 1 < p.len() {
                p[k + 1].0
            } else {
                cur
            }
        }
}

/// No node is twice on the path.
pub open spec fn path_distinct(p: Seq<(usize, usize)>) -> bool {
    forall|j: int, k: int| 0 <= j < k < p.len() ==> #[trigger] p[j].0 != #[trigger] p[k].0
}

pub open spec fn on_path(p: Seq<(usize, usize)>, x: int) -> bool {
    exists|k: int| 0 <= k < p.len() && #[trigger] p[k].0 == x
}

/// Marks only move forward: finished nodes keep their rank, and no node
/// becomes unvisited again.
pub open spec fn advanced(
    mark0: Seq<Mark>,
    order0: Seq<usize>,
    mark: Seq<Mark>,
    order: Seq<usize>,
) -> bool {
    &&& forall|x: int|
        0 <= x < mark0.len() && (#[trigger] mark0[x] is Done) ==> mark[x] is Done && order[x]
            == order0[x]
    &&& forall|x: int| 0 <= x < mark.len() && (#[trigger] mark[x] is Unvisited) ==> mark0[x] is Unvisited
}

/// The trace of the cycle closed by the back edge `current --[i]--> v`.
fn cycle_trace(
    g: &NodeIndex,
    edges: &[DagEdge],
    path: &Vec<(usize, usize)>,
    current: usize,
    i: usize,
    v: usize,
) -> (t: Vec<String>)
    requires
        g.wf(edges@),
        current < g.n(),
        i < edges@.len(),
        path_ok(*g, path@, current),
        g.from_ix@[i as int] == current,
        g.to_ix@[i as int] == v,
        v == current || on_path(path@, v as int),
        path_distinct(path@),
        !on_path(path@, current as int),
    ensures
        is_cycle_trace(edges@, texts(t@)),
        is_simple_trace(texts(t@)),
{
    let mut trace: Vec<String> = Vec::new();
    let mut k0: usize = 0;
    if v != current {
        while k0 < path.len() && path[k0].0 != v
            invariant
                k0 <= path@.len(),
                forall|j: int| 0 <= j < k0 ==> #[trigger] path@[j].0 != v,
            decreases path@.len() - k0,
        {
            k0 = k0 + 1;
        }
        let mut k: usize = k0;
        while k < path.len()
            invariant
                g.wf(edges@),
                path_ok(*g, path@, current),
                k0 <= k <= path@.len(),
                k0 < path@.len(),
                path@[k0 as int].0 == v,
                trace@.len() == 2 * (k - k0),
                forall|j: int|
                    0 <= j < k - k0 ==> {
                        &&& #[trigger] trace@[2 * j]@ == g.names@[path@[k0 + j].0 as int]@
                        &&& trace@[2 * j + 1]@ == edges@[path@[k0 + j].1 as int].event@
                    },
            decreases path@.len() - k,
        {
            let (node, e) = path[k];
            let ghost tb = trace@;
            trace.push(g.names[node].clone());
            trace.push(edges[e].event.clone());
            assert forall|j: int| 0 <= j < k + 1 - k0 implies {
                &&& #[trigger] trace@[2 * j]@ == g.names@[path@[k0 + j].0 as int]@
                &&& trace@[2 * j + 1]@ == edges@[path@[k0 + j].1 as int].event@
            } by {
                if j < k - k0 {
                    assert(trace@[2 * j] == tb[2 * j]);
                    assert(trace@[2 * j + 1] == tb[2 * j + 1]);
                }
            }
            k = k + 1;
        }
    } else {
        k0 = path.len();
    }
    let ghost steps = path@.len() - k0;
    let ghost before = trace@;
    proof {
        if steps > 0 {
            assert(before[2 * 0int]@ == g.names@[path@[k0 + 0int].0 as int]@);
        }
    }
    trace.push(g.names[current].clone());
    trace.push(edges[i].event.clone());
    trace.push(g.names[v].clone());
    let ghost tt = texts(trace@);
    assert(tt.len() == 2 * steps + 3);
    assert forall|k: int| 0 <= k < (tt.len() - 1) / 2 implies #[trigger] trace_step(edges@, tt, k) by {
        if k < steps {
            let e = path@[k0 + k].1 as int;
            assert(trace@[2 * k] == before[2 * k]);
            assert(trace@[2 * k + 1] == before[2 * k + 1]);
            assert(before[2 * k]@ == g.names@[path@[k0 + k].0 as int]@);
            assert(edges@[e].from@ == tt[2 * k]);
            assert(edges@[e].event@ == tt[2 * k + 1]);
            if k + 1 < steps {
                assert(trace@[2 * (k + 1)] == before[2 * (k + 1)]);
                assert(before[2 * (k + 1)]@ == g.names@[path@[k0 + (k + 1)].0 as int]@);
            }
            assert(edges@[e].to@ == tt[2 * k + 2]);
        } else {
            assert(edges@[i as int].from@ == tt[2 * k]);
            assert(edges@[i as int].to@ == tt[2 * k + 2]);
        }
    }
    proof {
        if steps > 0 {
            assert(trace@[0] == before[0]);
        }
        assert forall|a: int, b: int| 0 <= a < b < (tt.len() - 1) / 2 implies #[trigger] node_at(tt, a)
            != #[trigger] node_at(tt, b) by {
            assert(trace@[2 * a] == before[2 * a]);
            assert(before[2 * a]@ == g.names@[path@[k0 + a].0 as int]@);
            let na = path@[k0 + a].0 as int;
            if b < steps {
                assert(trace@[2 * b] == before[2 * b]);
                assert(before[2 * b]@ == g.names@[path@[k0 + b].0 as int]@);
                let nb = path@[k0 + b].0 as int;
                assert(na != nb);
                assert(g.names@[na]@ != g.names@[nb]@);
            } else {
                assert(tt[2 * b] == g.names@[current as int]@);
                if na == current {
                    assert(on_path(path@, current as int));
                }
                assert(g.names@[na]@ != g.names@[current as int]@);
            }
        }
    }
    trace
}

fn dfs(
    g: &NodeIndex,
    edges: &[DagEdge],
    current: usize,
    mark: &mut Vec<Mark>,
    order: &mut Vec<usize>,
    counter: &mut usize,
    path: &mut Vec<(usize, usize)>,
) -> (res: Option<Vec<String>>)
    requires
        g.wf(edges@),
        current < g.n(),
        old(mark)@[current as int] is Unvisited,
        search_ok(*g, old(mark)@, old(order)@, *old(counter) as nat),
        path_ok(*g, old(path)@, current),
        forall|x: int| 0 <= x < g.n() ==> (#[trigger] old(mark)@[x] is InStack <==> on_path(old(path)@, x)),
        path_distinct(old(path)@),
    ensures
        res matches Some(t) ==> is_cycle_trace(edges@, texts(t@)) && is_simple_trace(texts(t@)),
        res is None ==> {
            &&& search_ok(*g, final(mark)@, final(order)@, *final(counter) as nat)
            &&& final(path)@ == old(path)@
            &&& final(mark)@[current as int] is Done
            &&& advanced(old(mark)@, old(order)@, final(mark)@, final(order)@)
            &&& forall|x: int| 0 <= x < g.n() ==> (#[trigger] final(mark)@[x] is InStack <==> old(mark)@[x] is InStack)
        },
    decreases unvisited_count(old(mark)@),
{
    let ghost mark0 = mark@;
    let ghost order0 = order@;
    let ghost path0 = path@;
    proof {
        lemma_done_count_keep(mark@, current as int, Mark::InStack);
        if on_path(path0, current as int) {
            assert(mark0[current as int] is InStack);
        }
    }
    mark.set(current, Mark::InStack);
    let m = edges.len();
    let mut i: usize = 0;
    while i < m
        invariant
            g.wf(edges@),
            m == edges@.len(),
            i <= m,
            current < g.n(),
            search_ok(*g, mark@, order@, *counter as nat),
            path@ == path0,
            path_ok(*g, path@, current),
            mark@[current as int] is InStack,
            forall|x: int|
                0 <= x < g.n() ==> (#[trigger] mark@[x] is InStack <==> (on_path(path@, x) || x
                    == current)),
            mark0.len() == g.n(),
            mark0 == old(mark)@,
            mark0[current as int] is Unvisited,
            path_distinct(path0),
            !on_path(path0, current as int),
            advanced(mark0, order0, mark@, order@),
            forall|j: int|
                0 <= j < i && #[trigger] g.from_ix@[j] == current ==> mark@[g.to_ix@[j] as int] is Done,
        decreases m - i,
    {
        if g.from_ix[i] == current {
            let v = g.to_ix[i];
            match mark[v] {
                Mark::InStack => {
                    return Some(cycle_trace(g, edges, path, current, i, v));
                },
                Mark::Done => {},
                Mark::Unvisited => {
                    let ghost mark1 = mark@;
                    let ghost order1 = order@;
                    path.push((current, i));
                    proof {
                        assert(mark@.len() == mark0.len());
                        assert(!(mark@[current as int] is Unvisited));
                        lemma_unvisited_count_shrinks(mark0, mark@, current as int);
                        assert(unvisited_count(mark@) < unvisited_count(mark0));
                        assert forall|k: int| 0 <= k < path@.len() implies {
                            &&& #[trigger] path@[k].1 < g.from_ix@.len()
                            &&& path@[k].0 < g.n()
                            &&& g.from_ix@[path@[k].1 as int] == path@[k].0
                            &&& g.to_ix@[path@[k].1 as int] == if k + 1 < path@.len() {
                                path@[k + 1].0
                            } else {
                                v
                            }
                        } by {
                            if k < path0.len() {
                                assert(path@[k] == path0[k]);
                                if k + 1 < path0.len() {
                                    assert(path@[k + 1] == path0[k + 1]);
                                } else {
                                    assert(path@[k + 1] == (current, i));
                                }
                            } else {
                                assert(path@[k] == (current, i));
                            }
                        }
                        assert forall|x: int| 0 <= x < g.n() implies (#[trigger] mark@[x] is InStack
                            <==> on_path(path@, x)) by {
                            if on_path(path0, x) {
                                let k = choose|k: int| 0 <= k < path0.len() && #[trigger] path0[k].0 == x;
                                assert(path@[k] == path0[k]);
                            }
                            if x == current {
                                assert(path@[path0.len() as int].0 == x);
                            }
                            if on_path(path@, x) && x != current {
                                let k = choose|k: int| 0 <= k < path@.len() && #[trigger] path@[k].0 == x;
                                assert(path@[k] == path0[k]);
                            }
                        }
                    }
                    proof {
                        assert forall|j: int, k: int| 0 <= j < k < path@.len() implies #[trigger] path@[j].0
                            != #[trigger] path@[k].0 by {
                            if k < path0.len() {
                                assert(path@[j] == path0[j]);
                                assert(path@[k] == path0[k]);
                            } else {
                                assert(path@[j] == path0[j]);
                                assert(path@[k] == (current, i));
                            }
                        }
                    }
                    let r = dfs(g, edges, v, mark, order, counter, path);
                    if r.is_some() {
                        return r;
                    }
                    path.pop();
                    proof {
                        assert(path@ =~= path0);
                        assert forall|j: int|
                            0 <= j < i + 1 && #[trigger] g.from_ix@[j] == current implies mark@[g.to_ix@[j] as int] is Done by {
                            if j < i {
                                assert(mark1[g.to_ix@[j] as int] is Done);
                            }
                        }
                    }
                },
            }
        }
        i = i + 1;
    }
    let ghost len = mark.len();
    proof {
        lemma_done_count_mark(mark@, current as int);
        lemma_done_count_bound(mark@.update(current as int, Mark::Done));
        assert(*counter + 1 <= len);
    }
    let ghost mark2 = mark@;
    let ghost order2 = order@;
    order.set(current, *counter);
    mark.set(current, Mark::Done);
    *counter = *counter + 1;
    proof {
        assert forall|i: int|
            0 <= i < g.from_ix@.len() && mark@[#[trigger] g.from_ix@[i] as int] is Done implies {
                &&& mark@[g.to_ix@[i] as int] is Done
                &&& order@[g.from_ix@[i] as int] > order@[g.to_ix@[i] as int]
            } by {
            if g.from_ix@[i] == current {
                assert(mark2[g.to_ix@[i] as int] is Done);
            } else {
                assert(mark2[g.from_ix@[i] as int] is Done);
            }
        }
    }
    None
}

/// Verifies that `edges` form an acyclic directed graph.
///
/// Returns the node/event trace of a detected cycle otherwise; a cyclic event
/// graph has no termination guarantee.
pub fn check_acyclic(edges: &[DagEdge]) -> (r: Result<(), CycleError>)
    ensures
        r is Ok <==> acyclic(edges@),
        r matches Err(e) ==> is_cycle_trace(edges@, texts(e.trace@)) && is_simple_trace(texts(e.trace@)),
{
    let g = index_nodes(edges);
    let n = g.names.len();
    let mut mark = fresh_marks(n);
    let mut order = zeros(n);
    let mut counter: usize = 0;
    let mut path: Vec<(usize, usize)> = Vec::new();
    let mut s: usize = 0;
    while s < n
        invariant
            g.wf(edges@),
            n == g.n(),
            s <= n,
            search_ok(g, mark@, order@, counter as nat),
            path@.len() == 0,
            forall|x: int| 0 <= x < n ==> !(#[trigger] mark@[x] is InStack),
            forall|x: int| 0 <= x < s ==> #[trigger] mark@[x] is Done,
        decreases n - s,
    {
        match mark[s] {
            Mark::Unvisited => {
                match dfs(&g, edges, s, &mut mark, &mut order, &mut counter, &mut path) {
                    Some(t) => {
                        proof {
                            lemma_cycle_trace_refutes_acyclic(edges@, texts(t@));
                        }
                        return Err(CycleError { trace: t });
                    },
                    None => {},
                }
            },
            _ => {},
        }
        s = s + 1;
    }
    proof {
        let r = |name: Seq<char>| order@[g.index_of(name)] as int;
        assert forall|i: int| 0 <= i < edges@.len() implies r(#[trigger] edges@[i].from@) > r(
            edges@[i].to@,
        ) by {
            lemma_index_of(g, edges@, g.from_ix@[i] as int);
            lemma_index_of(g, edges@, g.to_ix@[i] as int);
            assert(mark@[g.from_ix@[i] as int] is Done);
        }
        lemma_ranked_graph_is_acyclic(edges@, r);
    }
    Ok(())
}

} // verus!
