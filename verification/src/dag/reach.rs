//! Reachability from the sources (forward) or towards the sinks (backward)
//! by breadth-first search.

use vstd::prelude::*;
use crate::dag::graph::{DagEdge, linked, is_node};
use crate::dag::index::{NodeIndex, lemma_index_of};

verus! {

/// Some edge enters `n`.
pub open spec fn has_incoming(edges: Seq<DagEdge>, n: Seq<char>) -> bool {
    exists|i: int| 0 <= i < edges.len() && #[trigger] edges[i].to@ == n
}

/// Some edge leaves `n`.
pub open spec fn has_outgoing(edges: Seq<DagEdge>, n: Seq<char>) -> bool {
    exists|i: int| 0 <= i < edges.len() && #[trigger] edges[i].from@ == n
}

/// A step along an edge, with the edges reversed when `forward` is false.
pub open spec fn dir_linked(edges: Seq<DagEdge>, forward: bool, a: Seq<char>, b: Seq<char>) -> bool {
    if forward {
        linked(edges, a, b)
    } else {
        linked(edges, b, a)
    }
}

/// Where the search starts: a source (no incoming edge) going forward, a
/// sink (no outgoing edge) going backward.
pub open spec fn is_origin(edges: Seq<DagEdge>, forward: bool, n: Seq<char>) -> bool {
    &&& is_node(edges, n)
    &&& if forward {
        !has_incoming(edges, n)
    } else {
        !has_outgoing(edges, n)
    }
}

pub open spec fn walk_step(edges: Seq<DagEdge>, forward: bool, p: Seq<Seq<char>>, k: int) -> bool {
    dir_linked(edges, forward, p[k], p[k + 1])
}

/// A non-empty sequence of nodes, each linked to the next.
pub open spec fn is_walk(edges: Seq<DagEdge>, forward: bool, p: Seq<Seq<char>>) -> bool {
    &&& p.len() >= 1
    &&& forall|k: int| 0 <= k < p.len() - 1 ==> #[trigger] walk_step(edges, forward, p, k)
}

/// Going forward: some source reaches `n`. Going backward: `n` reaches some
/// sink.
pub open spec fn covered(edges: Seq<DagEdge>, forward: bool, n: Seq<char>) -> bool {
    exists|p: Seq<Seq<char>>|
        #[trigger] is_walk(edges, forward, p) && is_origin(edges, forward, p[0]) && p[p.len() - 1]
            == n
}

/// How many entries of `s` are true.
pub open spec fn true_count(s: Seq<bool>) -> nat
    decreases s.len(),
{
    if s.len() == 0 {
        0
    } else {
        true_count(s.drop_last()) + if s.last() {
            1nat
        } else {
            0nat
        }
    }
}

proof fn lemma_true_count_bound(s: Seq<bool>)
    ensures
        true_count(s) <= s.len(),
    decreases s.len(),
{
    if s.len() > 0 {
        lemma_true_count_bound(s.drop_last());
    }
}

proof fn lemma_true_count_set(s: Seq<bool>, j: int)
    requires
        0 <= j < s.len(),
        !s[j],
    ensures
        true_count(s.update(j, true)) == true_count(s) + 1,
    decreases s.len(),
{
    let t = s.update(j, true);
    if j == s.len() - 1 {
        assert(t.drop_last() =~= s.drop_last());
    } else {
        assert(t.drop_last() =~= s.drop_last().update(j, true));
        lemma_true_count_set(s.drop_last(), j);
    }
}

/// The numbered endpoint an edge leaves from, in the search direction.
pub open spec fn src_of(g: NodeIndex, forward: bool, i: int) -> int {
    if forward {
        g.from_ix@[i] as int
    } else {
        g.to_ix@[i] as int
    }
}

/// The numbered endpoint an edge enters, in the search direction.
pub open spec fn dst_of(g: NodeIndex, forward: bool, i: int) -> int {
    if forward {
        g.to_ix@[i] as int
    } else {
        g.from_ix@[i] as int
    }
}

proof fn lemma_walk_extend(edges: Seq<DagEdge>, forward: bool, p: Seq<Seq<char>>, n: Seq<char>)
    requires
        is_walk(edges, forward, p),
        dir_linked(edges, forward, p[p.len() - 1], n),
    ensures
        is_walk(edges, forward, p.push(n)),
{
    let q = p.push(n);
    assert forall|k: int| 0 <= k < q.len() - 1 implies #[trigger] walk_step(edges, forward, q, k) by {
        if k < p.len() - 1 {
            assert(walk_step(edges, forward, p, k));
        }
    }
}

pub open spec fn in_queue(q: Seq<usize>, x: int) -> bool {
    exists|j: int| 0 <= j < q.len() && #[trigger] q[j] == x
}

/// Every edge leaving a marked node enters a marked node.
pub open spec fn closed(g: NodeIndex, forward: bool, vis: Seq<bool>) -> bool {
    forall|i: int|
        0 <= i < g.from_ix@.len() && #[trigger] vis[src_of(g, forward, i)] ==> vis[dst_of(g, forward, i)]
}

/// A node name of the graph has a number.
proof fn lemma_node_has_number(g: NodeIndex, edges: Seq<DagEdge>, n: Seq<char>)
    requires
        g.wf(edges),
        is_node(edges, n),
    ensures
        exists|x: int| 0 <= x < g.n() && #[trigger] g.names@[x]@ == n,
{
    let i = choose|i: int| 0 <= i < edges.len() && (#[trigger] edges[i].from@ == n || edges[i].to@ == n);
    if edges[i].from@ == n {
        assert(g.names@[g.from_ix@[i] as int]@ == n);
    } else {
        assert(g.names@[g.to_ix@[i] as int]@ == n);
    }
}

proof fn lemma_walk_marked(
    g: NodeIndex,
    edges: Seq<DagEdge>,
    forward: bool,
    vis: Seq<bool>,
    entered: Seq<bool>,
    p: Seq<Seq<char>>,
    j: int,
)
    requires
        g.wf(edges),
        vis.len() == g.n(),
        entered.len() == g.n(),
        closed(g, forward, vis),
        forall|x: int| 0 <= x < g.n() && !(#[trigger] entered[x]) ==> vis[x],
        forall|x: int|
            0 <= x < g.n() ==> (#[trigger] entered[x] <==> exists|k: int|
                0 <= k < edges.len() && dst_of(g, forward, k) == x),
        is_walk(edges, forward, p),
        is_origin(edges, forward, p[0]),
        0 <= j < p.len(),
    ensures
        exists|x: int| 0 <= x < g.n() && #[trigger] g.names@[x]@ == p[j] && vis[x],
    decreases j,
{
    if j == 0 {
        lemma_node_has_number(g, edges, p[0]);
        let x = choose|x: int| 0 <= x < g.n() && #[trigger] g.names@[x]@ == p[0];
        if entered[x] {
            let k = choose|k: int| 0 <= k < edges.len() && dst_of(g, forward, k) == x;
            if forward {
                assert(edges[k].to@ == p[0]);
            } else {
                assert(edges[k].from@ == p[0]);
            }
        }
    } else {
        lemma_walk_marked(g, edges, forward, vis, entered, p, j - 1);
        let x = choose|x: int| 0 <= x < g.n() && #[trigger] g.names@[x]@ == p[j - 1] && vis[x];
        assert(walk_step(edges, forward, p, j - 1));
        if forward {
            let i = choose|i: int| 0 <= i < edges.len() && #[trigger] edges[i].from@ == p[j - 1] && edges[i].to@ == p[j];
            lemma_index_of(g, edges, x);
            lemma_index_of(g, edges, g.from_ix@[i] as int);
            assert(g.from_ix@[i] == x);
            assert(vis[src_of(g, forward, i)]);
            assert(g.names@[g.to_ix@[i] as int]@ == p[j]);
        } else {
            let i = choose|i: int| 0 <= i < edges.len() && #[trigger] edges[i].from@ == p[j] && edges[i].to@ == p[j - 1];
            lemma_index_of(g, edges, x);
            lemma_index_of(g, edges, g.to_ix@[i] as int);
            assert(g.to_ix@[i] == x);
            assert(vis[src_of(g, forward, i)]);
            assert(g.names@[g.from_ix@[i] as int]@ == p[j]);
        }
    }
}

/// Marks, for every node, whether it is covered in the given direction.
pub fn reach(g: &NodeIndex, edges: &[DagEdge], forward: bool) -> (vis: Vec<bool>)
    requires
        g.wf(edges@),
    ensures
        vis@.len() == g.n(),
        forall|x: int| 0 <= x < g.n() ==> (#[trigger] vis@[x] <==> covered(edges@, forward, g.names@[x]@)),
{
    let n = g.names.len();
    let m = edges.len();
    // Nodes with an edge entering them in the search direction.
    let mut entered: Vec<bool> = Vec::new();
    let mut k: usize = 0;
    while k < n
        invariant
            k <= n,
            entered@.len() == k,
            forall|x: int| 0 <= x < k ==> !(#[trigger] entered@[x]),
        decreases n - k,
    {
        entered.push(false);
        k = k + 1;
    }
    let mut i: usize = 0;
    while i < m
        invariant
            g.wf(edges@),
            m == edges@.len(),
            n == g.n(),
            i <= m,
            entered@.len() == n,
            forall|x: int|
                0 <= x < n ==> (#[trigger] entered@[x] <==> exists|j: int|
                    0 <= j < i && dst_of(*g, forward, j) == x),
        decreases m - i,
    {
        let d = if forward {
            g.to_ix[i]
        } else {
            g.from_ix[i]
        };
        entered.set(d, true);
        assert forall|x: int| 0 <= x < n implies (#[trigger] entered@[x] <==> exists|j: int|
            0 <= j < i + 1 && dst_of(*g, forward, j) == x) by {
            if x == d {
                assert(dst_of(*g, forward, i as int) == x);
            }
        }
        i = i + 1;
    }
    // Start from every origin.
    let mut vis: Vec<bool> = Vec::new();
    let mut queue: Vec<usize> = Vec::new();
    let mut k: usize = 0;
    while k < n
        invariant
            g.wf(edges@),
            n == g.n(),
            k <= n,
            entered@.len() == n,
            vis@.len() == k,
            queue@.len() == true_count(vis@),
            forall|x: int| 0 <= x < k ==> (#[trigger] vis@[x] <==> !entered@[x]),
            forall|j: int| 0 <= j < queue@.len() ==> #[trigger] queue@[j] < k && vis@[queue@[j] as int],
            forall|x: int| 0 <= x < k && #[trigger] vis@[x] ==> in_queue(queue@, x),
        decreases n - k,
    {
        let ghost before = vis@;
        let ghost qbefore = queue@;
        if entered[k] {
            vis.push(false);
        } else {
            vis.push(true);
            queue.push(k);
        }
        assert(vis@.drop_last() =~= before);
        assert forall|x: int| 0 <= x < k + 1 && #[trigger] vis@[x] implies in_queue(queue@, x) by {
            if x < k {
                assert(before[x]);
                let j = choose|j: int| 0 <= j < qbefore.len() && #[trigger] qbefore[j] == x;
                assert(queue@[j] == x);
            } else {
                assert(queue@[queue@.len() - 1] == x);
            }
        }
        k = k + 1;
    }
    assert forall|x: int| 0 <= x < n && #[trigger] vis@[x] implies covered(edges@, forward, g.names@[x]@) by {
        let p = seq![g.names@[x]@];
        assert(is_walk(edges@, forward, p));
        if is_node(edges@, g.names@[x]@) {
        }
        if forward {
            if has_incoming(edges@, g.names@[x]@) {
                let i = choose|i: int| 0 <= i < edges@.len() && #[trigger] edges@[i].to@ == g.names@[x]@;
                lemma_index_of(*g, edges@, x);
                lemma_index_of(*g, edges@, g.to_ix@[i] as int);
                assert(dst_of(*g, forward, i) == x);
            }
        } else {
            if has_outgoing(edges@, g.names@[x]@) {
                let i = choose|i: int| 0 <= i < edges@.len() && #[trigger] edges@[i].from@ == g.names@[x]@;
                lemma_index_of(*g, edges@, x);
                lemma_index_of(*g, edges@, g.from_ix@[i] as int);
                assert(dst_of(*g, forward, i) == x);
            }
        }
        assert(is_origin(edges@, forward, p[0]));
    }
    proof {
        lemma_true_count_bound(vis@);
    }
    let mut head: usize = 0;
    while head < queue.len()
        invariant
            g.wf(edges@),
            n == g.n(),
            m == edges@.len(),
            entered@.len() == n,
            vis@.len() == n,
            head <= queue@.len(),
            queue@.len() == true_count(vis@),
            true_count(vis@) <= n,
            forall|x: int|
                0 <= x < n ==> (#[trigger] entered@[x] <==> exists|j: int|
                    0 <= j < m && dst_of(*g, forward, j) == x),
            forall|j: int| 0 <= j < queue@.len() ==> #[trigger] queue@[j] < n && vis@[queue@[j] as int],
            forall|x: int| 0 <= x < n && #[trigger] vis@[x] ==> in_queue(queue@, x),
            forall|x: int| 0 <= x < n && #[trigger] vis@[x] ==> covered(edges@, forward, g.names@[x]@),
            forall|x: int| 0 <= x < n && !(#[trigger] entered@[x]) ==> vis@[x],
            forall|j: int, i: int|
                0 <= j < head && 0 <= i < m && src_of(*g, forward, i) == #[trigger] queue@[j]
                    ==> #[trigger] vis@[dst_of(*g, forward, i)],
        decreases n - head,
    {
        let x = queue[head];
        let mut i: usize = 0;
        while i < m
            invariant
                g.wf(edges@),
                n == g.n(),
                m == edges@.len(),
                entered@.len() == n,
                vis@.len() == n,
                head < queue@.len(),
                x == queue@[head as int],
                x < n,
                vis@[x as int],
                i <= m,
                queue@.len() == true_count(vis@),
                true_count(vis@) <= n,
                forall|x: int|
                    0 <= x < n ==> (#[trigger] entered@[x] <==> exists|j: int|
                        0 <= j < m && dst_of(*g, forward, j) == x),
                forall|j: int| 0 <= j < queue@.len() ==> #[trigger] queue@[j] < n && vis@[queue@[j] as int],
                forall|y: int| 0 <= y < n && #[trigger] vis@[y] ==> in_queue(queue@, y),
                forall|y: int| 0 <= y < n && #[trigger] vis@[y] ==> covered(edges@, forward, g.names@[y]@),
                forall|y: int| 0 <= y < n && !(#[trigger] entered@[y]) ==> vis@[y],
                forall|j: int, i: int|
                    0 <= j < head && 0 <= i < m && src_of(*g, forward, i) == #[trigger] queue@[j]
                        ==> #[trigger] vis@[dst_of(*g, forward, i)],
                forall|k: int| 0 <= k < i && src_of(*g, forward, k) == x ==> #[trigger] vis@[dst_of(*g, forward, k)],
            decreases m - i,
        {
            let (sx, d) = if forward {
                (g.from_ix[i], g.to_ix[i])
            } else {
                (g.to_ix[i], g.from_ix[i])
            };
            if sx == x && !vis[d] {
                let ghost vbefore = vis@;
                let ghost qbefore = queue@;
                proof {
                    lemma_true_count_set(vis@, d as int);
                    lemma_true_count_bound(vis@.update(d as int, true));
                    let p = choose|p: Seq<Seq<char>>|
                        #[trigger] is_walk(edges@, forward, p) && is_origin(edges@, forward, p[0])
                            && p[p.len() - 1] == g.names@[x as int]@;
                    if forward {
                        assert(edges@[i as int].from@ == p[p.len() - 1]);
                    } else {
                        assert(edges@[i as int].to@ == p[p.len() - 1]);
                    }
                    assert(dir_linked(edges@, forward, p[p.len() - 1], g.names@[d as int]@));
                    lemma_walk_extend(edges@, forward, p, g.names@[d as int]@);
                    assert(p.push(g.names@[d as int]@)[0] == p[0]);
                    assert(covered(edges@, forward, g.names@[d as int]@));
                }
                vis.set(d, true);
                queue.push(d);
                assert forall|y: int| 0 <= y < n && #[trigger] vis@[y] implies in_queue(queue@, y) by {
                    if y == d {
                        assert(queue@[queue@.len() - 1] == y);
                    } else {
                        assert(vbefore[y]);
                        let j = choose|j: int| 0 <= j < qbefore.len() && #[trigger] qbefore[j] == y;
                        assert(queue@[j] == y);
                    }
                }
                assert forall|j: int| 0 <= j < queue@.len() implies #[trigger] queue@[j] < n && vis@[queue@[j] as int] by {
                    if j < qbefore.len() {
                        assert(queue@[j] == qbefore[j]);
                    }
                }
                assert forall|j: int, i2: int|
                    0 <= j < head && 0 <= i2 < m && src_of(*g, forward, i2) == #[trigger] queue@[j]
                        implies #[trigger] vis@[dst_of(*g, forward, i2)] by {
                    assert(queue@[j] == qbefore[j]);
                    assert(vbefore[dst_of(*g, forward, i2)]);
                }
            }
            i = i + 1;
        }
        head = head + 1;
    }
    proof {
        assert forall|i: int| 0 <= i < g.from_ix@.len() && #[trigger] vis@[src_of(*g, forward, i)] implies vis@[dst_of(*g, forward, i)] by {
            let s = src_of(*g, forward, i);
            assert(0 <= s < n);
            let j = choose|j: int| 0 <= j < queue@.len() && #[trigger] queue@[j] == s;
        }
        assert forall|x: int| 0 <= x < n implies (#[trigger] vis@[x] <==> covered(edges@, forward, g.names@[x]@)) by {
            if covered(edges@, forward, g.names@[x]@) {
                let p = choose|p: Seq<Seq<char>>|
                    #[trigger] is_walk(edges@, forward, p) && is_origin(edges@, forward, p[0])
                        && p[p.len() - 1] == g.names@[x]@;
                lemma_walk_marked(*g, edges@, forward, vis@, entered@, p, p.len() - 1);
                let y = choose|y: int| 0 <= y < g.n() && #[trigger] g.names@[y]@ == p[p.len() - 1] && vis@[y];
                lemma_index_of(*g, edges@, x);
                lemma_index_of(*g, edges@, y);
            }
        }
    }
    vis
}

} // verus!
