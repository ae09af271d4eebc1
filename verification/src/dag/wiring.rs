//! The wiring guarantee: every declared node lies on a source-to-sink path.

use vstd::prelude::*;
use vstd::string::StringExecFns;
use crate::dag::graph::{DagEdge, texts, is_node};
use crate::dag::index::{NodeIndex, index_nodes, position_of, lemma_index_of};
use crate::dag::reach::{covered, reach};
use crate::dag::text::{strictly_sorted, insert_sorted, joined, push_joined};

verus! {

/// `n` is one of the declared node names.
pub open spec fn is_declared(declared: Seq<&str>, n: Seq<char>) -> bool {
    exists|k: int| 0 <= k < declared.len() && #[trigger] declared[k]@ == n
}

/// No path from any source reaches `n`: a node of the graph that no source
/// reaches, or a declared node that no edge touches.
pub open spec fn unreachable_node(declared: Seq<&str>, edges: Seq<DagEdge>, n: Seq<char>) -> bool {
    ||| is_node(edges, n) && !covered(edges, true, n)
    ||| is_declared(declared, n) && !is_node(edges, n)
}

/// No path from `n` reaches any sink: a node of the graph that reaches no
/// sink, or a declared node that no edge touches.
pub open spec fn dead_end_node(declared: Seq<&str>, edges: Seq<DagEdge>, n: Seq<char>) -> bool {
    ||| is_node(edges, n) && !covered(edges, false, n)
    ||| is_declared(declared, n) && !is_node(edges, n)
}

/// Every declared node and every node of the graph is on a source-to-sink
/// path.
pub open spec fn fully_wired(declared: Seq<&str>, edges: Seq<DagEdge>) -> bool {
    &&& forall|n: Seq<char>| !#[trigger] unreachable_node(declared, edges, n)
    &&& forall|n: Seq<char>| !#[trigger] dead_end_node(declared, edges, n)
}

/// `v` lists, in strictly increasing order, exactly the texts with `pred`.
pub open spec fn lists_sorted(v: Seq<String>, pred: spec_fn(Seq<char>) -> bool) -> bool {
    &&& strictly_sorted(texts(v))
    &&& forall|n: Seq<char>| #[trigger] texts(v).contains(n) <==> pred(n)
}

proof fn lemma_gap_matches(
    g: NodeIndex,
    declared: Seq<&str>,
    edges: Seq<DagEdge>,
    vis: Seq<bool>,
    forward: bool,
    t: Seq<char>,
)
    requires
        g.wf(edges),
        vis.len() == g.n(),
        forall|y: int| 0 <= y < g.n() ==> (#[trigger] vis[y] <==> covered(edges, forward, g.names@[y]@)),
        forall|m: Seq<char>| is_node(edges, m) ==> exists|y: int| 0 <= y < g.n() && #[trigger] g.names@[y]@ == m,
    ensures
        ((exists|y: int| 0 <= y < g.n() && g.names@[y]@ == t && !vis[y]) || exists|j: int|
            0 <= j < declared.len() && declared[j]@ == t && !is_node(edges, t)) <==> (
        (is_node(edges, t) && !covered(edges, forward, t)) || (is_declared(declared, t) && !is_node(edges, t))),
{
    if is_node(edges, t) && !covered(edges, forward, t) {
        let y = choose|y: int| 0 <= y < g.n() && #[trigger] g.names@[y]@ == t;
        assert(!vis[y]);
    }
    if exists|y: int| 0 <= y < g.n() && g.names@[y]@ == t && !vis[y] {
        let y = choose|y: int| 0 <= y < g.n() && g.names@[y]@ == t && !vis[y];
        assert(is_node(edges, g.names@[y]@));
    }
    if is_declared(declared, t) && !is_node(edges, t) {
        let j = choose|j: int| 0 <= j < declared.len() && #[trigger] declared[j]@ == t;
    }
}

/// The sorted lists of unreachable nodes and of dead ends.
pub fn wiring_gaps(declared: &[&str], edges: &[DagEdge]) -> (r: (Vec<String>, Vec<String>))
    ensures
        lists_sorted(r.0@, |n: Seq<char>| unreachable_node(declared@, edges@, n)),
        lists_sorted(r.1@, |n: Seq<char>| dead_end_node(declared@, edges@, n)),
{
    let g = index_nodes(edges);
    let fwd = reach(&g, edges, true);
    let bwd = reach(&g, edges, false);
    let n = g.names.len();
    let mut unreachable: Vec<String> = Vec::new();
    let mut dead_ends: Vec<String> = Vec::new();
    let mut x: usize = 0;
    while x < n
        invariant
            g.wf(edges@),
            n == g.n(),
            x <= n,
            fwd@.len() == n,
            bwd@.len() == n,
            forall|y: int| 0 <= y < n ==> (#[trigger] fwd@[y] <==> covered(edges@, true, g.names@[y]@)),
            forall|y: int| 0 <= y < n ==> (#[trigger] bwd@[y] <==> covered(edges@, false, g.names@[y]@)),
            strictly_sorted(texts(unreachable@)),
            strictly_sorted(texts(dead_ends@)),
            forall|t: Seq<char>|
                #[trigger] texts(unreachable@).contains(t) <==> exists|y: int|
                    0 <= y < x && g.names@[y]@ == t && !fwd@[y],
            forall|t: Seq<char>|
                #[trigger] texts(dead_ends@).contains(t) <==> exists|y: int|
                    0 <= y < x && g.names@[y]@ == t && !bwd@[y],
        decreases n - x,
    {
        if !fwd[x] {
            insert_sorted(&mut unreachable, g.names[x].clone());
        }
        if !bwd[x] {
            insert_sorted(&mut dead_ends, g.names[x].clone());
        }
        assert forall|t: Seq<char>|
            #[trigger] texts(unreachable@).contains(t) <==> exists|y: int|
                0 <= y < x + 1 && g.names@[y]@ == t && !fwd@[y] by {
            if exists|y: int| 0 <= y < x + 1 && g.names@[y]@ == t && !fwd@[y] {
                let y = choose|y: int| 0 <= y < x + 1 && g.names@[y]@ == t && !fwd@[y];
                if y < x {
                    assert(exists|y: int| 0 <= y < x && g.names@[y]@ == t && !fwd@[y]);
                }
            }
        }
        assert forall|t: Seq<char>|
            #[trigger] texts(dead_ends@).contains(t) <==> exists|y: int|
                0 <= y < x + 1 && g.names@[y]@ == t && !bwd@[y] by {
            if exists|y: int| 0 <= y < x + 1 && g.names@[y]@ == t && !bwd@[y] {
                let y = choose|y: int| 0 <= y < x + 1 && g.names@[y]@ == t && !bwd@[y];
                if y < x {
                    assert(exists|y: int| 0 <= y < x && g.names@[y]@ == t && !bwd@[y]);
                }
            }
        }
        x = x + 1;
    }
    let mut k: usize = 0;
    while k < declared.len()
        invariant
            g.wf(edges@),
            n == g.n(),
            k <= declared@.len(),
            fwd@.len() == n,
            bwd@.len() == n,
            forall|m: Seq<char>| is_node(edges@, m) ==> exists|y: int| 0 <= y < g.n() && #[trigger] g.names@[y]@ == m,
            strictly_sorted(texts(unreachable@)),
            strictly_sorted(texts(dead_ends@)),
            forall|t: Seq<char>|
                #[trigger] texts(unreachable@).contains(t) <==> ((exists|y: int|
                    0 <= y < n && g.names@[y]@ == t && !fwd@[y]) || exists|j: int|
                    0 <= j < k && declared@[j]@ == t && !is_node(edges@, t)),
            forall|t: Seq<char>|
                #[trigger] texts(dead_ends@).contains(t) <==> ((exists|y: int|
                    0 <= y < n && g.names@[y]@ == t && !bwd@[y]) || exists|j: int|
                    0 <= j < k && declared@[j]@ == t && !is_node(edges@, t)),
        decreases declared@.len() - k,
    {
        let name: String = declared[k].to_owned();
        match position_of(&g.names, &name) {
            Some(_) => {
                proof {
                    assert forall|t: Seq<char>| t == name@ implies is_node(edges@, t) by {
                        let y = choose|y: int| 0 <= y < g.names@.len() && g.names@[y]@ == t;
                    }
                }
            },
            None => {
                proof {
                    if is_node(edges@, name@) {
                        let y = choose|y: int| 0 <= y < g.n() && #[trigger] g.names@[y]@ == name@;
                    }
                }
                insert_sorted(&mut unreachable, name.clone());
                insert_sorted(&mut dead_ends, name);
            },
        }
        assert forall|t: Seq<char>|
            #[trigger] texts(unreachable@).contains(t) <==> ((exists|y: int|
                0 <= y < n && g.names@[y]@ == t && !fwd@[y]) || exists|j: int|
                0 <= j < k + 1 && declared@[j]@ == t && !is_node(edges@, t)) by {
            if exists|j: int| 0 <= j < k + 1 && declared@[j]@ == t && !is_node(edges@, t) {
                let j = choose|j: int| 0 <= j < k + 1 && declared@[j]@ == t && !is_node(edges@, t);
                if j < k {
                    assert(exists|j: int| 0 <= j < k && declared@[j]@ == t && !is_node(edges@, t));
                }
            }
        }
        assert forall|t: Seq<char>|
            #[trigger] texts(dead_ends@).contains(t) <==> ((exists|y: int|
                0 <= y < n && g.names@[y]@ == t && !bwd@[y]) || exists|j: int|
                0 <= j < k + 1 && declared@[j]@ == t && !is_node(edges@, t)) by {
            if exists|j: int| 0 <= j < k + 1 && declared@[j]@ == t && !is_node(edges@, t) {
                let j = choose|j: int| 0 <= j < k + 1 && declared@[j]@ == t && !is_node(edges@, t);
                if j < k {
                    assert(exists|j: int| 0 <= j < k && declared@[j]@ == t && !is_node(edges@, t));
                }
            }
        }
        k = k + 1;
    }
    proof {
        assert forall|t: Seq<char>|
            #[trigger] texts(unreachable@).contains(t) <==> unreachable_node(declared@, edges@, t) by {
            lemma_gap_matches(g, declared@, edges@, fwd@, true, t);
        }
        assert forall|t: Seq<char>|
            #[trigger] texts(dead_ends@).contains(t) <==> dead_end_node(declared@, edges@, t) by {
            lemma_gap_matches(g, declared@, edges@, bwd@, false, t);
        }
    }
    (unreachable, dead_ends)
}

/// One or more nodes are not on any source-to-sink path.
///
/// Both failure classes are reported together so that a single pass surfaces
/// every wiring gap at once.
#[derive(Debug)]
pub struct WiringError {
    /// Nodes with no path from any source: nothing can ever reach them.
    pub unreachable: Vec<String>,
    /// Nodes with no path to any sink: their events go nowhere.
    pub dead_ends: Vec<String>,
}

/// `text` when the list is not empty, nothing otherwise.
pub open spec fn when_listed(v: Seq<String>, text: Seq<char>) -> Seq<char> {
    if v.len() > 0 {
        text
    } else {
        Seq::empty()
    }
}

impl WiringError {
    /// `unreachable (no path from any source): a, b` on its own line, then
    /// `dead ends (no path to any sink): c`, each part only when its list is
    /// not empty.
    pub fn to_string(&self) -> (s: String)
        ensures
            s@ == when_listed(
                self.unreachable@,
                "unreachable (no path from any source): "@ + joined(texts(self.unreachable@), ", "@)
                    + "\n"@,
            ) + when_listed(
                self.dead_ends@,
                "dead ends (no path to any sink): "@ + joined(texts(self.dead_ends@), ", "@),
            ),
    {
        let mut s = String::new();
        if self.unreachable.len() > 0 {
            s.append("unreachable (no path from any source): ");
            push_joined(&mut s, &self.unreachable, ", ");
            s.append("\n");
        }
        let ghost first = s@;
        if self.dead_ends.len() > 0 {
            s.append("dead ends (no path to any sink): ");
            push_joined(&mut s, &self.dead_ends, ", ");
        }
        proof {
            assert(first =~= Seq::<char>::empty() + first);
            assert(first + Seq::<char>::empty() =~= first);
        }
        s
    }
}

/// Verifies that every node of the graph, and every declared node, is
/// reachable from at least one source and can reach at least one sink.
///
/// Nodes that appear only in `declared` are isolated and are reported both
/// as unreachable and as dead ends. Both lists come sorted and without
/// repetition.
pub fn check_wiring(declared: &[&str], edges: &[DagEdge]) -> (r: Result<(), WiringError>)
    ensures
        r is Ok <==> fully_wired(declared@, edges@),
        r matches Err(e) ==> {
            &&& lists_sorted(e.unreachable@, |n: Seq<char>| unreachable_node(declared@, edges@, n))
            &&& lists_sorted(e.dead_ends@, |n: Seq<char>| dead_end_node(declared@, edges@, n))
        },
{
    let (unreachable, dead_ends) = wiring_gaps(declared, edges);
    proof {
        lemma_gaps_decide_wiring(declared@, edges@, unreachable@, dead_ends@);
    }
    if unreachable.len() == 0 && dead_ends.len() == 0 {
        Ok(())
    } else {
        Err(WiringError { unreachable, dead_ends })
    }
}

/// Empty gap lists are exactly the fully wired graphs.
pub proof fn lemma_gaps_decide_wiring(
    declared: Seq<&str>,
    edges: Seq<DagEdge>,
    unreachable: Seq<String>,
    dead_ends: Seq<String>,
)
    requires
        lists_sorted(unreachable, |n: Seq<char>| unreachable_node(declared, edges, n)),
        lists_sorted(dead_ends, |n: Seq<char>| dead_end_node(declared, edges, n)),
    ensures
        (unreachable.len() == 0 && dead_ends.len() == 0) <==> fully_wired(declared, edges),
{
    if unreachable.len() == 0 && dead_ends.len() == 0 {
        assert forall|n: Seq<char>| !#[trigger] unreachable_node(declared, edges, n) by {
            assert(!texts(unreachable).contains(n));
        }
        assert forall|n: Seq<char>| !#[trigger] dead_end_node(declared, edges, n) by {
            assert(!texts(dead_ends).contains(n));
        }
        assert(fully_wired(declared, edges));
    } else if unreachable.len() > 0 {
        let n = texts(unreachable)[0];
        assert(texts(unreachable).contains(n));
        assert(unreachable_node(declared, edges, n));
        assert(!fully_wired(declared, edges));
    } else {
        let n = texts(dead_ends)[0];
        assert(texts(dead_ends).contains(n));
        assert(dead_end_node(declared, edges, n));
        assert(!fully_wired(declared, edges));
    }
}

} // verus!
