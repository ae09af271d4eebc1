//! The topology of an edge list and the depth-first walk over it.
//!
//! `walk(t, v) -> a`: the topology `t` is computed once and may be walked
//! many times; the visitor `v` says what to do at each step.

use vstd::prelude::*;
use crate::dag::graph::{
    DagEdge, texts, has_edge, is_node, acyclic, lemma_ranked_graph_is_acyclic,
};
use crate::dag::index::{NodeIndex, index_nodes, distinct_texts, lemma_index_of};
use crate::dag::marks::{
    Mark, unvisited_count, done_count, lemma_done_count_bound, lemma_done_count_mark,
    lemma_done_count_keep, lemma_unvisited_count_shrinks, fresh_marks, zeros,
};
use crate::dag::reach::{has_incoming, has_outgoing};
use crate::dag::cycle::advanced;

verus! {

/// Precomputed structure of a set of edges.
pub struct Topology<'a> {
    edges: &'a [DagEdge],
    index: NodeIndex,
}

impl<'a> Topology<'a> {
    /// The edges the topology was built from.
    pub closed spec fn edge_list(&self) -> Seq<DagEdge> {
        self.edges@
    }

    pub closed spec fn wf(&self) -> bool {
        &&& self.index.wf(self.edges@)
        &&& forall|n: Seq<char>|
            is_node(self.edges@, n) ==> exists|k: int|
                0 <= k < self.index.n() && #[trigger] self.index.names@[k]@ == n
    }

    /// Builds the topology of `edges`.
    pub fn new(edges: &'a [DagEdge]) -> (t: Topology<'a>)
        ensures
            t.wf(),
            t.edge_list() == edges@,
    {
        let index = index_nodes(edges);
        Topology { edges, index }
    }

    /// Edges as declared.
    pub fn edges(&self) -> (r: &'a [DagEdge])
        ensures
            r@ == self.edge_list(),
    {
        self.edges
    }

    /// All node names appearing in at least one edge, each once.
    pub fn nodes(&self) -> (r: Vec<String>)
        requires
            self.wf(),
        ensures
            distinct_texts(r@),
            forall|n: Seq<char>| #[trigger] texts(r@).contains(n) <==> is_node(self.edge_list(), n),
    {
        let ghost edges = self.edges@;
        let mut r: Vec<String> = Vec::new();
        let n = self.index.names.len();
        let mut k: usize = 0;
        while k < n
            invariant
                self.wf(),
                n == self.index.n(),
                k <= n,
                edges == self.edges@,
                r@.len() == k,
                forall|j: int| 0 <= j < k ==> #[trigger] r@[j]@ == self.index.names@[j]@,
            decreases n - k,
        {
            r.push(self.index.names[k].clone());
            k = k + 1;
        }
        proof {
            assert forall|j: int, l: int| 0 <= j < r@.len() && 0 <= l < r@.len() && j != l implies #[trigger] r@[j]@ != #[trigger] r@[l]@ by {
                assert(self.index.names@[j]@ != self.index.names@[l]@);
            }
            assert forall|m: Seq<char>| #[trigger] texts(r@).contains(m) <==> is_node(edges, m) by {
                if texts(r@).contains(m) {
                    let j = choose|j: int| 0 <= j < texts(r@).len() && texts(r@)[j] == m;
                    assert(is_node(edges, self.index.names@[j]@));
                }
                if is_node(edges, m) {
                    let j = choose|j: int| 0 <= j < self.index.n() && #[trigger] self.index.names@[j]@ == m;
                    assert(texts(r@)[j] == m);
                }
            }
        }
        r
    }

    /// Numbers of the nodes with (`incoming`) or without an entering edge.
    fn entered_flags(&self) -> (flags: Vec<bool>)
        requires
            self.wf(),
        ensures
            flags@.len() == self.index.n(),
            forall|x: int|
                0 <= x < self.index.n() ==> (#[trigger] flags@[x] <==> has_incoming(
                    self.edges@,
                    self.index.names@[x]@,
                )),
    {
        let n = self.index.names.len();
        let m = self.edges.len();
        let mut flags: Vec<bool> = Vec::new();
        let mut k: usize = 0;
        while k < n
            invariant
                k <= n,
                flags@.len() == k,
                forall|x: int| 0 <= x < k ==> !(#[trigger] flags@[x]),
            decreases n - k,
        {
            flags.push(false);
            k = k + 1;
        }
        let mut i: usize = 0;
        while i < m
            invariant
                self.wf(),
                n == self.index.n(),
                m == self.edges@.len(),
                i <= m,
                flags@.len() == n,
                forall|x: int|
                    0 <= x < n ==> (#[trigger] flags@[x] <==> exists|j: int|
                        0 <= j < i && self.index.to_ix@[j] == x),
            decreases m - i,
        {
            let d = self.index.to_ix[i];
            flags.set(d, true);
            assert forall|x: int| 0 <= x < n implies (#[trigger] flags@[x] <==> exists|j: int|
                0 <= j < i + 1 && self.index.to_ix@[j] == x) by {
                if x == d {
                    assert(self.index.to_ix@[i as int] == x);
                }
            }
            i = i + 1;
        }
        proof {
            assert forall|x: int| 0 <= x < n implies (#[trigger] flags@[x] <==> has_incoming(
                self.edges@,
                self.index.names@[x]@,
            )) by {
                if flags@[x] {
                    let j = choose|j: int| 0 <= j < m && self.index.to_ix@[j] == x;
                    assert(self.edges@[j].to@ == self.index.names@[x]@);
                }
                if has_incoming(self.edges@, self.index.names@[x]@) {
                    let j = choose|j: int| 0 <= j < m && #[trigger] self.edges@[j].to@ == self.index.names@[x]@;
                    lemma_index_of(self.index, self.edges@, x);
                    lemma_index_of(self.index, self.edges@, self.index.to_ix@[j] as int);
                }
            }
        }
        flags
    }

    /// Numbers of the nodes with an edge leaving them.
    fn leaving_flags(&self) -> (flags: Vec<bool>)
        requires
            self.wf(),
        ensures
            flags@.len() == self.index.n(),
            forall|x: int|
                0 <= x < self.index.n() ==> (#[trigger] flags@[x] <==> has_outgoing(
                    self.edges@,
                    self.index.names@[x]@,
                )),
    {
        let n = self.index.names.len();
        let m = self.edges.len();
        let mut flags: Vec<bool> = Vec::new();
        let mut k: usize = 0;
        while k < n
            invariant
                k <= n,
                flags@.len() == k,
                forall|x: int| 0 <= x < k ==> !(#[trigger] flags@[x]),
            decreases n - k,
        {
            flags.push(false);
            k = k + 1;
        }
        let mut i: usize = 0;
        while i < m
            invariant
                self.wf(),
                n == self.index.n(),
                m == self.edges@.len(),
                i <= m,
                flags@.len() == n,
                forall|x: int|
                    0 <= x < n ==> (#[trigger] flags@[x] <==> exists|j: int|
                        0 <= j < i && self.index.from_ix@[j] == x),
            decreases m - i,
        {
            let d = self.index.from_ix[i];
            flags.set(d, true);
            assert forall|x: int| 0 <= x < n implies (#[trigger] flags@[x] <==> exists|j: int|
                0 <= j < i + 1 && self.index.from_ix@[j] == x) by {
                if x == d {
                    assert(self.index.from_ix@[i as int] == x);
                }
            }
            i = i + 1;
        }
        proof {
            assert forall|x: int| 0 <= x < n implies (#[trigger] flags@[x] <==> has_outgoing(
                self.edges@,
                self.index.names@[x]@,
            )) by {
                if flags@[x] {
                    let j = choose|j: int| 0 <= j < m && self.index.from_ix@[j] == x;
                    assert(self.edges@[j].from@ == self.index.names@[x]@);
                }
                if has_outgoing(self.edges@, self.index.names@[x]@) {
                    let j = choose|j: int| 0 <= j < m && #[trigger] self.edges@[j].from@ == self.index.names@[x]@;
                    lemma_index_of(self.index, self.edges@, x);
                    lemma_index_of(self.index, self.edges@, self.index.from_ix@[j] as int);
                }
            }
        }
        flags
    }

    /// The node names whose flag equals `keep`, in node order.
    fn names_where(&self, flags: &Vec<bool>, keep: bool) -> (r: Vec<String>)
        requires
            self.wf(),
            flags@.len() == self.index.n(),
        ensures
            distinct_texts(r@),
            forall|m: Seq<char>| #[trigger] texts(r@).contains(m) <==> exists|x: int|
                0 <= x < self.index.n() && self.index.names@[x]@ == m && flags@[x] == keep,
    {
        let n = self.index.names.len();
        let mut r: Vec<String> = Vec::new();
        let mut k: usize = 0;
        while k < n
            invariant
                self.wf(),
                n == self.index.n(),
                flags@.len() == n,
                k <= n,
                distinct_texts(r@),
                forall|m: Seq<char>| #[trigger] texts(r@).contains(m) <==> exists|x: int|
                    0 <= x < k && self.index.names@[x]@ == m && flags@[x] == keep,
            decreases n - k,
        {
            if flags[k] == keep {
                let ghost before = r@;
                r.push(self.index.names[k].clone());
                proof {
                    assert(texts(r@) =~= texts(before).push(self.index.names@[k as int]@));
                    assert forall|j: int, l: int| 0 <= j < r@.len() && 0 <= l < r@.len() && j != l implies #[trigger] r@[j]@ != #[trigger] r@[l]@ by {
                        if j < before.len() && l < before.len() {
                            assert(r@[j] == before[j]);
                            assert(r@[l] == before[l]);
                        } else if j < before.len() {
                            assert(r@[j] == before[j]);
                            if r@[j]@ == r@[l]@ {
                                assert(texts(before).contains(self.index.names@[k as int]@)) by {
                                    assert(texts(before)[j] == self.index.names@[k as int]@);
                                }
                                let x = choose|x: int| 0 <= x < k && self.index.names@[x]@ == self.index.names@[k as int]@ && flags@[x] == keep;
                            }
                        } else if l < before.len() {
                            assert(r@[l] == before[l]);
                            if r@[j]@ == r@[l]@ {
                                assert(texts(before).contains(self.index.names@[k as int]@)) by {
                                    assert(texts(before)[l] == self.index.names@[k as int]@);
                                }
                                let x = choose|x: int| 0 <= x < k && self.index.names@[x]@ == self.index.names@[k as int]@ && flags@[x] == keep;
                            }
                        }
                    }
                    assert forall|m: Seq<char>| #[trigger] texts(r@).contains(m) <==> exists|x: int|
                        0 <= x < k + 1 && self.index.names@[x]@ == m && flags@[x] == keep by {
                        if texts(r@).contains(m) {
                            let j = choose|j: int| 0 <= j < texts(r@).len() && texts(r@)[j] == m;
                            if j < before.len() {
                                assert(texts(before)[j] == m);
                                assert(texts(before).contains(m));
                                let x = choose|x: int| 0 <= x < k && self.index.names@[x]@ == m && flags@[x] == keep;
                                assert(0 <= x < k + 1);
                            }
                        }
                        if exists|x: int| 0 <= x < k + 1 && self.index.names@[x]@ == m && flags@[x] == keep {
                            let x = choose|x: int| 0 <= x < k + 1 && self.index.names@[x]@ == m && flags@[x] == keep;
                            if x < k {
                                assert(texts(before).contains(m));
                                let j = choose|j: int| 0 <= j < texts(before).len() && texts(before)[j] == m;
                                assert(texts(r@)[j] == m);
                            } else {
                                assert(texts(r@)[before.len() as int] == m);
                            }
                        }
                    }
                }
            } else {
                proof {
                    assert forall|m: Seq<char>| #[trigger] texts(r@).contains(m) <==> exists|x: int|
                        0 <= x < k + 1 && self.index.names@[x]@ == m && flags@[x] == keep by {
                        if exists|x: int| 0 <= x < k + 1 && self.index.names@[x]@ == m && flags@[x] == keep {
                            let x = choose|x: int| 0 <= x < k + 1 && self.index.names@[x]@ == m && flags@[x] == keep;
                            assert(x < k);
                        }
                    }
                }
            }
            k = k + 1;
        }
        r
    }

    /// Source nodes: no incoming edge, the beginnings of all flows.
    pub fn sources(&self) -> (r: Vec<String>)
        requires
            self.wf(),
        ensures
            distinct_texts(r@),
            forall|n: Seq<char>| #[trigger] texts(r@).contains(n) <==> (is_node(self.edge_list(), n)
                && !has_incoming(self.edge_list(), n)),
    {
        let flags = self.entered_flags();
        let r = self.names_where(&flags, false);
        proof {
            assert forall|n: Seq<char>| #[trigger] texts(r@).contains(n) <==> (is_node(self.edges@, n)
                && !has_incoming(self.edges@, n)) by {
                if texts(r@).contains(n) {
                    let x = choose|x: int| 0 <= x < self.index.n() && self.index.names@[x]@ == n && flags@[x] == false;
                    assert(is_node(self.edges@, self.index.names@[x]@));
                }
                if is_node(self.edges@, n) && !has_incoming(self.edges@, n) {
                    let x = choose|x: int| 0 <= x < self.index.n() && #[trigger] self.index.names@[x]@ == n;
                    assert(flags@[x] == false);
                }
            }
        }
        r
    }

    /// Sink nodes: no outgoing edge, the ends of all flows.
    pub fn sinks(&self) -> (r: Vec<String>)
        requires
            self.wf(),
        ensures
            distinct_texts(r@),
            forall|n: Seq<char>| #[trigger] texts(r@).contains(n) <==> (is_node(self.edge_list(), n)
                && !has_outgoing(self.edge_list(), n)),
    {
        let flags = self.leaving_flags();
        let r = self.names_where(&flags, false);
        proof {
            assert forall|n: Seq<char>| #[trigger] texts(r@).contains(n) <==> (is_node(self.edges@, n)
                && !has_outgoing(self.edges@, n)) by {
                if texts(r@).contains(n) {
                    let x = choose|x: int| 0 <= x < self.index.n() && self.index.names@[x]@ == n && flags@[x] == false;
                    assert(is_node(self.edges@, self.index.names@[x]@));
                }
                if is_node(self.edges@, n) && !has_outgoing(self.edges@, n) {
                    let x = choose|x: int| 0 <= x < self.index.n() && #[trigger] self.index.names@[x]@ == n;
                    assert(flags@[x] == false);
                }
            }
        }
        r
    }

    /// Outgoing edges of `node` as `(event, to)` pairs, in edge order.
    pub fn neighbors(&self, node: &str) -> (r: Vec<(String, String)>)
        ensures
            pair_texts(r@) == out_edges(self.edge_list(), node@),
    {
        let mut r: Vec<(String, String)> = Vec::new();
        let mut i: usize = 0;
        let name = node.to_owned();
        while i < self.edges.len()
            invariant
                i <= self.edges@.len(),
                name@ == node@,
                pair_texts(r@) == out_edges(self.edges@.take(i as int), node@),
            decreases self.edges@.len() - i,
        {
            let ghost before = r@;
            assert(self.edges@.take(i + 1).drop_last() =~= self.edges@.take(i as int));
            if self.edges[i].from == name {
                r.push((self.edges[i].event.clone(), self.edges[i].to.clone()));
                assert(pair_texts(r@) =~= pair_texts(before).push((self.edges@[i as int].event@, self.edges@[i as int].to@)));
            }
            i = i + 1;
        }
        assert(self.edges@.take(self.edges@.len() as int) =~= self.edges@);
        r
    }
}

/// The texts of `(event, to)` pairs.
pub open spec fn pair_texts(v: Seq<(String, String)>) -> Seq<(Seq<char>, Seq<char>)> {
    v.map_values(|p: (String, String)| (p.0@, p.1@))
}

/// `(event, to)` of every edge leaving `node`, in edge order.
pub open spec fn out_edges(edges: Seq<DagEdge>, node: Seq<char>) -> Seq<(Seq<char>, Seq<char>)>
    decreases edges.len(),
{
    if edges.len() == 0 {
        Seq::empty()
    } else {
        let rest = out_edges(edges.drop_last(), node);
        if edges.last().from@ == node {
            rest.push((edges.last().event@, edges.last().to@))
        } else {
            rest
        }
    }
}

/// One step of a depth-first walk.
#[derive(Debug, Clone)]
pub enum WalkStep {
    /// A node is entered for the first time; `via` is `(event, from_node)`
    /// of the edge that led there, `None` where the walk starts afresh.
    Enter { node: String, via: Option<(String, String)> },
    /// `current --[event]--> to` reaches a node on the current walk path.
    BackEdge { current: String, event: String, to: String },
    /// Every node reachable from `node` has been explored.
    Leave { node: String },
}

/// The event of the edge that led to an entered node.
pub open spec fn via_event(via: Option<(String, String)>) -> Option<Seq<char>> {
    match via {
        Some(p) => Some(p.0@),
        None => None,
    }
}

/// The path of entered-but-not-left nodes after `steps`, each with the event
/// it was entered by.
pub open spec fn open_frames(steps: Seq<WalkStep>) -> Seq<(Seq<char>, Option<Seq<char>>)>
    decreases steps.len(),
{
    if steps.len() == 0 {
        Seq::empty()
    } else {
        let s = open_frames(steps.drop_last());
        match steps.last() {
            WalkStep::Enter { node, via } => s.push((node@, via_event(via))),
            WalkStep::BackEdge { .. } => s,
            WalkStep::Leave { .. } => s.drop_last(),
        }
    }
}

/// Each frame after the first was entered along an edge from the frame
/// before it.
pub open spec fn frames_chain(edges: Seq<DagEdge>, st: Seq<(Seq<char>, Option<Seq<char>>)>) -> bool {
    forall|j: int|
        1 <= j < st.len() ==> (#[trigger] st[j]).1 is Some && has_edge(edges, st[j - 1].0, st[j].1->0, st[j].0)
}

/// No node is open twice on the walk path.
pub open spec fn frames_distinct(st: Seq<(Seq<char>, Option<Seq<char>>)>) -> bool {
    forall|j: int, k: int| 0 <= j < k < st.len() ==> (#[trigger] st[j]).0 != (#[trigger] st[k]).0
}

/// Step `k` fits the walk so far: a node is entered along an edge from the
/// node on top of the walk path, or afresh on an empty path, and afresh at a
/// node that an edge enters only once every source has been entered; a back
/// edge leads from the top of the path to a node on it; a node is left from
/// the top of the path, once every node that an edge from it leads to has
/// been entered.
pub open spec fn step_fits(edges: Seq<DagEdge>, steps: Seq<WalkStep>, k: int) -> bool {
    let st = open_frames(steps.take(k));
    match steps[k] {
        WalkStep::Enter { node, via } => match via {
            Some(p) => st.len() > 0 && st.last().0 == p.1@ && has_edge(edges, p.1@, p.0@, node@),
            None => {
                &&& st.len() == 0
                &&& has_incoming(edges, node@) ==> forall|n: Seq<char>|
                    is_node(edges, n) && !has_incoming(edges, n) ==> #[trigger] entered(steps.take(k), n)
            },
        },
        WalkStep::BackEdge { current, event, to } => {
            &&& frames_chain(edges, st)
            &&& frames_distinct(st)
            &&& st.len() > 0
            &&& st.last().0 == current@
            &&& exists|j: int| 0 <= j < st.len() && #[trigger] st[j].0 == to@
            &&& has_edge(edges, current@, event@, to@)
        },
        WalkStep::Leave { node } => {
            &&& st.len() > 0
            &&& st.last().0 == node@
            &&& forall|ev: Seq<char>, m: Seq<char>| #[trigger] has_edge(edges, node@, ev, m) ==> entered(steps.take(k), m)
        },
    }
}

/// Step `k` enters `n`.
pub open spec fn enters(steps: Seq<WalkStep>, k: int, n: Seq<char>) -> bool {
    steps[k] matches WalkStep::Enter { node, .. } && node@ == n
}

pub open spec fn entered(steps: Seq<WalkStep>, n: Seq<char>) -> bool {
    exists|k: int| 0 <= k < steps.len() && #[trigger] enters(steps, k, n)
}

pub open spec fn no_back_edge(steps: Seq<WalkStep>) -> bool {
    forall|k: int| 0 <= k < steps.len() ==> !(#[trigger] steps[k] is BackEdge)
}

/// Index-level frames: node numbers with the edge they were entered by.
spec fn frames_ok(g: NodeIndex, stack: Seq<(usize, Option<usize>)>) -> bool {
    &&& forall|j: int| 0 <= j < stack.len() ==> #[trigger] stack[j].0 < g.n()
    &&& forall|j: int|
        1 <= j < stack.len() ==> {
            &&& (#[trigger] stack[j]).1 is Some
            &&& stack[j].1->0 < g.from_ix@.len()
            &&& g.from_ix@[stack[j].1->0 as int] == stack[j - 1].0
            &&& g.to_ix@[stack[j].1->0 as int] == stack[j].0
        }
}

spec fn frame_text(g: NodeIndex, edges: Seq<DagEdge>, f: (usize, Option<usize>)) -> (Seq<char>, Option<Seq<char>>) {
    (g.names@[f.0 as int]@, match f.1 {
        Some(e) => Some(edges[e as int].event@),
        None => None,
    })
}

spec fn frames_text(g: NodeIndex, edges: Seq<DagEdge>, stack: Seq<(usize, Option<usize>)>) -> Seq<(Seq<char>, Option<Seq<char>>)> {
    stack.map_values(|f: (usize, Option<usize>)| frame_text(g, edges, f))
}

spec fn stack_distinct(stack: Seq<(usize, Option<usize>)>) -> bool {
    forall|j: int, k: int| 0 <= j < k < stack.len() ==> (#[trigger] stack[j]).0 != (#[trigger] stack[k]).0
}

spec fn on_stack(stack: Seq<(usize, Option<usize>)>, x: int) -> bool {
    exists|j: int| 0 <= j < stack.len() && #[trigger] stack[j].0 == x
}

/// Walk state: marks, ranks, frames and the steps so far agree.
spec fn walk_ok(
    g: NodeIndex,
    edges: Seq<DagEdge>,
    mark: Seq<Mark>,
    order: Seq<usize>,
    counter: nat,
    stack: Seq<(usize, Option<usize>)>,
    steps: Seq<WalkStep>,
) -> bool {
    &&& g.wf(edges)
    &&& mark.len() == g.n()
    &&& order.len() == g.n()
    &&& counter == done_count(mark)
    &&& forall|x: int| 0 <= x < mark.len() && (#[trigger] mark[x] is Done) ==> order[x] < counter
    &&& no_back_edge(steps) ==> forall|i: int|
        0 <= i < g.from_ix@.len() && mark[#[trigger] g.from_ix@[i] as int] is Done ==> {
            &&& mark[g.to_ix@[i] as int] is Done
            &&& order[g.from_ix@[i] as int] > order[g.to_ix@[i] as int]
        }
    &&& frames_ok(g, stack)
    &&& stack_distinct(stack)
    &&& forall|x: int| 0 <= x < g.n() ==> (#[trigger] mark[x] is InStack <==> on_stack(stack, x))
    &&& open_frames(steps) == frames_text(g, edges, stack)
    &&& forall|k: int| 0 <= k < steps.len() ==> #[trigger] step_fits(edges, steps, k)
    &&& forall|x: int| 0 <= x < g.n() ==> (!(#[trigger] mark[x] is Unvisited) <==> entered(steps, g.names@[x]@))
    &&& forall|k: int, n: Seq<char>| 0 <= k < steps.len() && #[trigger] enters(steps, k, n) ==> exists|x: int|
        0 <= x < g.n() && #[trigger] g.names@[x]@ == n
    &&& forall|k1: int, k2: int, n: Seq<char>|
        0 <= k1 < steps.len() && 0 <= k2 < steps.len() && #[trigger] enters(steps, k1, n) && #[trigger] enters(steps, k2, n) ==> k1 == k2
}

/// Appending a step keeps the earlier steps' fit.
proof fn lemma_steps_extend(edges: Seq<DagEdge>, steps: Seq<WalkStep>, s: WalkStep)
    requires
        forall|k: int| 0 <= k < steps.len() ==> #[trigger] step_fits(edges, steps, k),
        step_fits(edges, steps.push(s), steps.len() as int),
    ensures
        forall|k: int| 0 <= k < steps.len() + 1 ==> #[trigger] step_fits(edges, steps.push(s), k),
        open_frames(steps.push(s)) == match s {
            WalkStep::Enter { node, via } => open_frames(steps).push((node@, via_event(via))),
            WalkStep::BackEdge { .. } => open_frames(steps),
            WalkStep::Leave { .. } => open_frames(steps).drop_last(),
        },
{
    let t = steps.push(s);
    assert(t.drop_last() =~= steps);
    assert forall|k: int| 0 <= k < steps.len() + 1 implies #[trigger] step_fits(edges, t, k) by {
        if k < steps.len() {
            assert(t.take(k) =~= steps.take(k));
            assert(t[k] == steps[k]);
            assert(step_fits(edges, steps, k));
        }
    }
}

proof fn lemma_frames_text_push(
    g: NodeIndex,
    edges: Seq<DagEdge>,
    stack: Seq<(usize, Option<usize>)>,
    f: (usize, Option<usize>),
)
    ensures
        frames_text(g, edges, stack.push(f)) == frames_text(g, edges, stack).push(frame_text(g, edges, f)),
        stack.len() > 0 ==> frames_text(g, edges, stack.drop_last()) == frames_text(g, edges, stack).drop_last(),
{
    assert(frames_text(g, edges, stack.push(f)) =~= frames_text(g, edges, stack).push(frame_text(g, edges, f)));
    if stack.len() > 0 {
        assert(frames_text(g, edges, stack.drop_last()) =~= frames_text(g, edges, stack).drop_last());
    }
}

/// Appending a step that enters nothing keeps what has been entered.
proof fn lemma_entered_keep(steps: Seq<WalkStep>, s: WalkStep, n: Seq<char>)
    requires
        !(s is Enter),
    ensures
        entered(steps.push(s), n) == entered(steps, n),
        forall|k: int| 0 <= k < steps.len() ==> #[trigger] enters(steps.push(s), k, n) == enters(steps, k, n),
{
    let t = steps.push(s);
    assert forall|k: int| 0 <= k < steps.len() implies #[trigger] enters(t, k, n) == enters(steps, k, n) by {
        assert(t[k] == steps[k]);
    }
    if entered(t, n) {
        let k = choose|k: int| 0 <= k < t.len() && #[trigger] enters(t, k, n);
        assert(k < steps.len());
        assert(enters(steps, k, n));
    }
    if entered(steps, n) {
        let k = choose|k: int| 0 <= k < steps.len() && #[trigger] enters(steps, k, n);
        assert(enters(t, k, n));
    }
}

/// Walks depth-first from `node`, entered along edge `via`.
fn walk_from(
    g: &NodeIndex,
    edges: &[DagEdge],
    node: usize,
    via: Option<usize>,
    mark: &mut Vec<Mark>,
    order: &mut Vec<usize>,
    counter: &mut usize,
    stack: &mut Vec<(usize, Option<usize>)>,
    steps: &mut Vec<WalkStep>,
)
    requires
        walk_ok(*g, edges@, old(mark)@, old(order)@, *old(counter) as nat, old(stack)@, old(steps)@),
        node < g.n(),
        old(mark)@[node as int] is Unvisited,
        match via {
            Some(e) => e < edges@.len() && old(stack)@.len() > 0 && g.from_ix@[e as int]
                == old(stack)@.last().0 && g.to_ix@[e as int] == node,
            None => {
                &&& old(stack)@.len() == 0
                &&& has_incoming(edges@, g.names@[node as int]@) ==> forall|n: Seq<char>|
                    is_node(edges@, n) && !has_incoming(edges@, n) ==> #[trigger] entered(old(steps)@, n)
            },
        },
    ensures
        walk_ok(*g, edges@, final(mark)@, final(order)@, *final(counter) as nat, final(stack)@, final(steps)@),
        final(stack)@ == old(stack)@,
        final(mark)@[node as int] is Done,
        advanced(old(mark)@, old(order)@, final(mark)@, final(order)@),
        forall|x: int| 0 <= x < g.n() ==> (#[trigger] final(mark)@[x] is InStack <==> old(mark)@[x] is InStack),
        final(steps)@.len() >= old(steps)@.len(),
        final(steps)@.subrange(0, old(steps)@.len() as int) == old(steps)@,
    decreases unvisited_count(old(mark)@),
{
    let ghost mark0 = mark@;
    let ghost order0 = order@;
    let ghost stack0 = stack@;
    let ghost steps0 = steps@;
    let ghost e_text = edges@;
    // Enter.
    let via_names: Option<(String, String)> = match via {
        Some(e) => Some((edges[e].event.clone(), g.names[g.from_ix[e]].clone())),
        None => None,
    };
    let enter = WalkStep::Enter { node: g.names[node].clone(), via: via_names };
    proof {
        let t = steps0.push(enter);
        assert(t.take(steps0.len() as int) =~= steps0);
        match via {
            Some(e) => {
                assert(stack0[stack0.len() - 1].0 < g.n());
                assert(edges@[e as int].from@ == g.names@[g.from_ix@[e as int] as int]@);
                assert(edges@[e as int].to@ == g.names@[node as int]@);
            },
            None => {},
        }
        assert(step_fits(edges@, t, steps0.len() as int));
        lemma_steps_extend(edges@, steps0, enter);
    }
    steps.push(enter);
    stack.push((node, via));
    proof {
        lemma_done_count_keep(mark@, node as int, Mark::InStack);
        lemma_frames_text_push(*g, edges@, stack0, (node, via));
    }
    mark.set(node, Mark::InStack);
    proof {
        let t = steps@;
        let nm = g.names@[node as int]@;
        assert(enters(t, steps0.len() as int, nm));
        assert forall|k: int| 0 <= k < steps0.len() implies #[trigger] enters(t, k, nm) == enters(steps0, k, nm) by {
            assert(t[k] == steps0[k]);
        }
        assert forall|x: int| 0 <= x < g.n() implies (!(#[trigger] mark@[x] is Unvisited) <==> entered(t, g.names@[x]@)) by {
            let nx = g.names@[x]@;
            assert forall|k: int| 0 <= k < steps0.len() implies #[trigger] enters(t, k, nx) == enters(steps0, k, nx) by {
                assert(t[k] == steps0[k]);
            }
            if x == node {
                assert(enters(t, steps0.len() as int, nx));
            } else {
                assert(nx != nm);
                if entered(t, nx) {
                    let k = choose|k: int| 0 <= k < t.len() && #[trigger] enters(t, k, nx);
                    assert(k < steps0.len());
                    assert(enters(steps0, k, nx));
                }
                if entered(steps0, nx) {
                    let k = choose|k: int| 0 <= k < steps0.len() && #[trigger] enters(steps0, k, nx);
                    assert(enters(t, k, nx));
                }
            }
        }
        assert forall|k: int, n: Seq<char>| 0 <= k < t.len() && #[trigger] enters(t, k, n) implies exists|x: int|
            0 <= x < g.n() && #[trigger] g.names@[x]@ == n by {
            if k < steps0.len() {
                assert(t[k] == steps0[k]);
                assert(enters(steps0, k, n));
            } else {
                assert(g.names@[node as int]@ == n);
            }
        }
        assert forall|k1: int, k2: int, n: Seq<char>|
            0 <= k1 < t.len() && 0 <= k2 < t.len() && #[trigger] enters(t, k1, n) && #[trigger] enters(t, k2, n) implies k1 == k2 by {
            if k1 < steps0.len() {
                assert(t[k1] == steps0[k1]);
                assert(enters(steps0, k1, n));
            }
            if k2 < steps0.len() {
                assert(t[k2] == steps0[k2]);
                assert(enters(steps0, k2, n));
            }
            if k1 < steps0.len() && k2 == steps0.len() {
                assert(n == nm);
                assert(entered(steps0, nm));
                assert(!(mark0[node as int] is Unvisited));
            }
            if k2 < steps0.len() && k1 == steps0.len() {
                assert(n == nm);
                assert(entered(steps0, nm));
                assert(!(mark0[node as int] is Unvisited));
            }
        }
        assert forall|j: int| 1 <= j < stack@.len() implies {
            &&& (#[trigger] stack@[j]).1 is Some
            &&& stack@[j].1->0 < g.from_ix@.len()
            &&& g.from_ix@[stack@[j].1->0 as int] == stack@[j - 1].0
            &&& g.to_ix@[stack@[j].1->0 as int] == stack@[j].0
        } by {
            if j < stack0.len() {
                assert(stack@[j] == stack0[j]);
                assert(stack@[j - 1] == stack0[j - 1]);
            } else {
                assert(stack@[j - 1] == stack0[j - 1]);
            }
        }
        assert forall|j: int| 0 <= j < stack@.len() implies #[trigger] stack@[j].0 < g.n() by {
            if j < stack0.len() {
                assert(stack@[j] == stack0[j]);
            }
        }
        assert forall|x: int| 0 <= x < g.n() implies (#[trigger] mark@[x] is InStack <==> on_stack(stack@, x)) by {
            if on_stack(stack0, x) {
                let j = choose|j: int| 0 <= j < stack0.len() && #[trigger] stack0[j].0 == x;
                assert(stack@[j] == stack0[j]);
            }
            if x == node {
                assert(stack@[stack0.len() as int].0 == x);
            }
            if on_stack(stack@, x) && x != node {
                let j = choose|j: int| 0 <= j < stack@.len() && #[trigger] stack@[j].0 == x;
                assert(stack@[j] == stack0[j]);
            }
        }
        assert forall|j: int, k: int| 0 <= j < k < stack@.len() implies (#[trigger] stack@[j]).0
            != (#[trigger] stack@[k]).0 by {
            assert(stack@[j] == stack0[j]);
            if k < stack0.len() {
                assert(stack@[k] == stack0[k]);
            } else {
                if stack0[j].0 == node {
                    assert(on_stack(stack0, node as int));
                }
            }
        }
        assert(no_back_edge(t) == no_back_edge(steps0)) by {
            if no_back_edge(steps0) {
                assert forall|k: int| 0 <= k < t.len() implies !(#[trigger] t[k] is BackEdge) by {
                    if k < steps0.len() {
                        assert(t[k] == steps0[k]);
                    }
                }
            }
            if no_back_edge(t) {
                assert forall|k: int| 0 <= k < steps0.len() implies !(#[trigger] steps0[k] is BackEdge) by {
                    assert(t[k] == steps0[k]);
                }
            }
        }
        assert(t.subrange(0, steps0.len() as int) =~= steps0);
    }
    let m = edges.len();
    let mut i: usize = 0;
    while i < m
        invariant
            walk_ok(*g, edges@, mark@, order@, *counter as nat, stack@, steps@),
            m == edges@.len(),
            i <= m,
            node < g.n(),
            stack@ == stack0.push((node, via)),
            mark@[node as int] is InStack,
            mark0 == old(mark)@,
            mark0.len() == g.n(),
            mark0[node as int] is Unvisited,
            advanced(mark0, order0, mark@, order@),
            forall|x: int| 0 <= x < g.n() && x != node ==> (#[trigger] mark@[x] is InStack <==> mark0[x] is InStack),
            steps@.len() > steps0.len(),
            steps@.subrange(0, steps0.len() as int) == steps0,
            forall|j: int|
                0 <= j < i && #[trigger] g.from_ix@[j] == node ==> (mark@[g.to_ix@[j] as int] is Done
                    || !no_back_edge(steps@)),
            forall|j: int| 0 <= j < i && #[trigger] g.from_ix@[j] == node ==> !(mark@[g.to_ix@[j] as int] is Unvisited),
        decreases m - i,
    {
        if g.from_ix[i] == node {
            let v = g.to_ix[i];
            match mark[v] {
                Mark::InStack => {
                    let back = WalkStep::BackEdge {
                        current: g.names[node].clone(),
                        event: edges[i].event.clone(),
                        to: g.names[v].clone(),
                    };
                    let ghost st = steps@;
                    proof {
                        let t = st.push(back);
                        assert(t.take(st.len() as int) =~= st);
                        let fr = open_frames(st);
                        assert forall|j: int| 1 <= j < fr.len() implies (#[trigger] fr[j]).1 is Some
                            && has_edge(edges@, fr[j - 1].0, fr[j].1->0, fr[j].0) by {
                            let e = stack@[j].1->0;
                            assert(stack@[j].1 is Some);
                            assert(stack@[j - 1].0 < g.n());
                            assert(edges@[e as int].from@ == g.names@[g.from_ix@[e as int] as int]@);
                            assert(edges@[e as int].to@ == g.names@[g.to_ix@[e as int] as int]@);
                        }
                        assert forall|a: int, b: int| 0 <= a < b < fr.len() implies (#[trigger] fr[a]).0
                            != (#[trigger] fr[b]).0 by {
                            assert(stack@[a].0 < g.n());
                            assert(stack@[b].0 < g.n());
                            assert(stack@[a].0 != stack@[b].0);
                        }
                        assert(on_stack(stack@, v as int));
                        let j = choose|j: int| 0 <= j < stack@.len() && #[trigger] stack@[j].0 == v;
                        assert(fr[j].0 == g.names@[v as int]@);
                        assert(edges@[i as int].from@ == g.names@[node as int]@);
                        assert(edges@[i as int].to@ == g.names@[v as int]@);
                        assert(step_fits(edges@, t, st.len() as int));
                        lemma_steps_extend(edges@, st, back);
                        assert forall|n: Seq<char>| #![auto] entered(t, n) == entered(st, n) by {
                            lemma_entered_keep(st, back, n);
                        }
                        assert forall|k: int, n: Seq<char>| 0 <= k < t.len() && #[trigger] enters(t, k, n) implies exists|x: int|
                            0 <= x < g.n() && #[trigger] g.names@[x]@ == n by {
                            lemma_entered_keep(st, back, n);
                            assert(enters(st, k, n));
                        }
                        assert forall|k1: int, k2: int, n: Seq<char>|
                            0 <= k1 < t.len() && 0 <= k2 < t.len() && #[trigger] enters(t, k1, n) && #[trigger] enters(t, k2, n) implies k1 == k2 by {
                            lemma_entered_keep(st, back, n);
                            assert(enters(st, k1, n));
                            assert(enters(st, k2, n));
                        }
                        assert(t[st.len() as int] is BackEdge);
                        assert(t.subrange(0, steps0.len() as int) =~= st.subrange(0, steps0.len() as int));
                    }
                    steps.push(back);
                },
                Mark::Done => {},
                Mark::Unvisited => {
                    let ghost mark1 = mark@;
                    let ghost steps1 = steps@;
                    proof {
                        assert(!(mark@[node as int] is Unvisited));
                        lemma_unvisited_count_shrinks(mark0, mark@, node as int);
                        assert(stack@.last().0 == node);
                    }
                    walk_from(g, edges, v, Some(i), mark, order, counter, stack, steps);
                    proof {
                        assert(steps@.subrange(0, steps0.len() as int) =~= steps1.subrange(0, steps0.len() as int));
                        if !no_back_edge(steps1) {
                            let k = choose|k: int| 0 <= k < steps1.len() && #[trigger] steps1[k] is BackEdge;
                            assert(steps@[k] == steps1[k]);
                        }
                        assert forall|j: int|
                            0 <= j < i + 1 && #[trigger] g.from_ix@[j] == node implies (mark@[g.to_ix@[j] as int] is Done
                                || !no_back_edge(steps@)) by {
                            if j < i {
                                if mark1[g.to_ix@[j] as int] is Done {
                                } else {
                                    assert(!no_back_edge(steps1));
                                }
                            }
                        }
                        assert forall|j: int| 0 <= j < i + 1 && #[trigger] g.from_ix@[j] == node implies !(mark@[g.to_ix@[j] as int] is Unvisited) by {
                            if j < i {
                                assert(!(mark1[g.to_ix@[j] as int] is Unvisited));
                                assert(g.to_ix@[j] < g.n());
                            }
                        }
                    }
                },
            }
        }
        i = i + 1;
    }
    // Leave.
    let leave = WalkStep::Leave { node: g.names[node].clone() };
    let ghost st = steps@;
    let ghost stk = stack@;
    proof {
        let t = st.push(leave);
        assert(t.take(st.len() as int) =~= st);
        assert forall|ev: Seq<char>, mm: Seq<char>| #[trigger] has_edge(edges@, g.names@[node as int]@, ev, mm) implies entered(st, mm) by {
            let e = choose|e: int|
                0 <= e < edges@.len() && #[trigger] edges@[e].from@ == g.names@[node as int]@ && edges@[e].event@ == ev
                    && edges@[e].to@ == mm;
            assert(g.names@[g.from_ix@[e] as int]@ == edges@[e].from@);
            assert(g.from_ix@[e] == node);
            assert(!(mark@[g.to_ix@[e] as int] is Unvisited));
            assert(g.names@[g.to_ix@[e] as int]@ == mm);
        }
        assert(step_fits(edges@, t, st.len() as int));
        lemma_steps_extend(edges@, st, leave);
        lemma_frames_text_push(*g, edges@, stk, (node, via));
        assert(stk.drop_last() =~= stack0);
        assert(open_frames(t) == frames_text(*g, edges@, stack0));
    }
    steps.push(leave);
    stack.pop();
    let ghost len = mark.len();
    proof {
        lemma_done_count_mark(mark@, node as int);
        lemma_done_count_bound(mark@.update(node as int, Mark::Done));
        assert(*counter + 1 <= len);
    }
    let ghost mark2 = mark@;
    let ghost order2 = order@;
    order.set(node, *counter);
    mark.set(node, Mark::Done);
    *counter = *counter + 1;
    proof {
        let t = steps@;
        assert(t[st.len() as int] is Leave);
        assert(no_back_edge(t) ==> no_back_edge(st)) by {
            if no_back_edge(t) {
                assert forall|k: int| 0 <= k < st.len() implies !(#[trigger] st[k] is BackEdge) by {
                    assert(t[k] == st[k]);
                }
            }
        }
        assert(no_back_edge(st) ==> no_back_edge(t)) by {
            if no_back_edge(st) {
                assert forall|k: int| 0 <= k < t.len() implies !(#[trigger] t[k] is BackEdge) by {
                    if k < st.len() {
                        assert(t[k] == st[k]);
                    }
                }
            }
        }
        assert forall|n: Seq<char>| #![auto] entered(t, n) == entered(st, n) by {
            lemma_entered_keep(st, leave, n);
        }
        assert forall|k: int, n: Seq<char>| 0 <= k < t.len() && #[trigger] enters(t, k, n) implies exists|x: int|
            0 <= x < g.n() && #[trigger] g.names@[x]@ == n by {
            lemma_entered_keep(st, leave, n);
            assert(enters(st, k, n));
        }
        assert forall|k1: int, k2: int, n: Seq<char>|
            0 <= k1 < t.len() && 0 <= k2 < t.len() && #[trigger] enters(t, k1, n) && #[trigger] enters(t, k2, n) implies k1 == k2 by {
            lemma_entered_keep(st, leave, n);
            assert(enters(st, k1, n));
            assert(enters(st, k2, n));
        }
        assert forall|i: int|
            0 <= i < g.from_ix@.len() && mark@[#[trigger] g.from_ix@[i] as int] is Done && no_back_edge(t) implies {
                &&& mark@[g.to_ix@[i] as int] is Done
                &&& order@[g.from_ix@[i] as int] > order@[g.to_ix@[i] as int]
            } by {
            if g.from_ix@[i] == node {
                assert(mark2[g.to_ix@[i] as int] is Done);
            } else {
                assert(mark2[g.from_ix@[i] as int] is Done);
            }
        }
        assert forall|x: int| 0 <= x < g.n() implies (#[trigger] mark@[x] is InStack <==> on_stack(stack@, x)) by {
            if x == node {
                if on_stack(stack0, x) {
                    assert(mark0[x] is InStack);
                }
            } else {
                if on_stack(stk, x) {
                    let j = choose|j: int| 0 <= j < stk.len() && #[trigger] stk[j].0 == x;
                    if j < stack0.len() {
                        assert(stack0[j] == stk[j]);
                    }
                }
                if on_stack(stack0, x) {
                    let j = choose|j: int| 0 <= j < stack0.len() && #[trigger] stack0[j].0 == x;
                    assert(stk[j] == stack0[j]);
                }
            }
        }
        assert forall|x: int| 0 <= x < g.n() implies (!(#[trigger] mark@[x] is Unvisited) <==> entered(t, g.names@[x]@)) by {
            assert(!(mark2[x] is Unvisited) <==> entered(st, g.names@[x]@));
        }
        assert(t.subrange(0, steps0.len() as int) =~= st.subrange(0, steps0.len() as int));
        assert(frames_ok(*g, stack@));
        assert(stack_distinct(stack@));
        assert(open_frames(t) == frames_text(*g, edges@, stack@));
        assert forall|k: int| 0 <= k < t.len() implies #[trigger] step_fits(edges@, t, k) by {}
        assert(*counter == done_count(mark@));
        assert forall|x: int| 0 <= x < mark@.len() && (#[trigger] mark@[x] is Done) implies order@[x] < *counter by {
            if x != node {
                assert(mark2[x] is Done);
            }
        }
    }
}

/// `steps` is a depth-first walk of `edges`, sources first: every step fits
/// the walk before it, every node is entered exactly once, the walk ends
/// with no node open, and a walk without back edges proves the graph
/// acyclic.
pub open spec fn is_depth_first_walk(edges: Seq<DagEdge>, steps: Seq<WalkStep>) -> bool {
    &&& forall|k: int| 0 <= k < steps.len() ==> #[trigger] step_fits(edges, steps, k)
    &&& no_back_edge(steps) ==> acyclic(edges)
    &&& forall|n: Seq<char>| is_node(edges, n) <==> entered(steps, n)
    &&& forall|k1: int, k2: int, n: Seq<char>|
        0 <= k1 < steps.len() && 0 <= k2 < steps.len() && #[trigger] enters(steps, k1, n)
            && #[trigger] enters(steps, k2, n) ==> k1 == k2
    &&& open_frames(steps).len() == 0
}

/// The views of the arguments a visitor's `enter` is handed.
pub open spec fn via_text(via: Option<(&str, &str)>) -> Option<(Seq<char>, Seq<char>)> {
    match via {
        Some(p) => Some((p.0@, p.1@)),
        None => None,
    }
}

/// The views of the `via` of an `Enter` step.
pub open spec fn via_texts(via: Option<(String, String)>) -> Option<(Seq<char>, Seq<char>)> {
    match via {
        Some(p) => Some((p.0@, p.1@)),
        None => None,
    }
}

/// The steps of a depth-first walk of the topology: from every source (no
/// incoming edge) first, then from any node still unvisited (such as the
/// nodes of an isolated cycle).
///
/// Every node is entered exactly once; every step fits the walk before it;
/// a walk without back edges proves the graph acyclic.
pub fn walk_steps(t: &Topology) -> (steps: Vec<WalkStep>)
    requires
        t.wf(),
    ensures
        forall|k: int| 0 <= k < steps@.len() ==> #[trigger] step_fits(t.edge_list(), steps@, k),
        no_back_edge(steps@) ==> acyclic(t.edge_list()),
        forall|n: Seq<char>| is_node(t.edge_list(), n) <==> entered(steps@, n),
        forall|k1: int, k2: int, n: Seq<char>|
            0 <= k1 < steps@.len() && 0 <= k2 < steps@.len() && #[trigger] enters(steps@, k1, n)
                && #[trigger] enters(steps@, k2, n) ==> k1 == k2,
        open_frames(steps@).len() == 0,
{
    let g = &t.index;
    let edges = t.edges;
    let n = g.names.len();
    let incoming = t.entered_flags();
    let mut mark = fresh_marks(n);
    let mut order = zeros(n);
    let mut counter: usize = 0;
    let mut stack: Vec<(usize, Option<usize>)> = Vec::new();
    let mut steps: Vec<WalkStep> = Vec::new();
    proof {
        assert(open_frames(steps@) =~= frames_text(*g, edges@, stack@));
        assert forall|x: int| 0 <= x < g.n() implies (!(#[trigger] mark@[x] is Unvisited) <==> entered(steps@, g.names@[x]@)) by {}
    }
    // Pass 0 starts from the sources, pass 1 from whatever is left.
    let mut pass: usize = 0;
    while pass < 2
        invariant
            walk_ok(*g, edges@, mark@, order@, counter as nat, stack@, steps@),
            t.wf(),
            g == &t.index,
            edges@ == t.edge_list(),
            n == g.n(),
            incoming@.len() == n,
            stack@.len() == 0,
            pass <= 2,
            pass == 2 ==> forall|x: int| 0 <= x < n ==> #[trigger] mark@[x] is Done,
            forall|x: int| 0 <= x < n ==> !(#[trigger] mark@[x] is InStack),
            pass >= 1 ==> forall|y: int| 0 <= y < n && !incoming@[y] ==> !(#[trigger] mark@[y] is Unvisited),
            forall|y: int| 0 <= y < n ==> (#[trigger] incoming@[y] <==> has_incoming(edges@, g.names@[y]@)),
        decreases 2 - pass,
    {
        let mut x: usize = 0;
        while x < n
            invariant
                walk_ok(*g, edges@, mark@, order@, counter as nat, stack@, steps@),
                n == g.n(),
                incoming@.len() == n,
                stack@.len() == 0,
                pass < 2,
                x <= n,
                forall|y: int| 0 <= y < n ==> !(#[trigger] mark@[y] is InStack),
                pass == 1 ==> forall|y: int| 0 <= y < x ==> #[trigger] mark@[y] is Done,
                pass == 1 ==> forall|y: int| 0 <= y < n && !incoming@[y] ==> !(#[trigger] mark@[y] is Unvisited),
                pass == 0 ==> forall|y: int| 0 <= y < x && !incoming@[y] ==> !(#[trigger] mark@[y] is Unvisited),
                forall|y: int| 0 <= y < n ==> (#[trigger] incoming@[y] <==> has_incoming(edges@, g.names@[y]@)),
                edges@ == t.edge_list(),
                t.wf(),
                g == &t.index,
            decreases n - x,
        {
            let start = pass == 1 || !incoming[x];
            if start {
                match mark[x] {
                    Mark::Unvisited => {
                        let ghost mark1 = mark@;
                        proof {
                            if pass == 1 {
                                assert forall|m: Seq<char>| is_node(edges@, m) && !has_incoming(edges@, m) implies #[trigger] entered(
                                    steps@,
                                    m,
                                ) by {
                                    let y = choose|y: int| 0 <= y < g.n() && #[trigger] g.names@[y]@ == m;
                                    assert(!incoming@[y]);
                                    assert(!(mark@[y] is Unvisited));
                                }
                            }
                        }
                        walk_from(g, edges, x, None, &mut mark, &mut order, &mut counter, &mut stack, &mut steps);
                        proof {
                            assert forall|y: int| 0 <= y < n && !(#[trigger] mark1[y] is Unvisited) implies !(mark@[y] is Unvisited) by {
                            }
                        }
                    },
                    _ => {},
                }
            }
            proof {
                if pass == 1 {
                    assert(!(mark@[x as int] is Unvisited));
                    assert(!(mark@[x as int] is InStack));
                }
            }
            x = x + 1;
        }
        pass = pass + 1;
    }
    proof {
        assert(open_frames(steps@) =~= frames_text(*g, edges@, stack@));
        if no_back_edge(steps@) {
            let r = |name: Seq<char>| order@[g.index_of(name)] as int;
            assert forall|i: int| 0 <= i < edges@.len() implies r(#[trigger] edges@[i].from@) > r(
                edges@[i].to@,
            ) by {
                lemma_index_of(*g, edges@, g.from_ix@[i] as int);
                lemma_index_of(*g, edges@, g.to_ix@[i] as int);
                assert(mark@[g.from_ix@[i] as int] is Done);
            }
            lemma_ranked_graph_is_acyclic(edges@, r);
        }
        assert forall|m: Seq<char>| is_node(edges@, m) <==> entered(steps@, m) by {
            if is_node(edges@, m) {
                let x = choose|x: int| 0 <= x < g.n() && #[trigger] g.names@[x]@ == m;
                assert(mark@[x] is Done);
            }
            if entered(steps@, m) {
                let k = choose|k: int| 0 <= k < steps@.len() && #[trigger] enters(steps@, k, m);
                let x = choose|x: int| 0 <= x < g.n() && #[trigger] g.names@[x]@ == m;
                assert(is_node(edges@, g.names@[x]@));
            }
        }
    }
    steps
}

/// What to do at each step of a walk.
///
/// Each visit reflects the runtime model: an event arrives at a node
/// (`enter`), back edges mark cycles (`back_edge`), and post-order cleanup
/// (`leave`) mirrors the node's emission completing.
pub trait Visitor {
    /// The answer produced when the walk finishes.
    type Answer;

    /// Depth-first pre-order: a node is entered for the first time.
    ///
    /// `via` is `(event_name, from_node)` of the edge that led here; `None`
    /// where the walk starts.
    fn enter(&mut self, node: &str, via: Option<(&str, &str)>);

    /// `current --[event]--> to` reaches a node on the current walk path.
    fn back_edge(&mut self, current: &str, event: &str, to: &str) {
    }

    /// Depth-first post-order: every node reachable from `node` has been
    /// explored.
    fn leave(&mut self, node: &str) {
    }

    /// Consumes the visitor and produces the answer.
    fn finish(self) -> Self::Answer;
}

/// Walks the topology depth-first, handing the visitor the steps of
/// [`walk_steps`] in order, then returns its answer: what its `finish`
/// gives.
///
/// There is a depth-first walk `steps` of the edges and a sequence `vs` of
/// visitor states, `vs[0]` the visitor handed in, such that step `k` is one
/// call of `enter`, `back_edge` or `leave` with the step's own arguments,
/// taking the visitor from `vs[k]` to `vs[k + 1]`; the answer is what
/// `finish` gives on the last state.
pub fn walk<V: Visitor>(topology: &Topology, visitor: V) -> (r: V::Answer)
    requires
        topology.wf(),
    ensures
        exists|steps: Seq<WalkStep>, vs: Seq<V>|
            #![trigger is_depth_first_walk(topology.edge_list(), steps), vs[0]]
        {
            &&& is_depth_first_walk(topology.edge_list(), steps)
            &&& vs.len() == steps.len() + 1
            &&& vs[0] == visitor
            &&& forall|k: int| 0 <= k < steps.len() ==> (#[trigger] steps[k] matches WalkStep::Enter { node, via }
                ==> exists|m: &mut V, n: &str, w: Option<(&str, &str)>| {
                    &&& mut_ref_current(m) == vs[k] && mut_ref_future(m) == vs[k + 1]
                    &&& n@ == node@ && via_text(w) == via_texts(via)
                    &&& call_ensures(<V as Visitor>::enter, (m, n, w), ())
                })
            &&& forall|k: int| 0 <= k < steps.len() ==> (#[trigger] steps[k] matches WalkStep::BackEdge { current, event, to }
                ==> exists|m: &mut V, c: &str, e: &str, t: &str| {
                    &&& mut_ref_current(m) == vs[k] && mut_ref_future(m) == vs[k + 1]
                    &&& c@ == current@ && e@ == event@ && t@ == to@
                    &&& call_ensures(<V as Visitor>::back_edge, (m, c, e, t), ())
                })
            &&& forall|k: int| 0 <= k < steps.len() ==> (#[trigger] steps[k] matches WalkStep::Leave { node }
                ==> exists|m: &mut V, n: &str| {
                    &&& mut_ref_current(m) == vs[k] && mut_ref_future(m) == vs[k + 1]
                    &&& n@ == node@
                    &&& call_ensures(<V as Visitor>::leave, (m, n), ())
                })
            &&& call_ensures(<V as Visitor>::finish, (vs.last(),), r)
        },
{
    let steps = walk_steps(topology);
    let mut visitor = visitor;
    let ghost first = visitor;
    let ghost mut vs: Seq<V> = seq![visitor];
    let mut k: usize = 0;
    while k < steps.len()
        invariant
            k <= steps@.len(),
            vs.len() == k + 1,
            vs[0] == first,
            vs.last() == visitor,
            forall|j: int| 0 <= j < k ==> (#[trigger] steps@[j] matches WalkStep::Enter { node, via }
                ==> exists|m: &mut V, n: &str, w: Option<(&str, &str)>| {
                    &&& mut_ref_current(m) == vs[j] && mut_ref_future(m) == vs[j + 1]
                    &&& n@ == node@ && via_text(w) == via_texts(via)
                    &&& call_ensures(<V as Visitor>::enter, (m, n, w), ())
                }),
            forall|j: int| 0 <= j < k ==> (#[trigger] steps@[j] matches WalkStep::BackEdge { current, event, to }
                ==> exists|m: &mut V, c: &str, e: &str, t: &str| {
                    &&& mut_ref_current(m) == vs[j] && mut_ref_future(m) == vs[j + 1]
                    &&& c@ == current@ && e@ == event@ && t@ == to@
                    &&& call_ensures(<V as Visitor>::back_edge, (m, c, e, t), ())
                }),
            forall|j: int| 0 <= j < k ==> (#[trigger] steps@[j] matches WalkStep::Leave { node }
                ==> exists|m: &mut V, n: &str| {
                    &&& mut_ref_current(m) == vs[j] && mut_ref_future(m) == vs[j + 1]
                    &&& n@ == node@
                    &&& call_ensures(<V as Visitor>::leave, (m, n), ())
                }),
        decreases steps@.len() - k,
    {
        let ghost before = visitor;
        match &steps[k] {
            WalkStep::Enter { node, via } => {
                let n = node.as_str();
                let w = match via {
                    Some((event, from)) => Some((event.as_str(), from.as_str())),
                    None => None,
                };
                visitor.enter(n, w);
                assert(exists|m: &mut V| mut_ref_current(m) == before && mut_ref_future(m) == visitor
                    && #[trigger] call_ensures(<V as Visitor>::enter, (m, n, w), ()));
            },
            WalkStep::BackEdge { current, event, to } => {
                let c = current.as_str();
                let e = event.as_str();
                let t = to.as_str();
                visitor.back_edge(c, e, t);
                assert(exists|m: &mut V| mut_ref_current(m) == before && mut_ref_future(m) == visitor
                    && #[trigger] call_ensures(<V as Visitor>::back_edge, (m, c, e, t), ()));
            },
            WalkStep::Leave { node } => {
                let n = node.as_str();
                visitor.leave(n);
                assert(exists|m: &mut V| mut_ref_current(m) == before && mut_ref_future(m) == visitor
                    && #[trigger] call_ensures(<V as Visitor>::leave, (m, n), ()));
            },
        }
        proof {
            vs = vs.push(visitor);
        }
        k = k + 1;
    }
    let ghost last = visitor;
    let r = visitor.finish();
    assert(call_ensures(<V as Visitor>::finish, (last,), r));
    assert(is_depth_first_walk(topology.edge_list(), steps@));
    assert(vs[0] == first);
    r
}

} // verus!
