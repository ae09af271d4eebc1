//! The termination guarantee: no event can trigger itself, directly or
//! transitively.

use vstd::prelude::*;
use crate::dag::graph::{DagEdge, texts, has_edge, trace_step, is_trace, is_cycle_trace, is_simple_trace, node_at, acyclic,
    lemma_cycle_trace_refutes_acyclic};
use crate::dag::text::{arrow_chain, push_arrow_chain};
use crate::dag::walk::{Topology, WalkStep, walk_steps, step_fits, open_frames, via_event,
    frames_chain, frames_distinct, no_back_edge, is_depth_first_walk};

verus! {

/// The termination guarantee was violated: a cycle exists in the event DAG.
///
/// `trace` alternates node and event names, starting and ending at the same
/// node: `[node0, event0, node1, event1, ..., node0]`.
#[derive(Debug)]
pub struct TerminationViolation {
    pub trace: Vec<String>,
}

impl TerminationViolation {
    /// Renders the violation as
    /// `termination violated: store -[WorkspaceCreated]-> tui -[RefreshCmd]-> store`.
    pub fn to_string(&self) -> (s: String)
        ensures
            s@ == "termination violated: "@ + arrow_chain(
                texts(self.trace@),
                "cycle detected (empty trace)"@,
            ),
    {
        let mut s = String::new();
        s.append("termination violated: ");
        push_arrow_chain(&mut s, &self.trace, "cycle detected (empty trace)");
        s
    }
}

/// The text of an optional name.
pub open spec fn opt_text(o: Option<String>) -> Option<Seq<char>> {
    match o {
        Some(s) => Some(s@),
        None => None,
    }
}

/// The texts of path frames: each node with the event it was entered by.
pub open spec fn frame_texts(v: Seq<(String, Option<String>)>) -> Seq<(Seq<char>, Option<Seq<char>>)> {
    v.map_values(|f: (String, Option<String>)| (f.0@, opt_text(f.1)))
}

/// The trace along frames `p..j` of a path: `[node_p, event_p+1, node_p+1, ...]`.
pub open spec fn path_segment(st: Seq<(Seq<char>, Option<Seq<char>>)>, p: int, j: int) -> Seq<Seq<char>>
    decreases j - p,
{
    if j <= p + 1 {
        seq![st[p].0]
    } else {
        path_segment(st, p, j - 1) + seq![st[j - 1].1->0, st[j - 1].0]
    }
}

/// The cycle closed by the back edge `last --[event]--> st[p].0`.
pub open spec fn closed_cycle(
    st: Seq<(Seq<char>, Option<Seq<char>>)>,
    p: int,
    event: Seq<char>,
    to: Seq<char>,
) -> Seq<Seq<char>> {
    path_segment(st, p, st.len() as int) + seq![event, to]
}

/// The first frame whose node is `n`.
pub open spec fn first_frame_of(st: Seq<(Seq<char>, Option<Seq<char>>)>, n: Seq<char>, p: int) -> bool {
    &&& 0 <= p < st.len()
    &&& st[p].0 == n
    &&& forall|q: int| 0 <= q < p ==> (#[trigger] st[q]).0 != n
}

proof fn lemma_path_segment(st: Seq<(Seq<char>, Option<Seq<char>>)>, p: int, j: int)
    requires
        0 <= p < j <= st.len(),
    ensures
        path_segment(st, p, j).len() == 2 * (j - p) - 1,
        forall|i: int| 0 <= i < j - p ==> #[trigger] path_segment(st, p, j)[2 * i] == st[p + i].0,
        forall|i: int| 1 <= i < j - p ==> #[trigger] path_segment(st, p, j)[2 * i - 1] == st[p + i].1->0,
    decreases j - p,
{
    if j > p + 1 {
        lemma_path_segment(st, p, j - 1);
        let s = path_segment(st, p, j - 1);
        let t = path_segment(st, p, j);
        assert(t == s + seq![st[j - 1].1->0, st[j - 1].0]);
        assert forall|i: int| 0 <= i < j - p implies #[trigger] t[2 * i] == st[p + i].0 by {
            if i < j - 1 - p {
                assert(t[2 * i] == s[2 * i]);
            }
        }
        assert forall|i: int| 1 <= i < j - p implies #[trigger] t[2 * i - 1] == st[p + i].1->0 by {
            if i < j - 1 - p {
                assert(t[2 * i - 1] == s[2 * i - 1]);
            }
        }
    }
}

/// A back edge from the top of a chained path to frame `p` closes a cycle.
pub proof fn lemma_back_edge_closes_cycle(
    edges: Seq<DagEdge>,
    st: Seq<(Seq<char>, Option<Seq<char>>)>,
    p: int,
    event: Seq<char>,
    to: Seq<char>,
)
    requires
        frames_chain(edges, st),
        0 <= p < st.len(),
        st[p].0 == to,
        has_edge(edges, st.last().0, event, to),
    ensures
        is_cycle_trace(edges, closed_cycle(st, p, event, to)),
{
    let m = st.len() - p;
    lemma_path_segment(st, p, st.len() as int);
    let s = path_segment(st, p, st.len() as int);
    let t = closed_cycle(st, p, event, to);
    assert(t.len() == 2 * m + 1);
    assert(s[2 * 0int] == st[p].0);
    assert(t[0] == s[0]);
    assert forall|k: int| 0 <= k < (t.len() - 1) / 2 implies #[trigger] trace_step(edges, t, k) by {
        assert((t.len() - 1) / 2 == m);
        if k < m - 1 {
            assert(t[2 * k] == s[2 * k]);
            assert(t[2 * k + 1] == s[2 * (k + 1) - 1]);
            assert(t[2 * k + 2] == s[2 * (k + 1)]);
            assert(st[p + k + 1] == st[p + k + 1]);
            assert(1 <= p + k + 1 < st.len());
            assert((st[p + k + 1]).1 is Some && has_edge(edges, st[p + k + 1 - 1].0, st[p + k + 1].1->0, st[p + k + 1].0));
        } else {
            assert(k == m - 1);
            assert(t[2 * k] == s[2 * (m - 1)]);
            assert(s[2 * (m - 1)] == st[p + m - 1].0);
            assert(t[2 * k + 1] == event);
            assert(t[2 * k + 2] == to);
        }
    }
}

/// The cycle closed on a path with no node open twice goes round once.
pub proof fn lemma_closed_cycle_simple(
    st: Seq<(Seq<char>, Option<Seq<char>>)>,
    p: int,
    event: Seq<char>,
    to: Seq<char>,
)
    requires
        frames_distinct(st),
        0 <= p < st.len(),
    ensures
        is_simple_trace(closed_cycle(st, p, event, to)),
{
    lemma_path_segment(st, p, st.len() as int);
    let s = path_segment(st, p, st.len() as int);
    let t = closed_cycle(st, p, event, to);
    assert(t.len() == 2 * (st.len() - p) + 1);
    assert forall|a: int, b: int| 0 <= a < b < (t.len() - 1) / 2 implies #[trigger] node_at(t, a) != #[trigger] node_at(
        t,
        b,
    ) by {
        assert(t[2 * a] == s[2 * a]);
        assert(t[2 * b] == s[2 * b]);
        assert(s[2 * a] == st[p + a].0);
        assert(s[2 * b] == st[p + b].0);
        assert(st[p + a].0 != st[p + b].0);
    }
}

/// A back edge of a depth-first walk marks a cycle: the graph is not
/// acyclic.
pub proof fn lemma_back_edge_means_cycle(edges: Seq<DagEdge>, steps: Seq<WalkStep>, k: int)
    requires
        forall|i: int| 0 <= i < steps.len() ==> #[trigger] step_fits(edges, steps, i),
        0 <= k < steps.len(),
        steps[k] is BackEdge,
    ensures
        !acyclic(edges),
{
    assert(step_fits(edges, steps, k));
    let st = open_frames(steps.take(k));
    match steps[k] {
        WalkStep::BackEdge { current, event, to } => {
            let j = choose|j: int| 0 <= j < st.len() && #[trigger] st[j].0 == to@;
            lemma_back_edge_closes_cycle(edges, st, j, event@, to@);
            lemma_cycle_trace_refutes_acyclic(edges, closed_cycle(st, j, event@, to@));
        },
        _ => {},
    }
}

/// A depth-first walk meets a back edge exactly when the graph has a cycle:
/// back edges mark cycles, and a walk without one proves the graph acyclic.
pub proof fn lemma_walk_detects_cycles(edges: Seq<DagEdge>, steps: Seq<WalkStep>)
    requires
        forall|i: int| 0 <= i < steps.len() ==> #[trigger] step_fits(edges, steps, i),
        no_back_edge(steps) ==> acyclic(edges),
    ensures
        no_back_edge(steps) <==> acyclic(edges),
{
    if !no_back_edge(steps) {
        let k = choose|k: int| 0 <= k < steps.len() && #[trigger] steps[k] is BackEdge;
        lemma_back_edge_means_cycle(edges, steps, k);
    }
}

/// Records the live walk path and the first cycle that a back edge closes.
struct CycleVisitor {
    /// `(node, incoming event)` of each frame of the walk path.
    stack: Vec<(String, Option<String>)>,
    violation: Option<TerminationViolation>,
}

impl CycleVisitor {
    fn new() -> (v: CycleVisitor)
        ensures
            v.stack@.len() == 0,
            v.violation is None,
    {
        CycleVisitor { stack: Vec::new(), violation: None }
    }

    /// A node is entered, along the edge `via = (event, from)` where there is one.
    fn enter(&mut self, node: &str, via: Option<(&str, &str)>)
        ensures
            frame_texts(final(self).stack@) == frame_texts(old(self).stack@).push((node@, match via {
                Some(p) => Some(p.0@),
                None => None,
            })),
            final(self).violation == old(self).violation,
    {
        let incoming = match via {
            Some((event, _)) => Some(event.to_owned()),
            None => None,
        };
        let ghost before = self.stack@;
        self.stack.push((node.to_owned(), incoming));
        proof {
            assert(frame_texts(self.stack@) =~= frame_texts(before).push((node@, match via {
                Some(p) => Some(p.0@),
                None => None,
            })));
        }
    }

    /// `current --[event]--> to` reaches the path: the first such edge
    /// records the cycle from `to`'s frame to the top of the path.
    fn back_edge(&mut self, current: &str, event: &str, to: &str)
        requires
            forall|j: int| 1 <= j < old(self).stack@.len() ==> (#[trigger] old(self).stack@[j]).1 is Some,
            exists|j: int| 0 <= j < old(self).stack@.len() && #[trigger] old(self).stack@[j].0@ == to@,
        ensures
            final(self).stack@ == old(self).stack@,
            old(self).violation is Some ==> final(self).violation == old(self).violation,
            old(self).violation is None ==> (final(self).violation matches Some(v) && exists|p: int|
                #[trigger] first_frame_of(frame_texts(old(self).stack@), to@, p) && texts(v.trace@)
                    == closed_cycle(frame_texts(old(self).stack@), p, event@, to@)),
    {
        if self.violation.is_some() {
            return;
        }
        let ghost st = frame_texts(self.stack@);
        let target = to.to_owned();
        let ghost w = choose|j: int| 0 <= j < self.stack@.len() && #[trigger] self.stack@[j].0@ == to@;
        let len = self.stack.len();
        let mut p: usize = 0;
        while !(self.stack[p].0 == target)
            invariant
                len == self.stack@.len(),
                p <= w < self.stack@.len(),
                self.stack@[w].0@ == to@,
                target@ == to@,
                st == frame_texts(self.stack@),
                forall|q: int| 0 <= q < p ==> (#[trigger] st[q]).0 != to@,
            decreases self.stack@.len() - p,
        {
            assert(st[p as int].0 == self.stack@[p as int].0@);
            p = p + 1;
        }
        assert(first_frame_of(st, to@, p as int));
        let mut trace: Vec<String> = Vec::new();
        trace.push(self.stack[p].0.clone());
        let mut j: usize = p + 1;
        assert(texts(trace@) =~= path_segment(st, p as int, j as int));
        while j < self.stack.len()
            invariant
                p < j <= self.stack@.len(),
                st == frame_texts(self.stack@),
                forall|i: int| 1 <= i < self.stack@.len() ==> (#[trigger] self.stack@[i]).1 is Some,
                texts(trace@) == path_segment(st, p as int, j as int),
            decreases self.stack@.len() - j,
        {
            let ghost before = trace@;
            match &self.stack[j].1 {
                Some(ev) => trace.push(ev.clone()),
                None => {},
            }
            trace.push(self.stack[j].0.clone());
            j = j + 1;
            proof {
                assert(texts(trace@) =~= texts(before) + seq![st[j - 1].1->0, st[j - 1].0]);
            }
        }
        let ghost before = trace@;
        trace.push(event.to_owned());
        trace.push(target);
        proof {
            assert(texts(trace@) =~= texts(before) + seq![event@, to@]);
        }
        self.violation = Some(TerminationViolation { trace });
    }

    /// Every node reachable from the top frame has been explored.
    fn leave(&mut self)
        requires
            old(self).stack@.len() > 0,
        ensures
            final(self).stack@ == old(self).stack@.drop_last(),
            final(self).violation == old(self).violation,
    {
        self.stack.pop();
    }

    fn finish(self) -> (r: Result<(), TerminationViolation>)
        ensures
            match self.violation {
                Some(v) => r matches Err(e) && e.trace@ == v.trace@,
                None => r is Ok,
            },
    {
        match self.violation {
            Some(v) => Err(v),
            None => Ok(()),
        }
    }
}

/// Checks the termination guarantee: no event can trigger itself, directly
/// or transitively.
///
/// Returns the cycle that the depth-first walk closes first, as a trace that
/// starts and ends at the same node: the node the first back edge of the
/// walk leads to, followed along the walk path to the back edge and back.
pub fn check_termination(edges: &[DagEdge]) -> (r: Result<(), TerminationViolation>)
    ensures
        r is Ok <==> acyclic(edges@),
        r matches Err(e) ==> is_cycle_trace(edges@, texts(e.trace@)) && is_simple_trace(texts(e.trace@)),
        r matches Err(e) ==> exists|steps: Seq<WalkStep>, k: int, p: int|
            #![trigger is_depth_first_walk(edges@, steps), steps[k], open_frames(steps.take(k))[p]]
        {
            &&& is_depth_first_walk(edges@, steps)
            &&& 0 <= k < steps.len()
            &&& forall|i: int| 0 <= i < k ==> !(#[trigger] steps[i] is BackEdge)
            &&& steps[k] matches WalkStep::BackEdge { current, event, to }
            &&& first_frame_of(open_frames(steps.take(k)), steps[k]->BackEdge_to@, p)
            &&& texts(e.trace@) == closed_cycle(open_frames(steps.take(k)), p, steps[k]->BackEdge_event@, steps[k]->BackEdge_to@)
        },
{
    let topology = Topology::new(edges);
    let steps = walk_steps(&topology);
    let mut visitor = CycleVisitor::new();
    let mut k: usize = 0;
    assert(frame_texts(visitor.stack@) =~= open_frames(steps@.take(0)));
    while k < steps.len()
        invariant
            k <= steps@.len(),
            topology.edge_list() == edges@,
            forall|i: int| 0 <= i < steps@.len() ==> #[trigger] step_fits(edges@, steps@, i),
            frame_texts(visitor.stack@) == open_frames(steps@.take(k as int)),
            visitor.violation is None ==> forall|i: int| 0 <= i < k ==> !(#[trigger] steps@[i] is BackEdge),
            visitor.violation matches Some(v) ==> is_cycle_trace(edges@, texts(v.trace@)) && is_simple_trace(
                texts(v.trace@),
            ),
            visitor.violation matches Some(v) ==> exists|kk: int, p: int|
                #![trigger steps@[kk], open_frames(steps@.take(kk))[p]]
            {
                &&& 0 <= kk < k
                &&& forall|i: int| 0 <= i < kk ==> !(#[trigger] steps@[i] is BackEdge)
                &&& steps@[kk] matches WalkStep::BackEdge { current, event, to }
                &&& first_frame_of(open_frames(steps@.take(kk)), steps@[kk]->BackEdge_to@, p)
                &&& texts(v.trace@) == closed_cycle(open_frames(steps@.take(kk)), p, steps@[kk]->BackEdge_event@, steps@[kk]->BackEdge_to@)
            },
        decreases steps@.len() - k,
    {
        let ghost st = open_frames(steps@.take(k as int));
        proof {
            assert(step_fits(edges@, steps@, k as int));
            assert(steps@.take(k + 1).drop_last() =~= steps@.take(k as int));
            assert(steps@.take(k + 1).last() == steps@[k as int]);
        }
        match &steps[k] {
            WalkStep::Enter { node, via } => {
                match via {
                    Some((event, from)) => visitor.enter(node.as_str(), Some((event.as_str(), from.as_str()))),
                    None => visitor.enter(node.as_str(), None),
                }
                proof {
                    assert(via_event(*via) == match *via {
                        Some(p) => Some(p.0@),
                        None => None::<Seq<char>>,
                    });
                }
            },
            WalkStep::BackEdge { current, event, to } => {
                proof {
                    assert(frames_chain(edges@, st));
                    let j = choose|j: int| 0 <= j < st.len() && #[trigger] st[j].0 == to@;
                    assert(visitor.stack@[j].0@ == to@);
                    assert forall|i: int| 1 <= i < visitor.stack@.len() implies (#[trigger] visitor.stack@[i]).1 is Some by {
                        assert(st[i].1 is Some);
                    }
                }
                let ghost before = visitor.violation;
                visitor.back_edge(current.as_str(), event.as_str(), to.as_str());
                proof {
                    if before is None {
                        let v = visitor.violation->0;
                        let p = choose|p: int| #[trigger] first_frame_of(st, to@, p) && texts(v.trace@) == closed_cycle(st, p, event@, to@);
                        lemma_back_edge_closes_cycle(edges@, st, p, event@, to@);
                        lemma_closed_cycle_simple(st, p, event@, to@);
                        assert(open_frames(steps@.take(k as int))[p] == st[p]);
                    }
                }
            },
            WalkStep::Leave { node } => {
                visitor.leave();
                proof {
                    assert(frame_texts(visitor.stack@) =~= st.drop_last());
                }
            },
        }
        k = k + 1;
    }
    proof {
        assert(steps@.take(k as int) =~= steps@);
        assert(is_depth_first_walk(edges@, steps@));
        if visitor.violation is Some {
            lemma_cycle_trace_refutes_acyclic(edges@, texts(visitor.violation->0.trace@));
        } else {
            assert(no_back_edge(steps@));
        }
    }
    visitor.finish()
}

} // verus!
