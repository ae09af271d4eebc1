//! Node names numbered by first appearance, and edges over those numbers.

use vstd::prelude::*;
use crate::dag::graph::{DagEdge, is_node};

verus! {

/// The distinct node names of an edge list, numbered by first appearance
/// (each edge contributes `from`, then `to`), with every edge's endpoints
/// given as numbers.
pub struct NodeIndex {
    pub names: Vec<String>,
    pub from_ix: Vec<usize>,
    pub to_ix: Vec<usize>,
}

/// No name occurs twice.
pub open spec fn distinct_texts(names: Seq<String>) -> bool {
    forall|j: int, k: int|
        0 <= j < names.len() && 0 <= k < names.len() && j != k ==> #[trigger] names[j]@
            != #[trigger] names[k]@
}

impl NodeIndex {
    pub open spec fn n(self) -> nat {
        self.names@.len()
    }

    /// The numbering is faithful to `edges`.
    pub open spec fn wf(self, edges: Seq<DagEdge>) -> bool {
        &&& self.from_ix@.len() == edges.len()
        &&& self.to_ix@.len() == edges.len()
        &&& distinct_texts(self.names@)
        &&& forall|i: int|
            0 <= i < edges.len() ==> {
                &&& #[trigger] self.from_ix@[i] < self.names@.len()
                &&& self.names@[self.from_ix@[i] as int]@ == edges[i].from@
            }
        &&& forall|i: int|
            0 <= i < edges.len() ==> {
                &&& #[trigger] self.to_ix@[i] < self.names@.len()
                &&& self.names@[self.to_ix@[i] as int]@ == edges[i].to@
            }
        &&& forall|k: int| 0 <= k < self.names@.len() ==> is_node(edges, #[trigger] self.names@[k]@)
    }

    /// The number of a node name (meaningful for names of the graph).
    pub open spec fn index_of(self, name: Seq<char>) -> int {
        choose|k: int| 0 <= k < self.names@.len() && #[trigger] self.names@[k]@ == name
    }
}

/// `n` is an endpoint of one of the first `i` edges.
pub open spec fn occurs_before(edges: Seq<DagEdge>, i: int, n: Seq<char>) -> bool {
    exists|j: int| 0 <= j < i && (#[trigger] edges[j].from@ == n || edges[j].to@ == n)
}

proof fn lemma_occurs_before_grows(edges: Seq<DagEdge>, i: int, n: Seq<char>)
    requires
        occurs_before(edges, i, n),
    ensures
        occurs_before(edges, i + 1, n),
{
    let j = choose|j: int| 0 <= j < i && (#[trigger] edges[j].from@ == n || edges[j].to@ == n);
    assert(0 <= j < i + 1 && (edges[j].from@ == n || edges[j].to@ == n));
}

/// Position of `s` in `names`, if present.
pub fn position_of(names: &Vec<String>, s: &String) -> (r: Option<usize>)
    ensures
        r matches Some(k) ==> k < names@.len() && names@[k as int]@ == s@,
        r is None ==> forall|k: int| 0 <= k < names@.len() ==> #[trigger] names@[k]@ != s@,
{
    let mut k: usize = 0;
    while k < names.len()
        invariant
            k <= names@.len(),
            forall|j: int| 0 <= j < k ==> #[trigger] names@[j]@ != s@,
        decreases names@.len() - k,
    {
        if names[k] == *s {
            return Some(k);
        }
        k = k + 1;
    }
    None
}

/// Number of `s` in `names`, appending it when new.
fn find_or_add(names: &mut Vec<String>, s: &String) -> (r: usize)
    requires
        distinct_texts(old(names)@),
    ensures
        distinct_texts(final(names)@),
        r < final(names)@.len(),
        final(names)@[r as int]@ == s@,
        final(names)@.len() >= old(names)@.len(),
        final(names)@.len() <= old(names)@.len() + 1,
        forall|k: int| 0 <= k < old(names)@.len() ==> #[trigger] final(names)@[k] == old(names)@[k],
        final(names)@.len() == old(names)@.len() + 1 ==> r == old(names)@.len(),
{
    match position_of(names, s) {
        Some(k) => k,
        None => {
            let ghost before = names@;
            names.push(s.clone());
            assert forall|j: int, k: int|
                0 <= j < names@.len() && 0 <= k < names@.len() && j != k implies #[trigger] names@[j]@
                != #[trigger] names@[k]@ by {
                if j < before.len() && k < before.len() {
                    assert(names@[j] == before[j]);
                    assert(names@[k] == before[k]);
                }
            }
            names.len() - 1
        },
    }
}

/// Numbers the nodes of `edges` in order of first appearance.
pub fn index_nodes(edges: &[DagEdge]) -> (g: NodeIndex)
    ensures
        g.wf(edges@),
        forall|n: Seq<char>| is_node(edges@, n) ==> exists|k: int| 0 <= k < g.n() && #[trigger] g.names@[k]@ == n,
{
    let mut names: Vec<String> = Vec::new();
    let mut from_ix: Vec<usize> = Vec::new();
    let mut to_ix: Vec<usize> = Vec::new();
    let mut i: usize = 0;
    while i < edges.len()
        invariant
            i <= edges@.len(),
            from_ix@.len() == i,
            to_ix@.len() == i,
            distinct_texts(names@),
            forall|j: int|
                0 <= j < i ==> {
                    &&& #[trigger] from_ix@[j] < names@.len()
                    &&& names@[from_ix@[j] as int]@ == edges@[j].from@
                },
            forall|j: int|
                0 <= j < i ==> {
                    &&& #[trigger] to_ix@[j] < names@.len()
                    &&& names@[to_ix@[j] as int]@ == edges@[j].to@
                },
            forall|k: int| 0 <= k < names@.len() ==> occurs_before(edges@, i as int, #[trigger] names@[k]@),
        decreases edges@.len() - i,
    {
        let ghost before = names@;
        let f = find_or_add(&mut names, &edges[i].from);
        let ghost mid = names@;
        let t = find_or_add(&mut names, &edges[i].to);
        assert forall|j: int| 0 <= j < i implies {
            &&& #[trigger] from_ix@[j] < names@.len()
            &&& names@[from_ix@[j] as int]@ == edges@[j].from@
        } by {
            assert(names@[from_ix@[j] as int] == mid[from_ix@[j] as int]);
            assert(mid[from_ix@[j] as int] == before[from_ix@[j] as int]);
        }
        assert forall|j: int| 0 <= j < i implies {
            &&& #[trigger] to_ix@[j] < names@.len()
            &&& names@[to_ix@[j] as int]@ == edges@[j].to@
        } by {
            assert(names@[to_ix@[j] as int] == mid[to_ix@[j] as int]);
            assert(mid[to_ix@[j] as int] == before[to_ix@[j] as int]);
        }
        assert forall|k: int| 0 <= k < names@.len() implies occurs_before(edges@, i + 1, #[trigger] names@[k]@) by {
            if k < before.len() {
                assert(names@[k] == before[k]);
                lemma_occurs_before_grows(edges@, i as int, before[k]@);
            } else if k < mid.len() {
                assert(names@[k] == mid[k]);
                assert(edges@[i as int].from@ == names@[k]@);
            } else {
                assert(edges@[i as int].to@ == names@[k]@);
            }
        }
        from_ix.push(f);
        to_ix.push(t);
        i = i + 1;
    }
    assert(i == edges@.len());
    let g = NodeIndex { names, from_ix, to_ix };
    assert forall|k: int| 0 <= k < g.names@.len() implies is_node(edges@, #[trigger] g.names@[k]@) by {
        assert(occurs_before(edges@, edges@.len() as int, g.names@[k]@));
        let j = choose|j: int|
            0 <= j < edges@.len() && (#[trigger] edges@[j].from@ == g.names@[k]@ || edges@[j].to@
                == g.names@[k]@);
    }
    assert forall|n: Seq<char>| is_node(edges@, n) implies exists|k: int|
        0 <= k < g.n() && #[trigger] g.names@[k]@ == n by {
        let j = choose|j: int| 0 <= j < edges@.len() && (#[trigger] edges@[j].from@ == n || edges@[j].to@ == n);
        assert(0 <= j < i);
        assert(g.from_ix@[j] < g.names@.len());
        assert(g.to_ix@[j] < g.names@.len());
        if edges@[j].from@ == n {
            assert(g.names@[g.from_ix@[j] as int]@ == n);
        } else {
            assert(g.names@[g.to_ix@[j] as int]@ == n);
        }
    }
    g
}

/// The number of a name of the graph is where the name is stored.
pub proof fn lemma_index_of(g: NodeIndex, edges: Seq<DagEdge>, k: int)
    requires
        g.wf(edges),
        0 <= k < g.n(),
    ensures
        g.index_of(g.names@[k]@) == k,
{
    let j = g.index_of(g.names@[k]@);
    assert(0 <= j < g.n() && g.names@[j]@ == g.names@[k]@);
}

} // verus!
