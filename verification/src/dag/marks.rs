//! Three-colour depth-first marking shared by the cycle and walk searches.

use vstd::prelude::*;

verus! {

/// Visit state of a node during a depth-first search.
#[derive(Clone, Copy)]
pub enum Mark {
    /// Not reached yet.
    Unvisited,
    /// On the current search path.
    InStack,
    /// Fully explored.
    Done,
}

/// How many entries of `s` are `Unvisited`.
pub open spec fn unvisited_count(s: Seq<Mark>) -> nat
    decreases s.len(),
{
    if s.len() == 0 {
        0
    } else {
        unvisited_count(s.drop_last()) + if s.last() is Unvisited {
            1nat
        } else {
            0nat
        }
    }
}

/// How many entries of `s` are `Done`.
pub open spec fn done_count(s: Seq<Mark>) -> nat
    decreases s.len(),
{
    if s.len() == 0 {
        0
    } else {
        done_count(s.drop_last()) + if s.last() is Done {
            1nat
        } else {
            0nat
        }
    }
}

pub proof fn lemma_done_count_bound(s: Seq<Mark>)
    ensures
        done_count(s) <= s.len(),
    decreases s.len(),
{
    if s.len() > 0 {
        lemma_done_count_bound(s.drop_last());
    }
}

/// Marking one entry `Done` that was not `Done` adds one.
pub proof fn lemma_done_count_mark(s: Seq<Mark>, j: int)
    requires
        0 <= j < s.len(),
        !(s[j] is Done),
    ensures
        done_count(s.update(j, Mark::Done)) == done_count(s) + 1,
    decreases s.len(),
{
    let t = s.update(j, Mark::Done);
    if j == s.len() - 1 {
        assert(t.drop_last() =~= s.drop_last());
    } else {
        assert(t.drop_last() =~= s.drop_last().update(j, Mark::Done));
        lemma_done_count_mark(s.drop_last(), j);
    }
}

/// Changing an entry between two non-`Done` marks keeps the count.
pub proof fn lemma_done_count_keep(s: Seq<Mark>, j: int, m: Mark)
    requires
        0 <= j < s.len(),
        !(s[j] is Done),
        !(m is Done),
    ensures
        done_count(s.update(j, m)) == done_count(s),
    decreases s.len(),
{
    let t = s.update(j, m);
    if j == s.len() - 1 {
        assert(t.drop_last() =~= s.drop_last());
    } else {
        assert(t.drop_last() =~= s.drop_last().update(j, m));
        lemma_done_count_keep(s.drop_last(), j, m);
    }
}

/// Fewer unvisited entries, pointwise, give a smaller count; strictly smaller
/// when one unvisited entry was reached.
pub proof fn lemma_unvisited_count_shrinks(a: Seq<Mark>, b: Seq<Mark>, j: int)
    requires
        a.len() == b.len(),
        forall|x: int| 0 <= x < b.len() && #[trigger] b[x] is Unvisited ==> a[x] is Unvisited,
        0 <= j < a.len() ==> (a[j] is Unvisited && !(b[j] is Unvisited)),
    ensures
        unvisited_count(b) <= unvisited_count(a),
        0 <= j < a.len() ==> unvisited_count(b) < unvisited_count(a),
    decreases a.len(),
{
    if a.len() > 0 {
        let a2 = a.drop_last();
        let b2 = b.drop_last();
        assert forall|x: int| 0 <= x < b2.len() && #[trigger] b2[x] is Unvisited implies a2[x] is Unvisited by {
            assert(b2[x] == b[x]);
        }
        if j == a.len() - 1 {
            lemma_unvisited_count_shrinks(a2, b2, -1);
        } else {
            lemma_unvisited_count_shrinks(a2, b2, j);
        }
        assert(b[b.len() - 1] is Unvisited ==> a[a.len() - 1] is Unvisited);
    }
}

/// `n` fresh marks.
pub fn fresh_marks(n: usize) -> (v: Vec<Mark>)
    ensures
        v@.len() == n,
        forall|x: int| 0 <= x < n ==> #[trigger] v@[x] is Unvisited,
        done_count(v@) == 0,
{
    let mut v: Vec<Mark> = Vec::new();
    let mut k: usize = 0;
    while k < n
        invariant
            k <= n,
            v@.len() == k,
            forall|x: int| 0 <= x < k ==> #[trigger] v@[x] is Unvisited,
            done_count(v@) == 0,
        decreases n - k,
    {
        let ghost before = v@;
        v.push(Mark::Unvisited);
        assert(v@.drop_last() =~= before);
        k = k + 1;
    }
    v
}

/// `n` zeros.
pub fn zeros(n: usize) -> (v: Vec<usize>)
    ensures
        v@.len() == n,
{
    let mut v: Vec<usize> = Vec::new();
    let mut k: usize = 0;
    while k < n
        invariant
            k <= n,
            v@.len() == k,
        decreases n - k,
    {
        v.push(0);
        k = k + 1;
    }
    v
}

} // verus!
