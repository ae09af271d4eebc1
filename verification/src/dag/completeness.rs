//! The completeness guarantee: every declared node lies on at least one
//! path from a source to a sink.

use vstd::prelude::*;
use vstd::string::StringExecFns;
use crate::dag::graph::{DagEdge, texts};
use crate::dag::text::{joined, push_joined};
use crate::dag::wiring::{
    unreachable_node, dead_end_node, fully_wired, lists_sorted, when_listed, wiring_gaps,
    lemma_gaps_decide_wiring,
};

verus! {

/// The completeness guarantee was violated: one or more nodes are not on any
/// source-to-sink path.
#[derive(Debug)]
pub struct CompletenessViolation {
    /// Nodes with no path from any source: nothing can ever reach them.
    pub unreachable: Vec<String>,
    /// Nodes with no path to any sink: their events propagate into a void.
    pub dead_ends: Vec<String>,
}

impl CompletenessViolation {
    /// `completeness violated: unreachable: [a, b]; dead ends: [c]`, each part
    /// only when its list is not empty.
    pub fn to_string(&self) -> (s: String)
        ensures
            s@ == "completeness violated:"@ + when_listed(
                self.unreachable@,
                " unreachable: ["@ + joined(texts(self.unreachable@), ", "@) + "]"@,
            ) + when_listed(
                self.dead_ends@,
                when_listed(self.unreachable@, ";"@) + " dead ends: ["@ + joined(
                    texts(self.dead_ends@),
                    ", "@,
                ) + "]"@,
            ),
    {
        let mut s = String::new();
        s.append("completeness violated:");
        let ghost a = s@;
        if self.unreachable.len() > 0 {
            s.append(" unreachable: [");
            push_joined(&mut s, &self.unreachable, ", ");
            s.append("]");
        }
        let ghost b = s@;
        if self.dead_ends.len() > 0 {
            if self.unreachable.len() > 0 {
                s.append(";");
            }
            s.append(" dead ends: [");
            push_joined(&mut s, &self.dead_ends, ", ");
            s.append("]");
        }
        proof {
            assert(a =~= Seq::<char>::empty() + a);
            assert(b + Seq::<char>::empty() =~= b);
            assert(a + Seq::<char>::empty() =~= a);
        }
        s
    }
}

/// Verifies the completeness guarantee: every declared node, and every node
/// of the graph, lies on at least one path from a source to a sink.
///
/// Declared nodes absent from every edge are isolated: they are reported as
/// both unreachable and dead ends. Both lists come sorted and without
/// repetition.
pub fn check_completeness(declared: &[&str], edges: &[DagEdge]) -> (r: Result<(), CompletenessViolation>)
    ensures
        r is Ok <==> fully_wired(declared@, edges@),
        r matches Err(e) ==> {
            &&& lists_sorted(e.unreachable@, |n: Seq<char>| unreachable_node(declared@, edges@, n))
            &&& lists_sorted(e.dead_ends@, |n: Seq<char>| dead_end_node(declared@, edges@, n))
        },
{
    let (unreachable, dead_ends) = wiring_gaps(declared, edges);
    proof {
        lemma_gaps_decide_wiring(declared@, edges@, unreachable@, dead_ends@);
    }
    if unreachable.len() == 0 && dead_ends.len() == 0 {
        Ok(())
    } else {
        Err(CompletenessViolation { unreachable, dead_ends })
    }
}

} // verus!
