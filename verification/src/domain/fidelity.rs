//! The restoration fidelity lattice.

use vstd::prelude::*;
use core::cmp::Ordering;

verus! {

/// How faithfully a restore reproduced the original state, from least to
/// most faithful.
#[derive(Debug, Clone, Copy, PartialEq, Eq, Structural, Ord, Hash)]
pub enum RestoreFidelity {
    /// Only historical metadata is available; no live state was restored.
    Historical,
    /// Structure (tabs, panes, splits) was restored but no process state.
    Structured,
    /// Process state (cwd, env, some history) was restored.
    Stateful,
    /// Byte-exact reproduction of the original state.
    Exact,
}

/// The rank of a fidelity level: 0 for historical up to 3 for exact.
pub open spec fn fidelity_rank(f: RestoreFidelity) -> nat {
    match f {
        RestoreFidelity::Historical => 0,
        RestoreFidelity::Structured => 1,
        RestoreFidelity::Stateful => 2,
        RestoreFidelity::Exact => 3,
    }
}

/// Levels compare by rank.
pub open spec fn fidelity_order(a: RestoreFidelity, b: RestoreFidelity) -> Ordering {
    if fidelity_rank(a) < fidelity_rank(b) {
        Ordering::Less
    } else if fidelity_rank(a) == fidelity_rank(b) {
        Ordering::Equal
    } else {
        Ordering::Greater
    }
}

impl RestoreFidelity {
    /// The level's rank: 0 for historical up to 3 for exact.
    pub fn rank(&self) -> (r: u8)
        ensures
            r == fidelity_rank(*self),
    {
        match self {
            RestoreFidelity::Historical => 0,
            RestoreFidelity::Structured => 1,
            RestoreFidelity::Stateful => 2,
            RestoreFidelity::Exact => 3,
        }
    }
}

impl PartialOrd for RestoreFidelity {
    fn partial_cmp(&self, other: &Self) -> (r: Option<Ordering>) {
        let a = self.rank();
        let b = other.rank();
        if a < b {
            Some(Ordering::Less)
        } else if a == b {
            Some(Ordering::Equal)
        } else {
            Some(Ordering::Greater)
        }
    }
}

impl vstd::std_specs::cmp::PartialOrdSpecImpl for RestoreFidelity {
    open spec fn obeys_partial_cmp_spec() -> bool {
        true
    }

    open spec fn partial_cmp_spec(&self, other: &Self) -> Option<Ordering> {
        Some(fidelity_order(*self, *other))
    }
}

/// The fidelity levels form a chain: historical < structured < stateful <
/// exact, and the order is total, antisymmetric and transitive.
pub proof fn lemma_fidelity_chain(a: RestoreFidelity, b: RestoreFidelity, c: RestoreFidelity)
    ensures
        fidelity_order(RestoreFidelity::Historical, RestoreFidelity::Structured) == Ordering::Less,
        fidelity_order(RestoreFidelity::Structured, RestoreFidelity::Stateful) == Ordering::Less,
        fidelity_order(RestoreFidelity::Stateful, RestoreFidelity::Exact) == Ordering::Less,
        fidelity_order(a, b) == Ordering::Equal <==> a == b,
        fidelity_order(a, b) == Ordering::Less <==> fidelity_order(b, a) == Ordering::Greater,
        fidelity_order(a, b) == Ordering::Less && fidelity_order(b, c) == Ordering::Less
            ==> fidelity_order(a, c) == Ordering::Less,
{
}

/// The result of a restore that may have partly succeeded.
#[derive(Debug, Clone)]
pub struct PartialRestore {
    /// Overall fidelity of the restore.
    pub fidelity: RestoreFidelity,
    /// The items that could not be fully restored; empty on full success.
    pub failures: Vec<RestoreFailure>,
}

/// One item that could not be fully restored.
#[derive(Debug, Clone)]
pub struct RestoreFailure {
    /// What failed, for a human.
    pub description: String,
    /// The fidelity reached for this item.
    pub achieved: RestoreFidelity,
}

} // verus!
