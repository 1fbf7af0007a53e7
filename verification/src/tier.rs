//! Complexity tiers, which route a task to an execution path, and their
//! order from the lightest path to the heaviest.

use vstd::prelude::*;
use core::cmp::Ordering;
use vstd::std_specs::cmp::PartialOrdSpec;

verus! {

/// Complexity tier for routing tasks to the appropriate execution path.
#[derive(Debug, Clone, Copy, PartialEq, Eq, Structural, Ord)]
pub enum ComplexityTier {
    /// Skip planning entirely: single-line fixes, typos, trivial changes.
    Trivial,
    /// Direct execution with minimal planning: focused changes with a clear scope.
    Simple,
    /// Full planning with spec, plan and tasks: multi-file, architectural work.
    Complex,
}

/// Position of a tier in the order from lightest to heaviest.
pub open spec fn tier_rank(t: ComplexityTier) -> int {
    match t {
        ComplexityTier::Trivial => 0,
        ComplexityTier::Simple => 1,
        ComplexityTier::Complex => 2,
    }
}

/// The comparison of two ranks.
pub open spec fn rank_ordering(a: int, b: int) -> Ordering {
    if a < b {
        Ordering::Less
    } else if a == b {
        Ordering::Equal
    } else {
        Ordering::Greater
    }
}

impl ComplexityTier {
    /// The tier skips planning.
    pub fn is_trivial(&self) -> (b: bool)
        ensures
            b == (*self == ComplexityTier::Trivial),
    {
        matches!(self, ComplexityTier::Trivial)
    }

    /// The tier runs directly with minimal planning.
    pub fn is_simple(&self) -> (b: bool)
        ensures
            b == (*self == ComplexityTier::Simple),
    {
        matches!(self, ComplexityTier::Simple)
    }

    /// The tier needs the full planning pipeline.
    pub fn needs_planning(&self) -> (b: bool)
        ensures
            b == (*self == ComplexityTier::Complex),
    {
        matches!(self, ComplexityTier::Complex)
    }

    /// Position of the tier from lightest (0) to heaviest (2).
    pub fn rank(&self) -> (r: u8)
        ensures
            r == tier_rank(*self),
    {
        match self {
            ComplexityTier::Trivial => 0,
            ComplexityTier::Simple => 1,
            ComplexityTier::Complex => 2,
        }
    }
}

impl PartialOrd for ComplexityTier {
    fn partial_cmp(&self, other: &Self) -> (r: Option<Ordering>) {
        let a = self.rank();
        let b = other.rank();
        if a < b {
            Some(Ordering::Less)
        } else if a == b {
            Some(Ordering::Equal)
        } else {
            Some(Ordering::Greater)
        }
    }
}

impl vstd::std_specs::cmp::PartialOrdSpecImpl for ComplexityTier {
    open spec fn obeys_partial_cmp_spec() -> bool {
        true
    }

    open spec fn partial_cmp_spec(&self, other: &Self) -> Option<Ordering> {
        Some(rank_ordering(tier_rank(*self), tier_rank(*other)))
    }
}

/// Tiers are totally ordered by weight: `Trivial < Simple < Complex`, and
/// the order agrees with equality.
pub proof fn lemma_tier_order(a: ComplexityTier, b: ComplexityTier)
    ensures
        (a.partial_cmp_spec(&b) == Some(Ordering::Less)) <==> tier_rank(a) < tier_rank(b),
        (a.partial_cmp_spec(&b) == Some(Ordering::Equal)) <==> a == b,
        (a.partial_cmp_spec(&b) == Some(Ordering::Less)) <==> (b.partial_cmp_spec(&a) == Some(Ordering::Greater)),
        tier_rank(ComplexityTier::Trivial) < tier_rank(ComplexityTier::Simple),
        tier_rank(ComplexityTier::Simple) < tier_rank(ComplexityTier::Complex),
{
}

} // verus!
