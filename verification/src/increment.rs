//! The increment level: how far a change moves a semantic version.

use std::cmp::Ordering;
use vstd::prelude::*;

verus! {

/// The minimal version bump that a change requires.
///
/// The levels are totally ordered by [`Increment::rank`]:
/// `NONE < PATCH < MINOR < MAJOR`.
#[derive(Clone, Copy, Debug, PartialEq, Eq, Ord, Hash, Structural)]
pub enum Increment {
    NONE,
    PATCH,
    MINOR,
    MAJOR,
}

impl Increment {
    /// The position of a level in the order, from 0 for `NONE` to 3 for `MAJOR`.
    pub open spec fn spec_rank(self) -> nat {
        match self {
            Increment::NONE => 0,
            Increment::PATCH => 1,
            Increment::MINOR => 2,
            Increment::MAJOR => 3,
        }
    }

    /// The larger of two levels.
    pub open spec fn spec_max(self, other: Increment) -> Increment {
        if self.spec_rank() >= other.spec_rank() {
            self
        } else {
            other
        }
    }

    /// The position of a level in the order, from 0 for `NONE` to 3 for `MAJOR`.
    #[verifier::when_used_as_spec(spec_rank_u8)]
    pub fn rank(self) -> (r: u8)
        ensures
            r == self.spec_rank(),
    {
        match self {
            Increment::NONE => 0,
            Increment::PATCH => 1,
            Increment::MINOR => 2,
            Increment::MAJOR => 3,
        }
    }

    /// [`Increment::rank`] as it reads in a contract.
    pub open spec fn spec_rank_u8(self) -> u8 {
        self.spec_rank() as u8
    }

    /// The larger of two levels is the one of larger rank; taking it does
    /// not depend on the order or the grouping of the levels, `NONE` changes
    /// nothing and `MAJOR` always wins.
    pub proof fn lemma_max(a: Increment, b: Increment, c: Increment)
        ensures
            a.spec_rank() == b.spec_rank() <==> a == b,
            a.spec_max(b).spec_rank() == if a.spec_rank() >= b.spec_rank() {
                a.spec_rank()
            } else {
                b.spec_rank()
            },
            a.spec_max(b) == b.spec_max(a),
            a.spec_max(b).spec_max(c) == a.spec_max(b.spec_max(c)),
            a.spec_max(a) == a,
            a.spec_max(Increment::NONE) == a,
            a.spec_max(Increment::MAJOR) == Increment::MAJOR,
    {
    }

    /// The larger of two levels.
    pub fn max(self, other: Increment) -> (r: Increment)
        ensures
            r == self.spec_max(other),
    {
        if self.rank() >= other.rank() {
            self
        } else {
            other
        }
    }
}

impl PartialOrd for Increment {
    /// The order of two levels is the order of their ranks.
    fn partial_cmp(&self, other: &Increment) -> (r: Option<Ordering>) {
        let left = self.rank();
        let right = other.rank();
        if left < right {
            Some(Ordering::Less)
        } else if left == right {
            Some(Ordering::Equal)
        } else {
            Some(Ordering::Greater)
        }
    }
}

impl vstd::std_specs::cmp::PartialOrdSpecImpl for Increment {
    open spec fn obeys_partial_cmp_spec() -> bool {
        true
    }

    open spec fn partial_cmp_spec(&self, other: &Increment) -> Option<Ordering> {
        if self.spec_rank() < other.spec_rank() {
            Some(Ordering::Less)
        } else if self.spec_rank() == other.spec_rank() {
            Some(Ordering::Equal)
        } else {
            Some(Ordering::Greater)
        }
    }
}

} // verus!
