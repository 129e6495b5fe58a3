//! The pass budget of a run.

use vstd::prelude::*;

verus! {

/// How many passes a run may take.
#[derive(Clone, Copy, Debug, PartialEq, Eq, Structural)]
pub enum PassBudget {
    /// At most this many passes. The first pass always runs, so a budget of
    /// zero behaves like a budget of one.
    Bounded(u32),
    /// No limit: the run ends only when a pass finds no collision.
    Unbounded,
}

impl PassBudget {
    /// Whether `passes` completed passes use the budget up.
    pub open spec fn reached(self, passes: nat) -> bool {
        match self {
            PassBudget::Bounded(limit) => passes >= limit,
            PassBudget::Unbounded => false,
        }
    }

    /// The budget that a raw count stands for: the largest `u32` means
    /// "no limit", every other value is the limit itself.
    pub open spec fn of_raw(raw: u32) -> PassBudget {
        if raw == u32::MAX {
            PassBudget::Unbounded
        } else {
            PassBudget::Bounded(raw)
        }
    }

    /// Decodes a raw pass count, in which `u32::MAX` is reserved for
    /// "no limit".
    pub fn from_raw(raw: u32) -> (budget: PassBudget)
        ensures
            budget == PassBudget::of_raw(raw),
    {
        if raw == u32::MAX {
            PassBudget::Unbounded
        } else {
            PassBudget::Bounded(raw)
        }
    }

    /// Tests whether `passes` completed passes use the budget up.
    pub fn is_reached(&self, passes: u32) -> (spent: bool)
        ensures
            spent == self.reached(passes as nat),
    {
        match self {
            PassBudget::Bounded(limit) => passes >= *limit,
            PassBudget::Unbounded => false,
        }
    }
}

/// Once a budget is used up it stays used up as passes go on.
pub proof fn reached_is_monotonic(budget: PassBudget, earlier: nat, later: nat)
    requires
        earlier <= later,
        budget.reached(earlier),
    ensures
        budget.reached(later),
{
}

} // verus!
