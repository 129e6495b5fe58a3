//! The exhaustive run: every pass examines every pair of boxes.

use vstd::prelude::*;
use crate::budget::PassBudget;
use crate::pairwise_model::{pass_is_valid, report_is_valid, start_is_valid, PairwiseState};
use crate::step::{Overlap, Push};

verus! {

/// An exhaustive run in progress. The caller examines the pair that the
/// run points at, reports what the comparison gave, applies the
/// displacement it is told, and closes each pass when its scan is over.
pub struct PairwiseRun {
    budget: PassBudget,
    flags: Vec<u8>,
    passes: u32,
    first: usize,
    second: usize,
    pass_moved: bool,
    finished: bool,
    examined: Ghost<Map<(int, int), bool>>,
}

impl PairwiseRun {
    /// The state that the run stands for.
    pub closed spec fn view(&self) -> PairwiseState {
        PairwiseState {
            budget: self.budget,
            flags: self.flags@,
            passes: self.passes as nat,
            cursor: if self.second < self.flags@.len() {
                Some((self.first as int, self.second as int))
            } else {
                None
            },
            examined: self.examined@,
            finished: self.finished,
        }
    }

    /// Well-formedness: the state satisfies the run invariant and the
    /// bookkeeping agrees with it.
    pub closed spec fn wf(&self) -> bool {
        &&& self@.inv()
        &&& self.first < self.second
        &&& self.pass_moved == self@.had_movement()
    }

    /// Starts a run over `flags.len()` boxes. The flags are taken as they
    /// are, so that flags set by an earlier run persist.
    pub fn new(flags: Vec<u8>, budget: PassBudget) -> (run: PairwiseRun)
        ensures
            run.wf(),
            run@ == PairwiseState::start(flags@, budget),
            !run@.had_movement(),
    {
        let run = PairwiseRun {
            budget,
            flags,
            passes: 0,
            first: 0,
            second: 1,
            pass_moved: false,
            finished: false,
            examined: Ghost(Map::empty()),
        };
        proof {
            start_is_valid(flags@, budget);
            assert(run@ =~= PairwiseState::start(flags@, budget));
        }
        run
    }

    /// The pair to examine now, or `None` when the scan of the present pass
    /// is over.
    pub fn pending(&self) -> (pair: Option<(usize, usize)>)
        requires
            self.wf(),
        ensures
            match pair {
                Some((a, b)) => self@.cursor == Some((a as int, b as int)),
                None => self@.cursor is None,
            },
    {
        if self.second < self.flags.len() {
            Some((self.first, self.second))
        } else {
            None
        }
    }

    /// Takes the outcome of comparing the pending pair. On a collision both
    /// boxes are flagged as moved and the displacement to apply is
    /// returned. The run then points at the next pair.
    pub fn report(&mut self, o: Overlap) -> (push: Option<Push>)
        requires
            old(self).wf(),
            old(self)@.cursor is Some,
        ensures
            final(self).wf(),
            final(self)@ == old(self)@.after_report(o),
            final(self)@.had_movement() == (old(self)@.had_movement() || o.collides()),
            push == o.push(),
    {
        proof {
            report_is_valid(self@, o);
        }
        let n = self.flags.len();
        let a = self.first;
        let b = self.second;
        let push = o.resolve();
        if push.is_some() {
            self.flags.set(a, 1u8);
            self.flags.set(b, 1u8);
            self.pass_moved = true;
        }
        if b + 1 < n {
            self.second = b + 1;
        } else {
            self.first = a + 1;
            self.second = a + 2;
        }
        proof {
            self.examined@ = self.examined@.insert((a as int, b as int), o.collides());
            assert(self@ =~= old(self)@.after_report(o));
        }
        push
    }

    /// Closes the present pass and counts it. Returns whether another pass
    /// is due: it is not if the pass had no collision or the budget is used
    /// up. An unbounded run must not have counted `u32::MAX` passes yet.
    pub fn end_pass(&mut self) -> (again: bool)
        requires
            old(self).wf(),
            old(self)@.cursor is None,
            !old(self)@.finished,
            old(self)@.budget == PassBudget::Unbounded ==> old(self)@.passes < u32::MAX,
        ensures
            final(self).wf(),
            final(self)@ == old(self)@.after_pass(),
            again == !final(self)@.finished,
            again == (old(self)@.had_movement() && !old(self)@.budget.reached(
                old(self)@.passes + 1,
            )),
    {
        proof {
            pass_is_valid(self@);
        }
        self.passes = self.passes + 1;
        if !self.pass_moved || self.budget.is_reached(self.passes) {
            self.finished = true;
            proof {
                assert(self@ =~= old(self)@.after_pass());
            }
            false
        } else {
            self.first = 0;
            self.second = 1;
            self.pass_moved = false;
            proof {
                self.examined@ = Map::empty();
                assert(self@ =~= old(self)@.after_pass());
            }
            true
        }
    }

    /// The number of completed passes.
    pub fn passes(&self) -> (passes: u32)
        ensures
            passes == self@.passes,
    {
        self.passes
    }

    /// Whether the run has ended.
    pub fn is_finished(&self) -> (finished: bool)
        ensures
            finished == self@.finished,
    {
        self.finished
    }

    /// The number of boxes.
    pub fn count(&self) -> (n: usize)
        ensures
            n == self@.count(),
    {
        self.flags.len()
    }

    /// Whether box `k` has been displaced, in this run or before it.
    pub fn has_moved(&self, k: usize) -> (moved: bool)
        requires
            k < self@.count(),
        ensures
            moved == (self@.flags[k as int] != 0),
    {
        self.flags[k] != 0
    }

    /// A copy of the flags as they stand.
    pub fn flags(&self) -> (copy: Vec<u8>)
        ensures
            copy@ == self@.flags,
    {
        let mut copy: Vec<u8> = Vec::new();
        let mut k: usize = 0;
        while k < self.flags.len()
            invariant
                k <= self.flags@.len(),
                copy@ == self.flags@.take(k as int),
            decreases self.flags@.len() - k,
        {
            copy.push(self.flags[k]);
            proof {
                assert(copy@ =~= self.flags@.take(k + 1));
            }
            k = k + 1;
        }
        proof {
            assert(copy@ =~= self.flags@);
        }
        copy
    }

    /// Gives the flags back and ends the use of the run.
    pub fn into_flags(self) -> (flags: Vec<u8>)
        ensures
            flags@ == self@.flags,
    {
        self.flags
    }
}

} // verus!
