//! The index-accelerated run: every pass examines each box against the
//! candidates that a spatial index returns for it.

use vstd::prelude::*;
use crate::budget::PassBudget;
use crate::indexed_model::{
    answer_is_valid, in_range, partners, pass_is_valid, rebuild_is_valid, report_is_valid,
    start_is_valid, IndexedState, Stage,
};
use crate::step::{Overlap, Push};

verus! {

/// What the caller of an index-accelerated run is to do next.
#[derive(Clone, Copy, Debug, PartialEq, Eq, Structural)]
pub enum Action {
    /// Build the spatial index over the present bounds of all boxes, then
    /// call `rebuilt`.
    Rebuild,
    /// Query the index with the present bounds of this box, then hand the
    /// candidates to `answer`.
    Query(usize),
    /// Compare the first box with the second, then hand the outcome to
    /// `report`.
    Examine(usize, usize),
    /// Call `end_pass`.
    ClosePass,
    /// Nothing: the run has ended.
    Stop,
}

impl IndexedState {
    /// What the caller is to do in this state.
    pub open spec fn action(self) -> Action {
        match self.stage {
            Stage::Rebuild => Action::Rebuild,
            Stage::Query(subject) => Action::Query(subject as usize),
            Stage::Examine(subject, others, at) => Action::Examine(
                subject as usize,
                others[at] as usize,
            ),
            Stage::PassEnd => Action::ClosePass,
            Stage::Finished => Action::Stop,
        }
    }
}

/// The indices of `v` as mathematical integers.
pub open spec fn as_ints(v: Seq<usize>) -> Seq<int> {
    Seq::new(v.len(), |k: int| v[k] as int)
}

enum Step {
    Rebuild,
    Query,
    Examine,
    PassEnd,
    Finished,
}

/// An index-accelerated run in progress. The caller does what `pending`
/// says and reports back through the matching method.
pub struct IndexedRun {
    budget: PassBudget,
    dedup: bool,
    flags: Vec<u8>,
    passes: u32,
    step: Step,
    subject: usize,
    others: Vec<usize>,
    at: usize,
    pass_moved: bool,
    answers: Ghost<Seq<Seq<u32>>>,
    pairs: Ghost<Seq<(int, int)>>,
    hits: Ghost<Seq<bool>>,
}

impl IndexedRun {
    /// The state that the run stands for.
    pub closed spec fn view(&self) -> IndexedState {
        IndexedState {
            budget: self.budget,
            dedup: self.dedup,
            flags: self.flags@,
            passes: self.passes as nat,
            stage: match self.step {
                Step::Rebuild => Stage::Rebuild,
                Step::Query => Stage::Query(self.subject as int),
                Step::Examine => Stage::Examine(
                    self.subject as int,
                    as_ints(self.others@),
                    self.at as int,
                ),
                Step::PassEnd => Stage::PassEnd,
                Step::Finished => Stage::Finished,
            },
            answers: self.answers@,
            pairs: self.pairs@,
            hits: self.hits@,
        }
    }

    /// Well-formedness: the state satisfies the run invariant and the
    /// bookkeeping agrees with it.
    pub closed spec fn wf(&self) -> bool {
        &&& self@.inv()
        &&& self.pass_moved == self@.had_movement()
    }

    /// Starts a run over `flags.len()` boxes. The flags are taken as they
    /// are, so that flags set by an earlier run persist. With `dedup` set,
    /// a box is examined only against candidates of higher index.
    pub fn new(flags: Vec<u8>, budget: PassBudget, dedup: bool) -> (run: IndexedRun)
        ensures
            run.wf(),
            run@ == IndexedState::start(flags@, budget, dedup),
            !run@.had_movement(),
    {
        let step = if flags.len() == 0 {
            Step::PassEnd
        } else {
            Step::Rebuild
        };
        let run = IndexedRun {
            budget,
            dedup,
            flags,
            passes: 0,
            step,
            subject: 0,
            others: Vec::new(),
            at: 0,
            pass_moved: false,
            answers: Ghost(Seq::empty()),
            pairs: Ghost(Seq::empty()),
            hits: Ghost(Seq::empty()),
        };
        proof {
            start_is_valid(flags@, budget, dedup);
            assert(run@ =~= IndexedState::start(flags@, budget, dedup));
        }
        run
    }

    /// What the caller is to do next.
    pub fn pending(&self) -> (action: Action)
        requires
            self.wf(),
        ensures
            action == self@.action(),
    {
        match self.step {
            Step::Rebuild => Action::Rebuild,
            Step::Query => Action::Query(self.subject),
            Step::Examine => Action::Examine(self.subject, self.others[self.at]),
            Step::PassEnd => Action::ClosePass,
            Step::Finished => Action::Stop,
        }
    }

    /// Records that the index has been rebuilt from the present positions.
    pub fn rebuilt(&mut self)
        requires
            old(self).wf(),
            old(self)@.stage == Stage::Rebuild,
        ensures
            final(self).wf(),
            final(self)@ == old(self)@.after_rebuild(),
            final(self)@.had_movement() == old(self)@.had_movement(),
    {
        proof {
            rebuild_is_valid(self@);
        }
        self.step = Step::Query;
        self.subject = 0;
        proof {
            assert(self@ =~= old(self)@.after_rebuild());
        }
    }

    /// Takes the candidates that the query for the pending box returned.
    /// Each must be the index of a box. The box itself is dropped from
    /// them, and with duplicates suppressed so is every box below it.
    pub fn answer(&mut self, found: &Vec<u32>)
        requires
            old(self).wf(),
            old(self)@.stage is Query,
            in_range(found@, old(self)@.count()),
        ensures
            final(self).wf(),
            final(self)@ == old(self)@.after_answer(found@),
            final(self)@.had_movement() == old(self)@.had_movement(),
    {
        proof {
            answer_is_valid(self@, found@);
        }
        let subject = self.subject;
        let dedup = self.dedup;
        let mut others: Vec<usize> = Vec::new();
        let mut m: usize = 0;
        while m < found.len()
            invariant
                m <= found@.len(),
                as_ints(others@) == partners(subject as int, found@.take(m as int), dedup),
            decreases found@.len() - m,
        {
            let candidate: u32 = found[m];
            let j: usize = candidate as usize;
            proof {
                assert(found@.take(m + 1).drop_last() =~= found@.take(m as int));
                assert(found@.take(m + 1).last() == candidate);
            }
            if j != subject && (!dedup || j > subject) {
                others.push(j);
                proof {
                    assert(as_ints(others@) =~= partners(
                        subject as int,
                        found@.take(m as int),
                        dedup,
                    ).push(candidate as int));
                }
            }
            m = m + 1;
        }
        proof {
            assert(found@.take(m as int) =~= found@);
        }
        proof {
            assert(as_ints(others@).len() == others@.len());
        }
        if others.len() > 0 {
            self.step = Step::Examine;
            self.others = others;
            self.at = 0;
        } else {
            self.advance();
        }
        proof {
            self.answers@ = self.answers@.push(found@);
            assert(self@ =~= old(self)@.after_answer(found@));
        }
    }

    /// Takes the outcome of comparing the pending pair. On a collision both
    /// boxes are flagged as moved and the displacement to apply is
    /// returned. The run then moves on.
    pub fn report(&mut self, o: Overlap) -> (push: Option<Push>)
        requires
            old(self).wf(),
            old(self)@.stage is Examine,
        ensures
            final(self).wf(),
            final(self)@ == old(self)@.after_report(o),
            final(self)@.had_movement() == (old(self)@.had_movement() || o.collides()),
            push == o.push(),
    {
        proof {
            report_is_valid(self@, o);
        }
        let subject = self.subject;
        let len = self.others.len();
        proof {
            assert(as_ints(self.others@).len() == len);
            assert(as_ints(self.others@)[self.at as int] == self.others@[self.at as int]);
        }
        let partner = self.others[self.at];
        let push = o.resolve();
        if push.is_some() {
            self.flags.set(subject, 1u8);
            self.flags.set(partner, 1u8);
            self.pass_moved = true;
        }
        if self.at + 1 < len {
            self.at = self.at + 1;
        } else {
            self.advance();
        }
        proof {
            self.pairs@ = self.pairs@.push((subject as int, partner as int));
            self.hits@ = self.hits@.push(o.collides());
            assert(self@ =~= old(self)@.after_report(o));
        }
        push
    }

    /// Closes the present pass and counts it. Returns whether another pass
    /// is due: it is not if the pass had no collision or the budget is used
    /// up. An unbounded run must not have counted `u32::MAX` passes yet.
    pub fn end_pass(&mut self) -> (again: bool)
        requires
            old(self).wf(),
            old(self)@.stage == Stage::PassEnd,
            old(self)@.budget == PassBudget::Unbounded ==> old(self)@.passes < u32::MAX,
        ensures
            final(self).wf(),
            final(self)@ == old(self)@.after_pass(),
            again == !(final(self)@.stage is Finished),
            again == (old(self)@.had_movement() && !old(self)@.budget.reached(
                old(self)@.passes + 1,
            )),
    {
        proof {
            pass_is_valid(self@);
        }
        self.passes = self.passes + 1;
        if !self.pass_moved || self.budget.is_reached(self.passes) {
            self.step = Step::Finished;
            proof {
                assert(self@ =~= old(self)@.after_pass());
            }
            false
        } else {
            self.step = Step::Rebuild;
            self.pass_moved = false;
            proof {
                self.answers@ = Seq::empty();
                self.pairs@ = Seq::empty();
                self.hits@ = Seq::empty();
                assert(self@ =~= old(self)@.after_pass());
            }
            true
        }
    }

    fn advance(&mut self)
        requires
            old(self).subject < old(self).flags@.len(),
        ensures
            final(self).step == (if old(self).subject + 1 < old(self).flags@.len() {
                Step::Query
            } else {
                Step::PassEnd
            }),
            final(self).subject as int == (if old(self).subject + 1 < old(self).flags@.len() {
                old(self).subject + 1
            } else {
                old(self).subject as int
            }),
            final(self).budget == old(self).budget,
            final(self).dedup == old(self).dedup,
            final(self).flags == old(self).flags,
            final(self).passes == old(self).passes,
            final(self).pass_moved == old(self).pass_moved,
            final(self).answers == old(self).answers,
            final(self).pairs == old(self).pairs,
            final(self).hits == old(self).hits,
    {
        let n = self.flags.len();
        if self.subject + 1 < n {
            self.subject = self.subject + 1;
            self.step = Step::Query;
        } else {
            self.step = Step::PassEnd;
        }
    }

    /// The number of completed passes.
    pub fn passes(&self) -> (passes: u32)
        ensures
            passes == self@.passes,
    {
        self.passes
    }

    /// Whether the run has ended.
    pub fn is_finished(&self) -> (finished: bool)
        ensures
            finished == (self@.stage is Finished),
    {
        match self.step {
            Step::Finished => true,
            _ => false,
        }
    }

    /// The number of boxes.
    pub fn count(&self) -> (n: usize)
        ensures
            n == self@.count(),
    {
        self.flags.len()
    }

    /// Whether box `k` has been displaced, in this run or before it.
    pub fn has_moved(&self, k: usize) -> (moved: bool)
        requires
            k < self@.count(),
        ensures
            moved == (self@.flags[k as int] != 0),
    {
        self.flags[k] != 0
    }

    /// Gives the flags back and ends the use of the run.
    pub fn into_flags(self) -> (flags: Vec<u8>)
        ensures
            flags@ == self@.flags,
    {
        self.flags
    }
}

} // verus!
