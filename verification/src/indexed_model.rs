//! The states and transitions of an index-accelerated run, and what holds
//! of them.

use vstd::prelude::*;
use crate::budget::PassBudget;
use crate::step::Overlap;

verus! {

/// Whether a candidate that a query for `subject` returned is examined
/// against it. The subject itself never is. When duplicates are
/// suppressed, only candidates of higher index are, so that no unordered
/// pair is examined from both of its ends in one pass.
pub open spec fn keeps(subject: int, candidate: u32, dedup: bool) -> bool {
    candidate != subject && (!dedup || candidate > subject)
}

/// The boxes examined against `subject`: the candidates of `found` that
/// are kept, in the order in which the query returned them.
pub open spec fn partners(subject: int, found: Seq<u32>, dedup: bool) -> Seq<int>
    decreases found.len(),
{
    if found.len() == 0 {
        Seq::empty()
    } else {
        let rest = partners(subject, found.drop_last(), dedup);
        if keeps(subject, found.last(), dedup) {
            rest.push(found.last() as int)
        } else {
            rest
        }
    }
}

/// The pairs that `subject` forms with each of `others`, in order.
pub open spec fn row(subject: int, others: Seq<int>) -> Seq<(int, int)> {
    Seq::new(others.len(), |k: int| (subject, others[k]))
}

/// The pairs examined in a pass in which the queries for boxes `0`, `1`,
/// ... returned `answers`: box by box, each box against its partners.
pub open spec fn trace(answers: Seq<Seq<u32>>, dedup: bool) -> Seq<(int, int)>
    decreases answers.len(),
{
    if answers.len() == 0 {
        Seq::empty()
    } else {
        trace(answers.drop_last(), dedup) + row(
            answers.len() - 1,
            partners(answers.len() - 1, answers.last(), dedup),
        )
    }
}

/// What an index-accelerated run waits for.
pub ghost enum Stage {
    /// The spatial index is to be built from the present positions.
    Rebuild,
    /// The index is to be queried with the bounds of this box.
    Query(int),
    /// The subject is to be compared with the partner at a position of its
    /// partner list.
    Examine(int, Seq<int>, int),
    /// Every box has been dealt with; the pass is to be closed.
    PassEnd,
    /// The run has ended.
    Finished,
}

/// The state of an index-accelerated run: every pass first has the index
/// rebuilt, then queries it for each box in index order and examines the
/// box against each partner found.
pub ghost struct IndexedState {
    /// The pass budget that the run was started with.
    pub budget: PassBudget,
    /// Whether an unordered pair is examined from one end only.
    pub dedup: bool,
    /// One flag per box, nonzero once the box has been displaced.
    pub flags: Seq<u8>,
    /// The number of completed passes.
    pub passes: nat,
    /// What the run waits for.
    pub stage: Stage,
    /// What the queries of the present pass returned, by subject.
    pub answers: Seq<Seq<u32>>,
    /// The pairs examined so far in the present pass, in order.
    pub pairs: Seq<(int, int)>,
    /// For each examined pair, whether it collided.
    pub hits: Seq<bool>,
}

impl IndexedState {
    /// The number of boxes.
    pub open spec fn count(self) -> nat {
        self.flags.len()
    }

    /// A run that has not done anything yet. Without boxes no index can be
    /// built, and the first pass is over before it began.
    pub open spec fn start(flags: Seq<u8>, budget: PassBudget, dedup: bool) -> IndexedState {
        IndexedState {
            budget,
            dedup,
            flags,
            passes: 0,
            stage: if flags.len() == 0 {
                Stage::PassEnd
            } else {
                Stage::Rebuild
            },
            answers: Seq::empty(),
            pairs: Seq::empty(),
            hits: Seq::empty(),
        }
    }

    /// Whether some pair examined in the present pass collided.
    pub open spec fn had_movement(self) -> bool {
        exists|k: int| 0 <= k < self.hits.len() && #[trigger] self.hits[k]
    }

    /// Whether the present pass queried every box, examined each against
    /// all its partners, and found no collision.
    pub open spec fn settled(self) -> bool {
        &&& self.answers.len() == self.count()
        &&& self.pairs == trace(self.answers, self.dedup)
        &&& self.hits.len() == self.pairs.len()
        &&& forall|k: int| 0 <= k < self.hits.len() ==> !#[trigger] self.hits[k]
    }

    /// The stage that follows the work on box `subject`.
    pub open spec fn beyond(self, subject: int) -> Stage {
        if subject + 1 < self.count() {
            Stage::Query(subject + 1)
        } else {
            Stage::PassEnd
        }
    }

    /// The state once the index has been rebuilt: the first box is due.
    pub open spec fn after_rebuild(self) -> IndexedState
        recommends
            self.stage == Stage::Rebuild,
    {
        IndexedState { stage: Stage::Query(0), ..self }
    }

    /// The state once the query for the subject has returned `found`.
    pub open spec fn after_answer(self, found: Seq<u32>) -> IndexedState
        recommends
            self.stage is Query,
    {
        let subject = self.stage->Query_0;
        let others = partners(subject, found, self.dedup);
        IndexedState {
            stage: if others.len() > 0 {
                Stage::Examine(subject, others, 0)
            } else {
                self.beyond(subject)
            },
            answers: self.answers.push(found),
            ..self
        }
    }

    /// The state once the pair under examination was compared with outcome
    /// `o`: a collision flags both boxes, and the next partner, the next
    /// box or the end of the pass is due.
    pub open spec fn after_report(self, o: Overlap) -> IndexedState
        recommends
            self.stage is Examine,
    {
        let subject = self.stage->Examine_0;
        let others = self.stage->Examine_1;
        let at = self.stage->Examine_2;
        IndexedState {
            flags: if o.collides() {
                self.flags.update(subject, 1u8).update(others[at], 1u8)
            } else {
                self.flags
            },
            stage: if at + 1 < others.len() {
                Stage::Examine(subject, others, at + 1)
            } else {
                self.beyond(subject)
            },
            pairs: self.pairs.push((subject, others[at])),
            hits: self.hits.push(o.collides()),
            ..self
        }
    }

    /// The state after the pass was closed: the pass is counted, and the
    /// run ends if the pass had no collision or the budget is used up;
    /// otherwise a new pass begins with a rebuilt index.
    pub open spec fn after_pass(self) -> IndexedState
        recommends
            self.stage == Stage::PassEnd,
    {
        let passes = self.passes + 1;
        if !self.had_movement() || self.budget.reached(passes) {
            IndexedState { passes, stage: Stage::Finished, ..self }
        } else {
            IndexedState {
                passes,
                stage: Stage::Rebuild,
                answers: Seq::empty(),
                pairs: Seq::empty(),
                hits: Seq::empty(),
                ..self
            }
        }
    }

    /// What holds of every state that a run can be in.
    pub open spec fn inv(self) -> bool {
        &&& self.hits.len() == self.pairs.len()
        &&& match self.stage {
            Stage::Rebuild => self.count() > 0 && self.answers.len() == 0 && self.pairs
                == trace(self.answers, self.dedup),
            Stage::Query(subject) => 0 <= subject < self.count() && self.answers.len() == subject
                && self.pairs == trace(self.answers, self.dedup),
            Stage::Examine(subject, others, at) => {
                &&& 0 <= subject < self.count()
                &&& self.answers.len() == subject + 1
                &&& others == partners(subject, self.answers.last(), self.dedup)
                &&& 0 <= at < others.len()
                &&& forall|k: int|
                    0 <= k < others.len() ==> 0 <= #[trigger] others[k] < self.count()
                        && others[k] != subject
                &&& self.pairs == trace(self.answers.drop_last(), self.dedup) + row(
                    subject,
                    others.take(at),
                )
            },
            Stage::PassEnd => self.answers.len() == self.count() && self.pairs == trace(
                self.answers,
                self.dedup,
            ),
            Stage::Finished => self.answers.len() == self.count() && self.pairs == trace(
                self.answers,
                self.dedup,
            ) && self.passes >= 1 && (!self.had_movement() || self.budget.reached(self.passes)),
        }
        &&& !(self.stage is Finished) ==> self.passes == 0 || !self.budget.reached(self.passes)
        &&& match self.budget {
            PassBudget::Bounded(limit) => self.passes <= limit || self.passes <= 1,
            PassBudget::Unbounded => true,
        }
    }
}

/// Every partner is a kept candidate: it occurs in `found` and is not the
/// subject, and with duplicates suppressed it lies above the subject.
pub proof fn partners_are_kept(subject: int, found: Seq<u32>, dedup: bool, k: int)
    requires
        0 <= k < partners(subject, found, dedup).len(),
    ensures
        partners(subject, found, dedup)[k] != subject,
        dedup ==> partners(subject, found, dedup)[k] > subject,
        exists|m: int|
            0 <= m < found.len() && #[trigger] found[m] as int == partners(
                subject,
                found,
                dedup,
            )[k],
    decreases found.len(),
{
    if found.len() > 0 {
        let rest = partners(subject, found.drop_last(), dedup);
        if k < rest.len() {
            partners_are_kept(subject, found.drop_last(), dedup, k);
            let m = choose|m: int|
                0 <= m < found.drop_last().len() && #[trigger] found.drop_last()[m] as int
                    == rest[k];
            assert(found[m] as int == rest[k]);
        } else {
            assert(found[found.len() - 1] == found.last());
        }
    }
}

/// No kept candidate is lost: each occurs among the partners.
pub proof fn partners_keep_all(subject: int, found: Seq<u32>, dedup: bool, m: int)
    requires
        0 <= m < found.len(),
        keeps(subject, found[m], dedup),
    ensures
        partners(subject, found, dedup).contains(found[m] as int),
    decreases found.len(),
{
    let rest = partners(subject, found.drop_last(), dedup);
    let all = partners(subject, found, dedup);
    if m == found.len() - 1 {
        assert(all[rest.len() as int] == found[m] as int);
    } else {
        partners_keep_all(subject, found.drop_last(), dedup, m);
        let k = choose|k: int| 0 <= k < rest.len() && rest[k] == found[m] as int;
        assert(all[k] == found[m] as int);
    }
}

/// A run starts in a state that satisfies the invariant.
pub proof fn start_is_valid(flags: Seq<u8>, budget: PassBudget, dedup: bool)
    ensures
        IndexedState::start(flags, budget, dedup).inv(),
        !IndexedState::start(flags, budget, dedup).had_movement(),
{
}

/// Rebuilding the index keeps the invariant.
pub proof fn rebuild_is_valid(s: IndexedState)
    requires
        s.inv(),
        s.stage == Stage::Rebuild,
    ensures
        s.after_rebuild().inv(),
        s.after_rebuild().had_movement() == s.had_movement(),
{
    let t = s.after_rebuild();
    assert(t.hits == s.hits);
}

/// Taking the answer to a query keeps the invariant, provided that every
/// candidate is the index of a box.
pub proof fn answer_is_valid(s: IndexedState, found: Seq<u32>)
    requires
        s.inv(),
        s.stage is Query,
        in_range(found, s.count()),
    ensures
        s.after_answer(found).inv(),
        s.after_answer(found).had_movement() == s.had_movement(),
        s.after_answer(found).flags == s.flags,
{
    let t = s.after_answer(found);
    let subject = s.stage->Query_0;
    let others = partners(subject, found, s.dedup);
    assert(t.hits == s.hits);
    assert(t.answers.drop_last() =~= s.answers);
    assert(t.answers.last() == found);
    assert forall|k: int| 0 <= k < others.len() implies 0 <= #[trigger] others[k] < s.count()
        && others[k] != subject by {
        partners_are_kept(subject, found, s.dedup, k);
    }
    if others.len() > 0 {
        assert(row(subject, others.take(0)) =~= Seq::<(int, int)>::empty());
        assert(t.pairs =~= trace(t.answers.drop_last(), t.dedup) + row(subject, others.take(0)));
    } else {
        assert(row(subject, others) =~= Seq::<(int, int)>::empty());
        assert(t.pairs =~= trace(t.answers, t.dedup));
    }
}

/// Reporting on the pair under examination keeps the invariant, and the
/// pass has had movement afterwards exactly if it had before or the
/// reported pair collided.
pub proof fn report_is_valid(s: IndexedState, o: Overlap)
    requires
        s.inv(),
        s.stage is Examine,
    ensures
        s.after_report(o).inv(),
        s.after_report(o).had_movement() == (s.had_movement() || o.collides()),
        s.after_report(o).count() == s.count(),
{
    let t = s.after_report(o);
    let subject = s.stage->Examine_0;
    let others = s.stage->Examine_1;
    let at = s.stage->Examine_2;
    assert(row(subject, others.take(at + 1)) =~= row(subject, others.take(at)).push(
        (subject, others[at]),
    ));
    assert(t.pairs =~= trace(s.answers.drop_last(), s.dedup) + row(
        subject,
        others.take(at + 1),
    ));
    if at + 1 >= others.len() {
        assert(others.take(at + 1) =~= others);
    }
    if s.had_movement() {
        let k = choose|k: int| 0 <= k < s.hits.len() && #[trigger] s.hits[k];
        assert(t.hits[k]);
    }
    if o.collides() {
        assert(t.hits[s.hits.len() as int]);
    }
    if t.had_movement() {
        let k = choose|k: int| 0 <= k < t.hits.len() && #[trigger] t.hits[k];
        if k < s.hits.len() {
            assert(s.hits[k]);
        }
    }
}

/// Closing a pass keeps the invariant.
pub proof fn pass_is_valid(s: IndexedState)
    requires
        s.inv(),
        s.stage == Stage::PassEnd,
    ensures
        s.after_pass().inv(),
        s.after_pass().passes == s.passes + 1,
        s.after_pass().flags == s.flags,
        s.after_pass().had_movement() == (s.after_pass().stage is Finished && s.had_movement()),
{
    let t = s.after_pass();
    if t.stage is Finished {
        assert(t.hits == s.hits);
    } else {
        if s.count() == 0 {
            assert(s.answers.len() == 0);
            assert(s.pairs.len() == 0);
            assert(!s.had_movement());
        }
    }
}

/// A run that has ended either saw a whole pass in which every box was
/// queried, each examined against all its partners, and no pair collided,
/// or has used up its budget.
pub proof fn finished_is_settled_or_spent(s: IndexedState)
    requires
        s.inv(),
        s.stage is Finished,
    ensures
        s.settled() || s.budget.reached(s.passes),
{
}

/// A flag that is set stays set, whatever is reported, answered or
/// closed; no transition changes the number of boxes.
pub proof fn flags_only_rise(s: IndexedState, o: Overlap, found: Seq<u32>, k: int)
    requires
        s.inv(),
        0 <= k < s.count(),
        s.flags[k] != 0,
    ensures
        s.after_pass().flags[k] == s.flags[k],
        s.after_rebuild().flags[k] == s.flags[k],
        s.after_answer(found).flags[k] == s.flags[k],
        s.stage is Examine ==> s.after_report(o).flags[k] != 0,
        s.stage is Examine ==> (s.flags[k] == 1 ==> s.after_report(o).flags[k] == 1),
        s.stage is Examine ==> s.after_report(o).count() == s.count(),
{
}

/// Without boxes nothing is built, queried or examined: closing the first
/// pass ends the run after one pass.
pub proof fn empty_set_ends_at_once(budget: PassBudget, dedup: bool)
    ensures
        IndexedState::start(Seq::empty(), budget, dedup).stage == Stage::PassEnd,
        IndexedState::start(Seq::empty(), budget, dedup).after_pass().stage == Stage::Finished,
        IndexedState::start(Seq::empty(), budget, dedup).after_pass().passes == 1,
{
    let s = IndexedState::start(Seq::empty(), budget, dedup);
    assert(!s.had_movement());
}

/// A single box has no partner, whatever the query returns: its pass
/// examines nothing, and closing it ends the run after one pass with the
/// flag untouched.
pub proof fn single_box_ends_at_once(
    flags: Seq<u8>,
    budget: PassBudget,
    dedup: bool,
    found: Seq<u32>,
)
    requires
        flags.len() == 1,
        in_range(found, 1),
    ensures
        ({
            let s = IndexedState::start(flags, budget, dedup).after_rebuild().after_answer(found);
            &&& s.stage == Stage::PassEnd
            &&& s.after_pass().stage == Stage::Finished
            &&& s.after_pass().passes == 1
            &&& s.after_pass().flags == flags
        }),
{
    let r = IndexedState::start(flags, budget, dedup).after_rebuild();
    let s = r.after_answer(found);
    let others = partners(0, found, dedup);
    if others.len() > 0 {
        partners_are_kept(0, found, dedup, 0);
    }
    assert(!s.had_movement());
}

/// A bounded run never counts more passes than its budget, except that
/// the first pass always runs.
pub proof fn passes_stay_in_budget(s: IndexedState, limit: u32)
    requires
        s.inv(),
        s.budget == PassBudget::Bounded(limit),
    ensures
        s.passes <= limit || s.passes == 1 || s.passes == 0,
{
}

/// A pass in which no examined pair collided ends the run, whatever the
/// budget.
pub proof fn quiet_pass_ends_run(s: IndexedState)
    requires
        s.inv(),
        s.stage == Stage::PassEnd,
        forall|k: int| 0 <= k < s.hits.len() ==> !#[trigger] s.hits[k],
    ensures
        s.after_pass().stage == Stage::Finished,
        s.after_pass().passes == s.passes + 1,
{
}

/// A pass with a collision does not end the run while budget is left: the
/// index is rebuilt and the next pass begins with nothing examined.
pub proof fn busy_pass_goes_on(s: IndexedState)
    requires
        s.inv(),
        s.stage == Stage::PassEnd,
        s.had_movement(),
        !s.budget.reached(s.passes + 1),
    ensures
        s.after_pass().stage == Stage::Rebuild,
        s.after_pass().pairs == Seq::<(int, int)>::empty(),
        s.after_pass().answers == Seq::<Seq<u32>>::empty(),
{
}

/// In a pass no box is examined against itself, every examined pair has a
/// queried box as its subject, and with duplicates suppressed the subject
/// is the lower box of the pair.
pub proof fn trace_pairs_are_proper(answers: Seq<Seq<u32>>, dedup: bool, k: int)
    requires
        0 <= k < trace(answers, dedup).len(),
    ensures
        0 <= trace(answers, dedup)[k].0 < answers.len(),
        trace(answers, dedup)[k].0 != trace(answers, dedup)[k].1,
        dedup ==> trace(answers, dedup)[k].0 < trace(answers, dedup)[k].1,
    decreases answers.len(),
{
    if answers.len() > 0 {
        let before = trace(answers.drop_last(), dedup);
        let subject = answers.len() - 1;
        if k < before.len() {
            trace_pairs_are_proper(answers.drop_last(), dedup, k);
        } else {
            partners_are_kept(subject, answers.last(), dedup, k - before.len());
        }
    }
}

/// What `trace_pairs_are_proper` says of a whole pass holds of the pairs
/// examined so far at any time of a run.
pub proof fn examined_pairs_are_proper(s: IndexedState, k: int)
    requires
        s.inv(),
        0 <= k < s.pairs.len(),
    ensures
        0 <= s.pairs[k].0 < s.count(),
        s.pairs[k].0 != s.pairs[k].1,
        s.dedup ==> s.pairs[k].0 < s.pairs[k].1,
{
    match s.stage {
        Stage::Examine(subject, others, at) => {
            let before = trace(s.answers.drop_last(), s.dedup);
            if k < before.len() {
                trace_pairs_are_proper(s.answers.drop_last(), s.dedup, k);
            } else {
                partners_are_kept(subject, s.answers.last(), s.dedup, k - before.len());
            }
        },
        _ => {
            trace_pairs_are_proper(s.answers, s.dedup, k);
        },
    }
}

/// When duplicates are suppressed, every examined pair has its subject
/// below its partner.
pub proof fn dedup_orders_pairs(s: IndexedState, k: int)
    requires
        s.inv(),
        s.dedup,
        s.stage is Examine,
        0 <= k < s.stage->Examine_1.len(),
    ensures
        s.stage->Examine_0 < s.stage->Examine_1[k],
{
    partners_are_kept(s.stage->Examine_0, s.answers.last(), s.dedup, k);
}

/// Whether every candidate of `found` is the index of one of `n` boxes.
pub open spec fn in_range(found: Seq<u32>, n: nat) -> bool {
    forall|m: int| 0 <= m < found.len() ==> #[trigger] found[m] < n
}

/// Whether `t` is what a run in state `s` turns into by its next
/// transition.
pub open spec fn follows(s: IndexedState, t: IndexedState) -> bool {
    match s.stage {
        Stage::Rebuild => t == s.after_rebuild(),
        Stage::Query(_) => exists|found: Seq<u32>|
            in_range(found, s.count()) && t == #[trigger] s.after_answer(found),
        Stage::Examine(_, _, _) => exists|o: Overlap| t == #[trigger] s.after_report(o),
        Stage::PassEnd => t == s.after_pass(),
        Stage::Finished => false,
    }
}

/// Whether `h` is the history of a run: it begins in a valid state, and
/// each state follows from the one before.
pub open spec fn is_history(h: Seq<IndexedState>) -> bool {
    &&& h.len() > 0
    &&& h[0].inv()
    &&& forall|k: int| 0 <= k < h.len() - 1 ==> follows(#[trigger] h[k], h[k + 1])
}

/// Every state of a run satisfies the invariant.
pub proof fn history_is_valid(h: Seq<IndexedState>, k: int)
    requires
        is_history(h),
        0 <= k < h.len(),
    ensures
        h[k].inv(),
    decreases k,
{
    if k > 0 {
        history_is_valid(h, k - 1);
        let s = h[k - 1];
        assert(follows(s, h[k - 1 + 1]));
        match s.stage {
            Stage::Rebuild => {
                rebuild_is_valid(s);
            },
            Stage::Query(_) => {
                let found = choose|found: Seq<u32>|
                    in_range(found, s.count()) && h[k] == #[trigger] s.after_answer(found);
                answer_is_valid(s, found);
            },
            Stage::Examine(_, _, _) => {
                let o = choose|o: Overlap| h[k] == #[trigger] s.after_report(o);
                report_is_valid(s, o);
            },
            Stage::PassEnd => {
                pass_is_valid(s);
            },
            Stage::Finished => {},
        }
    }
}

/// Throughout a run the number of boxes stays the same, the pass count
/// never falls, and a flag that is set at one time is set at every later
/// time, also in passes in which its box takes part in no collision.
pub proof fn flags_stay_set(h: Seq<IndexedState>, i: int, j: int, b: int)
    requires
        is_history(h),
        0 <= i <= j < h.len(),
        0 <= b < h[i].count(),
    ensures
        h[j].count() == h[i].count(),
        h[j].passes >= h[i].passes,
        h[j].budget == h[i].budget,
        h[j].dedup == h[i].dedup,
        h[i].flags[b] != 0 ==> h[j].flags[b] != 0,
        h[i].flags[b] == 1 ==> h[j].flags[b] == 1,
    decreases j - i,
{
    if i < j {
        flags_stay_set(h, i, j - 1, b);
        history_is_valid(h, j - 1);
        let s = h[j - 1];
        assert(follows(s, h[j - 1 + 1]));
        match s.stage {
            Stage::Rebuild => {
                rebuild_is_valid(s);
            },
            Stage::Query(_) => {
                let found = choose|found: Seq<u32>|
                    in_range(found, s.count()) && h[j] == #[trigger] s.after_answer(found);
                answer_is_valid(s, found);
            },
            Stage::Examine(_, _, _) => {
                let o = choose|o: Overlap| h[j] == #[trigger] s.after_report(o);
                report_is_valid(s, o);
            },
            Stage::PassEnd => {
                pass_is_valid(s);
            },
            Stage::Finished => {},
        }
    }
}

} // verus!
