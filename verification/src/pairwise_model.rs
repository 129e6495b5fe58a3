//! The states and transitions of an exhaustive run, and what holds of
//! them.

use vstd::prelude::*;
use crate::budget::PassBudget;
use crate::step::Overlap;

verus! {

/// Whether `(a, b)` names a pair among `n` boxes: two distinct indices,
/// the smaller one first.
pub open spec fn is_pair(n: nat, a: int, b: int) -> bool {
    0 <= a < b < n
}

/// Index order on pairs: by the first index, then by the second.
pub open spec fn precedes(a: int, b: int, c: int, d: int) -> bool {
    a < c || (a == c && b < d)
}

/// The first pair of a pass over `n` boxes, if there is any pair at all.
pub open spec fn first_pair(n: nat) -> Option<(int, int)> {
    if n >= 2 {
        Some((0int, 1int))
    } else {
        None
    }
}

/// The pair that follows `(a, b)` in a pass over `n` boxes.
pub open spec fn next_pair(n: nat, a: int, b: int) -> Option<(int, int)> {
    if b + 1 < n {
        Some((a, b + 1))
    } else if a + 2 < n {
        Some((a + 1, a + 2))
    } else {
        None
    }
}

/// The state of an exhaustive run: every pass examines each pair of boxes
/// once, in index order.
pub ghost struct PairwiseState {
    /// The pass budget that the run was started with.
    pub budget: PassBudget,
    /// One flag per box, nonzero once the box has been displaced.
    pub flags: Seq<u8>,
    /// The number of completed passes.
    pub passes: nat,
    /// The pair to examine next; `None` when the scan of the pass is over.
    pub cursor: Option<(int, int)>,
    /// The pairs examined so far in the present pass, each with whether it
    /// collided.
    pub examined: Map<(int, int), bool>,
    /// Whether the run has ended.
    pub finished: bool,
}

impl PairwiseState {
    /// The number of boxes.
    pub open spec fn count(self) -> nat {
        self.flags.len()
    }

    /// A run that has not examined anything yet.
    pub open spec fn start(flags: Seq<u8>, budget: PassBudget) -> PairwiseState {
        PairwiseState {
            budget,
            flags,
            passes: 0,
            cursor: first_pair(flags.len()),
            examined: Map::empty(),
            finished: false,
        }
    }

    /// Whether some pair examined in the present pass collided.
    pub open spec fn had_movement(self) -> bool {
        exists|a: int, b: int| #[trigger]
            self.examined.dom().contains((a, b)) && self.examined[(a, b)]
    }

    /// Whether every pair was examined in the present pass and none collided.
    pub open spec fn settled(self) -> bool {
        forall|a: int, b: int| #[trigger]
            is_pair(self.count(), a, b) ==> self.examined.dom().contains((a, b))
                && !self.examined[(a, b)]
    }

    /// The state after the pair under the cursor was compared with outcome
    /// `o`: a collision flags both boxes, and the cursor moves on.
    pub open spec fn after_report(self, o: Overlap) -> PairwiseState
        recommends
            self.cursor is Some,
    {
        let (a, b) = self.cursor.unwrap();
        PairwiseState {
            flags: if o.collides() {
                self.flags.update(a, 1u8).update(b, 1u8)
            } else {
                self.flags
            },
            cursor: next_pair(self.count(), a, b),
            examined: self.examined.insert((a, b), o.collides()),
            ..self
        }
    }

    /// The state after the pass was closed: the pass is counted, and the
    /// run ends if the pass had no collision or the budget is used up;
    /// otherwise a new pass begins at the first pair.
    pub open spec fn after_pass(self) -> PairwiseState
        recommends
            self.cursor is None,
            !self.finished,
    {
        let passes = self.passes + 1;
        if !self.had_movement() || self.budget.reached(passes) {
            PairwiseState { passes, finished: true, ..self }
        } else {
            PairwiseState {
                passes,
                cursor: first_pair(self.count()),
                examined: Map::empty(),
                ..self
            }
        }
    }

    /// What holds of every state that a run can be in.
    pub open spec fn inv(self) -> bool {
        &&& match self.cursor {
            Some((c, d)) => is_pair(self.count(), c, d),
            None => true,
        }
        &&& forall|a: int, b: int| #[trigger]
            self.examined.dom().contains((a, b)) <==> is_pair(self.count(), a, b) && match self.cursor {
                Some((c, d)) => precedes(a, b, c, d),
                None => true,
            }
        &&& self.finished ==> self.cursor is None && self.passes >= 1 && (!self.had_movement()
            || self.budget.reached(self.passes))
        &&& !self.finished ==> self.passes == 0 || !self.budget.reached(self.passes)
        &&& match self.budget {
            PassBudget::Bounded(limit) => self.passes <= limit || self.passes <= 1,
            PassBudget::Unbounded => true,
        }
    }
}

/// A run starts in a state that satisfies the invariant.
pub proof fn start_is_valid(flags: Seq<u8>, budget: PassBudget)
    ensures
        PairwiseState::start(flags, budget).inv(),
{
}

/// Reporting on the pair under the cursor keeps the invariant, and the
/// pass has had movement afterwards exactly if it had before or the
/// reported pair collided.
pub proof fn report_is_valid(s: PairwiseState, o: Overlap)
    requires
        s.inv(),
        s.cursor is Some,
    ensures
        s.after_report(o).inv(),
        s.after_report(o).had_movement() == (s.had_movement() || o.collides()),
        s.after_report(o).count() == s.count(),
{
    let t = s.after_report(o);
    let (c, d) = s.cursor.unwrap();
    let n = s.count();
    assert(!s.examined.dom().contains((c, d)));
    assert forall|a: int, b: int| #[trigger]
        t.examined.dom().contains((a, b)) <==> is_pair(n, a, b) && match t.cursor {
            Some((e, f)) => precedes(a, b, e, f),
            None => true,
        } by {
        if (a, b) != (c, d) {
            assert(t.examined.dom().contains((a, b)) == s.examined.dom().contains((a, b)));
        }
    }
    if s.had_movement() {
        let (a, b) = choose|a: int, b: int| #[trigger]
            s.examined.dom().contains((a, b)) && s.examined[(a, b)];
        assert(t.examined.dom().contains((a, b)) && t.examined[(a, b)]);
    }
    if o.collides() {
        assert(t.examined.dom().contains((c, d)) && t.examined[(c, d)]);
    }
    if t.had_movement() {
        let (a, b) = choose|a: int, b: int| #[trigger]
            t.examined.dom().contains((a, b)) && t.examined[(a, b)];
        if (a, b) != (c, d) {
            assert(s.examined.dom().contains((a, b)) && s.examined[(a, b)]);
        }
    }
}

/// Closing a pass keeps the invariant.
pub proof fn pass_is_valid(s: PairwiseState)
    requires
        s.inv(),
        s.cursor is None,
        !s.finished,
    ensures
        s.after_pass().inv(),
        s.after_pass().passes == s.passes + 1,
        s.after_pass().flags == s.flags,
        s.after_pass().had_movement() == (s.after_pass().finished && s.had_movement()),
{
    let t = s.after_pass();
    if t.finished {
        assert(t.examined == s.examined);
        if t.had_movement() {
            let (a, b) = choose|a: int, b: int| #[trigger]
                t.examined.dom().contains((a, b)) && t.examined[(a, b)];
            assert(s.examined.dom().contains((a, b)) && s.examined[(a, b)]);
        }
        if s.had_movement() {
            let (a, b) = choose|a: int, b: int| #[trigger]
                s.examined.dom().contains((a, b)) && s.examined[(a, b)];
            assert(t.examined.dom().contains((a, b)) && t.examined[(a, b)]);
        }
    }
}

/// A run that has ended either saw a whole pass in which every pair was
/// examined and none collided, or has used up its budget.
pub proof fn finished_is_settled_or_spent(s: PairwiseState)
    requires
        s.inv(),
        s.finished,
    ensures
        s.settled() || s.budget.reached(s.passes),
{
    if !s.budget.reached(s.passes) {
        assert(!s.had_movement());
        assert forall|a: int, b: int| #[trigger]
            is_pair(s.count(), a, b) implies s.examined.dom().contains((a, b))
            && !s.examined[(a, b)] by {
            assert(s.examined.dom().contains((a, b)));
        }
    }
}

/// A bounded run never counts more passes than its budget, except that
/// the first pass always runs.
pub proof fn passes_stay_in_budget(s: PairwiseState, limit: u32)
    requires
        s.inv(),
        s.budget == PassBudget::Bounded(limit),
    ensures
        s.passes <= limit || s.passes == 1 || s.passes == 0,
{
}

/// A flag that is set stays set, whatever is reported and whenever a pass
/// is closed; no transition changes the number of boxes.
pub proof fn flags_only_rise(s: PairwiseState, o: Overlap, k: int)
    requires
        s.inv(),
        0 <= k < s.count(),
        s.flags[k] != 0,
    ensures
        s.after_pass().flags[k] == s.flags[k],
        s.cursor is Some ==> s.after_report(o).flags[k] != 0,
        s.cursor is Some ==> (s.flags[k] == 1 ==> s.after_report(o).flags[k] == 1),
        s.cursor is Some ==> s.after_report(o).count() == s.count(),
{
}

/// A report changes no flag but those of the two boxes of a colliding
/// pair, which it sets.
pub proof fn report_flags_the_pair(s: PairwiseState, o: Overlap, k: int)
    requires
        s.inv(),
        s.cursor is Some,
        0 <= k < s.count(),
    ensures
        s.after_report(o).flags[k] == if o.collides() && (k == s.cursor.unwrap().0 || k
            == s.cursor.unwrap().1) {
            1u8
        } else {
            s.flags[k]
        },
{
}

/// With fewer than two boxes there is no pair to examine: the first pass
/// is empty, and closing it ends the run after one pass with the flags
/// untouched.
pub proof fn small_sets_end_at_once(flags: Seq<u8>, budget: PassBudget)
    requires
        flags.len() <= 1,
    ensures
        PairwiseState::start(flags, budget).cursor is None,
        PairwiseState::start(flags, budget).after_pass().finished,
        PairwiseState::start(flags, budget).after_pass().passes == 1,
        PairwiseState::start(flags, budget).after_pass().flags == flags,
{
    let s = PairwiseState::start(flags, budget);
    assert(!s.had_movement());
}

/// A pass whose pairs all failed to collide ends the run, whatever the
/// budget.
pub proof fn quiet_pass_ends_run(s: PairwiseState)
    requires
        s.inv(),
        s.cursor is None,
        !s.finished,
        s.settled(),
    ensures
        s.after_pass().finished,
        s.after_pass().passes == s.passes + 1,
{
    if s.had_movement() {
        let (a, b) = choose|a: int, b: int| #[trigger]
            s.examined.dom().contains((a, b)) && s.examined[(a, b)];
        assert(is_pair(s.count(), a, b));
    }
}

/// A pass with a collision does not end the run while budget is left.
pub proof fn busy_pass_goes_on(s: PairwiseState)
    requires
        s.inv(),
        s.cursor is None,
        !s.finished,
        s.had_movement(),
        !s.budget.reached(s.passes + 1),
    ensures
        !s.after_pass().finished,
        s.after_pass().cursor == first_pair(s.count()),
        s.after_pass().examined == Map::<(int, int), bool>::empty(),
{
}

/// The pending pair has not been examined in the present pass: no pass
/// examines a pair twice.
pub proof fn pending_pair_is_new(s: PairwiseState)
    requires
        s.inv(),
        s.cursor is Some,
    ensures
        !s.examined.dom().contains(s.cursor.unwrap()),
{
    let (c, d) = s.cursor.unwrap();
    assert(!s.examined.dom().contains((c, d)));
}

/// `next_pair` steps through the pairs in index order without a gap: what
/// it yields is the least pair after `(a, b)`, and it yields nothing only
/// after the last pair.
pub proof fn next_pair_is_successor(n: nat, a: int, b: int, e: int, f: int)
    requires
        is_pair(n, a, b),
        is_pair(n, e, f),
    ensures
        match next_pair(n, a, b) {
            Some((c, d)) => is_pair(n, c, d) && precedes(a, b, c, d) && (precedes(a, b, e, f)
                ==> (e == c && f == d) || precedes(c, d, e, f)),
            None => !precedes(a, b, e, f),
        },
        match first_pair(n) {
            Some((c, d)) => (e == c && f == d) || precedes(c, d, e, f),
            None => false,
        },
{
}

/// Whether `t` is what a run in state `s` turns into by its next
/// transition: a report on the pending pair, or the closing of the pass
/// when no pair is pending.
pub open spec fn follows(s: PairwiseState, t: PairwiseState) -> bool {
    !s.finished && match s.cursor {
        Some(_) => exists|o: Overlap| t == #[trigger] s.after_report(o),
        None => t == s.after_pass(),
    }
}

/// Whether `h` is the history of a run: it begins in a valid state, and
/// each state follows from the one before.
pub open spec fn is_history(h: Seq<PairwiseState>) -> bool {
    &&& h.len() > 0
    &&& h[0].inv()
    &&& forall|k: int| 0 <= k < h.len() - 1 ==> follows(#[trigger] h[k], h[k + 1])
}

/// Every state of a run satisfies the invariant.
pub proof fn history_is_valid(h: Seq<PairwiseState>, k: int)
    requires
        is_history(h),
        0 <= k < h.len(),
    ensures
        h[k].inv(),
    decreases k,
{
    if k > 0 {
        history_is_valid(h, k - 1);
        let s = h[k - 1];
        assert(follows(s, h[k - 1 + 1]));
        match s.cursor {
            Some(_) => {
                let o = choose|o: Overlap| h[k] == #[trigger] s.after_report(o);
                report_is_valid(s, o);
            },
            None => {
                pass_is_valid(s);
            },
        }
    }
}

/// Throughout a run the number of boxes stays the same, the pass count
/// never falls, and a flag that is set at one time is set at every later
/// time, also in passes in which its box takes part in no collision.
pub proof fn flags_stay_set(h: Seq<PairwiseState>, i: int, j: int, b: int)
    requires
        is_history(h),
        0 <= i <= j < h.len(),
        0 <= b < h[i].count(),
    ensures
        h[j].count() == h[i].count(),
        h[j].passes >= h[i].passes,
        h[j].budget == h[i].budget,
        h[i].flags[b] != 0 ==> h[j].flags[b] != 0,
        h[i].flags[b] == 1 ==> h[j].flags[b] == 1,
    decreases j - i,
{
    if i < j {
        flags_stay_set(h, i, j - 1, b);
        history_is_valid(h, j - 1);
        let s = h[j - 1];
        assert(follows(s, h[j - 1 + 1]));
        match s.cursor {
            Some(_) => {
                let o = choose|o: Overlap| h[j] == #[trigger] s.after_report(o);
                report_is_valid(s, o);
            },
            None => {
                pass_is_valid(s);
            },
        }
    }
}

} // verus!
