use declutter::budget::PassBudget;
use declutter::indexed::{Action, IndexedRun};
use declutter::pairwise::PairwiseRun;
use declutter::shape::{common_length, Column, LengthMismatch};
use declutter::step::{Axis, Overlap, Push};

fn outcome(x: bool, y: bool, shallower: bool, dx: bool, dy: bool) -> Overlap {
    Overlap { x_exceeds: x, y_exceeds: y, x_shallower: shallower, dx_positive: dx, dy_positive: dy }
}

fn quiet() -> Overlap {
    outcome(false, false, false, false, false)
}

fn hit() -> Overlap {
    outcome(true, true, true, true, false)
}

#[test]
fn budget_decodes_the_sentinel() {
    assert_eq!(PassBudget::from_raw(u32::MAX), PassBudget::Unbounded);
    assert_eq!(PassBudget::from_raw(0), PassBudget::Bounded(0));
    assert_eq!(PassBudget::from_raw(7), PassBudget::Bounded(7));
    assert_eq!(PassBudget::from_raw(u32::MAX - 1), PassBudget::Bounded(u32::MAX - 1));
}

#[test]
fn budget_is_reached_at_its_limit() {
    let b = PassBudget::Bounded(3);
    assert!(!b.is_reached(0));
    assert!(!b.is_reached(2));
    assert!(b.is_reached(3));
    assert!(b.is_reached(4));
    assert!(PassBudget::Bounded(0).is_reached(0));
    assert!(!PassBudget::Unbounded.is_reached(u32::MAX));
}

#[test]
fn no_push_without_collision_on_both_axes() {
    for bits in 0..32u32 {
        let o = outcome(bits & 1 != 0, bits & 2 != 0, bits & 4 != 0, bits & 8 != 0, bits & 16 != 0);
        assert_eq!(o.is_collision(), o.x_exceeds && o.y_exceeds);
        assert_eq!(o.resolve().is_some(), o.x_exceeds && o.y_exceeds);
    }
    assert_eq!(outcome(true, false, true, true, true).resolve(), None);
    assert_eq!(outcome(false, true, true, true, true).resolve(), None);
}

#[test]
fn push_follows_the_shallower_axis() {
    assert_eq!(
        outcome(true, true, true, true, false).resolve(),
        Some(Push { axis: Axis::X, forward: true })
    );
    assert_eq!(
        outcome(true, true, true, false, true).resolve(),
        Some(Push { axis: Axis::X, forward: false })
    );
    assert_eq!(
        outcome(true, true, false, true, false).resolve(),
        Some(Push { axis: Axis::Y, forward: false })
    );
    assert_eq!(
        outcome(true, true, false, false, true).resolve(),
        Some(Push { axis: Axis::Y, forward: true })
    );
}

#[test]
fn push_sign_is_plus_or_minus_one() {
    assert_eq!(Push { axis: Axis::X, forward: true }.signum(), 1);
    assert_eq!(Push { axis: Axis::Y, forward: false }.signum(), -1);
}

#[test]
fn equal_lengths_are_accepted() {
    assert_eq!(common_length(0, 0, 0, 0, 0), Ok(0));
    assert_eq!(common_length(4, 4, 4, 4, 4), Ok(4));
}

#[test]
fn unequal_lengths_name_the_first_column() {
    assert_eq!(
        common_length(3, 2, 1, 3, 3),
        Err(LengthMismatch { column: Column::Y, expected: 3, found: 2 })
    );
    assert_eq!(
        common_length(3, 3, 1, 0, 3),
        Err(LengthMismatch { column: Column::Width, expected: 3, found: 1 })
    );
    assert_eq!(
        common_length(3, 3, 3, 5, 2),
        Err(LengthMismatch { column: Column::Height, expected: 3, found: 5 })
    );
    assert_eq!(
        common_length(3, 3, 3, 3, 4),
        Err(LengthMismatch { column: Column::Moved, expected: 3, found: 4 })
    );
}

#[test]
fn pairwise_pass_visits_pairs_in_index_order() {
    let mut run = PairwiseRun::new(vec![0; 4], PassBudget::Unbounded);
    let mut seen = Vec::new();
    while let Some(pair) = run.pending() {
        seen.push(pair);
        assert_eq!(run.report(quiet()), None);
    }
    assert_eq!(seen, vec![(0, 1), (0, 2), (0, 3), (1, 2), (1, 3), (2, 3)]);
    assert!(!run.end_pass());
    assert!(run.is_finished());
    assert_eq!(run.passes(), 1);
    assert_eq!(run.flags(), vec![0, 0, 0, 0]);
}

#[test]
fn pairwise_report_flags_only_the_colliding_pair() {
    let mut run = PairwiseRun::new(vec![0; 3], PassBudget::Unbounded);
    assert_eq!(run.count(), 3);
    assert_eq!(run.pending(), Some((0, 1)));
    run.report(quiet());
    assert_eq!(run.pending(), Some((0, 2)));
    assert_eq!(run.report(hit()), Some(Push { axis: Axis::X, forward: true }));
    assert_eq!(run.flags(), vec![1, 0, 1]);
    assert!(run.has_moved(0) && !run.has_moved(1) && run.has_moved(2));
    assert_eq!(run.pending(), Some((1, 2)));
    run.report(quiet());
    assert_eq!(run.pending(), None);
    assert!(run.end_pass());
    assert!(!run.is_finished());
    assert_eq!(run.passes(), 1);
    assert_eq!(run.pending(), Some((0, 1)));
    assert_eq!(run.flags(), vec![1, 0, 1]);
}

#[test]
fn pairwise_run_stops_at_its_budget() {
    let mut run = PairwiseRun::new(vec![0; 2], PassBudget::Bounded(3));
    let mut passes_seen = 0;
    loop {
        while run.pending().is_some() {
            run.report(hit());
        }
        passes_seen += 1;
        if !run.end_pass() {
            break;
        }
    }
    assert_eq!(passes_seen, 3);
    assert_eq!(run.passes(), 3);
    assert!(run.is_finished());
    assert_eq!(run.into_flags(), vec![1, 1]);
}

#[test]
fn pairwise_run_keeps_flags_it_was_given() {
    let mut run = PairwiseRun::new(vec![0, 1, 7], PassBudget::Unbounded);
    while run.pending().is_some() {
        run.report(quiet());
    }
    run.end_pass();
    assert_eq!(run.flags(), vec![0, 1, 7]);
    assert!(run.has_moved(2));
}

#[test]
fn small_pairwise_runs_have_no_pairs() {
    for n in 0..2usize {
        let mut run = PairwiseRun::new(vec![0; n], PassBudget::Unbounded);
        assert_eq!(run.pending(), None);
        assert!(!run.end_pass());
        assert_eq!(run.passes(), 1);
        assert!(run.is_finished());
    }
}

#[test]
fn indexed_run_drops_the_subject_from_its_candidates() {
    let mut run = IndexedRun::new(vec![0; 3], PassBudget::Unbounded, false);
    assert_eq!(run.count(), 3);
    assert_eq!(run.pending(), Action::Rebuild);
    run.rebuilt();
    assert_eq!(run.pending(), Action::Query(0));
    run.answer(&vec![2, 0, 1]);
    assert_eq!(run.pending(), Action::Examine(0, 2));
    run.report(quiet());
    assert_eq!(run.pending(), Action::Examine(0, 1));
    assert_eq!(run.report(hit()), Some(Push { axis: Axis::X, forward: true }));
    assert!(run.has_moved(0) && run.has_moved(1) && !run.has_moved(2));
    assert_eq!(run.pending(), Action::Query(1));
    run.answer(&vec![1]);
    assert_eq!(run.pending(), Action::Query(2));
    run.answer(&vec![]);
    assert_eq!(run.pending(), Action::ClosePass);
    assert!(run.end_pass());
    assert_eq!(run.passes(), 1);
    assert_eq!(run.pending(), Action::Rebuild);
    run.rebuilt();
    for i in 0..3 {
        assert_eq!(run.pending(), Action::Query(i));
        run.answer(&vec![i as u32]);
    }
    assert_eq!(run.pending(), Action::ClosePass);
    assert!(!run.end_pass());
    assert_eq!(run.pending(), Action::Stop);
    assert!(run.is_finished());
    assert_eq!(run.passes(), 2);
    assert_eq!(run.into_flags(), vec![1, 1, 0]);
}

#[test]
fn indexed_run_with_dedup_keeps_higher_candidates_only() {
    let mut run = IndexedRun::new(vec![0; 4], PassBudget::Bounded(1), true);
    run.rebuilt();
    run.answer(&vec![3, 0, 1]);
    assert_eq!(run.pending(), Action::Examine(0, 3));
    run.report(quiet());
    assert_eq!(run.pending(), Action::Examine(0, 1));
    run.report(quiet());
    assert_eq!(run.pending(), Action::Query(1));
    run.answer(&vec![0, 1, 2]);
    assert_eq!(run.pending(), Action::Examine(1, 2));
    run.report(hit());
    assert_eq!(run.pending(), Action::Query(2));
    run.answer(&vec![0, 1]);
    assert_eq!(run.pending(), Action::Query(3));
    run.answer(&vec![0, 1, 2, 3]);
    assert_eq!(run.pending(), Action::ClosePass);
    assert!(!run.end_pass());
    assert_eq!(run.passes(), 1);
    assert_eq!(run.into_flags(), vec![0, 1, 1, 0]);
}

#[test]
fn indexed_run_without_boxes_skips_the_index() {
    let mut run = IndexedRun::new(vec![], PassBudget::Unbounded, false);
    assert_eq!(run.pending(), Action::ClosePass);
    assert!(!run.end_pass());
    assert_eq!(run.pending(), Action::Stop);
    assert_eq!(run.passes(), 1);
}

#[test]
fn deduplicated_run_over_total_answers_walks_all_pairs() {
    let n = 4usize;
    let everyone: Vec<u32> = (0..n as u32).collect();
    let mut run = IndexedRun::new(vec![0; n], PassBudget::Bounded(1), true);
    let mut seen = Vec::new();
    loop {
        match run.pending() {
            Action::Rebuild => run.rebuilt(),
            Action::Query(_) => run.answer(&everyone),
            Action::Examine(i, j) => {
                seen.push((i, j));
                run.report(quiet());
            }
            Action::ClosePass => {
                run.end_pass();
            }
            Action::Stop => break,
        }
    }
    assert_eq!(seen, vec![(0, 1), (0, 2), (0, 3), (1, 2), (1, 3), (2, 3)]);
    assert_eq!(run.passes(), 1);
}
