use sparrow_core::config::{default_sparrow_config, ExplorationConfig, FailureCapPolicy};
use sparrow_core::explore::{back_off_width, exploration_phase, insert_into_pool, select_pool_index, shrink_width, ExplorationAction};
use sparrow_core::geom::{RotationRange, Transform};
use sparrow_core::problem::{Instance, Item, Problem, Solution};

fn item(id: usize, demand: usize) -> Item {
    Item {
        id,
        demand,
        area: 1,
        convex_hull_area: 1,
        diameter: 1,
        x_reach: 1,
        allowed_rotation: RotationRange::Continuous,
        fixed_placement: None,
    }
}

fn square_problem(side: u32, n: usize) -> Problem {
    let mut p = Problem::new(Instance { items: vec![item(0, n)], strip_width: side, strip_height: side }, true);
    for i in 0..n {
        p.place_item(0, Transform { x: (i % 10) as i32, y: (i / 10) as i32, rot: 0 });
    }
    p
}

fn config(max: Option<usize>, policy: FailureCapPolicy) -> ExplorationConfig {
    let mut c = default_sparrow_config().expl_cfg;
    c.shrink_step_ppm = 100_000;
    c.max_conseq_failed_attempts = max;
    c.failure_cap_policy = policy;
    c
}

#[test]
fn shrink_and_back_off_widths() {
    assert_eq!(shrink_width(1000, 2000), 998);
    assert_eq!(shrink_width(10, 100_000), 9);
    assert_eq!(shrink_width(5, 0), 5);
    assert_eq!(shrink_width(5, 2_000_000), 0);
    assert_eq!(back_off_width(1000, 100_000), 1050);
    assert_eq!(back_off_width(u32::MAX, 1_000_000), u32::MAX);
}

#[test]
fn pool_index_scales_draw_to_pool_length() {
    assert_eq!(select_pool_index(0, 10), 0);
    assert_eq!(select_pool_index(250_000, 10), 2);
    assert_eq!(select_pool_index(5_000_000, 10), 9);
    assert_eq!(select_pool_index(999_999, 1), 0);
}

#[test]
fn pool_stays_sorted_by_loss() {
    let p = square_problem(10, 1);
    let mut pool: Vec<(Solution, u64)> = Vec::new();
    for loss in [5u64, 2, 9, 5, 1] {
        insert_into_pool(&mut pool, p.save(), loss);
    }
    let losses: Vec<u64> = pool.iter().map(|e| e.1).collect();
    assert_eq!(losses, vec![1, 2, 5, 5, 9]);
}

#[test]
fn feasible_snapshots_have_strictly_falling_widths_and_stay_square() {
    let mut p = square_problem(100, 20);
    let mut phase = exploration_phase(&mut p, config(Some(3), FailureCapPolicy::AdaptiveBackoff));
    assert_eq!(phase.current_width, 100);
    for round in 0..6 {
        let sol = p.save();
        let loss = if round == 2 { 7 } else { 0 };
        let act = phase.on_separated(&mut p, sol, loss, 0);
        if loss == 0 {
            assert_eq!(act, ExplorationAction::Separate);
        } else {
            assert_eq!(act, ExplorationAction::Disrupt { selected: 0 });
        }
        assert_eq!(p.strip_width, p.fixed_height);
    }
    let widths: Vec<u32> = phase.feasible_sols.iter().map(|s| s.strip_width).collect();
    assert_eq!(widths, vec![100, 90, 81, 72, 64]);
    for w in widths.windows(2) {
        assert!(w[0] > w[1]);
    }
    for s in phase.feasible_sols.iter() {
        assert_eq!(s.strip_width, s.fixed_height);
    }
    assert_eq!(phase.best_width(), 64);
}

#[test]
fn strict_mode_with_one_attempt_finishes_on_first_failure() {
    let mut p = square_problem(50, 4);
    let mut phase = exploration_phase(&mut p, config(Some(1), FailureCapPolicy::Terminate));
    let sol = p.save();
    let act = phase.on_separated(&mut p, sol, 3, 0);
    assert_eq!(act, ExplorationAction::Finish);
    assert!(phase.finished);
    assert_eq!(phase.feasible_sols.len(), 1);
}

#[test]
fn adaptive_mode_backs_off_half_a_step_at_the_cap() {
    let mut p = square_problem(100, 4);
    let mut phase = exploration_phase(&mut p, config(Some(2), FailureCapPolicy::AdaptiveBackoff));
    let s1 = p.save();
    assert_eq!(phase.on_separated(&mut p, s1, 4, 0), ExplorationAction::Disrupt { selected: 0 });
    assert_eq!(phase.n_conseq_failed, 1);
    let s2 = p.save();
    assert_eq!(phase.on_separated(&mut p, s2, 4, 0), ExplorationAction::Separate);
    assert_eq!(phase.current_width, 105);
    assert_eq!((p.strip_width, p.fixed_height), (105, 105));
    assert_eq!(phase.n_conseq_failed, 0);
    assert!(phase.infeas_sol_pool.is_empty());
}

#[test]
fn failure_rolls_back_to_selected_pool_entry() {
    let mut p = square_problem(100, 2);
    let mut phase = exploration_phase(&mut p, config(None, FailureCapPolicy::Terminate));
    let good = p.save();
    p.move_item(0, Transform { x: 40, y: 40, rot: 0 });
    let bad = p.save();
    assert_eq!(phase.on_separated(&mut p, bad, 9, 0), ExplorationAction::Disrupt { selected: 0 });
    assert_eq!(phase.on_separated(&mut p, good.clone(), 2, 0), ExplorationAction::Disrupt { selected: 0 });
    assert_eq!(p.slots, good.slots);
    assert_eq!(phase.infeas_sol_pool.iter().map(|e| e.1).collect::<Vec<u64>>(), vec![2, 9]);
}

#[test]
fn strip_mode_exploration_starts_from_current_width() {
    let mut p = Problem::new(Instance { items: vec![item(0, 2)], strip_width: 25, strip_height: 10 }, false);
    p.place_item(0, Transform { x: 0, y: 0, rot: 0 });
    p.place_item(0, Transform { x: 12, y: 0, rot: 0 });
    let mut phase = exploration_phase(&mut p, config(Some(3), FailureCapPolicy::AdaptiveBackoff));
    assert_eq!(phase.current_width, 25);
    assert_eq!((p.strip_width, p.fixed_height), (25, 10));
    let sol = p.save();
    assert_eq!(phase.on_separated(&mut p, sol, 0, 0), ExplorationAction::Separate);
    assert_eq!(p.strip_width, 22);
    assert_eq!(p.placement(1).unwrap().transf.x, 10);
}
