use sparrow_core::config::{SampleConfig, SeparatorConfig};
use sparrow_core::geom::{RotationRange, Transform};
use sparrow_core::problem::{Instance, Item, Problem};
use sparrow_core::separator::{pick_target, update_weights, SeparationAction, SeparationState};

fn problem() -> Problem {
    let it = |id: usize, fixed: Option<Transform>| Item {
        id,
        demand: 2,
        area: 4,
        convex_hull_area: 4,
        diameter: 3,
        x_reach: 2,
        allowed_rotation: RotationRange::Continuous,
        fixed_placement: fixed,
    };
    let mut p = Problem::new(Instance { items: vec![it(0, Some(Transform { x: 0, y: 0, rot: 0 })), it(1, None)], strip_width: 20, strip_height: 10 }, false);
    p.place_fixed_item(0);
    p.place_item(1, Transform { x: 1, y: 1, rot: 0 });
    p.place_item(1, Transform { x: 2, y: 2, rot: 0 });
    p
}

fn cfg(iters: usize, strikes: usize) -> SeparatorConfig {
    SeparatorConfig {
        iter_no_imprv_limit: iters,
        strike_limit: strikes,
        n_workers: 1,
        sample_config: SampleConfig { n_container_samples: 1, n_focussed_samples: 1, n_coord_descents: 1, parallel: false },
    }
}

#[test]
fn target_is_worst_movable_placement_never_a_locked_one() {
    let p = problem();
    assert_eq!(pick_target(&p, &vec![100, 5, 7]), Some(2));
    assert_eq!(pick_target(&p, &vec![100, 7, 7]), Some(1));
    assert_eq!(pick_target(&p, &vec![100, 0, 0]), None);
    assert_eq!(pick_target(&p, &vec![100]), None);
}

#[test]
fn weights_grow_while_overlapping_and_decay_otherwise() {
    let mut w = vec![10, 1, 100, 1];
    update_weights(&mut w, &vec![true, true, false, false]);
    assert_eq!(w, vec![12, 2, 95, 1]);
}

#[test]
fn strikes_restore_best_state_and_end_at_the_limit() {
    let mut p = problem();
    let mut s = SeparationState::start(&p, 50, cfg(2, 2));
    let best_slots = p.slots.clone();
    p.move_item(1, Transform { x: 9, y: 9, rot: 0 });
    assert_eq!(s.on_iteration(&mut p, 60), SeparationAction::Continue);
    assert_eq!(s.on_iteration(&mut p, 55), SeparationAction::Strike);
    assert_eq!(p.slots, best_slots);
    assert_eq!(s.n_strikes, 1);
    assert_eq!(s.on_iteration(&mut p, 50), SeparationAction::Continue);
    assert_eq!(s.on_iteration(&mut p, 51), SeparationAction::Finish);
    assert!(s.done);
    assert_eq!(s.best_loss, 50);
}

#[test]
fn zero_loss_finishes_with_that_state_as_best() {
    let mut p = problem();
    let mut s = SeparationState::start(&p, 8, cfg(5, 5));
    assert!(!s.done);
    assert_eq!(s.on_iteration(&mut p, 3), SeparationAction::Continue);
    p.move_item(2, Transform { x: 15, y: 5, rot: 0 });
    assert_eq!(s.on_iteration(&mut p, 0), SeparationAction::Finish);
    assert_eq!(s.best_loss, 0);
    assert_eq!(s.best.slots, p.slots);
    let done = SeparationState::start(&p, 0, cfg(5, 5));
    assert!(done.done);
}
