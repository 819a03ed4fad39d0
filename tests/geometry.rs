use sparrow_core::eval::{is_better, SampleEval};
use sparrow_core::geom::{convert_sample_to_closest_feasible, RotationRange, Transform};

fn t(x: i32, y: i32, rot: i32) -> Transform {
    Transform { x, y, rot }
}

#[test]
fn snaps_rotation_to_nearest_allowed() {
    let r = convert_sample_to_closest_feasible(t(3, 4, 80_000), &RotationRange::Discrete(vec![0, 90_000, 180_000, 270_000]));
    assert_eq!(r, t(3, 4, 90_000));
}

#[test]
fn snapping_tie_takes_first_listed() {
    let r = convert_sample_to_closest_feasible(t(0, 0, 45_000), &RotationRange::Discrete(vec![90_000, 0]));
    assert_eq!(r.rot, 90_000);
}

#[test]
fn continuous_rotation_is_left_alone() {
    let r = convert_sample_to_closest_feasible(t(1, 2, 12_345), &RotationRange::Continuous);
    assert_eq!(r, t(1, 2, 12_345));
}

#[test]
fn empty_rotation_list_leaves_transform() {
    let r = convert_sample_to_closest_feasible(t(1, 2, 7), &RotationRange::Discrete(vec![]));
    assert_eq!(r, t(1, 2, 7));
}

#[test]
fn snapping_twice_equals_snapping_once() {
    let rots = RotationRange::Discrete(vec![0, 180_000]);
    for rot in [-100_000, 0, 89_999, 90_000, 90_001, 250_000] {
        let once = convert_sample_to_closest_feasible(t(5, 6, rot), &rots);
        let twice = convert_sample_to_closest_feasible(once, &rots);
        assert_eq!(once, twice);
    }
}

#[test]
fn evaluations_rank_clear_then_collision_then_invalid() {
    let clear = SampleEval::Clear { worst_quality_proxy: 100 };
    let coll = SampleEval::Collision { loss: 1 };
    assert!(is_better(clear, coll));
    assert!(is_better(coll, SampleEval::Invalid));
    assert!(is_better(clear, SampleEval::Invalid));
    assert!(!is_better(coll, clear));
    assert!(is_better(SampleEval::Collision { loss: 2 }, SampleEval::Collision { loss: 3 }));
    assert!(!is_better(SampleEval::Collision { loss: 3 }, SampleEval::Collision { loss: 3 }));
    assert!(!is_better(SampleEval::Invalid, SampleEval::Invalid));
}
