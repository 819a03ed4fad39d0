use rand_xoshiro::rand_core::SeedableRng;
use rand_xoshiro::Xoshiro256PlusPlus;
use sparrow_core::config::default_sparrow_config;
use sparrow_core::disrupt::{disrupt_solution, distinct_enough, large_item_cutoff, reflow_contained, swap_large_items};
use sparrow_core::geom::{RotationRange, Transform};
use sparrow_core::problem::{Instance, Item, Placement, Problem};

fn t(x: i32, y: i32, rot: i32) -> Transform {
    Transform { x, y, rot }
}

fn item(id: usize, demand: usize, area: u64, diam: u64, rots: RotationRange, fixed: Option<Transform>) -> Item {
    Item { id, demand, area, convex_hull_area: area, diameter: diam, x_reach: 1, allowed_rotation: rots, fixed_placement: fixed }
}

#[test]
fn cutoff_is_hull_area_of_item_crossing_the_share() {
    let items = vec![
        item(0, 1, 100, 10, RotationRange::Continuous, None),
        item(1, 2, 50, 7, RotationRange::Continuous, None),
        item(2, 10, 10, 3, RotationRange::Continuous, None),
    ];
    assert_eq!(large_item_cutoff(&items, 500_000), 50);
    assert_eq!(large_item_cutoff(&items, 300_000), 100);
    assert_eq!(large_item_cutoff(&items, 900_000), 10);
    assert_eq!(large_item_cutoff(&items, 1_000_000), 0);
    assert_eq!(large_item_cutoff(&vec![], 900_000), 0);
}

#[test]
fn identical_shapes_are_not_distinct_enough() {
    let a = item(0, 1, 100, 10, RotationRange::Continuous, None);
    let b = item(1, 1, 100, 10, RotationRange::Continuous, None);
    let c = item(2, 1, 50, 7, RotationRange::Continuous, None);
    let d = item(3, 1, 100, 7, RotationRange::Continuous, None);
    assert!(!distinct_enough(&a, &b));
    assert!(distinct_enough(&a, &c));
    assert!(!distinct_enough(&a, &d));
}

#[test]
fn swap_of_identical_items_falls_back_to_any_other_movable() {
    let inst = Instance { items: vec![item(0, 2, 100, 10, RotationRange::Discrete(vec![0, 90_000]), None)], strip_width: 100, strip_height: 100 };
    let mut p = Problem::new(inst, false);
    p.place_item(0, t(0, 0, 0));
    p.place_item(0, t(50, 0, 90_000));
    let mut rng = Xoshiro256PlusPlus::seed_from_u64(7);
    let r = swap_large_items(&mut p, 0, &mut rng);
    assert_eq!(r, Some((2, 3)));
    assert_eq!(p.placement(0), None);
    assert_eq!(p.placement(1), None);
    let a = p.placement(2).unwrap();
    let b = p.placement(3).unwrap();
    assert_ne!(a.transf, b.transf);
    let mut xs = vec![a.transf.x, b.transf.x];
    xs.sort();
    assert_eq!(xs, vec![0, 50]);
}

#[test]
fn swap_snaps_rotations_to_each_items_allowed_set() {
    let inst = Instance {
        items: vec![
            item(0, 1, 100, 10, RotationRange::Discrete(vec![0]), None),
            item(1, 1, 40, 5, RotationRange::Discrete(vec![0, 90_000]), None),
        ],
        strip_width: 100,
        strip_height: 100,
    };
    let mut p = Problem::new(inst, false);
    p.place_item(0, t(0, 0, 0));
    p.place_item(1, t(60, 10, 90_000));
    let mut rng = Xoshiro256PlusPlus::seed_from_u64(11);
    let r = swap_large_items(&mut p, 0, &mut rng).unwrap();
    let moved: Vec<Placement> = vec![p.placement(r.0).unwrap(), p.placement(r.1).unwrap()];
    for m in moved {
        if m.item_id == 0 {
            assert_eq!(m.transf, t(60, 10, 0));
        } else {
            assert_eq!(m.transf, t(0, 0, 0));
        }
    }
}

#[test]
fn fewer_than_two_movable_items_skips_disruption() {
    let inst = Instance {
        items: vec![
            item(0, 1, 100, 10, RotationRange::Continuous, Some(t(0, 0, 0))),
            item(1, 1, 40, 5, RotationRange::Continuous, None),
        ],
        strip_width: 100,
        strip_height: 100,
    };
    let mut p = Problem::new(inst, false);
    p.place_fixed_item(0);
    p.place_item(1, t(30, 0, 0));
    let before = p.save();
    let mut rng = Xoshiro256PlusPlus::seed_from_u64(5);
    assert_eq!(disrupt_solution(&mut p, &default_sparrow_config().expl_cfg, &mut rng), None);
    assert_eq!(p.slots, before.slots);
}

#[test]
fn locked_items_are_never_swapped() {
    let inst = Instance {
        items: vec![
            item(0, 1, 1000, 40, RotationRange::Continuous, Some(t(0, 0, 0))),
            item(1, 2, 40, 5, RotationRange::Continuous, None),
        ],
        strip_width: 100,
        strip_height: 100,
    };
    let mut p = Problem::new(inst, false);
    let locked = p.place_fixed_item(0);
    p.place_item(1, t(30, 0, 0));
    p.place_item(1, t(60, 0, 0));
    let mut rng = Xoshiro256PlusPlus::seed_from_u64(9);
    let r = swap_large_items(&mut p, 0, &mut rng);
    assert!(r.is_some());
    assert_eq!(p.placement(locked), Some(Placement { item_id: 0, transf: t(0, 0, 0), is_locked: true }));
}

#[test]
fn skipped_disruption_leaves_generator_untouched() {
    let inst = Instance { items: vec![item(0, 1, 100, 10, RotationRange::Continuous, None)], strip_width: 100, strip_height: 100 };
    let mut p = Problem::new(inst, false);
    p.place_item(0, t(0, 0, 0));
    let mut rng = Xoshiro256PlusPlus::seed_from_u64(5);
    assert_eq!(swap_large_items(&mut p, 0, &mut rng), None);
    assert!(rng == Xoshiro256PlusPlus::seed_from_u64(5));
}

#[test]
fn reflow_moves_only_free_contained_placements() {
    let inst = Instance {
        items: vec![
            item(0, 1, 100, 10, RotationRange::Continuous, Some(t(0, 0, 0))),
            item(1, 3, 40, 5, RotationRange::Discrete(vec![0, 90_000]), None),
        ],
        strip_width: 100,
        strip_height: 100,
    };
    let mut p = Problem::new(inst, false);
    let locked = p.place_fixed_item(0);
    let a = p.place_item(1, t(10, 0, 0));
    let b = p.place_item(1, t(20, 0, 0));
    let c = p.place_item(1, t(30, 0, 0));
    reflow_contained(&mut p, &vec![locked, a, b, 99], &vec![t(5, 5, 0), t(50, 50, 80_000), t(60, 60, 0), t(1, 1, 0)], b);
    assert_eq!(p.placement(locked), Some(Placement { item_id: 0, transf: t(0, 0, 0), is_locked: true }));
    assert_eq!(p.placement(a), None);
    assert_eq!(p.placement(b).unwrap().transf, t(20, 0, 0));
    assert_eq!(p.placement(c).unwrap().transf, t(30, 0, 0));
    assert_eq!(p.placement(4), Some(Placement { item_id: 1, transf: t(50, 50, 90_000), is_locked: false }));
    assert_eq!(p.n_slots(), 5);
}
