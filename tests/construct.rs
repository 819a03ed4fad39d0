use rand_xoshiro::rand_core::SeedableRng;
use rand_xoshiro::Xoshiro256PlusPlus;
use sparrow_core::config::SampleConfig;
use sparrow_core::geom::{RotationRange, Transform};
use sparrow_core::eval::SampleEval;
use sparrow_core::lbf::{construction_order, enforce_fixed_items, find_placement, largeness_order, ConstructError, LBFBuilder};
use sparrow_core::problem::{Instance, Item, Placement, Problem};

fn t(x: i32, y: i32) -> Transform {
    Transform { x, y, rot: 0 }
}

fn item(id: usize, demand: usize, ch: u64, diam: u64, reach: u32, fixed: Option<Transform>) -> Item {
    Item {
        id,
        demand,
        area: ch,
        convex_hull_area: ch,
        diameter: diam,
        x_reach: reach,
        allowed_rotation: RotationRange::Discrete(vec![0]),
        fixed_placement: fixed,
    }
}

fn cfg() -> SampleConfig {
    SampleConfig { n_container_samples: 10, n_focussed_samples: 2, n_coord_descents: 2, parallel: false }
}

#[test]
fn largeness_order_is_hull_area_times_diameter_descending() {
    let items = vec![item(0, 1, 10, 10, 1, None), item(1, 1, 50, 4, 1, None), item(2, 1, 20, 5, 1, None), item(3, 1, 4, 50, 1, None)];
    assert_eq!(largeness_order(&items), vec![1, 3, 0, 2]);
}

#[test]
fn construction_order_repeats_each_item_by_demand() {
    let p = Problem::new(Instance { items: vec![item(0, 2, 1, 1, 1, None), item(1, 1, 9, 9, 1, None)], strip_width: 10, strip_height: 10 }, false);
    assert_eq!(construction_order(&p), vec![1, 0, 0]);
}

#[test]
fn enforcing_fixed_items_locks_one_copy_each() {
    let mut p = Problem::new(
        Instance { items: vec![item(0, 1, 100, 14, 10, Some(t(0, 0))), item(1, 1, 25, 7, 5, None), item(2, 0, 4, 3, 2, Some(t(9, 9)))], strip_width: 10, strip_height: 10 },
        false,
    );
    let n = enforce_fixed_items(&mut p);
    assert_eq!(n, 1);
    assert_eq!(p.slots, vec![Some(Placement { item_id: 0, transf: t(0, 0), is_locked: true })]);
    assert_eq!(p.demand, vec![0, 1, 0]);
}

#[test]
fn locked_plus_free_item_is_placed_beside_the_locked_one() {
    let inst = Instance { items: vec![item(0, 1, 100, 14, 10, Some(t(0, 0))), item(1, 1, 25, 7, 5, None)], strip_width: 10, strip_height: 10 };
    let b = LBFBuilder::new(inst, false, Xoshiro256PlusPlus::seed_from_u64(1), cfg());
    let built = b.construct(|p: &Problem, id: usize, _r: &mut Xoshiro256PlusPlus| if id == 1 && p.strip_width >= 15 { Some(t(10, 0)) } else { None }).unwrap();
    assert_eq!(built.prob.slots[0], Some(Placement { item_id: 0, transf: t(0, 0), is_locked: true }));
    assert_eq!(built.prob.slots[1], Some(Placement { item_id: 1, transf: t(10, 0), is_locked: false }));
    assert_eq!(built.prob.demand, vec![0, 0]);
    assert_eq!(built.prob.strip_width(), 15);
}

#[test]
fn only_locked_items_need_no_search() {
    let inst = Instance { items: vec![item(0, 1, 100, 14, 10, Some(t(0, 0))), item(1, 1, 25, 7, 5, Some(t(10, 0)))], strip_width: 30, strip_height: 10 };
    let b = LBFBuilder::new(inst, false, Xoshiro256PlusPlus::seed_from_u64(1), cfg());
    let built = b.construct(|_p: &Problem, _id: usize, _r: &mut Xoshiro256PlusPlus| -> Option<Transform> { panic!("no search expected") }).unwrap();
    assert_eq!(
        built.prob.slots,
        vec![
            Some(Placement { item_id: 0, transf: t(0, 0), is_locked: true }),
            Some(Placement { item_id: 1, transf: t(10, 0), is_locked: true })
        ]
    );
    assert_eq!(built.prob.strip_width(), 15);
    assert!(built.rng == Xoshiro256PlusPlus::seed_from_u64(1));
}

#[test]
fn new_builder_keeps_the_generator() {
    let b = LBFBuilder::new(Instance { items: vec![], strip_width: 40, strip_height: 10 }, false, Xoshiro256PlusPlus::seed_from_u64(77), cfg());
    assert!(b.rng == Xoshiro256PlusPlus::seed_from_u64(77));
}

#[test]
fn added_placements_are_unlocked_in_largeness_order() {
    let inst = Instance {
        items: vec![item(0, 2, 1, 1, 1, None), item(1, 2, 100, 14, 10, Some(t(0, 0))), item(2, 1, 25, 7, 5, None)],
        strip_width: 100,
        strip_height: 10,
    };
    let b = LBFBuilder::new(inst, false, Xoshiro256PlusPlus::seed_from_u64(1), cfg());
    let built = b.construct(|p: &Problem, _id: usize, _r: &mut Xoshiro256PlusPlus| Some(t(p.slots.len() as i32 * 10, 0))).unwrap();
    let ids: Vec<(usize, bool)> = built.prob.slots.iter().map(|s| (s.unwrap().item_id, s.unwrap().is_locked)).collect();
    assert_eq!(ids, vec![(1, true), (1, false), (2, false), (0, false), (0, false)]);
}

#[test]
fn empty_instance_constructs_to_zero_width() {
    let b = LBFBuilder::new(Instance { items: vec![], strip_width: 40, strip_height: 10 }, false, Xoshiro256PlusPlus::seed_from_u64(3), cfg());
    let built = b.construct(|_p: &Problem, _id: usize, _r: &mut Xoshiro256PlusPlus| -> Option<Transform> { None }).unwrap();
    assert!(built.prob.slots.is_empty());
    assert_eq!(built.prob.strip_width(), 0);
}

#[test]
fn failed_search_widens_by_a_fifth() {
    let inst = Instance { items: vec![item(0, 1, 1, 1, 1, None)], strip_width: 100, strip_height: 10 };
    let mut b = LBFBuilder::new(inst, false, Xoshiro256PlusPlus::seed_from_u64(1), cfg());
    assert!(b.can_widen());
    assert!(!b.place_item(0, None));
    assert_eq!(b.prob.strip_width(), 120);
    assert!(b.place_item(0, Some(t(3, 3))));
    assert_eq!(b.prob.demand, vec![0]);
}

#[test]
fn item_that_never_fits_ends_in_runaway_error() {
    let inst = Instance { items: vec![item(0, 1, 1, 1, 1, None)], strip_width: 10, strip_height: 10 };
    let b = LBFBuilder::new(inst, false, Xoshiro256PlusPlus::seed_from_u64(1), cfg());
    let r = b.construct(|_p: &Problem, _id: usize, _r: &mut Xoshiro256PlusPlus| -> Option<Transform> { None });
    match r {
        Err(ConstructError::StripRunaway { item_id, width }) => {
            assert_eq!(item_id, 0);
            assert!(width <= 100);
            assert!(width + width / 5 > 100);
        }
        Ok(_) => panic!("construction should fail"),
    }
}

#[test]
fn only_clear_search_results_are_placed() {
    assert_eq!(find_placement(Some((t(1, 2), SampleEval::Clear { worst_quality_proxy: 4 }))), Some(t(1, 2)));
    assert_eq!(find_placement(Some((t(1, 2), SampleEval::Collision { loss: 1 }))), None);
    assert_eq!(find_placement(Some((t(1, 2), SampleEval::Invalid))), None);
    assert_eq!(find_placement(None), None);
}
