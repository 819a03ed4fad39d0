use sparrow_core::geom::{RotationRange, Transform};
use sparrow_core::problem::{Instance, Item, Placement, Problem};

fn t(x: i32, y: i32) -> Transform {
    Transform { x, y, rot: 0 }
}

fn item(id: usize, demand: usize, side: u64, fixed: Option<Transform>) -> Item {
    Item {
        id,
        demand,
        area: side * side,
        convex_hull_area: side * side,
        diameter: side * 1414 / 1000,
        x_reach: side as u32,
        allowed_rotation: RotationRange::Discrete(vec![0]),
        fixed_placement: fixed,
    }
}

fn instance(items: Vec<Item>, w: u32, h: u32) -> Instance {
    Instance { items, strip_width: w, strip_height: h }
}

#[test]
fn placing_and_removing_keeps_demand_bookkeeping() {
    let mut p = Problem::new(instance(vec![item(0, 2, 10, None), item(1, 1, 5, None)], 100, 10), false);
    assert_eq!(p.remaining_demand(0), 2);
    let k0 = p.place_item(0, t(0, 0));
    let k1 = p.place_item(0, t(10, 0));
    assert_eq!((k0, k1), (0, 1));
    assert_eq!(p.remaining_demand(0), 0);
    assert_eq!(p.remaining_demand(1), 1);
    let removed = p.remove_item(k0);
    assert_eq!(removed, Placement { item_id: 0, transf: t(0, 0), is_locked: false });
    assert_eq!(p.remaining_demand(0), 1);
    assert_eq!(p.placement(k0), None);
}

#[test]
fn moving_an_item_issues_a_new_key() {
    let mut p = Problem::new(instance(vec![item(0, 1, 10, None)], 100, 10), false);
    let k = p.place_item(0, t(0, 0));
    let k2 = p.move_item(k, t(30, 0));
    assert_ne!(k, k2);
    assert_eq!(p.placement(k), None);
    assert_eq!(p.placement(k2), Some(Placement { item_id: 0, transf: t(30, 0), is_locked: false }));
    assert_eq!(p.remaining_demand(0), 0);
}

#[test]
fn locked_placement_sits_at_fixed_transform() {
    let mut p = Problem::new(instance(vec![item(0, 1, 10, Some(t(7, 3)))], 100, 10), false);
    let k = p.place_fixed_item(0);
    assert_eq!(p.placement(k), Some(Placement { item_id: 0, transf: t(7, 3), is_locked: true }));
}

#[test]
fn rollback_then_save_gives_the_same_snapshot() {
    let mut p = Problem::new(instance(vec![item(0, 2, 10, None)], 100, 10), false);
    p.place_item(0, t(1, 2));
    let snap = p.save();
    p.place_item(0, t(50, 0));
    p.change_strip_width_rescale(40);
    p.rollback(&snap);
    let again = p.save();
    assert_eq!(again.strip_width, snap.strip_width);
    assert_eq!(again.fixed_height, snap.fixed_height);
    assert_eq!(again.slots, snap.slots);
    assert_eq!(again.demand, snap.demand);
    assert_eq!(p.remaining_demand(0), 1);
}

#[test]
fn rescale_moves_unlocked_x_proportionally_and_keeps_locked() {
    let mut p = Problem::new(instance(vec![item(0, 1, 10, Some(t(60, 0))), item(1, 2, 5, None)], 100, 10), false);
    let locked = p.place_fixed_item(0);
    let a = p.place_item(1, t(50, 4));
    let b = p.place_item(1, t(-15, 4));
    p.change_strip_width_rescale(80);
    assert_eq!(p.strip_width(), 80);
    assert_eq!(p.placement(locked).unwrap().transf, t(60, 0));
    assert_eq!(p.placement(a).unwrap().transf, t(40, 4));
    assert_eq!(p.placement(b).unwrap().transf, t(-12, 4));
}

#[test]
fn rescale_twice_to_same_width_moves_nothing_the_second_time() {
    let mut p = Problem::new(instance(vec![item(0, 3, 5, None)], 99, 10), false);
    p.place_item(0, t(10, 0));
    p.place_item(0, t(33, 1));
    p.place_item(0, t(98, 2));
    p.change_strip_width_rescale(70);
    let first = p.save();
    p.change_strip_width_rescale(70);
    let second = p.save();
    assert_eq!(first.slots, second.slots);
    assert_eq!(second.strip_width, 70);
}

#[test]
fn split_shifts_only_items_right_of_split() {
    let mut p = Problem::new(instance(vec![item(0, 3, 5, None)], 100, 10), false);
    let left = p.place_item(0, t(20, 0));
    let at_split = p.place_item(0, t(40, 0));
    let right = p.place_item(0, t(70, 0));
    p.change_strip_width_split(90, 40);
    assert_eq!(p.placement(left).unwrap().transf.x, 20);
    assert_eq!(p.placement(at_split).unwrap().transf.x, 40);
    assert_eq!(p.placement(right).unwrap().transf.x, 60);
    assert_eq!(p.strip_width(), 90);
}

#[test]
fn square_mode_keeps_height_equal_to_width() {
    let mut p = Problem::new(instance(vec![item(0, 1, 5, None)], 100, 30), true);
    assert_eq!(p.strip_width(), 30);
    assert_eq!(p.fixed_height, 30);
    p.change_strip_width_rescale(25);
    assert_eq!((p.strip_width, p.fixed_height), (25, 25));
    p.change_strip_width_split(20, 3);
    assert_eq!((p.strip_width, p.fixed_height), (20, 20));
    p.resize_strip(50);
    assert_eq!((p.strip_width, p.fixed_height), (50, 50));
}

#[test]
fn fit_strip_of_empty_layout_is_zero() {
    let mut p = Problem::new(instance(vec![], 100, 10), false);
    p.fit_strip();
    assert_eq!(p.strip_width(), 0);
}

#[test]
fn fit_strip_takes_rightmost_edge() {
    let mut p = Problem::new(instance(vec![item(0, 2, 10, None)], 100, 10), false);
    p.place_item(0, t(5, 0));
    p.place_item(0, t(22, 0));
    p.fit_strip();
    assert_eq!(p.strip_width(), 32);
}
