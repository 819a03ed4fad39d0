use vstd::prelude::*;

use rand_xoshiro::Xoshiro256PlusPlus;

use crate::config::ExplorationConfig;
use crate::geom::{closest_feasible, convert_sample_to_closest_feasible, Transform};
use crate::outside::{indices_by_key_desc, random_below};
use crate::problem::{Item, PItemKey, Placement, Problem};
use crate::PPM;

verus! {

/// An item's convex-hull area times its demand.
pub open spec fn weighted_area(it: Item) -> int {
    it.convex_hull_area * it.demand
}

/// The summed weighted area of the items `ord[0..k]`.
pub open spec fn prefix_area(items: Seq<Item>, ord: Seq<usize>, k: int) -> int
    decreases k,
{
    if k <= 0 {
        0
    } else {
        prefix_area(items, ord, k - 1) + weighted_area(items[ord[k - 1] as int])
    }
}

pub open spec fn total_area(items: Seq<Item>) -> int
    decreases items.len(),
{
    if items.len() == 0 {
        0
    } else {
        total_area(items.drop_last()) + weighted_area(items.last())
    }
}

/// `ord` lists every item once, largest convex hull first, ties in id order.
pub open spec fn is_hull_order(ord: Seq<usize>, items: Seq<Item>) -> bool {
    &&& ord.len() == items.len()
    &&& forall|i: int| 0 <= i < ord.len() ==> #[trigger] ord[i] < items.len()
    &&& forall|k: usize| k < items.len() ==> #[trigger] ord.contains(k)
    &&& forall|i: int, j: int| 0 <= i < j < ord.len() ==> {
            let (a, b) = (#[trigger] ord[i] as int, #[trigger] ord[j] as int);
            items[a].convex_hull_area > items[b].convex_hull_area || (items[a].convex_hull_area
                == items[b].convex_hull_area && a < b)
        }
}

/// The first position at or after `i` where the running area passes the share
/// `cut_ppm` of the total, or the length.
pub open spec fn first_crossing(items: Seq<Item>, ord: Seq<usize>, cut_ppm: u64, i: int) -> int
    decreases ord.len() - i,
{
    if i >= ord.len() {
        ord.len() as int
    } else if prefix_area(items, ord, i + 1) * PPM > total_area(items) * cut_ppm {
        i
    } else {
        first_crossing(items, ord, cut_ppm, i + 1)
    }
}

/// The convex-hull area from which an item counts as large: that of the item
/// whose inclusion, walking items from the largest hull down, first takes the
/// running area past the share `cut_ppm` of the total; zero if none does.
pub open spec fn hull_cutoff(items: Seq<Item>, ord: Seq<usize>, cut_ppm: u64) -> u64 {
    let k = first_crossing(items, ord, cut_ppm, 0);
    if k < ord.len() {
        items[ord[k] as int].convex_hull_area
    } else {
        0
    }
}

proof fn lemma_total_area_bounds(items: Seq<Item>, k: int)
    requires
        0 <= k <= items.len(),
    ensures
        0 <= total_area(items.take(k)) <= total_area(items),
    decreases items.len() - k,
{
    if k < items.len() {
        lemma_total_area_bounds(items, k + 1);
        assert(items.take(k + 1).drop_last() =~= items.take(k));
        assert(items.take(k + 1).last() == items[k]);
    } else {
        assert(items.take(k) =~= items);
    }
    lemma_total_nonneg(items.take(k));
}

proof fn lemma_total_nonneg(items: Seq<Item>)
    ensures
        total_area(items) >= 0,
    decreases items.len(),
{
    if items.len() > 0 {
        lemma_total_nonneg(items.drop_last());
    }
}

proof fn lemma_term_le_total(items: Seq<Item>, i: int)
    requires
        0 <= i < items.len(),
    ensures
        0 <= weighted_area(items[i]) <= total_area(items),
    decreases items.len(),
{
    lemma_total_nonneg(items.drop_last());
    if i < items.len() - 1 {
        lemma_term_le_total(items.drop_last(), i);
        assert(items.drop_last()[i] == items[i]);
    }
    assert(weighted_area(items.last()) >= 0);
}

/// The convex-hull area from which an item counts as large, for disruption.
pub fn large_item_cutoff(items: &Vec<Item>, cut_ppm: u64) -> (r: u64)
    requires
        total_area(items@) <= u64::MAX,
        cut_ppm <= PPM,
    ensures
        exists|ord: Seq<usize>| is_hull_order(ord, items@) && r == hull_cutoff(items@, ord, cut_ppm),
{
    let mut total: u128 = 0;
    let mut keys: Vec<u128> = Vec::new();
    let mut i: usize = 0;
    while i < items.len()
        invariant
            i <= items@.len(),
            keys@.len() == i,
            total == total_area(items@.take(i as int)),
            total_area(items@) <= u64::MAX,
            forall|j: int| 0 <= j < i ==> keys@[j] == (#[trigger] items@[j]).convex_hull_area,
        decreases items@.len() - i,
    {
        proof {
            lemma_total_area_bounds(items@, i as int + 1);
            assert(items@.take(i as int + 1).drop_last() =~= items@.take(i as int));
            assert(items@.take(i as int + 1).last() == items@[i as int]);
            lemma_total_nonneg(items@.take(i as int));
        }
        let a = items[i].convex_hull_area as u128;
        let d = items[i].demand as u128;
        assert(a * d <= 0xffff_ffff_ffff_ffff * 0xffff_ffff_ffff_ffff) by (nonlinear_arith)
            requires a <= 0xffff_ffff_ffff_ffff, d <= 0xffff_ffff_ffff_ffff;
        total = total + a * d;
        keys.push(items[i].convex_hull_area as u128);
        i = i + 1;
    }
    assert(items@.take(items@.len() as int) =~= items@);
    let ord = indices_by_key_desc(&keys);
    assert(is_hull_order(ord@, items@)) by {
        assert forall|i: int, j: int| 0 <= i < j < ord@.len() implies {
            let (a, b) = (#[trigger] ord@[i] as int, #[trigger] ord@[j] as int);
            items@[a].convex_hull_area > items@[b].convex_hull_area || (items@[a].convex_hull_area
                == items@[b].convex_hull_area && a < b)
        } by {
            assert(keys@[ord@[i] as int] == items@[ord@[i] as int].convex_hull_area);
            assert(keys@[ord@[j] as int] == items@[ord@[j] as int].convex_hull_area);
        }
    }
    assert(total * cut_ppm <= 0xffff_ffff_ffff_ffff * 1_000_000) by (nonlinear_arith)
        requires total <= 0xffff_ffff_ffff_ffff, cut_ppm <= 1_000_000;
    let threshold: u128 = total * cut_ppm as u128;
    let mut cum: u128 = 0;
    let mut k: usize = 0;
    while k < ord.len()
        invariant
            is_hull_order(ord@, items@),
            k <= ord@.len(),
            cum == prefix_area(items@, ord@, k as int),
            threshold == total_area(items@) * cut_ppm,
            total_area(items@) <= u64::MAX,
            first_crossing(items@, ord@, cut_ppm, 0) == first_crossing(items@, ord@, cut_ppm, k as int),
            cut_ppm <= PPM,
            cum * PPM <= threshold,
        decreases ord@.len() - k,
    {
        let id = ord[k];
        let a = items[id].convex_hull_area as u128;
        let d = items[id].demand as u128;
        assert(a * d <= 0xffff_ffff_ffff_ffff * 0xffff_ffff_ffff_ffff) by (nonlinear_arith)
            requires a <= 0xffff_ffff_ffff_ffff, d <= 0xffff_ffff_ffff_ffff;
        proof {
            lemma_term_le_total(items@, id as int);
            lemma_total_nonneg(items@);
        }
        assert(cum <= total_area(items@)) by (nonlinear_arith)
            requires cum * PPM <= total_area(items@) * cut_ppm, cut_ppm <= PPM, total_area(items@) >= 0, cum >= 0;
        cum = cum + a * d;
        assert(cum * PPM <= 0x2_0000_0000_0000_0000 * 1_000_000) by (nonlinear_arith)
            requires cum <= 0x2_0000_0000_0000_0000;
        if cum * (PPM as u128) > threshold {
            return items[id].convex_hull_area;
        }
        k = k + 1;
    }
    0
}

pub open spec fn abs_diff(a: u64, b: u64) -> int {
    if a >= b {
        a - b
    } else {
        b - a
    }
}

/// Two shapes differ enough to be worth swapping: both area and diameter differ
/// by more than 1% of the first's.
pub open spec fn distinct_shapes(a: Item, b: Item) -> bool {
    &&& 100 * abs_diff(a.area, b.area) > a.area
    &&& 100 * abs_diff(a.diameter, b.diameter) > a.diameter
}

pub fn distinct_enough(a: &Item, b: &Item) -> (r: bool)
    ensures
        r == distinct_shapes(*a, *b),
{
    let da: u128 = if a.area >= b.area { (a.area - b.area) as u128 } else { (b.area - a.area) as u128 };
    let dd: u128 = if a.diameter >= b.diameter { (a.diameter - b.diameter) as u128 } else { (b.diameter - a.diameter) as u128 };
    100 * da > a.area as u128 && 100 * dd > a.diameter as u128
}

/// The live, unlocked placement slots.
pub open spec fn movable(slots: Seq<Option<Placement>>, k: int) -> bool {
    0 <= k < slots.len() && slots[k] is Some && !slots[k]->0.is_locked
}

/// The item of the live placement in slot `k`.
pub open spec fn item_at(prob: Problem, k: int) -> Item {
    prob.instance.items@[prob.slots@[k]->0.item_id as int]
}

/// Keys, in increasing order, of the movable placements whose item satisfies
/// `keep` against `min_hull` (large) and, if `other` is set, differs enough from
/// that item's shape and is not `other` itself.
fn collect_keys(prob: &Problem, min_hull: u64, other: Option<PItemKey>) -> (r: Vec<PItemKey>)
    requires
        prob.wf(),
        other is Some ==> movable(prob.slots@, other->0 as int),
    ensures
        forall|i: int, j: int| 0 <= i < j < r@.len() ==> r@[i] < r@[j],
        forall|k: PItemKey| r@.contains(k) <==> candidate(*prob, min_hull, other, k as int),
{
    let mut r: Vec<PItemKey> = Vec::new();
    let mut k: usize = 0;
    while k < prob.slots.len()
        invariant
            prob.wf(),
            other is Some ==> movable(prob.slots@, other->0 as int),
            k <= prob.slots@.len(),
            forall|i: int, j: int| 0 <= i < j < r@.len() ==> r@[i] < r@[j],
            forall|i: int| 0 <= i < r@.len() ==> r@[i] < k,
            forall|q: PItemKey| q < k ==> (r@.contains(q) <==> candidate(*prob, min_hull, other, q as int)),
        decreases prob.slots@.len() - k,
    {
        let ghost r0 = r@;
        if let Some(p) = prob.slots[k] {
            assert(prob.slots@[k as int] is Some);
            if !p.is_locked && prob.instance.items[p.item_id].convex_hull_area >= min_hull {
                let ok = match other {
                    Some(o) => {
                        let q = match prob.slots[o] {
                            Some(q) => q,
                            None => p,
                        };
                        o != k && distinct_enough(&prob.instance.items[q.item_id], &prob.instance.items[p.item_id])
                    },
                    None => true,
                };
                if ok {
                    r.push(k);
                }
            }
        }
        assert forall|q: PItemKey| q < k + 1 implies (r@.contains(q) <==> candidate(*prob, min_hull, other, q as int)) by {
            if q < k {
                if r0.contains(q) {
                    let i = choose|i: int| 0 <= i < r0.len() && r0[i] == q;
                    assert(r@[i] == q);
                }
                if r@.contains(q) {
                    let i = choose|i: int| 0 <= i < r@.len() && r@[i] == q;
                    if i < r0.len() {
                        assert(r0[i] == q);
                    }
                }
            } else {
                if r@.contains(q) {
                    let i = choose|i: int| 0 <= i < r@.len() && r@[i] == q;
                    if i < r0.len() {
                        assert(r0[i] < k);
                    }
                }
                if candidate(*prob, min_hull, other, q as int) {
                    assert(r@[r@.len() - 1] == q);
                }
            }
        }
        k = k + 1;
    }
    r
}

/// Slot `k` may take part in a swap: movable, large enough, and (for a second
/// pick) distinct enough from `other`'s item and not `other` itself.
pub open spec fn candidate(prob: Problem, min_hull: u64, other: Option<PItemKey>, k: int) -> bool {
    &&& movable(prob.slots@, k)
    &&& item_at(prob, k).convex_hull_area >= min_hull
    &&& match other {
        Some(o) => o != k && distinct_shapes(item_at(prob, o as int), item_at(prob, k)),
        None => true,
    }
}

/// Any movable slot other than `other`.
pub open spec fn fallback_candidate(prob: Problem, other: PItemKey, k: int) -> bool {
    movable(prob.slots@, k) && k != other
}

fn collect_fallback(prob: &Problem, other: PItemKey) -> (r: Vec<PItemKey>)
    requires
        prob.wf(),
    ensures
        forall|k: PItemKey| r@.contains(k) <==> fallback_candidate(*prob, other, k as int),
{
    let mut r: Vec<PItemKey> = Vec::new();
    let mut k: usize = 0;
    while k < prob.slots.len()
        invariant
            k <= prob.slots@.len(),
            forall|i: int| 0 <= i < r@.len() ==> r@[i] < k,
            forall|q: PItemKey| q < k ==> (r@.contains(q) <==> fallback_candidate(*prob, other, q as int)),
        decreases prob.slots@.len() - k,
    {
        let ghost r0 = r@;
        if let Some(p) = prob.slots[k] {
            if !p.is_locked && k != other {
                r.push(k);
            }
        }
        assert forall|q: PItemKey| q < k + 1 implies (r@.contains(q) <==> fallback_candidate(*prob, other, q as int)) by {
            if r0.contains(q) {
                let i = choose|i: int| 0 <= i < r0.len() && r0[i] == q;
                assert(r@[i] == q);
            }
            if r@.contains(q) {
                let i = choose|i: int| 0 <= i < r@.len() && r@[i] == q;
                if i < r0.len() {
                    assert(r0[i] == q);
                }
            }
            if q == k && fallback_candidate(*prob, other, q as int) {
                assert(r@[r@.len() - 1] == q);
            }
        }
        k = k + 1;
    }
    r
}

/// The two placements of a disruption swap, by their keys before the swap.
pub open spec fn valid_pair(prob: Problem, min_hull: u64, k1: int, k2: int) -> bool {
    &&& candidate(prob, min_hull, None, k1)
    &&& (candidate(prob, min_hull, Some(k1 as usize), k2) || ((forall|q: int| !#[trigger] candidate(prob, min_hull, Some(k1 as usize), q))
        && fallback_candidate(prob, k1 as usize, k2)))
}

/// The slots after the placements in `k1` and `k2` trade transforms, each
/// snapped to the rotations its own item allows.
pub open spec fn swapped(prob: Problem, k1: int, k2: int) -> Seq<Option<Placement>> {
    let p1 = prob.slots@[k1]->0;
    let p2 = prob.slots@[k2]->0;
    let t1 = closest_feasible(p2.transf, item_at(prob, k1).allowed_rotation.view_rots());
    let t2 = closest_feasible(p1.transf, item_at(prob, k2).allowed_rotation.view_rots());
    prob.slots@.update(k1, None).push(Some(Placement { item_id: p1.item_id, transf: t1, is_locked: false })).update(
        k2,
        None,
    ).push(Some(Placement { item_id: p2.item_id, transf: t2, is_locked: false }))
}

/// Disrupts the layout by swapping two large movable placements, `A` and `B`.
/// `A` is drawn among the movable placements whose convex hull reaches
/// `min_hull`; `B` among those that also differ enough in shape from `A`, or,
/// if there is none, among all other movable placements. Each takes the other's
/// transform, snapped to its own allowed rotations. Returns the new keys of `A`
/// and `B`, or `None`, with the problem untouched, when fewer than two
/// placements are movable or none is large.
pub fn swap_large_items(prob: &mut Problem, min_hull: u64, rng: &mut Xoshiro256PlusPlus) -> (r: Option<(PItemKey, PItemKey)>)
    requires
        old(prob).wf(),
    ensures
        final(prob).wf(),
        final(prob).instance == old(prob).instance,
        final(prob).square == old(prob).square,
        final(prob).strip_width == old(prob).strip_width,
        final(prob).fixed_height == old(prob).fixed_height,
        final(prob).demand@ == old(prob).demand@,
        r is None ==> *final(prob) == *old(prob) && *final(rng) == *old(rng),
        r is None <==> (forall|k1: int, k2: int| !valid_pair(*old(prob), min_hull, k1, k2)),
        r is Some ==> exists|k1: int, k2: int| {
            &&& valid_pair(*old(prob), min_hull, k1, k2)
            &&& final(prob).slots@ == swapped(*old(prob), k1, k2)
            &&& r == Some((old(prob).slots@.len() as usize, (old(prob).slots@.len() + 1) as usize))
        },
{
    let ghost p0 = *prob;
    let n_slots = prob.slots.len();
    let large = collect_keys(prob, min_hull, None);
    if large.len() == 0 {
        assert forall|k1: int, k2: int| !valid_pair(p0, min_hull, k1, k2) by {
            if candidate(p0, min_hull, None, k1) {
                assert(0 <= k1 < n_slots);
                assert(candidate(p0, min_hull, None, (k1 as usize) as int));
                assert(large@.contains(k1 as usize));
            }
        }
        return None;
    }
    let all = collect_keys(prob, 0, None);
    if all.len() < 2 {
        assert forall|a: int, b: int| !valid_pair(p0, min_hull, a, b) by {
            if valid_pair(p0, min_hull, a, b) {
                assert(movable(p0.slots@, a) && movable(p0.slots@, b) && a != b);
                assert(0 <= a < n_slots && 0 <= b < n_slots);
                assert(candidate(p0, 0, None, (a as usize) as int));
                assert(candidate(p0, 0, None, (b as usize) as int));
                assert(all@.contains(a as usize) && all@.contains(b as usize));
                let ia = choose|i: int| 0 <= i < all@.len() && all@[i] == a as usize;
                let ib = choose|i: int| 0 <= i < all@.len() && all@[i] == b as usize;
                assert(ia != ib);
            }
        }
        return None;
    }
    let k1 = large[random_below(rng, large.len() as u64) as usize];
    assert(large@.contains(k1));
    assert(movable(p0.slots@, k1 as int));
    let other = if all[0] != k1 { all[0] } else { all[1] };
    assert(all@.contains(other));
    assert(all@[0] < all@[1]);
    assert(candidate(p0, 0, None, other as int));
    assert(fallback_candidate(p0, k1, other as int));
    let distinct = collect_keys(prob, min_hull, Some(k1));
    let k2 = if distinct.len() > 0 {
        let k = distinct[random_below(rng, distinct.len() as u64) as usize];
        assert(distinct@.contains(k));
        k
    } else {
        let fallback = collect_fallback(prob, k1);
        assert(fallback@.contains(other));
        if fallback.len() == 0 {
            assert forall|a: int, b: int| !valid_pair(p0, min_hull, a, b) by {
                if valid_pair(p0, min_hull, a, b) {
                    assert(movable(p0.slots@, a) && movable(p0.slots@, b) && a != b);
                    assert(0 <= a < n_slots && 0 <= b < n_slots);
                    if a != k1 {
                        assert(fallback_candidate(p0, k1, (a as usize) as int));
                        assert(fallback@.contains(a as usize));
                    } else {
                        assert(fallback_candidate(p0, k1, (b as usize) as int));
                        assert(fallback@.contains(b as usize));
                    }
                }
            }
            return None;
        }
        let k = fallback[random_below(rng, fallback.len() as u64) as usize];
        assert(fallback@.contains(k));
        assert forall|q: int| !candidate(p0, min_hull, Some(k1), q) by {
            if candidate(p0, min_hull, Some(k1), q) {
                assert(0 <= q < n_slots);
                assert(candidate(p0, min_hull, Some(k1), (q as usize) as int));
                assert(distinct@.contains(q as usize));
            }
        }
        k
    };
    assert(valid_pair(p0, min_hull, k1 as int, k2 as int));
    let p1 = match prob.slots[k1] {
        Some(p) => p,
        None => return None,
    };
    let p2 = match prob.slots[k2] {
        Some(p) => p,
        None => return None,
    };
    let t1 = convert_sample_to_closest_feasible(p2.transf, &prob.instance.items[p1.item_id].allowed_rotation);
    let t2 = convert_sample_to_closest_feasible(p1.transf, &prob.instance.items[p2.item_id].allowed_rotation);
    let n1 = prob.move_item(k1, t1);
    let n2 = prob.move_item(k2, t2);
    assert(prob.slots@ =~= swapped(p0, k1 as int, k2 as int));
    Some((n1, n2))
}

/// Disrupts the layout by a large-item swap, the cutoff for large taken from
/// `config`. See `swap_large_items`.
pub fn disrupt_solution(prob: &mut Problem, config: &ExplorationConfig, rng: &mut Xoshiro256PlusPlus) -> (r: Option<(PItemKey, PItemKey)>)
    requires
        old(prob).wf(),
        total_area(old(prob).instance.items@) <= u64::MAX,
        config.large_item_ch_area_cutoff_ppm <= PPM,
    ensures
        final(prob).wf(),
        final(prob).instance == old(prob).instance,
        final(prob).square == old(prob).square,
        final(prob).strip_width == old(prob).strip_width,
        final(prob).fixed_height == old(prob).fixed_height,
        final(prob).demand@ == old(prob).demand@,
        exists|ord: Seq<usize>| {
            let cut = hull_cutoff(old(prob).instance.items@, ord, config.large_item_ch_area_cutoff_ppm);
            &&& #[trigger] is_hull_order(ord, old(prob).instance.items@)
            &&& r is None <==> (forall|k1: int, k2: int| !valid_pair(*old(prob), cut, k1, k2))
            &&& r is None ==> *final(prob) == *old(prob) && *final(rng) == *old(rng)
            &&& r is Some ==> exists|k1: int, k2: int| valid_pair(*old(prob), cut, k1, k2)
                && final(prob).slots@ == swapped(*old(prob), k1, k2)
        },
{
    let cut = large_item_cutoff(&prob.instance.items, config.large_item_ch_area_cutoff_ppm);
    swap_large_items(prob, cut, rng)
}

/// The slots after each key of `ks` in turn, if it holds a movable placement
/// other than `counterpart`, is moved to its transform in `ts` snapped to its
/// item's allowed rotations.
pub open spec fn reflowed(items: Seq<Item>, s: Seq<Option<Placement>>, ks: Seq<PItemKey>, ts: Seq<Transform>, counterpart: PItemKey) -> Seq<Option<Placement>>
    decreases ks.len(),
{
    if ks.len() == 0 {
        s
    } else {
        let prev = reflowed(items, s, ks.drop_last(), ts.drop_last(), counterpart);
        let k = ks.last();
        if movable(prev, k as int) && k != counterpart {
            let p = prev[k as int]->0;
            prev.update(k as int, None).push(Some(Placement {
                item_id: p.item_id,
                transf: closest_feasible(ts.last(), items[p.item_id as int].allowed_rotation.view_rots()),
                is_locked: false,
            }))
        } else {
            prev
        }
    }
}

/// Moves the placements that rode along in a swapped item's space: `contained`
/// are their keys (as the collision engine found them, points of inaccessibility
/// inside the swapped item's new shape) and `new_transfs` their transforms
/// carried along with the swapped item. Locked placements, dead keys and the
/// swap's `counterpart` stay; each other one moves, its rotation snapped to its
/// item's allowed rotations.
pub fn reflow_contained(prob: &mut Problem, contained: &Vec<PItemKey>, new_transfs: &Vec<Transform>, counterpart: PItemKey)
    requires
        old(prob).wf(),
        contained@.len() == new_transfs@.len(),
    ensures
        final(prob).wf(),
        final(prob).slots@ == reflowed(old(prob).instance.items@, old(prob).slots@, contained@, new_transfs@, counterpart),
        final(prob).instance == old(prob).instance,
        final(prob).square == old(prob).square,
        final(prob).strip_width == old(prob).strip_width,
        final(prob).fixed_height == old(prob).fixed_height,
        final(prob).demand@ == old(prob).demand@,
{
    let ghost items = prob.instance.items@;
    let ghost s0 = prob.slots@;
    let mut i: usize = 0;
    while i < contained.len()
        invariant
            prob.wf(),
            i <= contained@.len(),
            contained@.len() == new_transfs@.len(),
            prob.instance == old(prob).instance,
            prob.instance.items@ == items,
            items == old(prob).instance.items@,
            s0 == old(prob).slots@,
            prob.square == old(prob).square,
            prob.strip_width == old(prob).strip_width,
            prob.fixed_height == old(prob).fixed_height,
            prob.demand@ == old(prob).demand@,
            prob.slots@ == reflowed(items, s0, contained@.take(i as int), new_transfs@.take(i as int), counterpart),
        decreases contained@.len() - i,
    {
        proof {
            assert(contained@.take(i as int + 1).drop_last() =~= contained@.take(i as int));
            assert(new_transfs@.take(i as int + 1).drop_last() =~= new_transfs@.take(i as int));
            assert(contained@.take(i as int + 1).last() == contained@[i as int]);
            assert(new_transfs@.take(i as int + 1).last() == new_transfs@[i as int]);
        }
        let k = contained[i];
        if k < prob.slots.len() && k != counterpart {
            if let Some(p) = prob.slots[k] {
                if !p.is_locked {
                    let t = convert_sample_to_closest_feasible(new_transfs[i], &prob.instance.items[p.item_id].allowed_rotation);
                    prob.move_item(k, t);
                }
            }
        }
        i = i + 1;
    }
    proof {
        assert(contained@.take(contained@.len() as int) =~= contained@);
        assert(new_transfs@.take(new_transfs@.len() as int) =~= new_transfs@);
    }
}

} // verus!
