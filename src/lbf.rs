use vstd::prelude::*;

use rand_xoshiro::Xoshiro256PlusPlus;

use crate::best_samples::Sample;
use crate::config::SampleConfig;
use crate::eval::SampleEval;
use crate::geom::Transform;
use crate::outside::indices_by_key_desc;
use crate::problem::{fit_width, Instance, Item, Placement, Problem};

verus! {

/// How far the strip may grow, as a multiple of its starting width (or of one
/// unit, for an empty strip), before construction gives up.
pub const MAX_STRIP_GROWTH: u64 = 10;

/// An item's largeness: convex-hull area times diameter.
pub open spec fn largeness(it: Item) -> int {
    it.convex_hull_area * it.diameter
}

/// `ord` lists every item once, largest first, equally large items in id order.
pub open spec fn is_largeness_order(ord: Seq<usize>, items: Seq<Item>) -> bool {
    &&& ord.len() == items.len()
    &&& forall|i: int| 0 <= i < ord.len() ==> #[trigger] ord[i] < items.len()
    &&& forall|k: usize| k < items.len() ==> #[trigger] ord.contains(k)
    &&& forall|i: int, j: int| 0 <= i < j < ord.len() ==> {
            let (a, b) = (#[trigger] ord[i] as int, #[trigger] ord[j] as int);
            largeness(items[a]) > largeness(items[b]) || (largeness(items[a]) == largeness(items[b]) && a < b)
        }
}

/// Each id of `ord` repeated as often as its remaining demand.
pub open spec fn repeat_units(ord: Seq<usize>, demand: Seq<usize>) -> Seq<usize>
    decreases ord.len(),
{
    if ord.len() == 0 {
        seq![]
    } else {
        repeat_units(ord.drop_last(), demand) + Seq::new(demand[ord.last() as int] as nat, |_i: int| ord.last())
    }
}

/// The demand left once every item with a fixed placement and outstanding demand
/// has one copy placed there.
pub open spec fn demand_after_enforce(items: Seq<Item>, demand: Seq<usize>) -> Seq<usize> {
    Seq::new(demand.len(), |i: int| if items[i].fixed_placement is Some && demand[i] > 0 {
        (demand[i] - 1) as usize
    } else {
        demand[i]
    })
}

/// The ids below `n` that get a locked copy, in id order.
pub open spec fn enforced_ids(items: Seq<Item>, demand: Seq<usize>, n: int) -> Seq<usize>
    decreases n,
{
    if n <= 0 {
        seq![]
    } else {
        let prev = enforced_ids(items, demand, n - 1);
        if items[n - 1].fixed_placement is Some && demand[n - 1] > 0 {
            prev.push((n - 1) as usize)
        } else {
            prev
        }
    }
}

/// The locked placement of item `id` at its fixed transform.
pub open spec fn locked_at_fixed(items: Seq<Item>, id: usize) -> Option<Placement> {
    Some(Placement { item_id: id, transf: items[id as int].fixed_placement->0, is_locked: true })
}

/// Item indices, largest first (ties in id order).
pub fn largeness_order(items: &Vec<Item>) -> (r: Vec<usize>)
    ensures
        is_largeness_order(r@, items@),
{
    let mut keys: Vec<u128> = Vec::new();
    let mut i: usize = 0;
    while i < items.len()
        invariant
            i <= items@.len(),
            keys@.len() == i,
            forall|j: int| 0 <= j < i ==> keys@[j] == largeness(#[trigger] items@[j]),
        decreases items@.len() - i,
    {
        let a = items[i].convex_hull_area as u128;
        let d = items[i].diameter as u128;
        assert(a * d <= 0xffff_ffff_ffff_ffff * 0xffff_ffff_ffff_ffff) by (nonlinear_arith)
            requires a <= 0xffff_ffff_ffff_ffff, d <= 0xffff_ffff_ffff_ffff, a >= 0, d >= 0;
        keys.push(a * d);
        i = i + 1;
    }
    let r = indices_by_key_desc(&keys);
    assert forall|i: int, j: int| 0 <= i < j < r@.len() implies {
        let (a, b) = (#[trigger] r@[i] as int, #[trigger] r@[j] as int);
        largeness(items@[a]) > largeness(items@[b]) || (largeness(items@[a]) == largeness(items@[b]) && a < b)
    } by {
        assert(keys@[r@[i] as int] == largeness(items@[r@[i] as int]));
        assert(keys@[r@[j] as int] == largeness(items@[r@[j] as int]));
    }
    r
}

/// The order in which construction places copies: items largest first, each
/// repeated as often as its remaining demand.
pub fn construction_order(prob: &Problem) -> (r: Vec<usize>)
    requires
        prob.wf(),
    ensures
        exists|ord: Seq<usize>| is_largeness_order(ord, prob.instance.items@) && r@ == repeat_units(ord, prob.demand@),
{
    let ord = largeness_order(&prob.instance.items);
    let mut r: Vec<usize> = Vec::new();
    let mut i: usize = 0;
    while i < ord.len()
        invariant
            prob.wf(),
            is_largeness_order(ord@, prob.instance.items@),
            i <= ord@.len(),
            r@ == repeat_units(ord@.take(i as int), prob.demand@),
        decreases ord@.len() - i,
    {
        let id = ord[i];
        let n = prob.demand[id];
        let mut c: usize = 0;
        let ghost base = r@;
        while c < n
            invariant
                c <= n,
                r@ == base + Seq::new(c as nat, |_i: int| id),
            decreases n - c,
        {
            r.push(id);
            c = c + 1;
            assert(r@ =~= base + Seq::new(c as nat, |_i: int| id));
        }
        assert(ord@.take(i as int + 1).drop_last() =~= ord@.take(i as int));
        i = i + 1;
    }
    assert(ord@.take(ord@.len() as int) =~= ord@);
    r
}

/// Places one locked copy of every item that has a fixed placement and
/// outstanding demand, in id order; returns how many were placed.
pub fn enforce_fixed_items(prob: &mut Problem) -> (n_fixed: usize)
    requires
        old(prob).wf(),
    ensures
        final(prob).wf(),
        final(prob).slots@ == old(prob).slots@ + enforced_ids(old(prob).instance.items@, old(prob).demand@, old(prob).n_items()).map_values(
            |id: usize| locked_at_fixed(old(prob).instance.items@, id),
        ),
        final(prob).demand@ == demand_after_enforce(old(prob).instance.items@, old(prob).demand@),
        n_fixed == enforced_ids(old(prob).instance.items@, old(prob).demand@, old(prob).n_items()).len(),
        final(prob).instance == old(prob).instance,
        final(prob).strip_width == old(prob).strip_width,
        final(prob).fixed_height == old(prob).fixed_height,
        final(prob).square == old(prob).square,
{
    let ghost items = prob.instance.items@;
    let ghost d0 = prob.demand@;
    let ghost s0 = prob.slots@;
    let mut i: usize = 0;
    let mut n_fixed: usize = 0;
    let n = prob.instance.items.len();
    while i < n
        invariant
            prob.wf(),
            n == items.len(),
            i <= n,
            prob.instance.items@ == items,
            prob.instance == old(prob).instance,
            prob.strip_width == old(prob).strip_width,
            prob.fixed_height == old(prob).fixed_height,
            prob.square == old(prob).square,
            d0 == old(prob).demand@,
            d0.len() == n,
            s0 == old(prob).slots@,
            prob.slots@ == s0 + enforced_ids(items, d0, i as int).map_values(|id: usize| locked_at_fixed(items, id)),
            n_fixed == enforced_ids(items, d0, i as int).len(),
            n_fixed <= i,
            forall|j: int| 0 <= j < n ==> #[trigger] prob.demand@[j] == if j < i {
                demand_after_enforce(items, d0)[j]
            } else {
                d0[j]
            },
        decreases n - i,
    {
        if prob.instance.items[i].fixed_placement.is_some() && prob.demand[i] > 0 {
            prob.place_fixed_item(i);
            n_fixed = n_fixed + 1;
            assert(prob.slots@ =~= s0 + enforced_ids(items, d0, i as int + 1).map_values(|id: usize| locked_at_fixed(items, id)));
        } else {
            assert(enforced_ids(items, d0, i as int + 1) == enforced_ids(items, d0, i as int));
        }
        i = i + 1;
    }
    assert(prob.demand@ =~= demand_after_enforce(items, d0));
    n_fixed
}

proof fn lemma_repeat_units_of_zero(ord: Seq<usize>, demand: Seq<usize>)
    requires
        forall|i: int| 0 <= i < ord.len() ==> #[trigger] ord[i] < demand.len(),
        forall|i: int| 0 <= i < demand.len() ==> #[trigger] demand[i] == 0,
    ensures
        repeat_units(ord, demand).len() == 0,
    decreases ord.len(),
{
    if ord.len() > 0 {
        assert(ord.last() == ord[ord.len() - 1]);
        lemma_repeat_units_of_zero(ord.drop_last(), demand);
    }
}

/// When every item has a fixed placement and a demand of at most one, placing
/// the fixed items meets every demand, so construction searches for nothing and
/// the layout is the locked configuration itself.
pub proof fn lemma_only_locked_items(items: Seq<Item>, demand: Seq<usize>, ord: Seq<usize>)
    requires
        demand.len() == items.len(),
        forall|i: int| 0 <= i < items.len() ==> (#[trigger] items[i]).fixed_placement is Some && demand[i] <= 1,
        is_largeness_order(ord, items),
    ensures
        forall|i: int| 0 <= i < items.len() ==> #[trigger] demand_after_enforce(items, demand)[i] == 0,
        repeat_units(ord, demand_after_enforce(items, demand)).len() == 0,
{
    let d = demand_after_enforce(items, demand);
    assert forall|i: int| 0 <= i < d.len() implies #[trigger] d[i] == 0 by {
        assert(items[i].fixed_placement is Some);
    }
    lemma_repeat_units_of_zero(ord, d);
}

/// Every slot holds a live, unlocked placement.
pub open spec fn all_free(s: Seq<Option<Placement>>) -> bool {
    forall|k: int| 0 <= k < s.len() ==> (#[trigger] s[k]) is Some && !s[k]->0.is_locked
}

/// The item ids of the placements in the slots.
pub open spec fn placed_ids(s: Seq<Option<Placement>>) -> Seq<usize> {
    s.map_values(|o: Option<Placement>| o->0.item_id)
}

/// The placement construction takes from a search result: only a clear one.
pub fn find_placement(result: Option<Sample>) -> (r: Option<Transform>)
    ensures
        r == match result {
            Some((t, SampleEval::Clear { .. })) => Some(t),
            _ => None::<Transform>,
        },
{
    match result {
        Some((t, SampleEval::Clear { .. })) => Some(t),
        _ => None,
    }
}

/// Why construction stopped.
#[derive(Clone, Copy, Debug, PartialEq, Eq, Structural)]
pub enum ConstructError {
    /// The strip grew past its ceiling while `item_id` found no clear placement.
    StripRunaway { item_id: usize, width: u64 },
}

/// The next width tried after a failed placement: 20% wider, and at least one unit.
pub open spec fn widened(w: u32) -> int {
    let g = w + w / 5;
    if g > w {
        g
    } else {
        w + 1
    }
}

/// The error names an item with outstanding demand `d` at a width whose next
/// widening passes `max_width` or the width range.
pub open spec fn runaway(e: ConstructError, d: Seq<usize>, max_width: u64) -> bool {
    match e {
        ConstructError::StripRunaway { item_id, width } => {
            &&& item_id < d.len()
            &&& d[item_id as int] > 0
            &&& width <= u32::MAX
            &&& !(widened(width as u32) <= max_width && widened(width as u32) <= u32::MAX)
        },
    }
}

/// Builds an initial layout: locked items first, then the others largest first,
/// widening the strip whenever an item finds no clear spot.
pub struct LBFBuilder {
    pub prob: Problem,
    pub rng: Xoshiro256PlusPlus,
    pub sample_config: SampleConfig,
    /// The strip may not grow past this width.
    pub max_width: u64,
}

impl LBFBuilder {
    pub fn new(instance: Instance, square: bool, rng: Xoshiro256PlusPlus, sample_config: SampleConfig) -> (r: Self)
        ensures
            r.prob.wf(),
            r.prob.instance == instance,
            r.prob.square == square,
            r.prob.slots@.len() == 0,
            r.sample_config == sample_config,
            r.rng == rng,
            r.max_width == MAX_STRIP_GROWTH * (if r.prob.strip_width > 0 { r.prob.strip_width as int } else { 1 }),
    {
        let prob = Problem::new(instance, square);
        let base: u64 = if prob.strip_width > 0 { prob.strip_width as u64 } else { 1 };
        LBFBuilder { prob, rng, sample_config, max_width: MAX_STRIP_GROWTH * base }
    }

    /// Whether the strip may widen once more without passing its ceiling.
    pub fn can_widen(&self) -> (r: bool)
        ensures
            r == (widened(self.prob.strip_width) <= self.max_width && widened(self.prob.strip_width) <= u32::MAX),
    {
        let w = self.prob.strip_width as u64;
        let g = w + w / 5;
        let next = if g > w { g } else { w + 1 };
        next <= self.max_width && next <= u32::MAX as u64
    }

    /// Handles the outcome of a placement search for `item_id`: a clear spot is
    /// taken (`true`); otherwise the strip widens by a fifth (`false`). A failed
    /// search where the strip may not widen any more is the caller's to refuse:
    /// construction cannot go on there.
    pub fn place_item(&mut self, item_id: usize, found: Option<Transform>) -> (placed: bool)
        requires
            old(self).prob.wf(),
            item_id < old(self).prob.n_items(),
            old(self).prob.demand@[item_id as int] > 0,
            found is None ==> widened(old(self).prob.strip_width) <= old(self).max_width
                && widened(old(self).prob.strip_width) <= u32::MAX,
        ensures
            final(self).prob.wf(),
            final(self).max_width == old(self).max_width,
            final(self).sample_config == old(self).sample_config,
            final(self).prob.instance == old(self).prob.instance,
            final(self).prob.square == old(self).prob.square,
            placed == found is Some,
            found is Some ==> final(self).prob.slots@ == old(self).prob.slots@.push(
                Some(Placement { item_id, transf: found->0, is_locked: false }),
            ) && final(self).prob.demand@ == old(self).prob.demand@.update(
                item_id as int,
                (old(self).prob.demand@[item_id as int] - 1) as usize,
            ) && final(self).prob.strip_width == old(self).prob.strip_width,
            found is None ==> final(self).prob.strip_width == widened(old(self).prob.strip_width)
                && final(self).prob.slots == old(self).prob.slots && final(self).prob.demand == old(self).prob.demand,
    {
        match found {
            Some(t) => {
                self.prob.place_item(item_id, t);
                true
            },
            None => {
                let w = self.prob.strip_width as u64;
                let g = w + w / 5;
                let next = if g > w { g } else { w + 1 };
                self.prob.resize_strip(next as u32);
                false
            },
        }
    }

    /// Builds the initial layout. `search` is asked, with the builder's random
    /// generator, for a clear placement of an item in the current problem. Locked
    /// items go first; then each item's copies are placed, unlocked, in
    /// largeness order, the strip widening on each failed search. On success
    /// every demand is met and the strip is fitted to the placements. Where the
    /// locked items meet every demand no search is made and success is certain.
    /// The error names an item with outstanding demand whose next widening would
    /// pass the ceiling.
    #[verifier::rlimit(60)]
    pub fn construct<F: Fn(&Problem, usize, &mut Xoshiro256PlusPlus) -> Option<Transform>>(self, search: F) -> (r: Result<Self, ConstructError>)
        requires
            self.prob.wf(),
            forall|p: &Problem, id: usize, g: &mut Xoshiro256PlusPlus| #[trigger] search.requires((p, id, g)),
        ensures
            ({
                let items = self.prob.instance.items@;
                let d1 = demand_after_enforce(items, self.prob.demand@);
                let locked = self.prob.slots@ + enforced_ids(items, self.prob.demand@, self.prob.n_items()).map_values(
                    |id: usize| locked_at_fixed(items, id),
                );
                &&& r is Ok ==> ({
                    let b = r->Ok_0;
                    &&& b.prob.wf()
                    &&& b.prob.instance == self.prob.instance
                    &&& b.prob.square == self.prob.square
                    &&& forall|i: int| 0 <= i < b.prob.n_items() ==> #[trigger] b.prob.demand@[i] == 0
                    &&& b.prob.slots@.len() >= locked.len()
                    &&& b.prob.slots@.take(locked.len() as int) == locked
                    &&& all_free(b.prob.slots@.skip(locked.len() as int))
                    &&& exists|ord: Seq<usize>| #[trigger] is_largeness_order(ord, items)
                        && placed_ids(b.prob.slots@.skip(locked.len() as int)) == repeat_units(ord, d1)
                    &&& b.prob.strip_width == fit_width(b.prob.slots@, b.prob.instance.items@)
                    &&& b.max_width == self.max_width
                    &&& b.sample_config == self.sample_config
                })
                &&& (forall|i: int| 0 <= i < items.len() ==> #[trigger] d1[i] == 0) ==> (r is Ok && r->Ok_0.prob.slots@ == locked
                    && r->Ok_0.rng == self.rng)
                &&& r is Err ==> runaway(r->Err_0, d1, self.max_width)
            }),
    {
        let ghost me = self;
        let mut b = self;
        let ghost p0 = b.prob;
        let ghost rng0 = b.rng;
        let ghost items = b.prob.instance.items@;
        let ghost d1 = demand_after_enforce(items, p0.demand@);
        enforce_fixed_items(&mut b.prob);
        let ghost enforced = b.prob.slots@;
        let ghost e = enforced.len() as int;
        let ord = largeness_order(&b.prob.instance.items);
        let mut i: usize = 0;
        assert(b.prob.slots@.skip(e) =~= Seq::<Option<Placement>>::empty());
        assert(ord@.take(0) =~= Seq::<usize>::empty());
        while i < ord.len()
            invariant
                b.prob.wf(),
                is_largeness_order(ord@, items),
                b.prob.instance.items@ == items,
                d1.len() == items.len(),
                items == me.prob.instance.items@,
                d1 == demand_after_enforce(me.prob.instance.items@, me.prob.demand@),
                rng0 == me.rng,
                me == self,
                i <= ord@.len(),
                b.prob.instance == p0.instance,
                b.prob.square == p0.square,
                b.max_width == me.max_width,
                b.sample_config == me.sample_config,
                b.prob.slots@.len() >= e,
                e == enforced.len(),
                b.prob.slots@.take(e) == enforced,
                all_free(b.prob.slots@.skip(e)),
                placed_ids(b.prob.slots@.skip(e)) == repeat_units(ord@.take(i as int), d1),
                forall|j: int| 0 <= j < i ==> #[trigger] b.prob.demand@[ord@[j] as int] == 0,
                forall|j: int| i <= j < ord@.len() ==> #[trigger] b.prob.demand@[ord@[j] as int] == d1[ord@[j] as int],
                (forall|k: int| 0 <= k < items.len() ==> #[trigger] d1[k] == 0) ==> b.rng == rng0 && b.prob.slots@ == enforced,
                forall|p: &Problem, id: usize, g: &mut Xoshiro256PlusPlus| #[trigger] search.requires((p, id, g)),
            decreases ord@.len() - i,
        {
            let id = ord[i];
            let ghost base = placed_ids(b.prob.slots@.skip(e));
            assert(b.prob.demand@[id as int] == d1[id as int]);
            while b.prob.demand[id] > 0
                invariant
                    b.prob.wf(),
                    id < b.prob.n_items(),
                    i < ord@.len(),
                    ord@[i as int] == id,
                    is_largeness_order(ord@, items),
                    b.prob.instance.items@ == items,
                    d1.len() == items.len(),
                    items == me.prob.instance.items@,
                    d1 == demand_after_enforce(me.prob.instance.items@, me.prob.demand@),
                    rng0 == me.rng,
                    me == self,
                    b.prob.instance == p0.instance,
                    b.prob.square == p0.square,
                    b.max_width == me.max_width,
                    b.sample_config == me.sample_config,
                    e == enforced.len(),
                    b.prob.slots@.len() >= e,
                    b.prob.slots@.take(e) == enforced,
                    all_free(b.prob.slots@.skip(e)),
                    b.prob.demand@[id as int] <= d1[id as int],
                    placed_ids(b.prob.slots@.skip(e)) == base + Seq::new((d1[id as int] - b.prob.demand@[id as int]) as nat, |_k: int| id),
                    forall|j: int| 0 <= j < i ==> #[trigger] b.prob.demand@[ord@[j] as int] == 0,
                    forall|j: int| i < j < ord@.len() ==> #[trigger] b.prob.demand@[ord@[j] as int] == d1[ord@[j] as int],
                    (forall|k: int| 0 <= k < items.len() ==> #[trigger] d1[k] == 0) ==> b.rng == rng0 && b.prob.slots@ == enforced,
                    forall|p: &Problem, id: usize, g: &mut Xoshiro256PlusPlus| #[trigger] search.requires((p, id, g)),
                decreases b.prob.demand@[id as int], b.max_width - b.prob.strip_width,
            {
                let found = search(&b.prob, id, &mut b.rng);
                let ghost before = b.prob.slots@;
                let ghost dbefore = b.prob.demand@;
                let res: Result<bool, ConstructError> = if found.is_none() && !b.can_widen() {
                    Err(ConstructError::StripRunaway { item_id: id, width: b.prob.strip_width as u64 })
                } else {
                    Ok(b.place_item(id, found))
                };
                match res {
                    Ok(_) => {
                        if found.is_some() {
                            assert(b.prob.slots@.take(e) =~= before.take(e));
                            let ghost x = b.prob.slots@[b.prob.slots@.len() - 1];
                            assert(b.prob.slots@.skip(e) =~= before.skip(e).push(x));
                            assert(placed_ids(b.prob.slots@.skip(e)) =~= placed_ids(before.skip(e)).push(id));
                            assert(Seq::new((d1[id as int] - b.prob.demand@[id as int]) as nat, |_k: int| id) =~= Seq::new(
                                (d1[id as int] - dbefore[id as int]) as nat,
                                |_k: int| id,
                            ).push(id));
                        }
                        assert forall|j: int| 0 <= j < i implies #[trigger] b.prob.demand@[ord@[j] as int] == 0 by {
                            assert(ord@[j] as int != ord@[i as int] as int);
                        }
                        assert forall|j: int| i < j < ord@.len() implies #[trigger] b.prob.demand@[ord@[j] as int] == d1[ord@[j] as int] by {
                            assert(ord@[j] as int != ord@[i as int] as int);
                        }
                    },
                    Err(err) => {
                        assert((b.prob.strip_width as u64) as u32 == b.prob.strip_width);
                        assert(d1[id as int] > 0);
                        return Err(err);
                    },
                }
            }
            proof {
                assert(ord@.take(i as int + 1).drop_last() =~= ord@.take(i as int));
                assert(ord@.take(i as int + 1).last() == id);
                assert(Seq::new(d1[id as int] as nat, |_k: int| id) =~= Seq::new((d1[id as int] - b.prob.demand@[id as int]) as nat, |_k: int| id));
            }
            i = i + 1;
        }
        assert(ord@.take(ord@.len() as int) =~= ord@);
        assert forall|k: int| 0 <= k < b.prob.n_items() implies #[trigger] b.prob.demand@[k] == 0 by {
            assert(ord@.contains(k as usize));
            let j = choose|j: int| 0 <= j < ord@.len() && ord@[j] == k as usize;
            assert(b.prob.demand@[ord@[j] as int] == 0);
        }
        b.prob.fit_strip();
        Ok(b)
    }
}

} // verus!
