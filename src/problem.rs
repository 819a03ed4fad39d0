use vstd::prelude::*;

use crate::geom::{RotationRange, Transform};

verus! {

/// An item to pack, with the integer surrogates the optimizer reads.
pub struct Item {
    pub id: usize,
    /// How many copies must be placed.
    pub demand: usize,
    pub area: u64,
    pub convex_hull_area: u64,
    pub diameter: u64,
    /// Horizontal reach to the right of the item's reference point, under any
    /// allowed rotation.
    pub x_reach: u32,
    pub allowed_rotation: RotationRange,
    /// A placement the item must keep, if any (a locked item).
    pub fixed_placement: Option<Transform>,
}

/// The items and the strip they are packed in.
pub struct Instance {
    pub items: Vec<Item>,
    pub strip_width: u32,
    pub strip_height: u32,
}

/// One placed copy of an item.
#[derive(Clone, Copy, Debug, PartialEq, Eq, Structural)]
pub struct Placement {
    pub item_id: usize,
    pub transf: Transform,
    pub is_locked: bool,
}

/// A stable key of a placement: its slot, never reused while the problem lives.
pub type PItemKey = usize;

pub open spec fn placed_count(s: Seq<Option<Placement>>, id: int) -> int
    decreases s.len(),
{
    if s.len() == 0 {
        0
    } else {
        placed_count(s.drop_last(), id) + match s.last() {
            Some(p) => if p.item_id == id { 1int } else { 0int },
            None => 0int,
        }
    }
}

pub proof fn lemma_placed_count_update(s: Seq<Option<Placement>>, k: int, v: Option<Placement>, id: int)
    requires
        0 <= k < s.len(),
    ensures
        placed_count(s.update(k, v), id) == placed_count(s, id)
            - (if s[k] is Some && s[k]->0.item_id == id { 1int } else { 0int })
            + (if v is Some && v->0.item_id == id { 1int } else { 0int }),
    decreases s.len(),
{
    let t = s.update(k, v);
    if k == s.len() - 1 {
        assert(t.drop_last() =~= s.drop_last());
    } else {
        assert(t.drop_last() =~= s.drop_last().update(k, v));
        lemma_placed_count_update(s.drop_last(), k, v, id);
    }
}

pub proof fn lemma_placed_count_push(s: Seq<Option<Placement>>, v: Option<Placement>, id: int)
    ensures
        placed_count(s.push(v), id) == placed_count(s, id)
            + (if v is Some && v->0.item_id == id { 1int } else { 0int }),
{
    assert(s.push(v).drop_last() =~= s);
}

/// What a snapshot holds: strip width, fixed height, the placement slots and the
/// remaining demand.
pub type StateView = (u32, u32, Seq<Option<Placement>>, Seq<usize>);

/// A snapshot of a problem, sufficient to restore it.
#[derive(Clone, Debug)]
pub struct Solution {
    pub strip_width: u32,
    pub fixed_height: u32,
    pub slots: Vec<Option<Placement>>,
    pub demand: Vec<usize>,
}

impl Solution {
    pub open spec fn view(&self) -> StateView {
        (self.strip_width, self.fixed_height, self.slots@, self.demand@)
    }

    /// The snapshot's strip width.
    pub fn strip_width(&self) -> (r: u32)
        ensures
            r == self.strip_width,
    {
        self.strip_width
    }
}

/// The state invariant over an instance: demand bookkeeping, locked placements
/// at their fixed transforms, and in square mode a square strip.
pub open spec fn state_valid(inst: &Instance, square: bool, st: StateView) -> bool {
    let (w, h, slots, demand) = st;
    &&& demand.len() == inst.items@.len()
    &&& forall|i: int| 0 <= i < inst.items@.len() ==> placed_count(slots, i) + #[trigger] demand[i] == inst.items@[i].demand
    &&& forall|k: int| 0 <= k < slots.len() && (#[trigger] slots[k]) is Some ==> {
            let p = slots[k]->0;
            &&& p.item_id < inst.items@.len()
            &&& p.is_locked ==> inst.items@[p.item_id as int].fixed_placement == Some(p.transf)
        }
    &&& square ==> w == h
}

/// The packing problem being optimized: an instance, the current layout and the
/// demand that remains.
pub struct Problem {
    pub instance: Instance,
    pub slots: Vec<Option<Placement>>,
    pub demand: Vec<usize>,
    pub strip_width: u32,
    pub fixed_height: u32,
    /// Square mode: the strip's width is kept equal to its height.
    pub square: bool,
}

pub open spec fn saturate_i32(v: int) -> i32 {
    if v < i32::MIN {
        i32::MIN
    } else if v > i32::MAX {
        i32::MAX
    } else {
        v as i32
    }
}

pub(crate) fn saturating_i32(v: i64) -> (r: i32)
    ensures
        r == saturate_i32(v as int),
{
    if v < i32::MIN as i64 {
        i32::MIN
    } else if v > i32::MAX as i64 {
        i32::MAX
    } else {
        v as i32
    }
}

/// `x * num / den`, rounded toward zero.
pub open spec fn scale_toward_zero(x: int, num: int, den: int) -> int {
    if x >= 0 {
        (x * num) / den
    } else {
        -(((-x) * num) / den)
    }
}

/// The x of an unlocked placement after the strip is rescaled from `old_w` to `new_w`.
pub open spec fn rescaled_x(x: i32, old_w: u32, new_w: u32) -> i32 {
    if old_w == 0 {
        x
    } else {
        saturate_i32(scale_toward_zero(x as int, new_w as int, old_w as int))
    }
}

fn rescale_x(x: i32, old_w: u32, new_w: u32) -> (r: i32)
    ensures
        r == rescaled_x(x, old_w, new_w),
{
    if old_w == 0 {
        return x;
    }
    let mag: u64 = if x >= 0 { x as u64 } else { (-(x as i64)) as u64 };
    assert(mag <= 0x8000_0000);
    assert(mag * (new_w as u64) <= 0x8000_0000 * 0xffff_ffff) by (nonlinear_arith)
        requires mag <= 0x8000_0000, new_w <= 0xffff_ffff;
    let prod: u64 = mag * (new_w as u64);
    let q: u64 = prod / (old_w as u64);
    assert(q <= prod) by (nonlinear_arith)
        requires old_w >= 1, q as int == (prod as int) / (old_w as int), prod >= 0;
    let v: i64 = if x >= 0 { q as i64 } else { -(q as i64) };
    saturating_i32(v)
}

fn shift_x(x: i32, split: u32, old_w: u32, new_w: u32) -> (r: i32)
    ensures
        r == split_x(x, split, old_w, new_w),
{
    if x as i64 > split as i64 {
        saturating_i32(x as i64 - (old_w as i64 - new_w as i64))
    } else {
        x
    }
}

/// The x of an unlocked placement after the strip is cut at `split` from `old_w` to `new_w`.
pub open spec fn split_x(x: i32, split: u32, old_w: u32, new_w: u32) -> i32 {
    if x > split {
        saturate_i32(x - (old_w - new_w))
    } else {
        x
    }
}

/// Right edge of a placement, clamped to the width range.
pub open spec fn right_edge(p: Placement, items: Seq<Item>) -> u32 {
    let e = p.transf.x + items[p.item_id as int].x_reach;
    if e < 0 {
        0
    } else if e > u32::MAX {
        u32::MAX
    } else {
        e as u32
    }
}

/// The tightest strip width holding every live placement.
pub open spec fn fit_width(s: Seq<Option<Placement>>, items: Seq<Item>) -> u32
    decreases s.len(),
{
    if s.len() == 0 {
        0
    } else {
        let w = fit_width(s.drop_last(), items);
        match s.last() {
            Some(p) => if right_edge(p, items) > w { right_edge(p, items) } else { w },
            None => w,
        }
    }
}

/// Slot `k` of `s` holds a locked placement.
pub open spec fn locked_at(s: Seq<Option<Placement>>, k: int) -> bool {
    0 <= k < s.len() && s[k] is Some && s[k]->0.is_locked
}

/// The two layouts have the same locked placements, in the same slots.
pub open spec fn same_locked(a: Seq<Option<Placement>>, b: Seq<Option<Placement>>) -> bool {
    forall|k: int| (#[trigger] locked_at(a, k) <==> #[trigger] locked_at(b, k)) && (locked_at(a, k) ==> a[k] == b[k])
}

/// Each slot moved by `f` unless empty or locked.
pub open spec fn slots_moved(old_s: Seq<Option<Placement>>, new_s: Seq<Option<Placement>>, f: spec_fn(i32) -> i32) -> bool {
    &&& new_s.len() == old_s.len()
    &&& forall|k: int| 0 <= k < old_s.len() ==> #[trigger] new_s[k] == match old_s[k] {
            Some(p) => if p.is_locked {
                Some(p)
            } else {
                Some(Placement { transf: Transform { x: f(p.transf.x), ..p.transf }, ..p })
            },
            None => None,
        }
}

impl Problem {
    pub open spec fn state(&self) -> StateView {
        (self.strip_width, self.fixed_height, self.slots@, self.demand@)
    }

    pub open spec fn wf(&self) -> bool {
        state_valid(&self.instance, self.square, self.state())
    }

    pub open spec fn n_items(&self) -> int {
        self.instance.items@.len() as int
    }

    /// A problem with nothing placed and every demand outstanding. In square mode
    /// the strip starts as a square of the instance's height.
    pub fn new(instance: Instance, square: bool) -> (r: Self)
        ensures
            r.wf(),
            r.instance == instance,
            r.square == square,
            r.slots@.len() == 0,
            forall|i: int| 0 <= i < instance.items@.len() ==> r.demand@[i] == instance.items@[i].demand,
            r.fixed_height == instance.strip_height,
            r.strip_width == if square { instance.strip_height } else { instance.strip_width },
    {
        let mut demand: Vec<usize> = Vec::new();
        let mut i: usize = 0;
        while i < instance.items.len()
            invariant
                i <= instance.items@.len(),
                demand@.len() == i,
                forall|j: int| 0 <= j < i ==> demand@[j] == instance.items@[j].demand,
            decreases instance.items@.len() - i,
        {
            demand.push(instance.items[i].demand);
            i = i + 1;
        }
        let w = if square { instance.strip_height } else { instance.strip_width };
        let h = instance.strip_height;
        let r = Problem { instance, slots: Vec::new(), demand, strip_width: w, fixed_height: h, square };
        assert forall|i: int| 0 <= i < r.instance.items@.len() implies placed_count(r.slots@, i) + #[trigger] r.demand@[i]
            == r.instance.items@[i].demand by {}
        r
    }

    pub fn strip_width(&self) -> (r: u32)
        ensures
            r == self.strip_width,
    {
        self.strip_width
    }

    /// Number of slots ever used; every key below it was issued.
    pub fn n_slots(&self) -> (r: usize)
        ensures
            r == self.slots@.len(),
    {
        self.slots.len()
    }

    /// The placement under `key`, if it is live.
    pub fn placement(&self, key: PItemKey) -> (r: Option<Placement>)
        ensures
            key < self.slots@.len() ==> r == self.slots@[key as int],
            key >= self.slots@.len() ==> r.is_none(),
    {
        if key < self.slots.len() {
            self.slots[key]
        } else {
            None
        }
    }

    /// How many copies of `item_id` are placed: its declared demand minus what remains.
    pub fn remaining_demand(&self, item_id: usize) -> (r: usize)
        requires
            self.wf(),
            item_id < self.n_items(),
        ensures
            r == self.demand@[item_id as int],
            r + placed_count(self.slots@, item_id as int) == self.instance.items@[item_id as int].demand,
    {
        self.demand[item_id]
    }

    fn push_placement(&mut self, p: Placement) -> (key: PItemKey)
        requires
            old(self).wf(),
            p.item_id < old(self).n_items(),
            old(self).demand@[p.item_id as int] > 0,
            p.is_locked ==> old(self).instance.items@[p.item_id as int].fixed_placement == Some(p.transf),
        ensures
            final(self).wf(),
            key == old(self).slots@.len(),
            final(self).slots@ == old(self).slots@.push(Some(p)),
            final(self).demand@ == old(self).demand@.update(p.item_id as int, (old(self).demand@[p.item_id as int] - 1) as usize),
            final(self).instance == old(self).instance,
            final(self).strip_width == old(self).strip_width,
            final(self).fixed_height == old(self).fixed_height,
            final(self).square == old(self).square,
    {
        let ghost s0 = self.slots@;
        let key = self.slots.len();
        self.slots.push(Some(p));
        let d = self.demand[p.item_id];
        self.demand.set(p.item_id, d - 1);
        assert forall|i: int| 0 <= i < self.instance.items@.len() implies placed_count(self.slots@, i)
            + #[trigger] self.demand@[i] == self.instance.items@[i].demand by {
            lemma_placed_count_push(s0, Some(p), i);
        }
        assert forall|k: int| 0 <= k < self.slots@.len() && (#[trigger] self.slots@[k]) is Some implies {
            let q = self.slots@[k]->0;
            &&& q.item_id < self.instance.items@.len()
            &&& q.is_locked ==> self.instance.items@[q.item_id as int].fixed_placement == Some(q.transf)
        } by {
            if k < s0.len() {
                assert(self.slots@[k] == s0[k]);
            }
        }
        key
    }

    /// Places a free (unlocked) copy of `item_id` at `transf`.
    pub fn place_item(&mut self, item_id: usize, transf: Transform) -> (key: PItemKey)
        requires
            old(self).wf(),
            item_id < old(self).n_items(),
            old(self).demand@[item_id as int] > 0,
        ensures
            final(self).wf(),
            key == old(self).slots@.len(),
            final(self).slots@ == old(self).slots@.push(Some(Placement { item_id, transf, is_locked: false })),
            final(self).demand@ == old(self).demand@.update(item_id as int, (old(self).demand@[item_id as int] - 1) as usize),
            final(self).instance == old(self).instance,
            final(self).strip_width == old(self).strip_width,
            final(self).fixed_height == old(self).fixed_height,
            final(self).square == old(self).square,
    {
        self.push_placement(Placement { item_id, transf, is_locked: false })
    }

    /// Places a locked copy of `item_id` at its fixed placement.
    pub fn place_fixed_item(&mut self, item_id: usize) -> (key: PItemKey)
        requires
            old(self).wf(),
            item_id < old(self).n_items(),
            old(self).demand@[item_id as int] > 0,
            old(self).instance.items@[item_id as int].fixed_placement is Some,
        ensures
            final(self).wf(),
            key == old(self).slots@.len(),
            final(self).slots@ == old(self).slots@.push(Some(Placement {
                item_id,
                transf: old(self).instance.items@[item_id as int].fixed_placement->0,
                is_locked: true,
            })),
            final(self).demand@ == old(self).demand@.update(item_id as int, (old(self).demand@[item_id as int] - 1) as usize),
            final(self).instance == old(self).instance,
            final(self).strip_width == old(self).strip_width,
            final(self).fixed_height == old(self).fixed_height,
            final(self).square == old(self).square,
    {
        let transf = match self.instance.items[item_id].fixed_placement {
            Some(t) => t,
            None => Transform { x: 0, y: 0, rot: 0 },
        };
        self.push_placement(Placement { item_id, transf, is_locked: true })
    }

    /// Removes the unlocked placement under `key`; its item's demand grows back by one.
    pub fn remove_item(&mut self, key: PItemKey) -> (p: Placement)
        requires
            old(self).wf(),
            key < old(self).slots@.len(),
            old(self).slots@[key as int] is Some,
            !old(self).slots@[key as int]->0.is_locked,
        ensures
            final(self).wf(),
            Some(p) == old(self).slots@[key as int],
            p.item_id < old(self).n_items(),
            final(self).demand@[p.item_id as int] == old(self).demand@[p.item_id as int] + 1,
            final(self).slots@ == old(self).slots@.update(key as int, None),
            final(self).demand@ == old(self).demand@.update(p.item_id as int, (old(self).demand@[p.item_id as int] + 1) as usize),
            final(self).instance == old(self).instance,
            final(self).strip_width == old(self).strip_width,
            final(self).fixed_height == old(self).fixed_height,
            final(self).square == old(self).square,
    {
        let ghost s0 = self.slots@;
        let p = match self.slots[key] {
            Some(p) => p,
            None => Placement { item_id: 0, transf: Transform { x: 0, y: 0, rot: 0 }, is_locked: false },
        };
        self.slots.set(key, None);
        proof { lemma_placed_count_update(s0, key as int, None, p.item_id as int); }
        assert(placed_count(s0, p.item_id as int) >= 1) by {
            lemma_placed_count_update(s0, key as int, None, p.item_id as int);
            lemma_placed_count_nonneg(self.slots@, p.item_id as int);
        }
        let d = self.demand[p.item_id];
        self.demand.set(p.item_id, d + 1);
        assert forall|i: int| 0 <= i < self.instance.items@.len() implies placed_count(self.slots@, i)
            + #[trigger] self.demand@[i] == self.instance.items@[i].demand by {
            lemma_placed_count_update(s0, key as int, None, i);
        }
        assert forall|k: int| 0 <= k < self.slots@.len() && (#[trigger] self.slots@[k]) is Some implies {
            let q = self.slots@[k]->0;
            &&& q.item_id < self.instance.items@.len()
            &&& q.is_locked ==> self.instance.items@[q.item_id as int].fixed_placement == Some(q.transf)
        } by {
            assert(self.slots@[k] == s0[k]);
        }
        p
    }

    /// Moves the unlocked placement under `key` to `transf`. The old key dies and
    /// the placement lives on under the returned one.
    pub fn move_item(&mut self, key: PItemKey, transf: Transform) -> (new_key: PItemKey)
        requires
            old(self).wf(),
            key < old(self).slots@.len(),
            old(self).slots@[key as int] is Some,
            !old(self).slots@[key as int]->0.is_locked,
        ensures
            final(self).wf(),
            new_key == old(self).slots@.len(),
            final(self).slots@ == old(self).slots@.update(key as int, None).push(
                Some(Placement { item_id: old(self).slots@[key as int]->0.item_id, transf, is_locked: false }),
            ),
            final(self).demand@ == old(self).demand@,
            final(self).instance == old(self).instance,
            final(self).strip_width == old(self).strip_width,
            final(self).fixed_height == old(self).fixed_height,
            final(self).square == old(self).square,
    {
        let p = self.remove_item(key);
        let r = self.place_item(p.item_id, transf);
        assert(self.demand@ =~= old(self).demand@);
        r
    }

    fn set_width(&mut self, new_width: u32)
        requires
            old(self).wf(),
        ensures
            final(self).strip_width == new_width,
            final(self).fixed_height == if old(self).square { new_width } else { old(self).fixed_height },
            final(self).slots == old(self).slots,
            final(self).demand == old(self).demand,
            final(self).instance == old(self).instance,
            final(self).square == old(self).square,
            final(self).wf(),
    {
        self.strip_width = new_width;
        if self.square {
            self.fixed_height = new_width;
        }
    }

    /// Resizes the strip to `new_width`, scaling the x of every unlocked placement
    /// by `new_width / old width` (rounded toward zero, saturating at the
    /// coordinate range). Locked placements stay. In square mode the height follows.
    pub fn change_strip_width_rescale(&mut self, new_width: u32)
        requires
            old(self).wf(),
        ensures
            final(self).wf(),
            final(self).strip_width == new_width,
            final(self).fixed_height == if old(self).square { new_width } else { old(self).fixed_height },
            slots_moved(old(self).slots@, final(self).slots@, |x: i32| rescaled_x(x, old(self).strip_width, new_width)),
            final(self).demand == old(self).demand,
            final(self).instance == old(self).instance,
            final(self).square == old(self).square,
    {
        let old_w = self.strip_width;
        let ghost f = |x: i32| rescaled_x(x, old_w, new_width);
        let ghost s0 = self.slots@;
        let mut k: usize = 0;
        while k < self.slots.len()
            invariant
                self.slots@.len() == s0.len(),
                k <= s0.len(),
                self.strip_width == old_w,
                self.fixed_height == old(self).fixed_height,
                self.demand == old(self).demand,
                self.instance == old(self).instance,
                self.square == old(self).square,
                forall|j: int| k <= j < s0.len() ==> self.slots@[j] == s0[j],
                forall|j: int| 0 <= j < k ==> #[trigger] self.slots@[j] == match s0[j] {
                    Some(p) => if p.is_locked {
                        Some(p)
                    } else {
                        Some(Placement { transf: Transform { x: rescaled_x(p.transf.x, old_w, new_width), ..p.transf }, ..p })
                    },
                    None => None,
                },
            decreases s0.len() - k,
        {
            if let Some(p) = self.slots[k] {
                if !p.is_locked {
                    let nx = rescale_x(p.transf.x, old_w, new_width);
                                        self.slots.set(k, Some(Placement { transf: Transform { x: nx, ..p.transf }, ..p }));
                }
            }
            k = k + 1;
        }
        assert(slots_moved(s0, self.slots@, f));
        proof { lemma_moved_keeps_valid(&self.instance, self.square, old(self).state(), self.state(), f); }
        self.set_width(new_width);
    }

    /// Resizes the strip to `new_width` by cutting it at `split`: unlocked
    /// placements strictly right of the split shift left by the lost width (right
    /// if the strip grows), others stay. In square mode the height follows.
    pub fn change_strip_width_split(&mut self, new_width: u32, split: u32)
        requires
            old(self).wf(),
        ensures
            final(self).wf(),
            final(self).strip_width == new_width,
            final(self).fixed_height == if old(self).square { new_width } else { old(self).fixed_height },
            slots_moved(old(self).slots@, final(self).slots@, |x: i32| split_x(x, split, old(self).strip_width, new_width)),
            final(self).demand == old(self).demand,
            final(self).instance == old(self).instance,
            final(self).square == old(self).square,
    {
        let old_w = self.strip_width;
        let ghost f = |x: i32| split_x(x, split, old_w, new_width);
        let ghost s0 = self.slots@;
        let mut k: usize = 0;
        while k < self.slots.len()
            invariant
                self.slots@.len() == s0.len(),
                k <= s0.len(),
                self.strip_width == old_w,
                self.fixed_height == old(self).fixed_height,
                self.demand == old(self).demand,
                self.instance == old(self).instance,
                self.square == old(self).square,
                forall|j: int| k <= j < s0.len() ==> self.slots@[j] == s0[j],
                forall|j: int| 0 <= j < k ==> #[trigger] self.slots@[j] == match s0[j] {
                    Some(p) => if p.is_locked {
                        Some(p)
                    } else {
                        Some(Placement { transf: Transform { x: split_x(p.transf.x, split, old_w, new_width), ..p.transf }, ..p })
                    },
                    None => None,
                },
            decreases s0.len() - k,
        {
            if let Some(p) = self.slots[k] {
                if !p.is_locked {
                    let nx = shift_x(p.transf.x, split, old_w, new_width);
                                        self.slots.set(k, Some(Placement { transf: Transform { x: nx, ..p.transf }, ..p }));
                }
            }
            k = k + 1;
        }
        assert(slots_moved(s0, self.slots@, f));
        proof { lemma_moved_keeps_valid(&self.instance, self.square, old(self).state(), self.state(), f); }
        self.set_width(new_width);
    }

    /// Resizes the strip without moving any placement. In square mode the
    /// height follows.
    pub fn resize_strip(&mut self, new_width: u32)
        requires
            old(self).wf(),
        ensures
            final(self).strip_width == new_width,
            final(self).fixed_height == if old(self).square { new_width } else { old(self).fixed_height },
            final(self).slots == old(self).slots,
            final(self).demand == old(self).demand,
            final(self).instance == old(self).instance,
            final(self).square == old(self).square,
            final(self).wf(),
    {
        self.set_width(new_width);
    }

    /// Shrinks (or grows) the strip to the tightest width holding every
    /// placement: the largest right edge `x + x_reach`, clamped to the width
    /// range; zero when nothing is placed.
    pub fn fit_strip(&mut self)
        requires
            old(self).wf(),
        ensures
            final(self).wf(),
            final(self).strip_width == fit_width(old(self).slots@, old(self).instance.items@),
            final(self).fixed_height == if old(self).square { final(self).strip_width } else { old(self).fixed_height },
            final(self).slots == old(self).slots,
            final(self).demand == old(self).demand,
            final(self).instance == old(self).instance,
            final(self).square == old(self).square,
    {
        let mut w: u32 = 0;
        let mut k: usize = 0;
        while k < self.slots.len()
            invariant
                self.wf(),
                k <= self.slots@.len(),
                w == fit_width(self.slots@.take(k as int), self.instance.items@),
            decreases self.slots@.len() - k,
        {
            assert(self.slots@.take(k as int + 1).drop_last() =~= self.slots@.take(k as int));
            assert(self.slots@.take(k as int + 1).last() == self.slots@[k as int]);
            if let Some(p) = self.slots[k] {
                assert(self.slots@[k as int] is Some);
                let reach = self.instance.items[p.item_id].x_reach;
                let edge: i64 = p.transf.x as i64 + reach as i64;
                let e: u32 = if edge < 0 { 0 } else if edge > u32::MAX as i64 { u32::MAX } else { edge as u32 };
                if e > w {
                    w = e;
                }
            }
            k = k + 1;
        }
        assert(self.slots@.take(self.slots@.len() as int) =~= self.slots@);
        self.set_width(w);
    }

    /// A snapshot of the current state.
    pub fn save(&self) -> (s: Solution)
        ensures
            s.view() == self.state(),
    {
        Solution {
            strip_width: self.strip_width,
            fixed_height: self.fixed_height,
            slots: copy_slots(&self.slots),
            demand: copy_demand(&self.demand),
        }
    }

    /// Restores the state held by `sol`.
    pub fn rollback(&mut self, sol: &Solution)
        requires
            state_valid(&old(self).instance, old(self).square, sol.view()),
        ensures
            final(self).wf(),
            final(self).state() == sol.view(),
            final(self).instance == old(self).instance,
            final(self).square == old(self).square,
    {
        self.strip_width = sol.strip_width;
        self.fixed_height = sol.fixed_height;
        self.slots = copy_slots(&sol.slots);
        self.demand = copy_demand(&sol.demand);
    }
}

pub proof fn lemma_placed_count_nonneg(s: Seq<Option<Placement>>, id: int)
    ensures
        placed_count(s, id) >= 0,
    decreases s.len(),
{
    if s.len() > 0 {
        lemma_placed_count_nonneg(s.drop_last(), id);
    }
}

fn copy_slots(v: &Vec<Option<Placement>>) -> (r: Vec<Option<Placement>>)
    ensures
        r@ == v@,
{
    let mut r: Vec<Option<Placement>> = Vec::new();
    let mut i: usize = 0;
    while i < v.len()
        invariant
            i <= v@.len(),
            r@ == v@.take(i as int),
        decreases v@.len() - i,
    {
        r.push(v[i]);
        i = i + 1;
        assert(r@ =~= v@.take(i as int));
    }
    assert(v@.take(v@.len() as int) =~= v@);
    r
}

fn copy_demand(v: &Vec<usize>) -> (r: Vec<usize>)
    ensures
        r@ == v@,
{
    let mut r: Vec<usize> = Vec::new();
    let mut i: usize = 0;
    while i < v.len()
        invariant
            i <= v@.len(),
            r@ == v@.take(i as int),
        decreases v@.len() - i,
    {
        r.push(v[i]);
        i = i + 1;
        assert(r@ =~= v@.take(i as int));
    }
    assert(v@.take(v@.len() as int) =~= v@);
    r
}

proof fn lemma_moved_keeps_valid(inst: &Instance, square: bool, a: StateView, b: StateView, f: spec_fn(i32) -> i32)
    requires
        state_valid(inst, square, a),
        slots_moved(a.2, b.2, f),
        a.0 == b.0,
        a.1 == b.1,
        a.3 == b.3,
    ensures
        state_valid(inst, square, b),
{
    assert forall|i: int| 0 <= i < inst.items@.len() implies placed_count(b.2, i) + #[trigger] b.3[i]
        == inst.items@[i].demand by {
        lemma_moved_count(a.2, b.2, f, i);
    }
}

proof fn lemma_moved_count(s: Seq<Option<Placement>>, t: Seq<Option<Placement>>, f: spec_fn(i32) -> i32, id: int)
    requires
        slots_moved(s, t, f),
    ensures
        placed_count(t, id) == placed_count(s, id),
    decreases s.len(),
{
    if s.len() > 0 {
        assert(t[t.len() - 1] == t.last());
        assert(s[s.len() - 1] == s.last());
        assert(slots_moved(s.drop_last(), t.drop_last(), f)) by {
            assert forall|k: int| 0 <= k < s.drop_last().len() implies #[trigger] t.drop_last()[k] == match s.drop_last()[k] {
                Some(p) => if p.is_locked {
                    Some(p)
                } else {
                    Some(Placement { transf: Transform { x: f(p.transf.x), ..p.transf }, ..p })
                },
                None => None,
            } by {
                assert(t.drop_last()[k] == t[k]);
                assert(s.drop_last()[k] == s[k]);
            }
        }
        lemma_moved_count(s.drop_last(), t.drop_last(), f, id);
    }
}

/// Rescaling the strip to the width it already has moves no placement; so
/// rescaling twice to the same width moves nothing the second time.
pub proof fn lemma_rescale_same_width_noop(s: Seq<Option<Placement>>, t: Seq<Option<Placement>>, w: u32)
    requires
        slots_moved(s, t, |x: i32| rescaled_x(x, w, w)),
    ensures
        t == s,
{
    assert forall|x: i32| #[trigger] rescaled_x(x, w, w) == x by {
        if w != 0 {
            let a: int = if x >= 0 { x as int } else { -(x as int) };
            assert((a * w) / (w as int) == a) by (nonlinear_arith)
                requires w > 0, a >= 0;
        }
    }
    assert forall|k: int| 0 <= k < s.len() implies t[k] == s[k] by {
        match s[k] {
            Some(p) => {
                assert(t[k] == match s[k] {
                    Some(p) => if p.is_locked {
                        Some(p)
                    } else {
                        Some(Placement { transf: Transform { x: rescaled_x(p.transf.x, w, w), ..p.transf }, ..p })
                    },
                    None => None,
                });
            },
            None => {},
        }
    }
    assert(t =~= s);
}

/// In every valid state, each placed copy plus the remaining demand of an item
/// adds up to its declared demand.
pub proof fn lemma_demand_bookkeeping(inst: &Instance, square: bool, st: StateView, i: int)
    requires
        state_valid(inst, square, st),
        0 <= i < inst.items@.len(),
    ensures
        placed_count(st.2, i) + st.3[i] == inst.items@[i].demand,
{
}

/// In every valid state, each locked placement sits at its item's fixed placement.
pub proof fn lemma_locked_at_fixed(inst: &Instance, square: bool, st: StateView, k: int)
    requires
        state_valid(inst, square, st),
        0 <= k < st.2.len(),
        st.2[k] is Some,
        st.2[k]->0.is_locked,
    ensures
        inst.items@[st.2[k]->0.item_id as int].fixed_placement == Some(st.2[k]->0.transf),
{
}

/// Restoring a snapshot and taking a new one gives back the same snapshot:
/// `after` is a problem as `Problem::rollback(sol)` leaves it (its state is the
/// snapshot's), and `again` is what `Problem::save` then returns (the state).
pub proof fn lemma_rollback_then_save(before: Problem, sol: Solution, after: Problem, again: Solution)
    requires
        state_valid(&before.instance, before.square, sol.view()),
        after.state() == sol.view(),
        after.instance == before.instance,
        again.view() == after.state(),
    ensures
        again.view() == sol.view(),
{
}

} // verus!
