use vstd::prelude::*;

use crate::config::SeparatorConfig;
use crate::explore::failures_after;
use crate::problem::{state_valid, PItemKey, Problem, Solution};
use crate::PPM;

verus! {

/// Weight growth of a pair that still overlaps at a strike, in parts per million.
pub const WEIGHT_GROWTH_PPM: u64 = 1_200_000;
/// Weight decay of a pair that no longer overlaps, in parts per million.
pub const WEIGHT_DECAY_PPM: u64 = 950_000;

/// Slot `k` holds a live, unlocked placement.
pub open spec fn is_movable(prob: Problem, k: int) -> bool {
    0 <= k < prob.slots@.len() && prob.slots@[k] is Some && !prob.slots@[k]->0.is_locked
}

/// The key of the movable placement with the largest positive loss, the first
/// on ties; `losses` is indexed by key. `None` when no movable placement has loss.
pub fn pick_target(prob: &Problem, losses: &Vec<u64>) -> (r: Option<PItemKey>)
    ensures
        r is Some ==> {
            let k = r->0 as int;
            &&& is_movable(*prob, k)
            &&& k < losses@.len()
            &&& losses@[k] > 0
            &&& forall|j: int| is_movable(*prob, j) && j < losses@.len() ==> losses@[j] <= #[trigger] losses@[k]
            &&& forall|j: int| 0 <= j < k && is_movable(*prob, j) && j < losses@.len() ==> #[trigger] losses@[j] < losses@[k]
        },
        r is None ==> forall|j: int| is_movable(*prob, j) && j < losses@.len() ==> #[trigger] losses@[j] == 0,
{
    let n = if prob.slots.len() < losses.len() { prob.slots.len() } else { losses.len() };
    let mut best: Option<PItemKey> = None;
    let mut best_loss: u64 = 0;
    let mut k: usize = 0;
    while k < n
        invariant
            n <= prob.slots@.len(),
            n <= losses@.len(),
            k <= n,
            best is None ==> best_loss == 0,
            best is Some ==> {
                let b = best->0 as int;
                &&& b < k
                &&& is_movable(*prob, b)
                &&& losses@[b] == best_loss
                &&& best_loss > 0
                &&& forall|j: int| 0 <= j < b && is_movable(*prob, j) ==> #[trigger] losses@[j] < best_loss
            },
            forall|j: int| 0 <= j < k && is_movable(*prob, j) ==> #[trigger] losses@[j] <= best_loss,
        decreases n - k,
    {
        if let Some(p) = prob.slots[k] {
            if !p.is_locked && losses[k] > best_loss {
                best = Some(k);
                best_loss = losses[k];
            }
        }
        k = k + 1;
    }
    best
}

/// A pair weight after a strike: grown by a fifth (at least by one) while the
/// pair overlaps, else decayed by a twentieth, never below one.
pub open spec fn next_weight(w: u64, overlapping: bool) -> u64 {
    if overlapping {
        let g = (w * WEIGHT_GROWTH_PPM) / (PPM as int);
        let g2 = if g > w { g } else { w + 1 };
        if g2 > u64::MAX { u64::MAX } else { g2 as u64 }
    } else {
        let d = (w * WEIGHT_DECAY_PPM) / (PPM as int);
        if d < 1 { 1 } else { d as u64 }
    }
}

/// Updates every pair weight for a strike; `overlapping` tells which pairs still overlap.
pub fn update_weights(weights: &mut Vec<u64>, overlapping: &Vec<bool>)
    requires
        old(weights)@.len() == overlapping@.len(),
    ensures
        final(weights)@.len() == old(weights)@.len(),
        forall|i: int| 0 <= i < old(weights)@.len() ==> #[trigger] final(weights)@[i] == next_weight(old(weights)@[i], overlapping@[i]),
{
    let mut i: usize = 0;
    while i < weights.len()
        invariant
            weights@.len() == old(weights)@.len(),
            weights@.len() == overlapping@.len(),
            i <= weights@.len(),
            forall|j: int| 0 <= j < i ==> #[trigger] weights@[j] == next_weight(old(weights)@[j], overlapping@[j]),
            forall|j: int| i <= j < weights@.len() ==> #[trigger] weights@[j] == old(weights)@[j],
        decreases weights@.len() - i,
    {
        let w = weights[i] as u128;
        assert(w * 1_200_000 <= 0xffff_ffff_ffff_ffff * 1_200_000) by (nonlinear_arith)
            requires w <= 0xffff_ffff_ffff_ffff;
        let nw: u64 = if overlapping[i] {
            let g = w * WEIGHT_GROWTH_PPM as u128 / PPM as u128;
            let g2 = if g > w { g } else { w + 1 };
            if g2 > u64::MAX as u128 { u64::MAX } else { g2 as u64 }
        } else {
            let d = w * WEIGHT_DECAY_PPM as u128 / PPM as u128;
            assert(d <= w) by (nonlinear_arith)
                requires d as int == (w * 950_000) / 1_000_000, w >= 0;
            if d < 1 { 1 } else { d as u64 }
        };
        weights.set(i, nw);
        i = i + 1;
    }
}

/// What the driver of a separation does next.
#[derive(Clone, Copy, Debug, PartialEq, Eq, Structural)]
pub enum SeparationAction {
    /// Move the worst placement and report the new total loss.
    Continue,
    /// A strike: the problem was restored to the best state; update the weights, then continue.
    Strike,
    /// Separation is over: the best state is the result.
    Finish,
}

/// The state of a separation between two moves.
pub struct SeparationState {
    pub config: SeparatorConfig,
    /// The lowest-loss state seen, and its loss.
    pub best: Solution,
    pub best_loss: u64,
    pub n_iter_no_imprv: usize,
    pub n_strikes: usize,
    pub done: bool,
}

impl SeparationState {
    pub open spec fn wf(&self, prob: &Problem) -> bool {
        &&& prob.wf()
        &&& state_valid(&prob.instance, prob.square, self.best.view())
        &&& self.best.strip_width == prob.strip_width
        &&& self.best.fixed_height == prob.fixed_height
    }

    /// Starts a separation of `prob`, whose total loss is `loss`; a layout
    /// without loss is done at once.
    pub fn start(prob: &Problem, loss: u64, config: SeparatorConfig) -> (r: Self)
        requires
            prob.wf(),
        ensures
            r.wf(prob),
            r.best.view() == prob.state(),
            r.best_loss == loss,
            r.n_iter_no_imprv == 0,
            r.n_strikes == 0,
            r.done == (loss == 0),
            r.config == config,
    {
        SeparationState { config, best: prob.save(), best_loss: loss, n_iter_no_imprv: 0, n_strikes: 0, done: loss == 0 }
    }

    /// Takes the total loss after one move. A new lowest loss becomes the best
    /// state (and ends the separation at zero). Otherwise the iteration counts
    /// as one without improvement; when those reach the limit a strike is
    /// counted and the problem is restored to the best state, and once strikes
    /// reach their limit the separation is over.
    pub fn on_iteration(&mut self, prob: &mut Problem, loss: u64) -> (r: SeparationAction)
        requires
            old(self).wf(old(prob)),
            !old(self).done,
        ensures
            final(self).wf(final(prob)),
            final(self).config == old(self).config,
            final(self).best_loss <= old(self).best_loss,
            final(self).best_loss <= loss,
            final(prob).instance == old(prob).instance,
            final(prob).square == old(prob).square,
            loss < old(self).best_loss ==> {
                &&& final(self).best.view() == old(prob).state()
                &&& final(self).best_loss == loss
                &&& final(self).n_iter_no_imprv == 0
                &&& *final(prob) == *old(prob)
                &&& r == (if loss == 0 { SeparationAction::Finish } else { SeparationAction::Continue })
                &&& final(self).done == (loss == 0)
            },
            loss >= old(self).best_loss ==> {
                let n = failures_after(old(self).n_iter_no_imprv);
                &&& final(self).best == old(self).best
                &&& final(self).best_loss == old(self).best_loss
                &&& n < old(self).config.iter_no_imprv_limit ==> r == SeparationAction::Continue
                    && final(self).n_iter_no_imprv == n && *final(prob) == *old(prob) && !final(self).done
                &&& n >= old(self).config.iter_no_imprv_limit ==> {
                    &&& final(prob).state() == old(self).best.view()
                    &&& final(self).n_iter_no_imprv == 0
                    &&& final(self).n_strikes == failures_after(old(self).n_strikes)
                    &&& final(self).n_strikes >= old(self).config.strike_limit ==> r == SeparationAction::Finish && final(self).done
                    &&& final(self).n_strikes < old(self).config.strike_limit ==> r == SeparationAction::Strike && !final(self).done
                }
            },
    {
        if loss < self.best_loss {
            self.best = prob.save();
            self.best_loss = loss;
            self.n_iter_no_imprv = 0;
            if loss == 0 {
                self.done = true;
                return SeparationAction::Finish;
            }
            return SeparationAction::Continue;
        }
        let n: usize = if self.n_iter_no_imprv < usize::MAX { self.n_iter_no_imprv + 1 } else { usize::MAX };
        if self.n_iter_no_imprv < usize::MAX && n < self.config.iter_no_imprv_limit {
            self.n_iter_no_imprv = n;
            return SeparationAction::Continue;
        }
        self.n_iter_no_imprv = 0;
        if self.n_strikes < usize::MAX {
            self.n_strikes = self.n_strikes + 1;
        }
        prob.rollback(&self.best);
        if self.n_strikes >= self.config.strike_limit {
            self.done = true;
            SeparationAction::Finish
        } else {
            SeparationAction::Strike
        }
    }
}

} // verus!
