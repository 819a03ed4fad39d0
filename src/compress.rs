use vstd::prelude::*;

use rand_xoshiro::Xoshiro256PlusPlus;

use crate::config::{CompressionConfig, ShrinkDecayStrategy};
use crate::explore::{shrink_width, shrunk};
use crate::outside::random_below;
use crate::problem::{locked_at, Placement, same_locked, slots_moved, split_x, state_valid, Problem, Solution};
use crate::PPM;

verus! {

/// `r` scaled `n` times by `d` parts per million, rounding down at each step and
/// saturating at the largest `u64`.
pub open spec fn decayed(r: u64, d: u64, n: nat) -> u64
    decreases n,
{
    if n == 0 {
        r
    } else {
        let v = (decayed(r, d, (n - 1) as nat) * d) / (PPM as int);
        if v > u64::MAX {
            u64::MAX
        } else {
            v as u64
        }
    }
}

/// The step after `elapsed` of `limit` milliseconds: falling linearly from the
/// largest step to the smallest over the time limit (and on below it after),
/// never under zero. With no time allowed the step is zero.
pub open spec fn time_based_step(r_max: u64, r_min: u64, elapsed: u64, limit: u64) -> u64 {
    if limit == 0 {
        0
    } else {
        let span = r_max - r_min;
        let v = if span >= 0 {
            r_max - (span * elapsed) / (limit as int)
        } else {
            r_max + ((-span) * elapsed) / (limit as int)
        };
        if v < 0 {
            0
        } else if v > u64::MAX {
            u64::MAX
        } else {
            v as u64
        }
    }
}

/// The compression step (parts per million) after `elapsed_ms` and `n_failed` failures.
pub open spec fn step_of(config: CompressionConfig, elapsed_ms: u64, n_failed: u64) -> u64 {
    match config.shrink_decay {
        ShrinkDecayStrategy::TimeBased => time_based_step(
            config.shrink_range.0,
            config.shrink_range.1,
            elapsed_ms,
            if config.time_limit_secs > u64::MAX / 1000 { u64::MAX } else { (config.time_limit_secs * 1000) as u64 },
        ),
        ShrinkDecayStrategy::FailureBased(d) => decayed(config.shrink_range.0, d, n_failed as nat),
    }
}

pub fn shrink_step_ppm(config: &CompressionConfig, elapsed_ms: u64, n_failed: u64) -> (r: u64)
    ensures
        r == step_of(*config, elapsed_ms, n_failed),
{
    match config.shrink_decay {
        ShrinkDecayStrategy::TimeBased => {
            let limit: u64 = if config.time_limit_secs > u64::MAX / 1000 { u64::MAX } else { config.time_limit_secs * 1000 };
            if limit == 0 {
                return 0;
            }
            let (r_max, r_min) = config.shrink_range;
            let e = elapsed_ms as u128;
            if r_max >= r_min {
                let span = (r_max - r_min) as u128;
                assert(span * e <= 0xffff_ffff_ffff_ffff * 0xffff_ffff_ffff_ffff) by (nonlinear_arith)
                    requires span <= 0xffff_ffff_ffff_ffff, e <= 0xffff_ffff_ffff_ffff;
                let drop = span * e / (limit as u128);
                if drop > r_max as u128 { 0 } else { r_max - drop as u64 }
            } else {
                let span = (r_min - r_max) as u128;
                assert(span * e <= 0xffff_ffff_ffff_ffff * 0xffff_ffff_ffff_ffff) by (nonlinear_arith)
                    requires span <= 0xffff_ffff_ffff_ffff, e <= 0xffff_ffff_ffff_ffff;
                let rise = span * e / (limit as u128);
                let v = r_max as u128 + rise;
                if v > u64::MAX as u128 { u64::MAX } else { v as u64 }
            }
        },
        ShrinkDecayStrategy::FailureBased(d) => {
            let mut v: u64 = config.shrink_range.0;
            let mut k: u64 = 0;
            while k < n_failed
                invariant
                    k <= n_failed,
                    v == decayed(config.shrink_range.0, d, k as nat),
                decreases n_failed - k,
            {
                let a = v as u128;
                let b = d as u128;
                assert(a * b <= 0xffff_ffff_ffff_ffff * 0xffff_ffff_ffff_ffff) by (nonlinear_arith)
                    requires a <= 0xffff_ffff_ffff_ffff, b <= 0xffff_ffff_ffff_ffff;
                let p = a * b;
                let q = p / (PPM as u128);
                v = if q > u64::MAX as u128 { u64::MAX } else { q as u64 };
                k = k + 1;
            }
            v
        },
    }
}

/// The state of the compression loop between two separations.
pub struct CompressionPhase {
    pub config: CompressionConfig,
    /// The narrowest feasible snapshot so far.
    pub best: Solution,
    pub n_failed_attempts: u64,
}

impl CompressionPhase {
    pub open spec fn wf(&self, prob: &Problem) -> bool {
        &&& prob.wf()
        &&& state_valid(&prob.instance, prob.square, self.best.view())
        &&& same_locked(self.best.slots@, prob.slots@)
    }

    /// The step to try after `elapsed_ms`, or `None` once it has fallen below the
    /// smallest step and compression is over.
    pub fn next_step(&self, elapsed_ms: u64) -> (r: Option<u64>)
        ensures
            r == if step_of(self.config, elapsed_ms, self.n_failed_attempts) >= self.config.shrink_range.1 {
                Some(step_of(self.config, elapsed_ms, self.n_failed_attempts))
            } else {
                None::<u64>
            },
    {
        let step = shrink_step_ppm(&self.config, elapsed_ms, self.n_failed_attempts);
        if step >= self.config.shrink_range.1 {
            Some(step)
        } else {
            None
        }
    }

    /// Prepares one attempt: the problem is restored to the best snapshot, then
    /// its strip is cut at a random position below its width, to the best width
    /// shrunk by `step_ppm`. Returns the split position.
    pub fn attempt_to_compress(&self, prob: &mut Problem, step_ppm: u64, rng: &mut Xoshiro256PlusPlus) -> (split: u32)
        requires
            self.wf(old(prob)),
        ensures
            self.wf(final(prob)),
            final(prob).instance == old(prob).instance,
            final(prob).square == old(prob).square,
            final(prob).strip_width == shrunk(self.best.strip_width, step_ppm),
            final(prob).demand@ == self.best.demand@,
            self.best.strip_width > 0 ==> split < self.best.strip_width,
            self.best.strip_width == 0 ==> split == 0,
            step_ppm > 0 && self.best.strip_width > 0 ==> final(prob).strip_width < self.best.strip_width,
            slots_moved(self.best.slots@, final(prob).slots@, |x: i32| split_x(x, split, self.best.strip_width, shrunk(self.best.strip_width, step_ppm))),
    {
        prob.rollback(&self.best);
        let w = prob.strip_width;
        let new_width = shrink_width(w, step_ppm);
        let split: u32 = if w > 0 { random_below(rng, w as u64) as u32 } else { 0 };
        prob.change_strip_width_split(new_width, split);
        split
    }

    /// Takes the outcome of separating the shrunk strip: `sol`, a snapshot of
    /// `prob` at its width with its locked placements, and its loss. A loss of
    /// zero makes `sol` the new best (`true`); otherwise the failure is counted.
    pub fn on_separated(&mut self, prob: &Problem, sol: Solution, loss: u64) -> (accepted: bool)
        requires
            old(self).wf(prob),
            state_valid(&prob.instance, prob.square, sol.view()),
            sol.strip_width == prob.strip_width,
            same_locked(sol.slots@, prob.slots@),
        ensures
            final(self).wf(prob),
            same_locked(final(self).best.slots@, old(self).best.slots@),
            loss == 0 ==> final(self).best.strip_width == prob.strip_width,
            final(self).config == old(self).config,
            accepted == (loss == 0),
            loss == 0 ==> final(self).best == sol && final(self).n_failed_attempts == old(self).n_failed_attempts,
            loss != 0 ==> final(self).best == old(self).best && final(self).n_failed_attempts == if old(self).n_failed_attempts
                < u64::MAX {
                old(self).n_failed_attempts + 1
            } else {
                old(self).n_failed_attempts as int
            },
    {
        if loss == 0 {
            proof { lemma_same_locked_trans(sol.slots@, prob.slots@, self.best.slots@); }
            self.best = sol;
            true
        } else {
            if self.n_failed_attempts < u64::MAX {
                self.n_failed_attempts = self.n_failed_attempts + 1;
            }
            false
        }
    }

    /// The narrowest feasible snapshot found.
    pub fn best(&self) -> (r: &Solution)
        ensures
            r == &self.best,
    {
        &self.best
    }
}

/// Starts compression from the feasible snapshot `init_sol`, which has the
/// problem's locked placements.
pub fn compression_phase(prob: &Problem, init_sol: Solution, config: CompressionConfig) -> (r: CompressionPhase)
    requires
        prob.wf(),
        state_valid(&prob.instance, prob.square, init_sol.view()),
        same_locked(init_sol.slots@, prob.slots@),
    ensures
        r.wf(prob),
        r.best == init_sol,
        r.n_failed_attempts == 0,
        r.config == config,
{
    CompressionPhase { config, best: init_sol, n_failed_attempts: 0 }
}

/// Having the same locked placements is transitive.
pub proof fn lemma_same_locked_trans(a: Seq<Option<Placement>>, b: Seq<Option<Placement>>, c: Seq<Option<Placement>>)
    requires
        same_locked(a, b),
        same_locked(c, b),
    ensures
        same_locked(a, c),
        same_locked(c, a),
{
    assert forall|k: int| (#[trigger] locked_at(a, k) <==> #[trigger] locked_at(c, k)) && (locked_at(a, k) ==> a[k] == c[k]) by {
        assert(locked_at(a, k) <==> locked_at(b, k));
        assert(locked_at(c, k) <==> locked_at(b, k));
    }
    assert forall|k: int| (#[trigger] locked_at(c, k) <==> #[trigger] locked_at(a, k)) && (locked_at(c, k) ==> c[k] == a[k]) by {
        assert(locked_at(a, k) <==> locked_at(b, k));
        assert(locked_at(c, k) <==> locked_at(b, k));
    }
}

} // verus!
