use vstd::prelude::*;

use crate::config::{ExplorationConfig, FailureCapPolicy};
use crate::problem::{rescaled_x, slots_moved, state_valid, Problem, Solution};
use crate::PPM;

verus! {

/// The width after shrinking `w` by `step_ppm` parts per million (rounded down).
pub open spec fn shrunk(w: u32, step_ppm: u64) -> u32 {
    if step_ppm >= PPM {
        0
    } else {
        ((w * (PPM - step_ppm)) / (PPM as int)) as u32
    }
}

/// The width after backing off by half a shrink step (rounded down, saturating).
pub open spec fn backed_off(w: u32, step_ppm: u64) -> u32 {
    let g = (w * (2 * PPM + step_ppm)) / (2 * PPM as int);
    if g > u32::MAX {
        u32::MAX
    } else {
        g as u32
    }
}

/// The pool index picked by a draw of `|N(0, stddev)|`, given in parts per
/// million: the draw is capped below one and scaled to the pool's length.
pub open spec fn pool_index(sample_ppm: u64, len: nat) -> int {
    let s = if sample_ppm > 999_000 { 999_000 } else { sample_ppm as int };
    (s * len) / (PPM as int)
}

pub fn shrink_width(w: u32, step_ppm: u64) -> (r: u32)
    ensures
        r == shrunk(w, step_ppm),
        w > 0 && step_ppm > 0 ==> r < w,
        r <= w,
{
    if step_ppm >= PPM {
        return 0;
    }
    let f: u64 = PPM - step_ppm;
    assert((w as u64) * f <= 0xffff_ffff * 1_000_000) by (nonlinear_arith)
        requires w <= 0xffff_ffff, f <= 1_000_000;
    let prod: u64 = w as u64 * f;
    assert(prod <= w * PPM) by (nonlinear_arith)
        requires prod == w * (PPM - step_ppm), step_ppm < PPM, w >= 0;
    let r = prod / PPM;
    assert(r <= w) by (nonlinear_arith)
        requires prod <= w * PPM, r as int == (prod as int) / (PPM as int), prod >= 0, w >= 0;
    assert(w > 0 && step_ppm > 0 ==> r < w) by (nonlinear_arith)
        requires prod == w * (PPM - step_ppm), r as int == (prod as int) / (PPM as int), prod >= 0, w >= 0, step_ppm < PPM;
    r as u32
}

pub fn back_off_width(w: u32, step_ppm: u64) -> (r: u32)
    ensures
        r == backed_off(w, step_ppm),
{
    let f: u128 = 2 * PPM as u128 + step_ppm as u128;
    assert((w as u128) * f <= 0xffff_ffff * 0x2_0000_0000_0000_0000) by (nonlinear_arith)
        requires w <= 0xffff_ffff, f <= 0x2_0000_0000_0000_0000;
    let prod: u128 = w as u128 * f;
    assert(prod <= 0xffff_ffff * (2 * PPM + 0xffff_ffff_ffff_ffff)) by (nonlinear_arith)
        requires prod == w * (2 * PPM + step_ppm), w <= 0xffff_ffff, step_ppm <= 0xffff_ffff_ffff_ffff;
    let g = prod / (2 * PPM as u128);
    if g > u32::MAX as u128 {
        u32::MAX
    } else {
        g as u32
    }
}

pub fn select_pool_index(sample_ppm: u64, len: usize) -> (r: usize)
    requires
        len > 0,
    ensures
        r == pool_index(sample_ppm, len as nat),
        r < len,
{
    let s: u128 = if sample_ppm > 999_000 { 999_000 } else { sample_ppm as u128 };
    assert(s * (len as u128) <= 1_000_000 * 0x1_0000_0000_0000_0000) by (nonlinear_arith)
        requires s <= 999_000, len <= 0xffff_ffff_ffff_ffff;
    let prod: u128 = s * len as u128;
    assert(prod < PPM * len) by (nonlinear_arith)
        requires prod == s * len, s <= 999_000, len > 0;
    let r = prod / (PPM as u128);
    assert(r < len) by (nonlinear_arith)
        requires prod < PPM * len, r as int == (prod as int) / (PPM as int), prod >= 0;
    r as usize
}

/// Losses in the pool ascend.
pub open spec fn pool_sorted(pool: Seq<(Solution, u64)>) -> bool {
    forall|i: int, j: int| 0 <= i < j < pool.len() ==> (#[trigger] pool[i]).1 <= (#[trigger] pool[j]).1
}

/// The number of pool entries whose loss is at most `loss`: where a new entry goes.
pub open spec fn pool_slot(pool: Seq<(Solution, u64)>, loss: u64, i: int) -> int
    decreases pool.len() - i,
{
    if i >= pool.len() {
        pool.len() as int
    } else if pool[i].1 > loss {
        i
    } else {
        pool_slot(pool, loss, i + 1)
    }
}

proof fn lemma_pool_slot(pool: Seq<(Solution, u64)>, loss: u64, i: int)
    requires
        0 <= i <= pool.len(),
        forall|k: int| 0 <= k < i ==> (#[trigger] pool[k]).1 <= loss,
    ensures
        i <= pool_slot(pool, loss, i) <= pool.len(),
        forall|k: int| 0 <= k < pool_slot(pool, loss, i) ==> (#[trigger] pool[k]).1 <= loss,
        pool_slot(pool, loss, i) < pool.len() ==> pool[pool_slot(pool, loss, i)].1 > loss,
    decreases pool.len() - i,
{
    if i < pool.len() && pool[i].1 <= loss {
        lemma_pool_slot(pool, loss, i + 1);
    }
}

/// Inserts `(sol, loss)` after every entry whose loss is at most `loss`.
pub fn insert_into_pool(pool: &mut Vec<(Solution, u64)>, sol: Solution, loss: u64)
    requires
        pool_sorted(old(pool)@),
    ensures
        final(pool)@ == old(pool)@.insert(pool_slot(old(pool)@, loss, 0), (sol, loss)),
        pool_sorted(final(pool)@),
{
    let ghost p0 = pool@;
    proof { lemma_pool_slot(p0, loss, 0); }
    let mut i: usize = 0;
    while i < pool.len() && pool[i].1 <= loss
        invariant
            pool@ == p0,
            0 <= i <= p0.len(),
            pool_slot(p0, loss, 0) == pool_slot(p0, loss, i as int),
        decreases p0.len() - i,
    {
        i = i + 1;
    }
    pool.insert(i, (sol, loss));
    let ghost p = i as int;
    assert forall|a: int, b: int| 0 <= a < b < pool@.len() implies (#[trigger] pool@[a]).1 <= (#[trigger] pool@[b]).1 by {
        if b < p {
            assert(pool@[a] == p0[a] && pool@[b] == p0[b]);
        } else if b == p {
            assert(pool@[a] == p0[a]);
        } else if a < p {
            assert(pool@[a] == p0[a] && pool@[b] == p0[b - 1]);
        } else if a == p {
            assert(pool@[b] == p0[b - 1]);
        } else {
            assert(pool@[a] == p0[a - 1] && pool@[b] == p0[b - 1]);
        }
    }
}

/// The count of consecutive failures after one more (saturating).
pub open spec fn failures_after(n: usize) -> int {
    if n < usize::MAX {
        n + 1
    } else {
        n as int
    }
}

/// One more failure after `n` reaches the cap `max`, if there is one.
pub open spec fn cap_reached(n: usize, max: Option<usize>) -> bool {
    match max {
        Some(m) => failures_after(n) >= m,
        None => false,
    }
}

/// With a cap of one attempt, the first failed separation reaches it: in
/// strict mode exploration then finishes at once.
pub proof fn lemma_single_attempt_cap(n: usize)
    ensures
        cap_reached(n, Some(1usize)),
{
}

/// What the driver of exploration does next.
#[derive(Clone, Copy, Debug, PartialEq, Eq, Structural)]
pub enum ExplorationAction {
    /// Separate the layout at the current width.
    Separate,
    /// The problem was restored to the pool entry with this index: disrupt it, then separate.
    Disrupt { selected: usize },
    /// Exploration is over.
    Finish,
}

/// The state of the exploration loop between two separations.
pub struct ExplorationPhase {
    pub config: ExplorationConfig,
    pub current_width: u32,
    pub best_width: u32,
    /// Feasible snapshots, each narrower than the one before.
    pub feasible_sols: Vec<Solution>,
    /// Infeasible snapshots with their loss, lowest loss first.
    pub infeas_sol_pool: Vec<(Solution, u64)>,
    pub n_conseq_failed: usize,
    pub finished: bool,
}

impl ExplorationPhase {
    /// The phase's invariant, with respect to the problem it drives.
    pub open spec fn wf(&self, prob: &Problem) -> bool {
        &&& prob.wf()
        &&& prob.strip_width == self.current_width
        &&& self.feasible_sols@.len() > 0
        &&& self.feasible_sols@.last().strip_width == self.best_width
        &&& forall|i: int, j: int| 0 <= i < j < self.feasible_sols@.len()
            ==> (#[trigger] self.feasible_sols@[i]).strip_width > (#[trigger] self.feasible_sols@[j]).strip_width
        &&& forall|i: int| 0 <= i < self.feasible_sols@.len()
            ==> state_valid(&prob.instance, prob.square, (#[trigger] self.feasible_sols@[i]).view())
        &&& forall|i: int| 0 <= i < self.infeas_sol_pool@.len()
            ==> state_valid(&prob.instance, prob.square, (#[trigger] self.infeas_sol_pool@[i]).0.view())
        &&& forall|i: int| 0 <= i < self.infeas_sol_pool@.len()
            ==> (#[trigger] self.infeas_sol_pool@[i]).0.strip_width == self.current_width
        &&& pool_sorted(self.infeas_sol_pool@)
    }

    /// The width of the best feasible snapshot.
    pub fn best_width(&self) -> (r: u32)
        ensures
            r == self.best_width,
    {
        self.best_width
    }
}

/// Starts exploration. In square mode the strip becomes a square of the
/// current fixed height (placements rescaled); in strip mode it keeps its
/// width. That layout is the first feasible snapshot.
pub fn exploration_phase(prob: &mut Problem, config: ExplorationConfig) -> (r: ExplorationPhase)
    requires
        old(prob).wf(),
    ensures
        r.wf(final(prob)),
        final(prob).instance == old(prob).instance,
        final(prob).square == old(prob).square,
        r.current_width == if old(prob).square { old(prob).fixed_height } else { old(prob).strip_width },
        r.best_width == r.current_width,
        slots_moved(old(prob).slots@, final(prob).slots@, |x: i32| rescaled_x(x, old(prob).strip_width, r.current_width)),
        final(prob).demand == old(prob).demand,
        r.feasible_sols@.len() == 1,
        r.feasible_sols@[0].view() == final(prob).state(),
        r.infeas_sol_pool@.len() == 0,
        r.n_conseq_failed == 0,
        !r.finished,
        r.config == config,
{
    let start = if prob.square { prob.fixed_height } else { prob.strip_width };
    prob.change_strip_width_rescale(start);
    let first = prob.save();
    let mut feasible_sols: Vec<Solution> = Vec::new();
    feasible_sols.push(first);
    let r = ExplorationPhase {
        config,
        current_width: start,
        best_width: start,
        feasible_sols,
        infeas_sol_pool: Vec::new(),
        n_conseq_failed: 0,
        finished: false,
    };
    assert(r.feasible_sols@.last() == r.feasible_sols@[0]);
    r
}

impl ExplorationPhase {
    /// Takes the outcome of a separation of `prob` at the current width: its best
    /// snapshot `sol` and that snapshot's loss. `sample_ppm` is a draw of
    /// `|N(0, stddev)|` in parts per million, used only to pick a pool entry.
    ///
    /// A loss of zero records `sol` if it is narrower than every feasible snapshot
    /// so far, then shrinks the strip by one step and clears the pool. Otherwise
    /// `sol` joins the pool; once failures reach the cap the strip backs off by
    /// half a step (adaptive policy) or exploration finishes (terminate policy);
    /// below the cap the problem is rolled back to a pool entry to be disrupted.
    pub fn on_separated(&mut self, prob: &mut Problem, sol: Solution, loss: u64, sample_ppm: u64) -> (r: ExplorationAction)
        requires
            old(self).wf(old(prob)),
            !old(self).finished,
            state_valid(&old(prob).instance, old(prob).square, sol.view()),
            sol.strip_width == old(self).current_width,
        ensures
            final(self).wf(final(prob)),
            final(prob).instance == old(prob).instance,
            final(prob).square == old(prob).square,
            final(self).config == old(self).config,
            final(self).feasible_sols@.len() >= old(self).feasible_sols@.len(),
            final(self).feasible_sols@.take(old(self).feasible_sols@.len() as int) == old(self).feasible_sols@,
            loss == 0 ==> {
                &&& r == ExplorationAction::Separate
                &&& final(self).current_width == shrunk(old(self).current_width, old(self).config.shrink_step_ppm)
                &&& slots_moved(old(prob).slots@, final(prob).slots@, |x: i32| rescaled_x(x, old(self).current_width, final(self).current_width))
                &&& final(prob).demand == old(prob).demand
                &&& final(self).infeas_sol_pool@.len() == 0
                &&& final(self).n_conseq_failed == 0
                &&& !final(self).finished
                &&& old(self).current_width < old(self).best_width ==> final(self).feasible_sols@ == old(self).feasible_sols@.push(sol)
                    && final(self).best_width == old(self).current_width
                &&& old(self).current_width >= old(self).best_width ==> final(self).feasible_sols@ == old(self).feasible_sols@
                    && final(self).best_width == old(self).best_width
            },
            loss > 0 ==> {
                let failed = failures_after(old(self).n_conseq_failed);
                let capped = cap_reached(old(self).n_conseq_failed, old(self).config.max_conseq_failed_attempts);
                let pool = old(self).infeas_sol_pool@.insert(pool_slot(old(self).infeas_sol_pool@, loss, 0), (sol, loss));
                &&& final(self).feasible_sols@ == old(self).feasible_sols@
                &&& final(self).best_width == old(self).best_width
                &&& capped && old(self).config.failure_cap_policy == FailureCapPolicy::AdaptiveBackoff ==> {
                    &&& r == ExplorationAction::Separate
                    &&& final(self).current_width == backed_off(old(self).current_width, old(self).config.shrink_step_ppm)
                    &&& slots_moved(old(prob).slots@, final(prob).slots@, |x: i32| rescaled_x(x, old(self).current_width, final(self).current_width))
                    &&& final(prob).demand == old(prob).demand
                    &&& final(self).infeas_sol_pool@.len() == 0
                    &&& final(self).n_conseq_failed == 0
                    &&& !final(self).finished
                }
                &&& capped && old(self).config.failure_cap_policy == FailureCapPolicy::Terminate ==> {
                    &&& r == ExplorationAction::Finish
                    &&& final(self).finished
                    &&& final(self).infeas_sol_pool@ == pool
                    &&& *final(prob) == *old(prob)
                }
                &&& !capped ==> {
                    let idx = pool_index(sample_ppm, pool.len());
                    &&& r == ExplorationAction::Disrupt { selected: idx as usize }
                    &&& final(self).infeas_sol_pool@ == pool
                    &&& final(self).n_conseq_failed == failed
                    &&& final(prob).state() == pool[idx].0.view()
                    &&& final(self).current_width == old(self).current_width
                    &&& !final(self).finished
                }
            },
    {
        if loss == 0 {
            if self.current_width < self.best_width {
                self.best_width = self.current_width;
                self.feasible_sols.push(sol);
                assert forall|i: int, j: int| 0 <= i < j < self.feasible_sols@.len()
                    implies (#[trigger] self.feasible_sols@[i]).strip_width > (#[trigger] self.feasible_sols@[j]).strip_width by {
                    if j == self.feasible_sols@.len() - 1 && i < j {
                        let n0 = old(self).feasible_sols@.len();
                        assert(old(self).feasible_sols@[n0 - 1] == old(self).feasible_sols@.last());
                        assert(self.feasible_sols@[i] == old(self).feasible_sols@[i]);
                        if i < n0 - 1 {
                            assert(old(self).feasible_sols@[i].strip_width > old(self).feasible_sols@[n0 - 1].strip_width);
                        }
                    }
                }
                assert(self.feasible_sols@.take(old(self).feasible_sols@.len() as int) =~= old(self).feasible_sols@);
            } else {
                assert(self.feasible_sols@.take(old(self).feasible_sols@.len() as int) =~= old(self).feasible_sols@);
            }
            let next = shrink_width(self.current_width, self.config.shrink_step_ppm);
            prob.change_strip_width_rescale(next);
            self.current_width = next;
            self.infeas_sol_pool.clear();
            self.n_conseq_failed = 0;
            return ExplorationAction::Separate;
        }
        assert(self.feasible_sols@.take(old(self).feasible_sols@.len() as int) =~= old(self).feasible_sols@);
        let ghost p0 = self.infeas_sol_pool@;
        insert_into_pool(&mut self.infeas_sol_pool, sol, loss);
        proof { lemma_pool_slot(p0, loss, 0); }
        assert forall|i: int| 0 <= i < self.infeas_sol_pool@.len()
            implies state_valid(&prob.instance, prob.square, (#[trigger] self.infeas_sol_pool@[i]).0.view())
                && self.infeas_sol_pool@[i].0.strip_width == self.current_width by {
            let p = pool_slot(p0, loss, 0);
            if i < p {
                assert(self.infeas_sol_pool@[i] == p0[i]);
            } else if i > p {
                assert(self.infeas_sol_pool@[i] == p0[i - 1]);
            }
        }
        let failed: usize = if self.n_conseq_failed < usize::MAX { self.n_conseq_failed + 1 } else { usize::MAX };
        let capped = match self.config.max_conseq_failed_attempts {
            Some(m) => failed >= m,
            None => false,
        };
        if capped {
            match self.config.failure_cap_policy {
                FailureCapPolicy::AdaptiveBackoff => {
                    let next = back_off_width(self.current_width, self.config.shrink_step_ppm);
                    prob.change_strip_width_rescale(next);
                    self.current_width = next;
                    self.infeas_sol_pool.clear();
                    self.n_conseq_failed = 0;
                    ExplorationAction::Separate
                },
                FailureCapPolicy::Terminate => {
                    self.n_conseq_failed = failed;
                    self.finished = true;
                    ExplorationAction::Finish
                },
            }
        } else {
            self.n_conseq_failed = failed;
            let idx = select_pool_index(sample_ppm, self.infeas_sol_pool.len());
            prob.rollback(&self.infeas_sol_pool[idx].0);
            ExplorationAction::Disrupt { selected: idx }
        }
    }
}

/// Feasible snapshots are recorded with strictly falling widths: any two, the
/// earlier is wider.
pub proof fn lemma_feasible_widths_decrease(phase: ExplorationPhase, prob: Problem, i: int, j: int)
    requires
        phase.wf(&prob),
        0 <= i < j < phase.feasible_sols@.len(),
    ensures
        phase.feasible_sols@[i].strip_width > phase.feasible_sols@[j].strip_width,
{
}

/// In square mode every snapshot the phase keeps is square.
pub proof fn lemma_snapshots_square(phase: ExplorationPhase, prob: Problem)
    requires
        phase.wf(&prob),
        prob.square,
    ensures
        forall|i: int| 0 <= i < phase.feasible_sols@.len()
            ==> (#[trigger] phase.feasible_sols@[i]).strip_width == phase.feasible_sols@[i].fixed_height,
        forall|i: int| 0 <= i < phase.infeas_sol_pool@.len()
            ==> (#[trigger] phase.infeas_sol_pool@[i]).0.strip_width == phase.infeas_sol_pool@[i].0.fixed_height,
        prob.strip_width == prob.fixed_height,
{
    assert forall|i: int| 0 <= i < phase.feasible_sols@.len()
        implies (#[trigger] phase.feasible_sols@[i]).strip_width == phase.feasible_sols@[i].fixed_height by {
        assert(state_valid(&prob.instance, prob.square, phase.feasible_sols@[i].view()));
    }
    assert forall|i: int| 0 <= i < phase.infeas_sol_pool@.len()
        implies (#[trigger] phase.infeas_sol_pool@[i]).0.strip_width == phase.infeas_sol_pool@[i].0.fixed_height by {
        assert(state_valid(&prob.instance, prob.square, phase.infeas_sol_pool@[i].0.view()));
    }
}

} // verus!
