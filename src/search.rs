use vstd::prelude::*;

use rand_xoshiro::Xoshiro256PlusPlus;

use crate::best_samples::{BestSamples, Sample};
use crate::config::SampleConfig;
use crate::eval::{better, is_better, no_worse, SampleEval};
use crate::geom::{closest_feasible, convert_sample_to_closest_feasible, RotationRange, Transform};
use crate::outside::random_below;
use crate::problem::{saturate_i32, saturating_i32};

verus! {

/// A full turn in rotation units (thousandths of a degree).
pub const FULL_TURN: i32 = 360_000;

/// An inclusive rectangle of reference positions.
#[derive(Clone, Copy, Debug, PartialEq, Eq, Structural)]
pub struct BBox {
    pub x_min: i32,
    pub y_min: i32,
    pub x_max: i32,
    pub y_max: i32,
}

impl BBox {
    pub open spec fn holds(&self, t: Transform) -> bool {
        self.x_min <= t.x <= self.x_max && self.y_min <= t.y <= self.y_max
    }

    pub open spec fn is_empty(&self) -> bool {
        self.x_min > self.x_max || self.y_min > self.y_max
    }

    /// The positions in both rectangles.
    pub fn intersect(&self, o: &BBox) -> (r: BBox)
        ensures
            r == self.intersect_spec(*o),
            forall|t: Transform| r.holds(t) <==> self.holds(t) && o.holds(t),
    {
        BBox {
            x_min: if self.x_min > o.x_min { self.x_min } else { o.x_min },
            y_min: if self.y_min > o.y_min { self.y_min } else { o.y_min },
            x_max: if self.x_max < o.x_max { self.x_max } else { o.x_max },
            y_max: if self.y_max < o.y_max { self.y_max } else { o.y_max },
        }
    }
}

/// A rotation the range admits: one listed, or any within a turn.
pub open spec fn rot_allowed(rot: i32, rots: Option<Seq<i32>>) -> bool {
    match rots {
        None => 0 <= rot < FULL_TURN,
        Some(s) => s.contains(rot),
    }
}

/// Draws placements uniformly: a position in a rectangle, a rotation the item allows.
pub struct UniformBBoxSampler {
    pub bbox: BBox,
    pub rotations: RotationRange,
}

fn draw_in(rng: &mut Xoshiro256PlusPlus, lo: i32, hi: i32) -> (r: i32)
    requires
        lo <= hi,
    ensures
        lo <= r <= hi,
{
    let span = (hi as i64 - lo as i64) as u64 + 1;
    let d = random_below(rng, span);
    (lo as i64 + d as i64) as i32
}

impl UniformBBoxSampler {
    /// A sampler over the part of `bbox` inside `clip`; `None` when that part is
    /// empty or no rotation is allowed.
    pub fn new(bbox: BBox, rotations: RotationRange, clip: BBox) -> (r: Option<Self>)
        ensures
            r is Some <==> !bbox.intersect_spec(clip).is_empty() && rotations.view_rots() != Some(Seq::<i32>::empty()),
            r is Some ==> r->0.bbox == bbox.intersect_spec(clip) && r->0.rotations.view_rots() == rotations.view_rots(),
    {
        let b = bbox.intersect(&clip);
        let none_allowed = match &rotations {
            RotationRange::Discrete(v) => v.len() == 0,
            RotationRange::Continuous => false,
        };
        proof {
            if let Some(s) = rotations.view_rots() {
                if s.len() == 0 {
                    assert(s =~= Seq::<i32>::empty());
                }
            }
        }
        if b.x_min > b.x_max || b.y_min > b.y_max || none_allowed {
            None
        } else {
            Some(UniformBBoxSampler { bbox: b, rotations })
        }
    }

    pub fn sample(&self, rng: &mut Xoshiro256PlusPlus) -> (t: Transform)
        requires
            !self.bbox.is_empty(),
            self.rotations.view_rots() != Some(Seq::<i32>::empty()),
        ensures
            self.bbox.holds(t),
            rot_allowed(t.rot, self.rotations.view_rots()),
    {
        let x = draw_in(rng, self.bbox.x_min, self.bbox.x_max);
        let y = draw_in(rng, self.bbox.y_min, self.bbox.y_max);
        let rot = match &self.rotations {
            RotationRange::Continuous => draw_in(rng, 0, FULL_TURN - 1),
            RotationRange::Discrete(v) => {
                assert(v@.len() > 0) by {
                    if v@.len() == 0 {
                        assert(v@ =~= Seq::<i32>::empty());
                    }
                }
                let i = random_below(rng, v.len() as u64) as usize;
                assert(v@.contains(v@[i as int]));
                v[i]
            },
        };
        Transform { x, y, rot }
    }
}

impl BBox {
    pub open spec fn intersect_spec(&self, o: BBox) -> BBox {
        BBox {
            x_min: if self.x_min > o.x_min { self.x_min } else { o.x_min },
            y_min: if self.y_min > o.y_min { self.y_min } else { o.y_min },
            x_max: if self.x_max < o.x_max { self.x_max } else { o.x_max },
            y_max: if self.y_max < o.y_max { self.y_max } else { o.y_max },
        }
    }
}

/// Step sizes of a coordinate descent: translation and rotation, each halved
/// when no neighbour improves, until at or below its limit.
#[derive(Clone, Copy, Debug, PartialEq, Eq, Structural)]
pub struct CDConfig {
    pub t_step_init: u32,
    pub t_step_limit: u32,
    pub r_step_init: u32,
    pub r_step_limit: u32,
    /// Also probe a random neighbour within the translation step.
    pub wiggle: bool,
}

fn shifted(v: i32, d: i64) -> (r: i32)
    requires
        -0x1_0000_0000 <= d <= 0x1_0000_0000,
    ensures
        r == saturate_i32(v + d),
{
    saturating_i32(v as i64 + d)
}

/// `e` was produced by the evaluator for `t`, under some upper bound.
pub open spec fn evaluated<E: Fn(Transform, SampleEval) -> SampleEval>(evaluate: &E, t: Transform, e: SampleEval) -> bool {
    exists|ub: SampleEval| #[trigger] evaluate.ensures((t, ub), e)
}

/// The rank of an evaluation as one number, falling with every improvement.
pub open spec fn rank_measure(e: SampleEval) -> nat {
    match e {
        SampleEval::Clear { worst_quality_proxy } => worst_quality_proxy as nat,
        SampleEval::Collision { loss } => (0x1_0000_0000_0000_0000 + loss) as nat,
        SampleEval::Invalid => (2 * 0x1_0000_0000_0000_0000) as nat,
    }
}

proof fn lemma_better_measure(a: SampleEval, b: SampleEval)
    requires
        better(a, b),
    ensures
        rank_measure(a) < rank_measure(b),
{
}

/// The four translation neighbours of `t` at distance `d`: right, left, up,
/// down (saturating at the coordinate range).
pub open spec fn translation_neighbours(t: Transform, d: u32) -> Seq<Transform> {
    seq![
        Transform { x: saturate_i32(t.x + d), ..t },
        Transform { x: saturate_i32(t.x - d), ..t },
        Transform { y: saturate_i32(t.y + d), ..t },
        Transform { y: saturate_i32(t.y - d), ..t },
    ]
}

/// The two rotation neighbours of `t` at angle `d`, each snapped to the allowed rotations.
pub open spec fn rotation_neighbours(t: Transform, d: u32, rots: Option<Seq<i32>>) -> Seq<Transform> {
    seq![
        closest_feasible(Transform { rot: saturate_i32(t.rot + d), ..t }, rots),
        closest_feasible(Transform { rot: saturate_i32(t.rot - d), ..t }, rots),
    ]
}

pub fn translation_probes(t: Transform, d: u32) -> (r: Vec<Transform>)
    ensures
        r@ == translation_neighbours(t, d),
{
    let d = d as i64;
    let mut r: Vec<Transform> = Vec::new();
    r.push(Transform { x: shifted(t.x, d), ..t });
    r.push(Transform { x: shifted(t.x, -d), ..t });
    r.push(Transform { y: shifted(t.y, d), ..t });
    r.push(Transform { y: shifted(t.y, -d), ..t });
    assert(r@ =~= translation_neighbours(t, d as u32));
    r
}

pub fn rotation_probes(t: Transform, d: u32, rotations: &RotationRange) -> (r: Vec<Transform>)
    ensures
        r@ == rotation_neighbours(t, d, rotations.view_rots()),
{
    let d = d as i64;
    let mut r: Vec<Transform> = Vec::new();
    r.push(convert_sample_to_closest_feasible(Transform { rot: shifted(t.rot, d), ..t }, rotations));
    r.push(convert_sample_to_closest_feasible(Transform { rot: shifted(t.rot, -d), ..t }, rotations));
    assert(r@ =~= rotation_neighbours(t, d as u32, rotations.view_rots()));
    r
}

/// The best of `cur` and the probes: the first probe strictly better than all
/// before it, or `cur` if none beats it.
pub open spec fn best_of(cur: Sample, ps: Seq<Sample>) -> Sample
    decreases ps.len(),
{
    if ps.len() == 0 {
        cur
    } else {
        let b = best_of(cur, ps.drop_last());
        if better(ps.last().1, b.1) {
            ps.last()
        } else {
            b
        }
    }
}

/// One descent decision: move to the best probe if it beats `cur`, keeping the
/// step; otherwise stay and halve the step.
pub open spec fn descended(cur: Sample, ps: Seq<Sample>, step: u32) -> (Sample, u32) {
    if better(best_of(cur, ps).1, cur.1) {
        (best_of(cur, ps), step)
    } else {
        (cur, step / 2)
    }
}

proof fn lemma_best_of(cur: Sample, ps: Seq<Sample>)
    ensures
        best_of(cur, ps) == cur || ps.contains(best_of(cur, ps)),
        no_worse(best_of(cur, ps).1, cur.1),
    decreases ps.len(),
{
    if ps.len() > 0 {
        lemma_best_of(cur, ps.drop_last());
        let b = best_of(cur, ps.drop_last());
        if b != cur {
            let k = choose|k: int| 0 <= k < ps.drop_last().len() && ps.drop_last()[k] == b;
            assert(ps[k] == b);
        }
        assert(ps[ps.len() - 1] == ps.last());
    }
}

/// Takes the evaluated probes of one descent step and decides it.
pub fn descent_step(cur: Sample, probes: &Vec<Sample>, step: u32) -> (r: (Sample, u32))
    ensures
        r == descended(cur, probes@, step),
{
    let mut best = cur;
    let mut i: usize = 0;
    while i < probes.len()
        invariant
            i <= probes@.len(),
            best == best_of(cur, probes@.take(i as int)),
        decreases probes@.len() - i,
    {
        assert(probes@.take(i as int + 1).drop_last() =~= probes@.take(i as int));
        assert(probes@.take(i as int + 1).last() == probes@[i as int]);
        if is_better(probes[i].1, best.1) {
            best = probes[i];
        }
        i = i + 1;
    }
    assert(probes@.take(probes@.len() as int) =~= probes@);
    if is_better(best.1, cur.1) {
        (best, step)
    } else {
        (cur, step / 2)
    }
}

/// Rotation steps make sense unless the item has a single allowed rotation.
pub open spec fn rotates(rots: Option<Seq<i32>>) -> bool {
    match rots {
        None => true,
        Some(s) => s.len() > 1,
    }
}

fn evaluate_all<E: Fn(Transform, SampleEval) -> SampleEval>(ts: &Vec<Transform>, evaluate: &E, ub: SampleEval) -> (r: Vec<Sample>)
    requires
        forall|t: Transform, ub: SampleEval| #[trigger] evaluate.requires((t, ub)),
    ensures
        r@.len() == ts@.len(),
        forall|i: int| 0 <= i < r@.len() ==> (#[trigger] r@[i]).0 == ts@[i] && evaluate.ensures((ts@[i], ub), r@[i].1),
{
    let mut r: Vec<Sample> = Vec::new();
    let mut i: usize = 0;
    while i < ts.len()
        invariant
            i <= ts@.len(),
            r@.len() == i,
            forall|t: Transform, ub: SampleEval| #[trigger] evaluate.requires((t, ub)),
            forall|j: int| 0 <= j < i ==> (#[trigger] r@[j]).0 == ts@[j] && evaluate.ensures((ts@[j], ub), r@[j].1),
        decreases ts@.len() - i,
    {
        let e = evaluate(ts[i], ub);
        r.push((ts[i], e));
        i = i + 1;
    }
    r
}

/// Refines `start` by coordinate descent. Each round, while the translation
/// step is above its limit, evaluates the four translation neighbours (and,
/// with wiggle, one random point within the step) and decides by
/// `descent_step`; then, while the rotation step is above its limit, the same
/// with the two rotation neighbours snapped to the allowed rotations. Rotation
/// steps are off for an item with a single allowed rotation. Each probe is
/// evaluated with the current evaluation as upper bound. The result is never
/// worse than `start`, is `start` or an evaluated placement, and is `start`
/// when no step starts above its limit.
pub fn refine_coord_desc<E: Fn(Transform, SampleEval) -> SampleEval>(
    start: Sample,
    evaluate: &E,
    cfg: CDConfig,
    rotations: &RotationRange,
    rng: &mut Xoshiro256PlusPlus,
) -> (r: Sample)
    requires
        forall|t: Transform, ub: SampleEval| #[trigger] evaluate.requires((t, ub)),
    ensures
        no_worse(r.1, start.1),
        r == start || evaluated(evaluate, r.0, r.1),
        cfg.t_step_init <= cfg.t_step_limit && (!rotates(rotations.view_rots()) || cfg.r_step_init <= cfg.r_step_limit) ==> r == start,
{
    let mut cur = start;
    let mut t_step: u32 = cfg.t_step_init;
    let turns = match rotations {
        RotationRange::Continuous => true,
        RotationRange::Discrete(v) => v.len() > 1,
    };
    let mut r_step: u32 = if turns { cfg.r_step_init } else { 0 };
    assert(turns == rotates(rotations.view_rots()));
    while t_step > cfg.t_step_limit || r_step > cfg.r_step_limit
        invariant
            forall|t: Transform, ub: SampleEval| #[trigger] evaluate.requires((t, ub)),
            no_worse(cur.1, start.1),
            cur == start || evaluated(evaluate, cur.0, cur.1),
            cfg.t_step_init <= cfg.t_step_limit && (!rotates(rotations.view_rots()) || cfg.r_step_init <= cfg.r_step_limit)
                ==> cur == start && t_step <= cfg.t_step_limit && r_step <= cfg.r_step_limit,
        decreases t_step as int + r_step as int, rank_measure(cur.1),
    {
        if t_step > cfg.t_step_limit {
            let mut probes = translation_probes(cur.0, t_step);
            if cfg.wiggle {
                let d = t_step as i64;
                let dx = random_below(rng, 2 * t_step as u64 + 1) as i64 - d;
                let dy = random_below(rng, 2 * t_step as u64 + 1) as i64 - d;
                probes.push(Transform { x: shifted(cur.0.x, dx), y: shifted(cur.0.y, dy), ..cur.0 });
            }
            let evals = evaluate_all(&probes, evaluate, cur.1);
            let (next, step) = descent_step(cur, &evals, t_step);
            proof {
                lemma_best_of(cur, evals@);
                if next != cur {
                    lemma_better_measure(next.1, cur.1);
                    let k = choose|k: int| 0 <= k < evals@.len() && evals@[k] == next;
                    assert(evaluate.ensures((probes@[k], cur.1), evals@[k].1));
                }
            }
            cur = next;
            t_step = step;
        }
        if r_step > cfg.r_step_limit {
            let probes = rotation_probes(cur.0, r_step, rotations);
            let evals = evaluate_all(&probes, evaluate, cur.1);
            let (next, step) = descent_step(cur, &evals, r_step);
            proof {
                lemma_best_of(cur, evals@);
                if next != cur {
                    lemma_better_measure(next.1, cur.1);
                    let k = choose|k: int| 0 <= k < evals@.len() && evals@[k] == next;
                    assert(evaluate.ensures((probes@[k], cur.1), evals@[k].1));
                }
            }
            cur = next;
            r_step = step;
        }
    }
    cur
}

/// Sample `i` is the reference placement (first, if there is one), or lies in
/// the container with an allowed rotation.
pub open spec fn drawn_in(r: Seq<Transform>, i: int, reference: Option<(Transform, BBox)>, container: BBox, rots: Option<Seq<i32>>) -> bool {
    (reference is Some && i == 0) || (container.holds(r[i]) && rot_allowed(r[i].rot, rots))
}

/// The samples of one search: the reference placement first (if any), then
/// `n_focussed_samples` drawn around it (if its neighbourhood meets the
/// container), then `n_container_samples` drawn over the container.
pub fn collect_samples(
    reference: Option<(Transform, BBox)>,
    container: BBox,
    rotations: &RotationRange,
    cfg: SampleConfig,
    rng: &mut Xoshiro256PlusPlus,
) -> (r: Vec<Transform>)
    requires
        cfg.n_focussed_samples + cfg.n_container_samples + 1 <= usize::MAX,
    ensures
        reference is Some ==> r@.len() >= 1 && r@[0] == (reference->0).0,
        r@.len() <= cfg.n_focussed_samples + cfg.n_container_samples + 1,
        reference is None && !container.is_empty() && rotations.view_rots() != Some(Seq::<i32>::empty())
            ==> r@.len() == cfg.n_container_samples,
        forall|i: int| 0 <= i < r@.len() ==> drawn_in(r@, i, reference, container, rotations.view_rots()),
{
    let mut r: Vec<Transform> = Vec::new();
    if let Some((t, focus)) = reference {
        r.push(t);
        let f = UniformBBoxSampler::new(focus, rotations.clone_range(), container);
        if let Some(s) = f {
            let mut i: usize = 0;
            while i < cfg.n_focussed_samples
                invariant
                    !s.bbox.is_empty(),
                    s.rotations.view_rots() != Some(Seq::<i32>::empty()),
                    i <= cfg.n_focussed_samples,
                    r@.len() == 1 + i,
                    r@[0] == t,
                    reference == Some((t, focus)),
                    s.bbox == focus.intersect_spec(container),
                    s.rotations.view_rots() == rotations.view_rots(),
                    forall|k: int| 0 <= k < r@.len() ==> drawn_in(r@, k, reference, container, rotations.view_rots()),
                decreases cfg.n_focussed_samples - i,
            {
                let x = s.sample(rng);
                let ghost r0 = r@;
                r.push(x);
                assert forall|k: int| 0 <= k < r@.len() implies drawn_in(r@, k, reference, container, rotations.view_rots()) by {
                    if k < r0.len() {
                        assert(r@[k] == r0[k]);
                        assert(drawn_in(r0, k, reference, container, rotations.view_rots()));
                    }
                }
                i = i + 1;
            }
        }
    }
    let ghost base = r@.len();
    let c = UniformBBoxSampler::new(container, rotations.clone_range(), container);
    assert(container.intersect_spec(container) == container);
    if let Some(s) = c {
        let mut i: usize = 0;
        while i < cfg.n_container_samples
            invariant
                !s.bbox.is_empty(),
                s.rotations.view_rots() != Some(Seq::<i32>::empty()),
                i <= cfg.n_container_samples,
                r@.len() == base + i,
                base <= cfg.n_focussed_samples + 1,
                reference is None ==> base == 0,
                reference is Some ==> base >= 1,
                reference is Some ==> r@[0] == (reference->0).0,
                s.bbox == container,
                s.rotations.view_rots() == rotations.view_rots(),
                forall|k: int| 0 <= k < r@.len() ==> drawn_in(r@, k, reference, container, rotations.view_rots()),
            decreases cfg.n_container_samples - i,
        {
            let x = s.sample(rng);
            let ghost r0 = r@;
            r.push(x);
            assert forall|k: int| 0 <= k < r@.len() implies drawn_in(r@, k, reference, container, rotations.view_rots()) by {
                if k < r0.len() {
                    assert(r@[k] == r0[k]);
                    assert(drawn_in(r0, k, reference, container, rotations.view_rots()));
                }
            }
            i = i + 1;
        }
    }
    r
}

impl RotationRange {
    /// A copy of the range.
    pub fn clone_range(&self) -> (r: RotationRange)
        ensures
            r.view_rots() == self.view_rots(),
    {
        match self {
            RotationRange::Continuous => RotationRange::Continuous,
            RotationRange::Discrete(v) => {
                let mut c: Vec<i32> = Vec::new();
                let mut i: usize = 0;
                while i < v.len()
                    invariant
                        i <= v@.len(),
                        c@ == v@.take(i as int),
                    decreases v@.len() - i,
                {
                    c.push(v[i]);
                    i = i + 1;
                    assert(c@ =~= v@.take(i as int));
                }
                assert(v@.take(v@.len() as int) =~= v@);
                RotationRange::Discrete(c)
            },
        }
    }
}

/// The coordinate-descent settings of a search, scaled by the item's smallest
/// dimension: a wide pass for the top samples and a tight one for the winner.
#[derive(Clone, Copy, Debug, PartialEq, Eq, Structural)]
pub struct RefineConfigs {
    pub pre: CDConfig,
    pub fin: CDConfig,
}

/// Translation steps of the wide pass, in parts per million of the item's
/// smallest dimension: start and limit.
pub const PRE_REFINE_T_PPM: (u64, u64) = (250_000, 20_000);
/// Translation steps of the tight pass.
pub const FINAL_REFINE_T_PPM: (u64, u64) = (10_000, 1_000);
/// Rotation steps of the wide pass, in rotation units: start and limit.
pub const PRE_REFINE_R_STEPS: (u32, u32) = (5_000, 1_000);
/// Rotation steps of the tight pass.
pub const FINAL_REFINE_R_STEPS: (u32, u32) = (500, 50);
/// Samples closer than this share (ppm) of the item's smallest dimension count as one.
pub const UNIQUE_SAMPLE_PPM: u64 = 50_000;

/// `dim` scaled by `ppm` parts per million, rounded down.
pub open spec fn scaled_dim(dim: u32, ppm: u64) -> u32 {
    ((dim * ppm) / 1_000_000) as u32
}

pub fn scale_dim(dim: u32, ppm: u64) -> (r: u32)
    requires
        ppm <= 1_000_000,
    ensures
        r == scaled_dim(dim, ppm),
        r <= dim,
{
    assert((dim as u64) * ppm <= 0xffff_ffff * 1_000_000) by (nonlinear_arith)
        requires dim <= 0xffff_ffff, ppm <= 1_000_000;
    let p: u64 = dim as u64 * ppm;
    assert(p <= dim * 1_000_000) by (nonlinear_arith)
        requires p == dim * ppm, ppm <= 1_000_000, dim >= 0;
    let q = p / 1_000_000;
    assert(q <= dim) by (nonlinear_arith)
        requires p <= dim * 1_000_000, q as int == (p as int) / 1_000_000, p >= 0;
    q as u32
}

/// Wiggling pays off only for items that rotate freely.
pub open spec fn wiggles(rotations: Option<Seq<i32>>) -> bool {
    rotations is None
}

/// The wide pass for an item whose smallest dimension is `item_min_dim`.
pub fn prerefine_cd_config(item_min_dim: u32, rotations: &RotationRange) -> (c: CDConfig)
    ensures
        c == prerefine_cd_config_spec(item_min_dim, rotations.view_rots()),
{
    CDConfig {
        t_step_init: scale_dim(item_min_dim, PRE_REFINE_T_PPM.0),
        t_step_limit: scale_dim(item_min_dim, PRE_REFINE_T_PPM.1),
        r_step_init: PRE_REFINE_R_STEPS.0,
        r_step_limit: PRE_REFINE_R_STEPS.1,
        wiggle: match rotations {
            RotationRange::Continuous => true,
            RotationRange::Discrete(_) => false,
        },
    }
}

/// The tight pass for an item whose smallest dimension is `item_min_dim`.
pub fn final_refine_cd_config(item_min_dim: u32, rotations: &RotationRange) -> (c: CDConfig)
    ensures
        c == final_refine_cd_config_spec(item_min_dim, rotations.view_rots()),
{
    CDConfig {
        t_step_init: scale_dim(item_min_dim, FINAL_REFINE_T_PPM.0),
        t_step_limit: scale_dim(item_min_dim, FINAL_REFINE_T_PPM.1),
        r_step_init: FINAL_REFINE_R_STEPS.0,
        r_step_limit: FINAL_REFINE_R_STEPS.1,
        wiggle: match rotations {
            RotationRange::Continuous => true,
            RotationRange::Discrete(_) => false,
        },
    }
}

/// Both refine passes and the dedup distance for an item whose smallest
/// dimension is `item_min_dim`.
pub fn refine_configs(item_min_dim: u32, rotations: &RotationRange) -> (r: (RefineConfigs, u32))
    ensures
        r.0.pre == prerefine_cd_config_spec(item_min_dim, rotations.view_rots()),
        r.0.fin == final_refine_cd_config_spec(item_min_dim, rotations.view_rots()),
        r.1 == scaled_dim(item_min_dim, UNIQUE_SAMPLE_PPM),
{
    (
        RefineConfigs {
            pre: prerefine_cd_config(item_min_dim, rotations),
            fin: final_refine_cd_config(item_min_dim, rotations),
        },
        scale_dim(item_min_dim, UNIQUE_SAMPLE_PPM),
    )
}

pub open spec fn prerefine_cd_config_spec(item_min_dim: u32, rots: Option<Seq<i32>>) -> CDConfig {
    CDConfig {
        t_step_init: scaled_dim(item_min_dim, PRE_REFINE_T_PPM.0),
        t_step_limit: scaled_dim(item_min_dim, PRE_REFINE_T_PPM.1),
        r_step_init: PRE_REFINE_R_STEPS.0,
        r_step_limit: PRE_REFINE_R_STEPS.1,
        wiggle: wiggles(rots),
    }
}

pub open spec fn final_refine_cd_config_spec(item_min_dim: u32, rots: Option<Seq<i32>>) -> CDConfig {
    CDConfig {
        t_step_init: scaled_dim(item_min_dim, FINAL_REFINE_T_PPM.0),
        t_step_limit: scaled_dim(item_min_dim, FINAL_REFINE_T_PPM.1),
        r_step_init: FINAL_REFINE_R_STEPS.0,
        r_step_limit: FINAL_REFINE_R_STEPS.1,
        wiggle: wiggles(rots),
    }
}

/// Refines every retained sample with the wide pass, reporting each result
/// back, then the best with the tight pass. `None` when nothing was retained.
pub fn refine_samples<E: Fn(Transform, SampleEval) -> SampleEval>(
    best: &mut BestSamples,
    evaluate: &E,
    configs: RefineConfigs,
    rotations: &RotationRange,
    rng: &mut Xoshiro256PlusPlus,
) -> (r: Option<Sample>)
    requires
        old(best).wf(),
        forall|t: Transform, ub: SampleEval| #[trigger] evaluate.requires((t, ub)),
        forall|i: int| 0 <= i < old(best).samples@.len() ==> evaluated(evaluate, (#[trigger] old(best).samples@[i]).0, old(best).samples@[i].1),
    ensures
        final(best).wf(),
        old(best).samples@.len() == 0 <==> r is None,
        r is Some ==> evaluated(evaluate, (r->0).0, (r->0).1) && no_worse((r->0).1, old(best).samples@[0].1),
{
    let n = best.samples.len();
    if n == 0 {
        return None;
    }
    let mut starts: Vec<Sample> = Vec::new();
    let mut i: usize = 0;
    while i < n
        invariant
            n == best.samples@.len(),
            best.samples@ == old(best).samples@,
            i <= n,
            starts@ == best.samples@.take(i as int),
        decreases n - i,
    {
        starts.push(best.samples[i]);
        i = i + 1;
        assert(starts@ =~= best.samples@.take(i as int));
    }
    assert(starts@ =~= old(best).samples@);
    let mut j: usize = 0;
    while j < n
        invariant
            best.wf(),
            n == starts@.len(),
            starts@ == old(best).samples@,
            j <= n,
            best.samples@.len() > 0,
            no_worse(best.samples@[0].1, old(best).samples@[0].1),
            forall|t: Transform, ub: SampleEval| #[trigger] evaluate.requires((t, ub)),
            forall|i: int| 0 <= i < best.samples@.len() ==> evaluated(evaluate, (#[trigger] best.samples@[i]).0, best.samples@[i].1),
            forall|i: int| 0 <= i < old(best).samples@.len() ==> evaluated(evaluate, (#[trigger] old(best).samples@[i]).0, old(best).samples@[i].1),
        decreases n - j,
    {
        let s = starts[j];
        assert(evaluated(evaluate, starts@[j as int].0, starts@[j as int].1));
        let refined = refine_coord_desc(s, evaluate, configs.pre, rotations, rng);
        proof { lemma_report_keeps(*best, refined.0, refined.1, evaluate); }
        best.report(refined.0, refined.1);
        j = j + 1;
    }
    let first = best.samples[0];
    assert(evaluated(evaluate, best.samples@[0].0, best.samples@[0].1));
    let fin = refine_coord_desc(first, evaluate, configs.fin, rotations, rng);
    Some(fin)
}

proof fn lemma_report_keeps<E: Fn(Transform, SampleEval) -> SampleEval>(b: BestSamples, t: Transform, e: SampleEval, evaluate: &E)
    requires
        b.wf(),
        b.samples@.len() > 0,
        evaluated(evaluate, t, e),
        forall|i: int| 0 <= i < b.samples@.len() ==> evaluated(evaluate, (#[trigger] b.samples@[i]).0, b.samples@[i].1),
    ensures
        ({
            let s = crate::best_samples::reported(b.samples@, b.capacity as nat, b.unique_threshold, t, e);
            &&& s.len() > 0
            &&& no_worse(s[0].1, b.samples@[0].1)
            &&& forall|i: int| 0 <= i < s.len() ==> evaluated(evaluate, (#[trigger] s[i]).0, s[i].1)
        }),
{
    crate::best_samples::lemma_reported_members(b, t, e);
}

/// Evaluates the samples one by one, each with the buffer's current upper bound
/// as a hint, and reports each to a fresh buffer of `capacity` samples. Returns
/// the buffer and the samples paired with their evaluations, in order. The
/// buffer stays empty exactly when every evaluation is `Invalid`; otherwise its
/// best is no worse than any evaluation.
pub fn evaluate_samples<E: Fn(Transform, SampleEval) -> SampleEval>(
    samples: &Vec<Transform>,
    evaluate: &E,
    capacity: usize,
    unique_threshold: u32,
) -> (r: (BestSamples, Vec<Sample>))
    requires
        capacity > 0,
        forall|t: Transform, ub: SampleEval| #[trigger] evaluate.requires((t, ub)),
    ensures
        r.0.wf(),
        r.0.capacity == capacity,
        r.1@.len() == samples@.len(),
        forall|i: int| 0 <= i < samples@.len() ==> (#[trigger] r.1@[i]).0 == samples@[i] && evaluated(evaluate, samples@[i], r.1@[i].1),
        forall|k: int| 0 <= k < r.0.samples@.len() ==> evaluated(evaluate, (#[trigger] r.0.samples@[k]).0, r.0.samples@[k].1),
        forall|k: int| 0 <= k < r.0.samples@.len() ==> (#[trigger] r.0.samples@[k]).1 != SampleEval::Invalid,
        r.0.samples@.len() == 0 <==> forall|i: int| 0 <= i < r.1@.len() ==> (#[trigger] r.1@[i]).1 == SampleEval::Invalid,
        r.0.samples@.len() > 0 ==> forall|i: int| 0 <= i < r.1@.len() ==> no_worse(r.0.samples@[0].1, (#[trigger] r.1@[i]).1),
{
    let mut best = BestSamples::new(capacity, unique_threshold);
    let mut evals: Vec<Sample> = Vec::new();
    let mut i: usize = 0;
    while i < samples.len()
        invariant
            best.wf(),
            best.capacity == capacity,
            i <= samples@.len(),
            evals@.len() == i,
            forall|t: Transform, ub: SampleEval| #[trigger] evaluate.requires((t, ub)),
            forall|j: int| 0 <= j < i ==> (#[trigger] evals@[j]).0 == samples@[j] && evaluated(evaluate, samples@[j], evals@[j].1),
            forall|k: int| 0 <= k < best.samples@.len() ==> evaluated(evaluate, (#[trigger] best.samples@[k]).0, best.samples@[k].1),
            forall|k: int| 0 <= k < best.samples@.len() ==> (#[trigger] best.samples@[k]).1 != SampleEval::Invalid,
            best.samples@.len() == 0 <==> forall|j: int| 0 <= j < i ==> (#[trigger] evals@[j]).1 == SampleEval::Invalid,
            best.samples@.len() > 0 ==> forall|j: int| 0 <= j < i ==> no_worse(best.samples@[0].1, (#[trigger] evals@[j]).1),
        decreases samples@.len() - i,
    {
        let t = samples[i];
        let ub = best.upper_bound();
        let e = evaluate(t, ub);
        assert(evaluate.ensures((t, ub), e));
        let ghost before = best.samples@;
        let ghost old_evals = evals@;
        proof { crate::best_samples::lemma_reported_members(best, t, e); }
        best.report(t, e);
        evals.push((t, e));
        proof {
            assert(forall|j: int| 0 <= j < i ==> evals@[j] == old_evals[j]);
            assert(evals@[i as int] == (t, e));
            if before.len() > 0 {
                assert(!(forall|j: int| 0 <= j < i ==> (#[trigger] old_evals[j]).1 == SampleEval::Invalid));
                let j = choose|j: int| 0 <= j < i && !((#[trigger] old_evals[j]).1 == SampleEval::Invalid);
                assert(evals@[j].1 != SampleEval::Invalid);
                assert forall|j: int| 0 <= j < i + 1 implies no_worse(best.samples@[0].1, (#[trigger] evals@[j]).1) by {
                    if j < i {
                        assert(no_worse(before[0].1, old_evals[j].1));
                    }
                }
            } else if e == SampleEval::Invalid {
                assert(best.samples@ == before);
                assert forall|j: int| 0 <= j < i + 1 implies (#[trigger] evals@[j]).1 == SampleEval::Invalid by {
                    if j < i {
                        assert(old_evals[j].1 == SampleEval::Invalid);
                    }
                }
            } else {
                assert(crate::best_samples::first_near_from(before, t, best.unique_threshold, 0) == 0);
                assert(best.samples@.len() > 0);
                assert forall|j: int| 0 <= j < i + 1 implies no_worse(best.samples@[0].1, (#[trigger] evals@[j]).1) by {
                    if j < i {
                        assert(old_evals[j].1 == SampleEval::Invalid);
                    }
                }
            }
        }
        i = i + 1;
    }
    (best, evals)
}

/// The placements of the samples.
pub open spec fn transforms_of(s: Seq<Sample>) -> Seq<Transform> {
    s.map_values(|p: Sample| p.0)
}

/// Searches a placement for one item, evaluating samples one by one with the
/// buffer's upper bound as a hint: collects the samples, keeps the best
/// distinct ones, refines them and returns the refined best, with the samples
/// and their evaluations in the order drawn. The first sample is the reference
/// placement, if one is given; the others lie in the container with an allowed
/// rotation. `None` exactly when every sample was scored `Invalid`; otherwise
/// the result is one the evaluator scored as returned, never `Invalid`, and no
/// worse than any sample.
pub fn search_placement<E: Fn(Transform, SampleEval) -> SampleEval>(
    reference: Option<(Transform, BBox)>,
    container: BBox,
    rotations: &RotationRange,
    evaluate: &E,
    cfg: SampleConfig,
    unique_threshold: u32,
    configs: RefineConfigs,
    rng: &mut Xoshiro256PlusPlus,
) -> (r: (Option<Sample>, Vec<Sample>))
    requires
        cfg.n_coord_descents > 0,
        cfg.n_focussed_samples + cfg.n_container_samples + 1 <= usize::MAX,
        forall|t: Transform, ub: SampleEval| #[trigger] evaluate.requires((t, ub)),
    ensures
        (r.0 is Some) ==> evaluated(evaluate, (r.0->0).0, (r.0->0).1) && (r.0->0).1 != SampleEval::Invalid,
        (r.0 is None) <==> forall|i: int| 0 <= i < r.1@.len() ==> (#[trigger] r.1@[i]).1 == SampleEval::Invalid,
        (r.0 is Some) ==> forall|i: int| 0 <= i < r.1@.len() ==> no_worse((r.0->0).1, (#[trigger] r.1@[i]).1),
        forall|i: int| 0 <= i < r.1@.len() ==> evaluated(evaluate, (#[trigger] r.1@[i]).0, r.1@[i].1),
        forall|i: int| 0 <= i < r.1@.len() ==> #[trigger] drawn_in(transforms_of(r.1@), i, reference, container, rotations.view_rots()),
        reference is Some ==> r.1@.len() >= 1 && r.1@[0].0 == (reference->0).0,
        r.1@.len() <= cfg.n_focussed_samples + cfg.n_container_samples + 1,
        reference is None && !container.is_empty() && rotations.view_rots() != Some(Seq::<i32>::empty())
            ==> r.1@.len() == cfg.n_container_samples,
{
    let samples = collect_samples(reference, container, rotations, cfg, rng);
    let (mut best, evals) = evaluate_samples(&samples, evaluate, cfg.n_coord_descents, unique_threshold);
    let r = refine_samples(&mut best, evaluate, configs, rotations, rng);
    assert(transforms_of(evals@) =~= samples@);
    (r, evals)
}

} // verus!
