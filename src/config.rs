use vstd::prelude::*;

verus! {

/// How placements are sampled and refined for one item.
#[derive(Clone, Copy, Debug, PartialEq, Eq, Structural)]
pub struct SampleConfig {
    pub n_container_samples: usize,
    pub n_focussed_samples: usize,
    pub n_coord_descents: usize,
    /// Evaluate samples on worker threads rather than one by one.
    pub parallel: bool,
}

#[derive(Clone, Copy, Debug, PartialEq, Eq, Structural)]
pub struct SeparatorConfig {
    pub iter_no_imprv_limit: usize,
    pub strike_limit: usize,
    pub n_workers: usize,
    pub sample_config: SampleConfig,
}

/// What exploration does once too many attempts in a row failed.
#[derive(Clone, Copy, Debug, PartialEq, Eq, Structural)]
pub enum FailureCapPolicy {
    /// Grow the strip by half a shrink step and go on.
    AdaptiveBackoff,
    /// Stop exploring.
    Terminate,
}

/// Ratios are in parts per million of the quantity they scale.
#[derive(Clone, Copy, Debug, PartialEq, Eq, Structural)]
pub struct ExplorationConfig {
    pub shrink_step_ppm: u64,
    pub time_limit_secs: u64,
    pub max_conseq_failed_attempts: Option<usize>,
    pub failure_cap_policy: FailureCapPolicy,
    pub solution_pool_distribution_stddev_ppm: u64,
    pub separator_config: SeparatorConfig,
    pub large_item_ch_area_cutoff_ppm: u64,
}

/// How the compression step shrinks over the phase.
#[derive(Clone, Copy, Debug, PartialEq, Eq, Structural)]
pub enum ShrinkDecayStrategy {
    /// The step falls linearly with the time spent.
    TimeBased,
    /// The step is multiplied by this ratio (in parts per million) at each failure.
    FailureBased(u64),
}

/// Ratios are in parts per million; `shrink_range` is (largest, smallest) step.
#[derive(Clone, Copy, Debug)]
pub struct CompressionConfig {
    pub shrink_range: (u64, u64),
    pub time_limit_secs: u64,
    pub shrink_decay: ShrinkDecayStrategy,
    pub separator_config: SeparatorConfig,
}

#[derive(Clone, Copy, Debug)]
pub struct SparrowConfig {
    pub rng_seed: Option<u64>,
    pub expl_cfg: ExplorationConfig,
    pub cmpr_cfg: CompressionConfig,
}

/// The default settings: a 0.2% exploration step, compression steps from 0.01%
/// down to 0.001%, nine minutes of exploration and one of compression.
pub fn default_sparrow_config() -> (c: SparrowConfig)
    ensures
        c.rng_seed.is_none(),
        c.expl_cfg.shrink_step_ppm == 2000,
        c.expl_cfg.time_limit_secs == 540,
        c.expl_cfg.max_conseq_failed_attempts == Some(10usize),
        c.expl_cfg.failure_cap_policy == FailureCapPolicy::AdaptiveBackoff,
        c.expl_cfg.solution_pool_distribution_stddev_ppm == 50_000,
        c.expl_cfg.large_item_ch_area_cutoff_ppm == 900_000,
        c.cmpr_cfg.shrink_range == (100u64, 10u64),
        c.cmpr_cfg.time_limit_secs == 60,
        c.cmpr_cfg.shrink_decay == ShrinkDecayStrategy::TimeBased,
{
    SparrowConfig {
        rng_seed: None,
        expl_cfg: ExplorationConfig {
            shrink_step_ppm: 2000,
            time_limit_secs: 540,
            max_conseq_failed_attempts: Some(10),
            failure_cap_policy: FailureCapPolicy::AdaptiveBackoff,
            solution_pool_distribution_stddev_ppm: 50_000,
            separator_config: SeparatorConfig {
                iter_no_imprv_limit: 300,
                strike_limit: 6,
                n_workers: 6,
                sample_config: SampleConfig {
                    n_container_samples: 300,
                    n_focussed_samples: 5,
                    n_coord_descents: 4,
                    parallel: true,
                },
            },
            large_item_ch_area_cutoff_ppm: 900_000,
        },
        cmpr_cfg: CompressionConfig {
            shrink_range: (100, 10),
            time_limit_secs: 60,
            shrink_decay: ShrinkDecayStrategy::TimeBased,
            separator_config: SeparatorConfig {
                iter_no_imprv_limit: 100,
                strike_limit: 5,
                n_workers: 4,
                sample_config: SampleConfig {
                    n_container_samples: 500,
                    n_focussed_samples: 15,
                    n_coord_descents: 8,
                    parallel: true,
                },
            },
        },
    }
}

/// Share of a global time budget given to exploration, in parts per million.
pub const DEFAULT_EXPLORE_TIME_PPM: u64 = 800_000;
/// Share of a global time budget given to compression.
pub const DEFAULT_COMPRESS_TIME_PPM: u64 = 200_000;
/// The global time budget, in seconds, when none is given.
pub const DEFAULT_GLOBAL_TIME_SECS: u64 = 600;
/// The failure cap of exploration under early termination.
pub const DEFAULT_MAX_CONSEQ_FAILS_EXPL: usize = 10;
/// The decay of the compression step per failure under early termination.
pub const DEFAULT_FAIL_DECAY_RATIO_CMPR_PPM: u64 = 900_000;

/// A combination of time options that is not allowed.
#[derive(Clone, Copy, Debug, PartialEq, Eq, Structural)]
pub enum TimeOptionError {
    /// A global time together with a phase time, or only one phase time.
    InvalidPattern,
}

/// `secs` scaled by `ppm` parts per million, rounded down.
pub open spec fn share_of(secs: u64, ppm: u64) -> u64 {
    ((secs * ppm) / 1_000_000) as u64
}

fn share(secs: u64, ppm: u64) -> (r: u64)
    requires
        ppm <= 1_000_000,
    ensures
        r == share_of(secs, ppm),
{
    let a = secs as u128;
    let b = ppm as u128;
    assert(a * b <= 0xffff_ffff_ffff_ffff * 1_000_000) by (nonlinear_arith)
        requires a <= 0xffff_ffff_ffff_ffff, b <= 1_000_000;
    let p: u128 = a * b;
    let q = p / 1_000_000;
    assert(q <= secs) by (nonlinear_arith)
        requires p == secs * ppm, ppm <= 1_000_000, q as int == (p as int) / 1_000_000, secs >= 0;
    q as u64
}

/// Exploration and compression times, in seconds, from the command line's
/// options: a global time is split by the default shares; both phase times are
/// taken as given; nothing at all splits the default global time. Any other
/// combination is refused.
pub fn phase_times(global: Option<u64>, exploration: Option<u64>, compression: Option<u64>) -> (r: Result<(u64, u64), TimeOptionError>)
    ensures
        match (global, exploration, compression) {
            (Some(g), None, None) => r == Ok::<(u64, u64), TimeOptionError>(
                (share_of(g, DEFAULT_EXPLORE_TIME_PPM), share_of(g, DEFAULT_COMPRESS_TIME_PPM)),
            ),
            (None, Some(e), Some(c)) => r == Ok::<(u64, u64), TimeOptionError>((e, c)),
            (None, None, None) => r == Ok::<(u64, u64), TimeOptionError>(
                (share_of(DEFAULT_GLOBAL_TIME_SECS, DEFAULT_EXPLORE_TIME_PPM), share_of(DEFAULT_GLOBAL_TIME_SECS, DEFAULT_COMPRESS_TIME_PPM)),
            ),
            _ => r == Err::<(u64, u64), TimeOptionError>(TimeOptionError::InvalidPattern),
        },
{
    match (global, exploration, compression) {
        (Some(g), None, None) => Ok((share(g, DEFAULT_EXPLORE_TIME_PPM), share(g, DEFAULT_COMPRESS_TIME_PPM))),
        (None, Some(e), Some(c)) => Ok((e, c)),
        (None, None, None) => Ok((
            share(DEFAULT_GLOBAL_TIME_SECS, DEFAULT_EXPLORE_TIME_PPM),
            share(DEFAULT_GLOBAL_TIME_SECS, DEFAULT_COMPRESS_TIME_PPM),
        )),
        _ => Err(TimeOptionError::InvalidPattern),
    }
}

/// The configuration for a run: phase times, early termination (a strict
/// failure cap in exploration and failure-based decay in compression) and the seed.
pub fn configure_run(base: SparrowConfig, times: (u64, u64), early_termination: bool, rng_seed: Option<u64>) -> (c: SparrowConfig)
    ensures
        c.expl_cfg.time_limit_secs == times.0,
        c.cmpr_cfg.time_limit_secs == times.1,
        c.rng_seed == if rng_seed is Some { rng_seed } else { base.rng_seed },
        early_termination ==> c.expl_cfg.max_conseq_failed_attempts == Some(DEFAULT_MAX_CONSEQ_FAILS_EXPL)
            && c.expl_cfg.failure_cap_policy == FailureCapPolicy::Terminate
            && c.cmpr_cfg.shrink_decay == ShrinkDecayStrategy::FailureBased(DEFAULT_FAIL_DECAY_RATIO_CMPR_PPM),
        !early_termination ==> c.expl_cfg.max_conseq_failed_attempts == base.expl_cfg.max_conseq_failed_attempts
            && c.expl_cfg.failure_cap_policy == base.expl_cfg.failure_cap_policy
            && c.cmpr_cfg.shrink_decay == base.cmpr_cfg.shrink_decay,
        c.expl_cfg.shrink_step_ppm == base.expl_cfg.shrink_step_ppm,
        c.cmpr_cfg.shrink_range == base.cmpr_cfg.shrink_range,
{
    let mut c = base;
    c.expl_cfg.time_limit_secs = times.0;
    c.cmpr_cfg.time_limit_secs = times.1;
    if early_termination {
        c.expl_cfg.max_conseq_failed_attempts = Some(DEFAULT_MAX_CONSEQ_FAILS_EXPL);
        c.expl_cfg.failure_cap_policy = FailureCapPolicy::Terminate;
        c.cmpr_cfg.shrink_decay = ShrinkDecayStrategy::FailureBased(DEFAULT_FAIL_DECAY_RATIO_CMPR_PPM);
    }
    if let Some(s) = rng_seed {
        c.rng_seed = Some(s);
    }
    c
}

} // verus!
