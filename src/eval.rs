use vstd::prelude::*;

verus! {

/// The outcome of evaluating one candidate placement.
#[derive(Clone, Copy, Debug, PartialEq, Eq, Structural)]
pub enum SampleEval {
    /// No collision; the proxy ranks clear placements among themselves (lower is better).
    Clear { worst_quality_proxy: u64 },
    /// Overlap present, with its loss (lower is better).
    Collision { loss: u64 },
    /// Outside the container or otherwise unusable.
    Invalid,
}

/// Rank of an evaluation: first the class (clear, colliding, invalid), then the value.
pub open spec fn class_of(e: SampleEval) -> int {
    match e {
        SampleEval::Clear { .. } => 0,
        SampleEval::Collision { .. } => 1,
        SampleEval::Invalid => 2,
    }
}

pub open spec fn value_of(e: SampleEval) -> int {
    match e {
        SampleEval::Clear { worst_quality_proxy } => worst_quality_proxy as int,
        SampleEval::Collision { loss } => loss as int,
        SampleEval::Invalid => 0,
    }
}

/// `a` ranks strictly before `b`.
pub open spec fn better(a: SampleEval, b: SampleEval) -> bool {
    class_of(a) < class_of(b) || (class_of(a) == class_of(b) && value_of(a) < value_of(b))
}

/// `a` ranks before or level with `b`.
pub open spec fn no_worse(a: SampleEval, b: SampleEval) -> bool {
    !better(b, a)
}

pub fn class_rank(e: SampleEval) -> (r: u8)
    ensures
        r as int == class_of(e),
{
    match e {
        SampleEval::Clear { .. } => 0,
        SampleEval::Collision { .. } => 1,
        SampleEval::Invalid => 2,
    }
}

pub fn value_rank(e: SampleEval) -> (r: u64)
    ensures
        r as int == value_of(e),
{
    match e {
        SampleEval::Clear { worst_quality_proxy } => worst_quality_proxy,
        SampleEval::Collision { loss } => loss,
        SampleEval::Invalid => 0,
    }
}

/// Whether `a` ranks strictly before `b`: clear before colliding before invalid,
/// and within a class the lower value first.
pub fn is_better(a: SampleEval, b: SampleEval) -> (r: bool)
    ensures
        r == better(a, b),
{
    let ca = class_rank(a);
    let cb = class_rank(b);
    ca < cb || (ca == cb && value_rank(a) < value_rank(b))
}

} // verus!
