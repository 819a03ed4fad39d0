//! Decision logic of a two-phase strip-packing optimizer, with proved contracts.
//!
//! Items are packed into a strip whose width is minimized (or, in square mode,
//! a square whose side is). Geometry enters as integers: positions, widths and
//! areas in length units, rotations in thousandths of a degree, ratios in parts
//! per million. Collision detection and overlap measurement stay with the
//! caller, who hands in evaluations and losses; this crate decides.
//!
//! - `problem`: the layout, demand bookkeeping, snapshots and width changes.
//! - `lbf`: the greedy initial construction.
//! - `search`, `best_samples`, `eval`, `geom`: placement sampling and refinement.
//! - `separator`: the overlap-reduction loop's decisions.
//! - `explore`, `compress`, `disrupt`: the two optimization phases.
//! - `config`: settings.

use vstd::prelude::*;

pub mod best_samples;
pub mod compress;
pub mod config;
pub mod disrupt;
pub mod eval;
pub mod explore;
pub mod geom;
pub mod lbf;
mod outside;
pub mod problem;
pub mod search;
pub mod separator;

verus! {

/// Parts per million: the unit in which ratios are expressed.
pub const PPM: u64 = 1_000_000;

} // verus!
