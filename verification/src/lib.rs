//! A population simulator of foraging agents ("ants") on an open 2D plane.
//!
//! Agents wander under a bounded random perturbation, steer toward food they
//! can see, eat what they reach, reproduce with mutated traits once they have
//! fed often enough, emit pheromone markers, age and die. All quantities are
//! fixed-point integers in milli-units (see [`SCALE`]); a spatial hash grid
//! keeps neighbour queries away from all-pairs scans.

use vstd::prelude::*;

pub mod behavior;
pub mod clock;
pub mod config;
pub mod entities;
pub mod grid;
pub mod math;
pub mod rng;
pub mod vec2;
pub mod world;

verus! {

/// Fixed-point scale: every scalar in the simulation (coordinates, speeds,
/// masses, seconds) carries this many sub-units per whole unit.
pub const SCALE: i64 = 1000;

/// Coordinates live in `[-COORD_LIMIT, COORD_LIMIT]`; position updates
/// saturate at this machine bound, so the open world is finite only here.
pub const COORD_LIMIT: i64 = 1_000_000_000;

/// Upper bound on traits (speed, vision) and on the other tunable radii.
pub const TRAIT_LIMIT: i64 = 1_000_000;

/// Upper bound on hunger and food capacities.
pub const STAT_LIMIT: i64 = 1_000_000_000;

/// Upper bound on the scaled elapsed time of a single tick.
pub const TIME_LIMIT: i64 = 1_000_000;

/// Clamps `x` into the closed interval `[lo, hi]`.
pub fn clamp_i64(x: i64, lo: i64, hi: i64) -> (r: i64)
    requires
        lo <= hi,
    ensures
        r == clamp_spec(x as int, lo as int, hi as int),
{
    if x < lo {
        lo
    } else if x > hi {
        hi
    } else {
        x
    }
}

/// The mathematical clamp of `x` into `[lo, hi]`.
pub open spec fn clamp_spec(x: int, lo: int, hi: int) -> int {
    if x < lo {
        lo
    } else if x > hi {
        hi
    } else {
        x
    }
}

} // verus!
