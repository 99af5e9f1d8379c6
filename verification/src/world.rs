//! The window a flock lives in and the parameters of its rules.
use vstd::prelude::*;

verus! {

/// One whole unit of length, in grid steps: the resolution at which the
/// default parameters are given. A step is a millionth of a unit, so what
/// rounding to whole steps loses in a rule or in the speed cap stays a few
/// millionths of a unit.
pub const UNIT: i64 = 1_000_000;

/// A gain of `g` multiplies by `g / GAIN_SCALE`.
pub const GAIN_SCALE: i64 = 1000;

/// The largest population that a flock steps.
pub const MAX_POPULATION: usize = 1_048_576;

/// The largest magnitude of a coordinate, of a position or of a velocity,
/// with which a flock steps.
pub const COORD_LIMIT: i64 = 281_474_976_710_656;

/// An axis-aligned rectangle, given by the coordinates of its four sides.
#[derive(Clone, Copy, Debug, PartialEq, Eq)]
pub struct Rect {
    pub left: i64,
    pub right: i64,
    pub bottom: i64,
    pub top: i64,
}

impl Rect {
    pub fn new(left: i64, right: i64, bottom: i64, top: i64) -> (r: Rect)
        ensures
            r == (Rect { left, right, bottom, top }),
    {
        Rect { left, right, bottom, top }
    }
}

/// The parameters of the rules. Lengths and speeds are in grid steps, gains
/// in parts of `GAIN_SCALE`.
#[derive(Clone, Copy, Debug, PartialEq, Eq)]
pub struct Params {
    /// Width of the zone along each side of the window in which a boid is
    /// pushed back toward the inside.
    pub margin: u32,
    /// What the push adds to a velocity component, each step.
    pub border_turn: u32,
    /// The largest speed that a boid keeps.
    pub speed_limit: u32,
    /// Boids closer than this are kept apart.
    pub separation_radius: u32,
    /// Boids closer than this are matched in velocity and drawn together.
    pub neighbor_radius: u32,
    pub separation_gain: u16,
    pub alignment_gain: u16,
    pub cohesion_gain: u16,
}

impl Default for Params {
    fn default() -> (p: Params)
        ensures
            p.margin == 100 * UNIT,
            p.border_turn == UNIT,
            p.speed_limit == 10 * UNIT,
            p.separation_radius == 40 * UNIT,
            p.neighbor_radius == 100 * UNIT,
            p.separation_gain == 50,
            p.alignment_gain == 50,
            p.cohesion_gain == 5,
    {
        Params {
            margin: 100_000_000,
            border_turn: 1_000_000,
            speed_limit: 10_000_000,
            separation_radius: 40_000_000,
            neighbor_radius: 100_000_000,
            separation_gain: 50,
            alignment_gain: 50,
            cohesion_gain: 5,
        }
    }
}

} // verus!
