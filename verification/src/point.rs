//! The 2D coordinate value type and the crate-wide coordinate bounds.

use crate::num::abs_i;
use vstd::prelude::*;

verus! {

/// Coordinates authored by a user or handed to a hit-test stay within
/// this many units (one thousand world units).
pub const COORD_LIMIT: i64 = 1_000_000_000;

/// Points stored on a line stay within this wider bound: an in-range
/// position carried into the authored frame through a derived inverse
/// transform always lands below it.
pub const STORE_LIMIT: i64 = 6_000_000_000;

/// A 2D coordinate in fixed-point units; a plain value with no identity.
#[derive(Clone, Copy, Debug, PartialEq, Eq, Structural)]
pub struct Point {
    pub x: i64,
    pub y: i64,
}

impl Point {
    /// Both coordinates are within `m` units of the origin.
    pub open spec fn within(self, m: int) -> bool {
        abs_i(self.x as int) <= m && abs_i(self.y as int) <= m
    }

    pub fn new(x: i64, y: i64) -> (p: Point)
        ensures
            p == (Point { x, y }),
    {
        Point { x, y }
    }
}

} // verus!
