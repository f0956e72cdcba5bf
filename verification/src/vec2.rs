use vstd::prelude::*;

use crate::constants::COORD_LIMIT;

verus! {

/// A two-dimensional vector of fixed-point integers. Positions and
/// half-extents are in milliunits; unit direction vectors are scaled by
/// `AXIS_SCALE`; resolution normals hold plain signs in {-1, 0, 1}.
#[derive(Clone, Copy, Debug, PartialEq, Eq, Structural)]
pub struct Vec2 {
    pub x: i64,
    pub y: i64,
}

/// Absolute value over the mathematical integers.
pub open spec fn iabs(v: int) -> int {
    if v < 0 {
        -v
    } else {
        v
    }
}

/// The sign a non-negative-biased signum gives: 1 for v >= 0, else -1.
pub open spec fn isign(v: int) -> int {
    if v >= 0 {
        1
    } else {
        -1
    }
}

impl Vec2 {
    /// Both components are small enough for the collision arithmetic.
    pub open spec fn wf(self) -> bool {
        &&& -COORD_LIMIT <= self.x <= COORD_LIMIT
        &&& -COORD_LIMIT <= self.y <= COORD_LIMIT
    }

    pub fn new(x: i64, y: i64) -> (r: Vec2)
        ensures
            r == (Vec2 { x, y }),
    {
        Vec2 { x, y }
    }
}

/// Absolute value of an `i64`.
pub fn abs64(v: i64) -> (r: i64)
    requires
        v != i64::MIN,
    ensures
        r == iabs(v as int),
{
    if v < 0 {
        -v
    } else {
        v
    }
}

/// Sign of an `i64`, treating zero as positive.
pub fn sign64(v: i64) -> (r: i64)
    ensures
        r == isign(v as int),
{
    if v >= 0 {
        1
    } else {
        -1
    }
}

} // verus!
