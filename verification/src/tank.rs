use vstd::prelude::*;

use crate::constants::{TANK_LENGTH, TANK_ROTATION_SPEED, TANK_SPEED, TANK_WIDTH};
use crate::vec2::Vec2;

verus! {

/// The player vehicle's motion parameters, in millidegrees per second and
/// milliunits per second.
#[derive(Clone, Copy, Debug, PartialEq, Eq, Structural)]
pub struct Tank {
    pub rotation_speed: i64,
    pub speed: i64,
}

impl Tank {
    /// The tank sprite's footprint.
    pub fn size() -> (r: Vec2)
        ensures
            r == (Vec2 { x: TANK_LENGTH, y: TANK_WIDTH }),
    {
        Vec2 { x: TANK_LENGTH, y: TANK_WIDTH }
    }

    pub fn new() -> (r: Tank)
        ensures
            r == (Tank { rotation_speed: TANK_ROTATION_SPEED, speed: TANK_SPEED }),
    {
        Tank { rotation_speed: TANK_ROTATION_SPEED, speed: TANK_SPEED }
    }

    /// Half the footprint on each axis.
    pub fn half_extents() -> (r: Vec2)
        ensures
            2 * r.x == TANK_LENGTH,
            2 * r.y == TANK_WIDTH,
    {
        Vec2 { x: 30_000, y: 20_000 }
    }
}

} // verus!
