use vstd::prelude::*;

verus! {

// All world lengths are fixed-point integers in milliunits: 1000 = one world
// unit. All angles are in millidegrees: 1000 = one degree. Unit direction
// vectors are scaled by `AXIS_SCALE`, and times are in milliseconds.

/// Fixed-point scale of a unit direction vector: a vector (cos, sin) is
/// stored as integer components in [-AXIS_SCALE, AXIS_SCALE].
pub const AXIS_SCALE: i64 = 1000;

/// Milliseconds in one second; velocities are in milliunits per second.
pub const MILLIS_PER_SECOND: i64 = 1000;

/// Largest coordinate or half-extent magnitude the geometry accepts; keeps
/// every intermediate product of the collision tests inside `i64`.
pub const COORD_LIMIT: i64 = 1_000_000_000_000;

/// Largest heading magnitude the reflection arithmetic accepts.
pub const ANGLE_LIMIT: i64 = 1_000_000_000_000_000;

/// Largest frame delta, in milliseconds, the integration accepts.
pub const DT_LIMIT: u64 = 1_000_000;

/// Side length of one maze grid cell.
pub const GRID_CELL_SIZE: i64 = 120_000;

/// Default number of grid cells along the horizontal axis.
pub const GRID_CELL_HORIZONTAL_AMOUNT: u32 = 6;

/// Default number of grid cells along the vertical axis.
pub const GRID_CELL_VERTICAL_AMOUNT: u32 = 6;

/// Width of the default game field: cell size times cell count.
pub const GAME_FIELD_WIDTH: i64 = 720_000;

/// Height of the default game field.
pub const GAME_FIELD_HEIGHT: i64 = 720_000;

/// Half thickness of a wall slab along its short axis.
pub const WALL_HALF_THICKNESS: i64 = 2_500;

/// Bullet speed in milliunits per second.
pub const BULLET_SPEED: i64 = 250_000;

/// Half extent of a bullet's square collider on each axis.
pub const BULLET_HALF_EXTENT: i64 = 2_500;

/// Distance from a firing body's center to the spawned bullet's center.
pub const BULLET_OFFSET: i64 = 20_000;

/// How far a bullet is nudged out of a wall after reflecting.
pub const BULLET_NUDGE: i64 = 100;

/// A bullet is destroyed once its bounce count exceeds this threshold.
pub const BULLET_BOUNCE_LIMIT: u8 = 5;

pub const TANK_LENGTH: i64 = 60_000;

pub const TANK_WIDTH: i64 = 40_000;

/// Tank turn rate in millidegrees per second.
pub const TANK_ROTATION_SPEED: i64 = 90_000;

/// Tank forward speed in milliunits per second.
pub const TANK_SPEED: i64 = 150_000;

} // verus!
