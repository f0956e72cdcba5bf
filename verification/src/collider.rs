use vstd::prelude::*;

use crate::constants::{AXIS_SCALE, COORD_LIMIT};
use crate::vec2::{abs64, iabs, sign64, Vec2};
use crate::walls::WallType;

verus! {

/// An axis-aligned box: center and non-negative half extents, in milliunits.
#[derive(Clone, Copy, Debug, PartialEq, Eq, Structural)]
pub struct Aabb {
    pub center: Vec2,
    pub half_extents: Vec2,
}

/// An oriented box. `axis` is the box's long-axis unit vector scaled by
/// `AXIS_SCALE`; the short axis is `axis` rotated a quarter turn.
#[derive(Clone, Copy, Debug, PartialEq, Eq, Structural)]
pub struct Obb {
    pub center: Vec2,
    pub half_extents: Vec2,
    pub axis: Vec2,
}

/// A collision shape owned by a wall, tank or bullet.
#[derive(Clone, Copy, Debug, PartialEq, Eq, Structural)]
pub enum Collider {
    Aabb(Aabb),
    Obb(Obb),
}

impl Aabb {
    pub open spec fn wf(self) -> bool {
        &&& self.center.wf()
        &&& self.half_extents.wf()
        &&& self.half_extents.x >= 0
        &&& self.half_extents.y >= 0
    }
}

impl Obb {
    pub open spec fn wf(self) -> bool {
        &&& self.center.wf()
        &&& self.half_extents.wf()
        &&& self.half_extents.x >= 0
        &&& self.half_extents.y >= 0
        &&& -AXIS_SCALE <= self.axis.x <= AXIS_SCALE
        &&& -AXIS_SCALE <= self.axis.y <= AXIS_SCALE
    }
}

/// Dot product over the mathematical integers.
pub open spec fn idot(ax: int, ay: int, bx: int, by: int) -> int {
    ax * bx + ay * by
}

/// |a * b| <= bound_a * bound_b, for the overflow checks below.
pub(crate) proof fn lemma_mul_abs_bound(a: int, b: int, bound_a: int, bound_b: int)
    requires
        iabs(a) <= bound_a,
        iabs(b) <= bound_b,
    ensures
        iabs(a * b) <= bound_a * bound_b,
{
    assert(iabs(a * b) <= bound_a * bound_b) by (nonlinear_arith)
        requires
            iabs(a) <= bound_a,
            iabs(b) <= bound_b,
    ;
}

/// 0 <= a * b <= bound_a * bound_b for non-negative factors.
pub(crate) proof fn lemma_mul_nonneg_bound(a: int, b: int, bound_a: int, bound_b: int)
    requires
        0 <= a <= bound_a,
        0 <= b <= bound_b,
    ensures
        0 <= a * b <= bound_a * bound_b,
{
    assert(0 <= a * b <= bound_a * bound_b) by (nonlinear_arith)
        requires
            0 <= a <= bound_a,
            0 <= b <= bound_b,
    ;
}

impl Collider {
    pub open spec fn wf(self) -> bool {
        match self {
            Collider::Aabb(a) => a.wf(),
            Collider::Obb(o) => o.wf(),
        }
    }

    pub open spec fn is_aabb(self) -> bool {
        match self {
            Collider::Aabb(_) => true,
            Collider::Obb(_) => false,
        }
    }

    pub open spec fn center_spec(self) -> Vec2 {
        match self {
            Collider::Aabb(a) => a.center,
            Collider::Obb(o) => o.center,
        }
    }

    pub open spec fn half_extents_spec(self) -> Vec2 {
        match self {
            Collider::Aabb(a) => a.half_extents,
            Collider::Obb(o) => o.half_extents,
        }
    }

    pub fn center(&self) -> (r: Vec2)
        ensures
            r == self.center_spec(),
    {
        match self {
            Collider::Aabb(a) => a.center,
            Collider::Obb(o) => o.center,
        }
    }

    pub fn half_extents(&self) -> (r: Vec2)
        ensures
            r == self.half_extents_spec(),
    {
        match self {
            Collider::Aabb(a) => a.half_extents,
            Collider::Obb(o) => o.half_extents,
        }
    }
}

/// Interval overlap on both axes, with touching edges counting as overlap.
pub open spec fn aabb_x_aabb_spec(a: Aabb, b: Aabb) -> bool {
    &&& a.center.x - a.half_extents.x <= b.center.x + b.half_extents.x
    &&& a.center.x + a.half_extents.x >= b.center.x - b.half_extents.x
    &&& a.center.y - a.half_extents.y <= b.center.y + b.half_extents.y
    &&& a.center.y + a.half_extents.y >= b.center.y - b.half_extents.y
}

/// The candidate axis `(ax, ay)` separates the boxes: the center distance
/// projected on it exceeds the sum of both projected radii. All candidate
/// axes carry the `AXIS_SCALE` factor, and each side of the comparison is
/// scaled to milliunits times `AXIS_SCALE` squared.
pub open spec fn separates_spec(
    ax: int,
    ay: int,
    dx: int,
    dy: int,
    ahx: int,
    ahy: int,
    ux: int,
    uy: int,
    ohx: int,
    ohy: int,
) -> bool {
    AXIS_SCALE * iabs(idot(ax, ay, dx, dy)) > AXIS_SCALE * (iabs(ax) * ahx + iabs(ay) * ahy)
        + (ohx * iabs(idot(ax, ay, ux, uy)) + ohy * iabs(idot(ax, ay, -uy, ux)))
}

/// Separating-axis collision test between an axis-aligned and an oriented
/// box: they collide exactly when none of the four candidate axes (the two
/// world axes and the oriented box's two axes) separates them.
pub open spec fn aabb_x_obb_spec(a: Aabb, o: Obb) -> bool {
    let dx = o.center.x - a.center.x;
    let dy = o.center.y - a.center.y;
    let ahx = a.half_extents.x as int;
    let ahy = a.half_extents.y as int;
    let ux = o.axis.x as int;
    let uy = o.axis.y as int;
    let ohx = o.half_extents.x as int;
    let ohy = o.half_extents.y as int;
    &&& !separates_spec(AXIS_SCALE as int, 0, dx, dy, ahx, ahy, ux, uy, ohx, ohy)
    &&& !separates_spec(0, AXIS_SCALE as int, dx, dy, ahx, ahy, ux, uy, ohx, ohy)
    &&& !separates_spec(ux, uy, dx, dy, ahx, ahy, ux, uy, ohx, ohy)
    &&& !separates_spec(-uy, ux, dx, dy, ahx, ahy, ux, uy, ohx, ohy)
}

/// What `collides_with` returns on each supported shape pair. The oriented
/// versus oriented case is unsupported and ruled out by that function's
/// precondition.
pub open spec fn collides_spec(a: Collider, b: Collider) -> bool {
    match (a, b) {
        (Collider::Aabb(x), Collider::Aabb(y)) => aabb_x_aabb_spec(x, y),
        (Collider::Aabb(x), Collider::Obb(y)) => aabb_x_obb_spec(x, y),
        (Collider::Obb(x), Collider::Aabb(y)) => aabb_x_obb_spec(y, x),
        (Collider::Obb(_), Collider::Obb(_)) => false,
    }
}

/// The oriented box's two axes: the stored one and its quarter turn.
pub fn get_axes(axis: Vec2) -> (r: (Vec2, Vec2))
    requires
        axis.y != i64::MIN,
    ensures
        r.0 == axis,
        r.1.x == -(axis.y as int),
        r.1.y == axis.x,
{
    (axis, Vec2 { x: -axis.y, y: axis.x })
}

/// Radius of an axis-aligned box projected on `axis`.
pub fn get_aabb_projection_radius(axis: Vec2, half_extents: Vec2) -> (r: i64)
    requires
        -AXIS_SCALE <= axis.x <= AXIS_SCALE,
        -AXIS_SCALE <= axis.y <= AXIS_SCALE,
        0 <= half_extents.x <= COORD_LIMIT,
        0 <= half_extents.y <= COORD_LIMIT,
    ensures
        r == iabs(axis.x as int) * half_extents.x + iabs(axis.y as int) * half_extents.y,
        0 <= r <= 2 * AXIS_SCALE * COORD_LIMIT,
{
    proof {
        lemma_mul_nonneg_bound(iabs(axis.x as int), half_extents.x as int, AXIS_SCALE as int, COORD_LIMIT as int);
        lemma_mul_nonneg_bound(iabs(axis.y as int), half_extents.y as int, AXIS_SCALE as int, COORD_LIMIT as int);
    }
    abs64(axis.x) * half_extents.x + abs64(axis.y) * half_extents.y
}

/// Radius of an oriented box with unit axes `u_x`, `u_y` projected on `axis`.
pub fn get_obb_projection_radius(axis: Vec2, half_extents: Vec2, u_x: Vec2, u_y: Vec2) -> (r: i64)
    requires
        -AXIS_SCALE <= axis.x <= AXIS_SCALE,
        -AXIS_SCALE <= axis.y <= AXIS_SCALE,
        -AXIS_SCALE <= u_x.x <= AXIS_SCALE,
        -AXIS_SCALE <= u_x.y <= AXIS_SCALE,
        -AXIS_SCALE <= u_y.x <= AXIS_SCALE,
        -AXIS_SCALE <= u_y.y <= AXIS_SCALE,
        0 <= half_extents.x <= COORD_LIMIT,
        0 <= half_extents.y <= COORD_LIMIT,
    ensures
        r == half_extents.x * iabs(idot(axis.x as int, axis.y as int, u_x.x as int, u_x.y as int))
            + half_extents.y * iabs(idot(axis.x as int, axis.y as int, u_y.x as int, u_y.y as int)),
        0 <= r <= 4 * AXIS_SCALE * AXIS_SCALE * COORD_LIMIT,
{
    proof {
        lemma_mul_abs_bound(axis.x as int, u_x.x as int, AXIS_SCALE as int, AXIS_SCALE as int);
        lemma_mul_abs_bound(axis.y as int, u_x.y as int, AXIS_SCALE as int, AXIS_SCALE as int);
        lemma_mul_abs_bound(axis.x as int, u_y.x as int, AXIS_SCALE as int, AXIS_SCALE as int);
        lemma_mul_abs_bound(axis.y as int, u_y.y as int, AXIS_SCALE as int, AXIS_SCALE as int);
    }
    let px = axis.x * u_x.x + axis.y * u_x.y;
    let py = axis.x * u_y.x + axis.y * u_y.y;
    proof {
        lemma_mul_nonneg_bound(half_extents.x as int, iabs(px as int), COORD_LIMIT as int, 2 * AXIS_SCALE * AXIS_SCALE);
        lemma_mul_nonneg_bound(half_extents.y as int, iabs(py as int), COORD_LIMIT as int, 2 * AXIS_SCALE * AXIS_SCALE);
    }
    half_extents.x * abs64(px) + half_extents.y * abs64(py)
}

/// One candidate axis of the separating-axis test, all arguments bounded so
/// every product stays in `i64`.
fn separates_on_axis(ax: i64, ay: i64, dx: i64, dy: i64, ahx: i64, ahy: i64, o: &Obb) -> (r: bool)
    requires
        -AXIS_SCALE <= ax <= AXIS_SCALE,
        -AXIS_SCALE <= ay <= AXIS_SCALE,
        -2 * COORD_LIMIT <= dx <= 2 * COORD_LIMIT,
        -2 * COORD_LIMIT <= dy <= 2 * COORD_LIMIT,
        0 <= ahx <= COORD_LIMIT,
        0 <= ahy <= COORD_LIMIT,
        o.wf(),
    ensures
        r == separates_spec(ax as int, ay as int, dx as int, dy as int, ahx as int, ahy as int,
            o.axis.x as int, o.axis.y as int, o.half_extents.x as int, o.half_extents.y as int),
{
    proof {
        lemma_mul_abs_bound(ax as int, dx as int, AXIS_SCALE as int, 2 * COORD_LIMIT as int);
        lemma_mul_abs_bound(ay as int, dy as int, AXIS_SCALE as int, 2 * COORD_LIMIT as int);
        lemma_mul_abs_bound(ax as int, o.axis.x as int, AXIS_SCALE as int, AXIS_SCALE as int);
        lemma_mul_abs_bound(ay as int, o.axis.y as int, AXIS_SCALE as int, AXIS_SCALE as int);
        lemma_mul_abs_bound(ax as int, -(o.axis.y as int), AXIS_SCALE as int, AXIS_SCALE as int);
        lemma_mul_abs_bound(ay as int, o.axis.x as int, AXIS_SCALE as int, AXIS_SCALE as int);
    }
    let (u_x, u_y) = get_axes(o.axis);
    let distance = abs64(ax * dx + ay * dy);
    let aabb_radius = get_aabb_projection_radius(Vec2 { x: ax, y: ay }, Vec2 { x: ahx, y: ahy });
    let obb_radius = get_obb_projection_radius(Vec2 { x: ax, y: ay }, o.half_extents, u_x, u_y);
    AXIS_SCALE * distance > AXIS_SCALE * aabb_radius + obb_radius
}

/// Separating-axis test between an axis-aligned and an oriented box.
pub fn aabb_x_obb(a: &Aabb, o: &Obb) -> (r: bool)
    requires
        a.wf(),
        o.wf(),
    ensures
        r == aabb_x_obb_spec(*a, *o),
{
    let dx = o.center.x - a.center.x;
    let dy = o.center.y - a.center.y;
    let ahx = a.half_extents.x;
    let ahy = a.half_extents.y;
    if separates_on_axis(AXIS_SCALE, 0, dx, dy, ahx, ahy, o) {
        return false;
    }
    if separates_on_axis(0, AXIS_SCALE, dx, dy, ahx, ahy, o) {
        return false;
    }
    if separates_on_axis(o.axis.x, o.axis.y, dx, dy, ahx, ahy, o) {
        return false;
    }
    if separates_on_axis(-o.axis.y, o.axis.x, dx, dy, ahx, ahy, o) {
        return false;
    }
    true
}

/// Interval-overlap test between two axis-aligned boxes.
pub fn aabb_x_aabb(a: &Aabb, b: &Aabb) -> (r: bool)
    requires
        a.wf(),
        b.wf(),
    ensures
        r == aabb_x_aabb_spec(*a, *b),
{
    let min_x = a.center.x - a.half_extents.x;
    let max_x = a.center.x + a.half_extents.x;
    let min_y = a.center.y - a.half_extents.y;
    let max_y = a.center.y + a.half_extents.y;
    let other_min_x = b.center.x - b.half_extents.x;
    let other_max_x = b.center.x + b.half_extents.x;
    let other_min_y = b.center.y - b.half_extents.y;
    let other_max_y = b.center.y + b.half_extents.y;
    min_x <= other_max_x && max_x >= other_min_x && min_y <= other_max_y && max_y >= other_min_y
}

/// Overlap tests between axis-aligned boxes are symmetric in their
/// arguments: `collides(a, b)` equals `collides(b, a)` for every pair.
pub proof fn lemma_aabb_collides_symmetric(a: Aabb, b: Aabb)
    ensures
        aabb_x_aabb_spec(a, b) == aabb_x_aabb_spec(b, a),
{
}

/// Symmetry at the `Collider` level, for every pair of axis-aligned shapes.
pub proof fn lemma_collides_symmetric(a: Collider, b: Collider)
    requires
        a.is_aabb(),
        b.is_aabb(),
    ensures
        collides_spec(a, b) == collides_spec(b, a),
{
}

/// Sign of a delta as an `i64`, treating zero as positive, like the
/// floating-point signum the resolution math is phrased with.
pub open spec fn isign64(v: int) -> i64 {
    if v >= 0 {
        1i64
    } else {
        -1i64
    }
}

/// X overlap of the biased penetration test: half extents plus the vertical
/// walls' bias, less the center distance.
pub open spec fn ci_overlap_x(s: Collider, o: Collider, wall_type: Option<WallType>) -> int {
    let bonus: int = match wall_type {
        Some(WallType::Vertical) => 5000,
        _ => 0,
    };
    s.half_extents_spec().x + o.half_extents_spec().x + bonus - iabs(
        s.center_spec().x - o.center_spec().x,
    )
}

/// Y overlap of the biased penetration test, with the horizontal walls' bias.
pub open spec fn ci_overlap_y(s: Collider, o: Collider, wall_type: Option<WallType>) -> int {
    let bonus: int = match wall_type {
        Some(WallType::Horizontal) => 10000,
        _ => 0,
    };
    s.half_extents_spec().y + o.half_extents_spec().y + bonus - iabs(
        s.center_spec().y - o.center_spec().y,
    )
}

/// What `collision_info` returns: `None` when either biased overlap is not
/// positive, otherwise the axis of smaller overlap as a signed unit normal
/// together with that overlap as the penetration depth.
pub open spec fn collision_info_spec(s: Collider, o: Collider, wall_type: Option<WallType>) -> Option<
    (Vec2, i64),
> {
    let dx = s.center_spec().x - o.center_spec().x;
    let dy = s.center_spec().y - o.center_spec().y;
    let ox = ci_overlap_x(s, o, wall_type);
    let oy = ci_overlap_y(s, o, wall_type);
    if ox > 0 && oy > 0 {
        if ox < oy {
            Some(((Vec2 { x: isign64(dx), y: 0 }), ox as i64))
        } else {
            Some(((Vec2 { x: 0, y: isign64(dy) }), oy as i64))
        }
    } else {
        None
    }
}

/// What `compute_collision_normal` returns: the dominant axis of the center
/// delta, signed.
pub open spec fn collision_normal_spec(s: Collider, o: Collider) -> Vec2 {
    let dx = s.center_spec().x - o.center_spec().x;
    let dy = s.center_spec().y - o.center_spec().y;
    if iabs(dx) > iabs(dy) {
        Vec2 { x: isign64(dx), y: 0 }
    } else {
        Vec2 { x: 0, y: isign64(dy) }
    }
}

/// What `compute_penetration_depth` returns: the smaller unbiased overlap
/// when both are positive, else zero.
pub open spec fn penetration_depth_spec(s: Collider, o: Collider) -> int {
    let ox = ci_overlap_x(s, o, None);
    let oy = ci_overlap_y(s, o, None);
    if ox > 0 && oy > 0 {
        if ox < oy {
            ox
        } else {
            oy
        }
    } else {
        0
    }
}

impl Collider {
    /// Whether the two shapes intersect. The oriented-oriented pair is an
    /// unsupported configuration and excluded by contract.
    pub fn collides_with(&self, other: &Self) -> (r: bool)
        requires
            self.wf(),
            other.wf(),
            self.is_aabb() || other.is_aabb(),
        ensures
            r == collides_spec(*self, *other),
    {
        match (self, other) {
            (Collider::Aabb(a), Collider::Aabb(b)) => aabb_x_aabb(a, b),
            (Collider::Aabb(a), Collider::Obb(o)) => aabb_x_obb(a, o),
            (Collider::Obb(o), Collider::Aabb(a)) => aabb_x_obb(a, o),
            (Collider::Obb(_), Collider::Obb(_)) => false,
        }
    }

    /// The dominant axis of the center delta, signed; zero deltas count as
    /// positive, as with the floating-point signum.
    pub fn compute_collision_normal(&self, other: &Collider) -> (r: Vec2)
        requires
            self.wf(),
            other.wf(),
        ensures
            r == collision_normal_spec(*self, *other),
    {
        let delta_x = self.center().x - other.center().x;
        let delta_y = self.center().y - other.center().y;
        if abs64(delta_x) > abs64(delta_y) {
            Vec2 { x: sign64(delta_x), y: 0 }
        } else {
            Vec2 { x: 0, y: sign64(delta_y) }
        }
    }

    /// The smaller of the two unbiased axis overlaps, or zero when the
    /// shapes do not overlap on both axes.
    pub fn compute_penetration_depth(&self, other: &Collider) -> (r: i64)
        requires
            self.wf(),
            other.wf(),
        ensures
            r == penetration_depth_spec(*self, *other),
    {
        let overlap_x = self.half_extents().x + other.half_extents().x - abs64(
            self.center().x - other.center().x,
        );
        let overlap_y = self.half_extents().y + other.half_extents().y - abs64(
            self.center().y - other.center().y,
        );
        if overlap_x > 0 && overlap_y > 0 {
            if overlap_x < overlap_y {
                overlap_x
            } else {
                overlap_y
            }
        } else {
            0
        }
    }

    /// The biased penetration test: axis overlaps with a fixed bias favoring
    /// resolution along a wall's principal axis, `None` without penetration,
    /// otherwise the smaller-overlap axis as a signed normal and its depth.
    pub fn collision_info(&self, other: &Collider, wall_type: Option<WallType>) -> (r: Option<
        (Vec2, i64),
    >)
        requires
            self.wf(),
            other.wf(),
        ensures
            r == collision_info_spec(*self, *other, wall_type),
    {
        let delta_x = self.center().x - other.center().x;
        let delta_y = self.center().y - other.center().y;
        let (x_bonus, y_bonus): (i64, i64) = match wall_type {
            Some(WallType::Horizontal) => (0, 10000),
            Some(WallType::Vertical) => (5000, 0),
            None => (0, 0),
        };
        let overlap_x = self.half_extents().x + other.half_extents().x + x_bonus - abs64(delta_x);
        let overlap_y = self.half_extents().y + other.half_extents().y + y_bonus - abs64(delta_y);
        if overlap_x > 0 && overlap_y > 0 {
            if overlap_x < overlap_y {
                Some((Vec2 { x: sign64(delta_x), y: 0 }, overlap_x))
            } else {
                Some((Vec2 { x: 0, y: sign64(delta_y) }, overlap_y))
            }
        } else {
            None
        }
    }
}

} // verus!
