use vstd::prelude::*;

use crate::collider::{Aabb, Collider};
use crate::constants::{AXIS_SCALE, BULLET_HALF_EXTENT, BULLET_OFFSET, BULLET_SPEED, COORD_LIMIT};
use crate::vec2::{iabs, Vec2};

verus! {

/// `a * b / d`, the quotient truncated toward zero: the fixed-point scaling
/// primitive for velocities and offsets.
pub open spec fn muldiv(a: int, b: int, d: int) -> int {
    let p = a * b;
    if p >= 0 {
        p / d
    } else {
        -((-p) / d)
    }
}

/// Compute `a * b / d` exactly as `muldiv` states it.
pub fn mul_div(a: i64, b: i64, d: i64) -> (r: i64)
    requires
        d >= 1,
        iabs(a as int) * iabs(b as int) <= i64::MAX,
    ensures
        r == muldiv(a as int, b as int, d as int),
        (d as int) * iabs(r as int) <= iabs((a as int) * (b as int)),
{
    proof {
        crate::collider::lemma_mul_abs_bound(a as int, b as int, iabs(a as int), iabs(b as int));
        assert(iabs(a as int) * iabs(b as int) == iabs((a as int) * (b as int)))
            by (nonlinear_arith);
    }
    let p = a * b;
    if p >= 0 {
        let q = (p as u64) / (d as u64);
        proof {
            vstd::arithmetic::div_mod::lemma_fundamental_div_mod(p as int, d as int);
            vstd::arithmetic::div_mod::lemma_mod_bound(p as int, d as int);
            let qq = (p as int) / (d as int);
            assert(0 <= qq <= p && (d as int) * qq <= p) by (nonlinear_arith)
                requires
                    p as int == (d as int) * qq + (p as int) % (d as int),
                    0 <= (p as int) % (d as int) < d as int,
                    d >= 1,
                    p >= 0,
            ;
        }
        q as i64
    } else {
        let m = -p;
        let q = (m as u64) / (d as u64);
        proof {
            vstd::arithmetic::div_mod::lemma_fundamental_div_mod(m as int, d as int);
            vstd::arithmetic::div_mod::lemma_mod_bound(m as int, d as int);
            let qq = (m as int) / (d as int);
            assert(0 <= qq <= m && (d as int) * qq <= m) by (nonlinear_arith)
                requires
                    m as int == (d as int) * qq + (m as int) % (d as int),
                    0 <= (m as int) % (d as int) < d as int,
                    d >= 1,
                    m >= 0,
            ;
        }
        -(q as i64)
    }
}

/// A projectile: its heading as an angle in millidegrees together with the
/// matching unit direction vector (scaled by `AXIS_SCALE`), its speed in
/// milliunits per second, how many walls it has hit, and the center of the
/// wall it last reflected off.
#[derive(Clone, Copy, Debug, PartialEq, Eq, Structural)]
pub struct Bullet {
    pub angle: i64,
    pub dir: Vec2,
    pub speed: i64,
    pub bounce_count: u8,
    pub last_hit_wall: Option<Vec2>,
}

impl Bullet {
    /// The direction components fit the unit-vector scale and the speed is a
    /// sane magnitude.
    pub open spec fn wf(self) -> bool {
        &&& -AXIS_SCALE <= self.dir.x <= AXIS_SCALE
        &&& -AXIS_SCALE <= self.dir.y <= AXIS_SCALE
        &&& 0 <= self.speed <= COORD_LIMIT
    }

    /// A fresh bullet heading along `angle`, with `dir` its unit vector.
    pub fn new(angle: i64, dir: Vec2) -> (r: Bullet)
        ensures
            r == (Bullet {
                angle,
                dir,
                speed: BULLET_SPEED,
                bounce_count: 0,
                last_hit_wall: None,
            }),
    {
        Bullet { angle, dir, speed: BULLET_SPEED, bounce_count: 0, last_hit_wall: None }
    }

    /// The bullet's velocity: its speed along its unit direction.
    pub fn velocity(&self) -> (r: Vec2)
        requires
            self.wf(),
        ensures
            r.x == muldiv(self.speed as int, self.dir.x as int, AXIS_SCALE as int),
            r.y == muldiv(self.speed as int, self.dir.y as int, AXIS_SCALE as int),
            iabs(r.x as int) <= self.speed,
            iabs(r.y as int) <= self.speed,
    {
        proof {
            crate::collider::lemma_mul_nonneg_bound(
                self.speed as int,
                iabs(self.dir.x as int),
                COORD_LIMIT as int,
                AXIS_SCALE as int,
            );
            crate::collider::lemma_mul_nonneg_bound(
                self.speed as int,
                iabs(self.dir.y as int),
                COORD_LIMIT as int,
                AXIS_SCALE as int,
            );
            assert(iabs(self.speed as int) * iabs(self.dir.x as int) == self.speed * iabs(
                self.dir.x as int,
            ));
            assert(iabs(self.speed as int) * iabs(self.dir.y as int) == self.speed * iabs(
                self.dir.y as int,
            ));
        }
        let vx = mul_div(self.speed, self.dir.x, AXIS_SCALE);
        let vy = mul_div(self.speed, self.dir.y, AXIS_SCALE);
        proof {
            assert(iabs((self.speed as int) * (self.dir.x as int)) == self.speed * iabs(
                self.dir.x as int,
            )) by (nonlinear_arith)
                requires
                    self.speed >= 0,
            ;
            assert(iabs((self.speed as int) * (self.dir.y as int)) == self.speed * iabs(
                self.dir.y as int,
            )) by (nonlinear_arith)
                requires
                    self.speed >= 0,
            ;
            assert(AXIS_SCALE * iabs(vx as int) <= self.speed * iabs(self.dir.x as int));
            assert(iabs(vx as int) <= self.speed) by (nonlinear_arith)
                requires
                    AXIS_SCALE * iabs(vx as int) <= self.speed * iabs(self.dir.x as int),
                    iabs(self.dir.x as int) <= AXIS_SCALE,
                    0 <= self.speed,
                    AXIS_SCALE >= 1,
                    iabs(vx as int) >= 0,
            ;
            assert(AXIS_SCALE * iabs(vy as int) <= self.speed * iabs(self.dir.y as int));
            assert(iabs(vy as int) <= self.speed) by (nonlinear_arith)
                requires
                    AXIS_SCALE * iabs(vy as int) <= self.speed * iabs(self.dir.y as int),
                    iabs(self.dir.y as int) <= AXIS_SCALE,
                    0 <= self.speed,
                    AXIS_SCALE >= 1,
                    iabs(vy as int) >= 0,
            ;
        }
        Vec2 { x: vx, y: vy }
    }
}

/// Where a bullet fired from `origin` facing `facing_dir` starts: offset
/// from the firer's center along its facing.
pub open spec fn bullet_spawn_spec(origin: Vec2, facing_dir: Vec2) -> Vec2 {
    Vec2 {
        x: (origin.x + muldiv(BULLET_OFFSET as int, facing_dir.x as int, AXIS_SCALE as int)) as i64,
        y: (origin.y + muldiv(BULLET_OFFSET as int, facing_dir.y as int, AXIS_SCALE as int)) as i64,
    }
}

/// Construct a projectile fired from `origin`: heading `facing` (in
/// millidegrees, with `facing_dir` its unit vector), spawned ahead of the
/// firer, with a small square collider.
pub fn fire_bullet(origin: Vec2, facing: i64, facing_dir: Vec2) -> (r: (Bullet, Vec2, Collider))
    requires
        iabs(origin.x as int) <= COORD_LIMIT - BULLET_OFFSET,
        iabs(origin.y as int) <= COORD_LIMIT - BULLET_OFFSET,
        -AXIS_SCALE <= facing_dir.x <= AXIS_SCALE,
        -AXIS_SCALE <= facing_dir.y <= AXIS_SCALE,
    ensures
        r.0 == (Bullet {
            angle: facing,
            dir: facing_dir,
            speed: BULLET_SPEED,
            bounce_count: 0,
            last_hit_wall: None,
        }),
        r.1 == bullet_spawn_spec(origin, facing_dir),
        r.2 == Collider::Aabb(
            Aabb {
                center: bullet_spawn_spec(origin, facing_dir),
                half_extents: Vec2 { x: BULLET_HALF_EXTENT, y: BULLET_HALF_EXTENT },
            },
        ),
        r.2.wf(),
{
    proof {
        crate::collider::lemma_mul_abs_bound(
            BULLET_OFFSET as int,
            facing_dir.x as int,
            BULLET_OFFSET as int,
            AXIS_SCALE as int,
        );
        crate::collider::lemma_mul_abs_bound(
            BULLET_OFFSET as int,
            facing_dir.y as int,
            BULLET_OFFSET as int,
            AXIS_SCALE as int,
        );
    }
    let ox = mul_div(BULLET_OFFSET, facing_dir.x, AXIS_SCALE);
    let oy = mul_div(BULLET_OFFSET, facing_dir.y, AXIS_SCALE);
    proof {
        assert(AXIS_SCALE * iabs(ox as int) <= iabs((BULLET_OFFSET as int) * (facing_dir.x as int)));
        assert(AXIS_SCALE * iabs(oy as int) <= iabs((BULLET_OFFSET as int) * (facing_dir.y as int)));
        assert(iabs(ox as int) <= BULLET_OFFSET && iabs(oy as int) <= BULLET_OFFSET)
            by (nonlinear_arith)
            requires
                AXIS_SCALE * iabs(ox as int) <= iabs(
                    (BULLET_OFFSET as int) * (facing_dir.x as int),
                ),
                AXIS_SCALE * iabs(oy as int) <= iabs(
                    (BULLET_OFFSET as int) * (facing_dir.y as int),
                ),
                iabs((BULLET_OFFSET as int) * (facing_dir.x as int)) <= BULLET_OFFSET * AXIS_SCALE,
                iabs((BULLET_OFFSET as int) * (facing_dir.y as int)) <= BULLET_OFFSET * AXIS_SCALE,
                iabs(ox as int) >= 0,
                iabs(oy as int) >= 0,
        ;
    }
    let spawn = Vec2 { x: origin.x + ox, y: origin.y + oy };
    let bullet = Bullet::new(facing, facing_dir);
    let collider = Collider::Aabb(
        Aabb { center: spawn, half_extents: Vec2 { x: BULLET_HALF_EXTENT, y: BULLET_HALF_EXTENT } },
    );
    (bullet, spawn, collider)
}

} // verus!
