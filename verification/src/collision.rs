use vstd::prelude::*;

use crate::collider::{collides_spec, collision_info_spec, Collider};
use crate::constants::{
    ANGLE_LIMIT, AXIS_SCALE, BULLET_BOUNCE_LIMIT, BULLET_NUDGE, COORD_LIMIT, MILLIS_PER_SECOND,
};
use crate::shooting::{muldiv, Bullet};
use crate::vec2::{iabs, Vec2};
use crate::walls::{Wall, WallType};

verus! {

/// A body's linear velocity in milliunits per second.
#[derive(Clone, Copy, Debug, PartialEq, Eq, Structural)]
pub struct Velocity {
    pub x: i64,
    pub y: i64,
}

/// A body's placement: position, rotation in millidegrees, and the
/// rotation's unit vector scaled by `AXIS_SCALE`.
#[derive(Clone, Copy, Debug, PartialEq, Eq, Structural)]
pub struct Transform {
    pub pos: Vec2,
    pub rot: i64,
    pub rot_axis: Vec2,
}

/// What kind of dynamic body this is.
#[derive(Clone, Copy, Debug, PartialEq, Eq, Structural)]
pub enum BodyKind {
    Tank,
    Bullet(Bullet),
}

/// A dynamic body of the simulation.
#[derive(Clone, Copy, Debug, PartialEq, Eq, Structural)]
pub struct Body {
    pub id: u64,
    pub kind: BodyKind,
    pub transform: Transform,
    pub velocity: Velocity,
    pub collider: Collider,
}

/// What one simulation step reports to the host.
#[derive(Clone, Copy, Debug, PartialEq, Eq, Structural)]
pub enum SimulationEvent {
    WallHit(u64, u64),
    BulletDespawned(u64),
}

/// The reflected heading: a horizontal wall negates the angle, a vertical
/// wall mirrors it to 180 degrees minus the angle.
pub open spec fn reflect_spec(angle: int, wall_type: WallType) -> int {
    match wall_type {
        WallType::Horizontal => -angle,
        WallType::Vertical => 180_000 - angle,
    }
}

/// Reflect a bullet heading off a wall.
pub fn reflect_angle(angle: i64, wall_type: WallType) -> (r: i64)
    requires
        iabs(angle as int) <= ANGLE_LIMIT,
    ensures
        r == reflect_spec(angle as int, wall_type),
        iabs(r as int) <= ANGLE_LIMIT + 180_000,
{
    match wall_type {
        WallType::Horizontal => -angle,
        WallType::Vertical => 180_000 - angle,
    }
}

/// The unit vector of the reflected heading: a horizontal wall negates the
/// vertical component, a vertical wall the horizontal one.
pub open spec fn reflect_dir_spec(dir: Vec2, wall_type: WallType) -> Vec2 {
    match wall_type {
        WallType::Horizontal => Vec2 { x: dir.x, y: (-(dir.y as int)) as i64 },
        WallType::Vertical => Vec2 { x: (-(dir.x as int)) as i64, y: dir.y },
    }
}

/// Reflect a unit direction vector off a wall.
pub fn reflect_dir(dir: Vec2, wall_type: WallType) -> (r: Vec2)
    requires
        -AXIS_SCALE <= dir.x <= AXIS_SCALE,
        -AXIS_SCALE <= dir.y <= AXIS_SCALE,
    ensures
        r == reflect_dir_spec(dir, wall_type),
        -AXIS_SCALE <= r.x <= AXIS_SCALE,
        -AXIS_SCALE <= r.y <= AXIS_SCALE,
{
    match wall_type {
        WallType::Horizontal => Vec2 { x: dir.x, y: -dir.y },
        WallType::Vertical => Vec2 { x: -dir.x, y: dir.y },
    }
}

/// A collider synchronized to its body's transform: the center follows the
/// position, an oriented box also takes the body's rotation axis.
pub open spec fn refresh_spec(c: Collider, t: Transform) -> Collider {
    match c {
        Collider::Aabb(a) => Collider::Aabb(
            crate::collider::Aabb { center: t.pos, half_extents: a.half_extents },
        ),
        Collider::Obb(o) => Collider::Obb(
            crate::collider::Obb {
                center: t.pos,
                half_extents: o.half_extents,
                axis: t.rot_axis,
            },
        ),
    }
}

/// Synchronize a collider from its body's transform before collision tests.
pub fn update_bounds(collider: &Collider, transform: &Transform) -> (r: Collider)
    ensures
        r == refresh_spec(*collider, *transform),
{
    match collider {
        Collider::Aabb(a) => Collider::Aabb(
            crate::collider::Aabb { center: transform.pos, half_extents: a.half_extents },
        ),
        Collider::Obb(o) => Collider::Obb(
            crate::collider::Obb {
                center: transform.pos,
                half_extents: o.half_extents,
                axis: transform.rot_axis,
            },
        ),
    }
}

/// The first wall, from index `i` on, whose biased penetration test reports
/// contact with the tank collider.
pub open spec fn tank_first_hit(c: Collider, walls: Seq<Wall>, i: int) -> Option<int>
    decreases walls.len() - i,
{
    if i < 0 || i >= walls.len() {
        None
    } else if collision_info_spec(c, walls[i].collider, Some(walls[i].wall_type)) is Some {
        Some(i)
    } else {
        tank_first_hit(c, walls, i + 1)
    }
}

/// How a tank's position and velocity change against the walls: the first
/// penetrated wall pushes it out along the resolution normal by the
/// penetration depth, and the inward velocity component is canceled; other
/// walls are left to later frames.
pub open spec fn tank_resolve_spec(pos: Vec2, v: Velocity, c: Collider, walls: Seq<Wall>) -> (
    Vec2,
    Velocity,
) {
    match tank_first_hit(c, walls, 0) {
        None => (pos, v),
        Some(i) => {
            let info = collision_info_spec(c, walls[i].collider, Some(walls[i].wall_type))->Some_0;
            let normal = info.0;
            let depth = info.1;
            let pos2 = Vec2 {
                x: (pos.x + normal.x * depth) as i64,
                y: (pos.y + normal.y * depth) as i64,
            };
            let vn = v.x * normal.x + v.y * normal.y;
            let v2 = if vn < 0 {
                Velocity { x: (v.x - normal.x * vn) as i64, y: (v.y - normal.y * vn) as i64 }
            } else {
                v
            };
            (pos2, v2)
        },
    }
}

/// A resolution normal is a signed unit axis vector.
pub open spec fn unit_normal(n: Vec2) -> bool {
    ||| (iabs(n.x as int) == 1 && n.y == 0)
    ||| (n.x == 0 && iabs(n.y as int) == 1)
}

/// A penetration result carries a unit-axis normal and a bounded depth.
proof fn lemma_collision_info_shape(c: Collider, o: Collider, wt: Option<WallType>)
    requires
        c.wf(),
        o.wf(),
        collision_info_spec(c, o, wt) is Some,
    ensures
        unit_normal(collision_info_spec(c, o, wt)->Some_0.0),
        0 < collision_info_spec(c, o, wt)->Some_0.1 <= 2 * COORD_LIMIT + 10_000,
{
}

/// Move the tank out of the first penetrated wall and cancel its inward
/// velocity; report which wall was hit.
pub fn tank_wall_collision(pos: &mut Vec2, velocity: &mut Velocity, collider: &Collider, walls: &Vec<Wall>) -> (r: Option<usize>)
    requires
        collider.wf(),
        old(pos).wf(),
        iabs(old(velocity).x as int) <= COORD_LIMIT,
        iabs(old(velocity).y as int) <= COORD_LIMIT,
        forall|i: int| 0 <= i < walls@.len() ==> #[trigger] crate::walls::wall_body_ok(walls@[i]),
    ensures
        *final(pos) == tank_resolve_spec(*old(pos), *old(velocity), *collider, walls@).0,
        *final(velocity) == tank_resolve_spec(*old(pos), *old(velocity), *collider, walls@).1,
        r is Some <==> tank_first_hit(*collider, walls@, 0) is Some,
        r is Some ==> (r->Some_0 < walls@.len() && r->Some_0 as int == tank_first_hit(
            *collider,
            walls@,
            0,
        )->Some_0),
{
    let mut i: usize = 0;
    while i < walls.len()
        invariant
            i <= walls@.len(),
            collider.wf(),
            *pos == *old(pos),
            *velocity == *old(velocity),
            forall|j: int| 0 <= j < walls@.len() ==> #[trigger] crate::walls::wall_body_ok(walls@[j]),
            iabs(velocity.x as int) <= COORD_LIMIT,
            iabs(velocity.y as int) <= COORD_LIMIT,
            pos.wf(),
            tank_first_hit(*collider, walls@, 0) == tank_first_hit(*collider, walls@, i as int),
        decreases walls@.len() - i,
    {
        let wall = &walls[i];
        proof {
            assert(crate::walls::wall_body_ok(walls@[i as int]));
        }
        match collider.collision_info(&wall.collider, Some(wall.wall_type)) {
            Some((normal, depth)) => {
                proof {
                    lemma_collision_info_shape(*collider, wall.collider, Some(wall.wall_type));
                    crate::collider::lemma_mul_abs_bound(
                        normal.x as int,
                        depth as int,
                        1,
                        2 * COORD_LIMIT + 10_000,
                    );
                    crate::collider::lemma_mul_abs_bound(
                        normal.y as int,
                        depth as int,
                        1,
                        2 * COORD_LIMIT + 10_000,
                    );
                    crate::collider::lemma_mul_abs_bound(
                        velocity.x as int,
                        normal.x as int,
                        COORD_LIMIT as int,
                        1,
                    );
                    crate::collider::lemma_mul_abs_bound(
                        velocity.y as int,
                        normal.y as int,
                        COORD_LIMIT as int,
                        1,
                    );
                }
                pos.x = pos.x + normal.x * depth;
                pos.y = pos.y + normal.y * depth;
                let vn = velocity.x * normal.x + velocity.y * normal.y;
                proof {
                    crate::collider::lemma_mul_abs_bound(
                        normal.x as int,
                        vn as int,
                        1,
                        2 * COORD_LIMIT,
                    );
                    crate::collider::lemma_mul_abs_bound(
                        normal.y as int,
                        vn as int,
                        1,
                        2 * COORD_LIMIT,
                    );
                }
                if vn < 0 {
                    velocity.x = velocity.x - normal.x * vn;
                    velocity.y = velocity.y - normal.y * vn;
                }
                return Some(i);
            },
            None => {},
        }
        i = i + 1;
    }
    None
}

} // verus!

verus! {

/// Whether this wall is the one the bullet last reflected off, identified by
/// its center.
pub open spec fn same_wall(last: Option<Vec2>, wall: Wall) -> bool {
    match last {
        Some(c) => c == wall.collider.center_spec(),
        None => false,
    }
}

/// The first wall, from index `i` on, that the bullet overlaps and that is
/// not the wall it last reflected off.
pub open spec fn bullet_first_hit(c: Collider, last: Option<Vec2>, walls: Seq<Wall>, i: int) -> Option<int>
    decreases walls.len() - i,
{
    if i < 0 || i >= walls.len() {
        None
    } else if !same_wall(last, walls[i]) && collides_spec(c, walls[i].collider) {
        Some(i)
    } else {
        bullet_first_hit(c, last, walls, i + 1)
    }
}

/// The sign of the nudge away from the wall: opposite to the velocity
/// component crossing it.
pub open spec fn nudge_normal(b: Bullet, wall_type: WallType) -> Vec2 {
    match wall_type {
        WallType::Horizontal => Vec2 {
            x: 0,
            y: if muldiv(b.speed as int, b.dir.y as int, AXIS_SCALE as int) > 0 {
                -1i64
            } else {
                1i64
            },
        },
        WallType::Vertical => Vec2 {
            x: if muldiv(b.speed as int, b.dir.x as int, AXIS_SCALE as int) > 0 {
                -1i64
            } else {
                1i64
            },
            y: 0,
        },
    }
}

/// What one bullet-versus-walls pass does: on the first overlapped wall that
/// is not the last-hit one, the heading reflects, the hit wall is recorded,
/// the bullet is nudged off the wall, and the bounce count grows; the bullet
/// despawns once that count exceeds the limit. The result carries the new
/// bullet, its new position, the index of the wall hit, and whether the
/// bullet despawns.
pub open spec fn bullet_step_spec(b: Bullet, pos: Vec2, c: Collider, walls: Seq<Wall>) -> (
    Bullet,
    Vec2,
    Option<int>,
    bool,
) {
    match bullet_first_hit(c, b.last_hit_wall, walls, 0) {
        None => (b, pos, None, false),
        Some(i) => {
            let wall = walls[i];
            let normal = nudge_normal(b, wall.wall_type);
            let b2 = Bullet {
                angle: reflect_spec(b.angle as int, wall.wall_type) as i64,
                dir: reflect_dir_spec(b.dir, wall.wall_type),
                speed: b.speed,
                bounce_count: (b.bounce_count + 1) as u8,
                last_hit_wall: Some(wall.collider.center_spec()),
            };
            let pos2 = Vec2 {
                x: (pos.x + normal.x * BULLET_NUDGE) as i64,
                y: (pos.y + normal.y * BULLET_NUDGE) as i64,
            };
            (b2, pos2, Some(i), b.bounce_count + 1 > BULLET_BOUNCE_LIMIT)
        },
    }
}

/// Reflect the bullet off the first wall it overlaps, skipping the wall it
/// last reflected off; count the bounce and report despawn past the limit.
pub fn bullet_wall_collision(bullet: &mut Bullet, pos: &mut Vec2, collider: &Collider, walls: &Vec<Wall>) -> (r: (
    Option<usize>,
    bool,
))
    requires
        old(bullet).wf(),
        old(bullet).bounce_count < 255,
        iabs(old(bullet).angle as int) <= ANGLE_LIMIT,
        collider.wf(),
        old(pos).wf(),
        forall|i: int| 0 <= i < walls@.len() ==> #[trigger] crate::walls::wall_body_ok(walls@[i]),
    ensures
        ({
            let spec = bullet_step_spec(*old(bullet), *old(pos), *collider, walls@);
            &&& *final(bullet) == spec.0
            &&& *final(pos) == spec.1
            &&& (r.0 is Some <==> spec.2 is Some)
            &&& (r.0 is Some ==> (r.0->Some_0 < walls@.len() && r.0->Some_0 as int
                == spec.2->Some_0))
            &&& r.1 == spec.3
            &&& final(bullet).wf()
            &&& iabs(final(bullet).angle as int) <= ANGLE_LIMIT + 180_000
        }),
{
    let ghost spec = bullet_step_spec(*old(bullet), *old(pos), *collider, walls@);
    let mut i: usize = 0;
    while i < walls.len()
        invariant
            i <= walls@.len(),
            collider.wf(),
            *bullet == *old(bullet),
            *pos == *old(pos),
            old(bullet).wf(),
            old(bullet).bounce_count < 255,
            iabs(old(bullet).angle as int) <= ANGLE_LIMIT,
            old(pos).wf(),
            forall|j: int| 0 <= j < walls@.len() ==> #[trigger] crate::walls::wall_body_ok(walls@[j]),
            bullet_first_hit(*collider, old(bullet).last_hit_wall, walls@, 0) == bullet_first_hit(
                *collider,
                old(bullet).last_hit_wall,
                walls@,
                i as int,
            ),
        decreases walls@.len() - i,
    {
        let wall = &walls[i];
        proof {
            assert(crate::walls::wall_body_ok(walls@[i as int]));
        }
        let is_same = match bullet.last_hit_wall {
            Some(c) => {
                let wc = wall.collider.center();
                c.x == wc.x && c.y == wc.y
            },
            None => false,
        };
        if !is_same {
            if collider.collides_with(&wall.collider) {
                let v = bullet.velocity();
                let normal = match wall.wall_type {
                    WallType::Horizontal => Vec2 { x: 0, y: if v.y > 0 { -1 } else { 1 } },
                    WallType::Vertical => Vec2 { x: if v.x > 0 { -1 } else { 1 }, y: 0 },
                };
                let new_angle = reflect_angle(bullet.angle, wall.wall_type);
                let new_dir = reflect_dir(bullet.dir, wall.wall_type);
                bullet.angle = new_angle;
                bullet.dir = new_dir;
                bullet.last_hit_wall = Some(wall.collider.center());
                pos.x = pos.x + normal.x * BULLET_NUDGE;
                pos.y = pos.y + normal.y * BULLET_NUDGE;
                bullet.bounce_count = bullet.bounce_count + 1;
                let despawn = bullet.bounce_count > BULLET_BOUNCE_LIMIT;
                return (Some(i), despawn);
            }
        }
        i = i + 1;
    }
    (None, false)
}

/// A bullet still overlapping only the wall it just reflected off does not
/// reflect again: the pass leaves it unchanged.
pub proof fn lemma_same_wall_suppression(b: Bullet, pos: Vec2, c: Collider, walls: Seq<Wall>)
    requires
        b.last_hit_wall is Some,
        forall|i: int|
            0 <= i < walls.len() ==> #[trigger] walls[i].collider.center_spec()
                == b.last_hit_wall->Some_0,
    ensures
        bullet_step_spec(b, pos, c, walls) == (b, pos, Option::<int>::None, false),
{
    lemma_no_fresh_hit(b, pos, c, walls, 0);
}

proof fn lemma_no_fresh_hit(b: Bullet, pos: Vec2, c: Collider, walls: Seq<Wall>, i: int)
    requires
        b.last_hit_wall is Some,
        forall|j: int|
            0 <= j < walls.len() ==> #[trigger] walls[j].collider.center_spec()
                == b.last_hit_wall->Some_0,
        0 <= i <= walls.len(),
    ensures
        bullet_first_hit(c, b.last_hit_wall, walls, i) is None,
    decreases walls.len() - i,
{
    if i < walls.len() {
        assert(same_wall(b.last_hit_wall, walls[i]));
        lemma_no_fresh_hit(b, pos, c, walls, i + 1);
    }
}

/// A hit raises the bounce count by exactly one, and despawns the bullet
/// exactly when that count passes the limit: the sixth accumulated hit
/// removes it.
pub proof fn lemma_bounce_limit_despawn(b: Bullet, pos: Vec2, c: Collider, walls: Seq<Wall>)
    ensures
        ({
            let r = bullet_step_spec(b, pos, c, walls);
            &&& (r.2 is Some ==> r.0.bounce_count == (b.bounce_count + 1) as u8)
            &&& (r.2 is Some ==> (r.3 <==> b.bounce_count + 1 > BULLET_BOUNCE_LIMIT))
            &&& (r.2 is None ==> (r.0 == b && !r.3))
        }),
{
}

} // verus!

verus! {

use crate::constants::DT_LIMIT;

/// Position advanced by one frame: velocity times the frame delta, with
/// milliseconds scaled back to seconds.
pub open spec fn integrate_spec(pos: Vec2, v: Velocity, dt: u64) -> Vec2 {
    Vec2 {
        x: (pos.x + muldiv(v.x as int, dt as int, MILLIS_PER_SECOND as int)) as i64,
        y: (pos.y + muldiv(v.y as int, dt as int, MILLIS_PER_SECOND as int)) as i64,
    }
}

/// Advance a position by one frame of its velocity.
pub fn integrate(pos: Vec2, v: Velocity, dt: u64) -> (r: Vec2)
    requires
        iabs(pos.x as int) <= 2 * COORD_LIMIT,
        iabs(pos.y as int) <= 2 * COORD_LIMIT,
        iabs(v.x as int) <= COORD_LIMIT,
        iabs(v.y as int) <= COORD_LIMIT,
        dt <= DT_LIMIT,
    ensures
        r == integrate_spec(pos, v, dt),
{
    proof {
        crate::collider::lemma_mul_abs_bound(
            v.x as int,
            dt as int,
            COORD_LIMIT as int,
            DT_LIMIT as int,
        );
        crate::collider::lemma_mul_abs_bound(
            v.y as int,
            dt as int,
            COORD_LIMIT as int,
            DT_LIMIT as int,
        );
        crate::collider::lemma_mul_nonneg_bound(
            iabs(v.x as int),
            iabs(dt as int),
            COORD_LIMIT as int,
            DT_LIMIT as int,
        );
        crate::collider::lemma_mul_nonneg_bound(
            iabs(v.y as int),
            iabs(dt as int),
            COORD_LIMIT as int,
            DT_LIMIT as int,
        );
    }
    let dx = crate::shooting::mul_div(v.x, dt as i64, MILLIS_PER_SECOND);
    let dy = crate::shooting::mul_div(v.y, dt as i64, MILLIS_PER_SECOND);
    proof {
        assert(MILLIS_PER_SECOND * iabs(dx as int) <= iabs((v.x as int) * (dt as int)));
        assert(MILLIS_PER_SECOND * iabs(dy as int) <= iabs((v.y as int) * (dt as int)));
        assert(iabs(dx as int) <= COORD_LIMIT * DT_LIMIT && iabs(dy as int) <= COORD_LIMIT
            * DT_LIMIT) by (nonlinear_arith)
            requires
                MILLIS_PER_SECOND * iabs(dx as int) <= iabs((v.x as int) * (dt as int)),
                MILLIS_PER_SECOND * iabs(dy as int) <= iabs((v.y as int) * (dt as int)),
                iabs((v.x as int) * (dt as int)) <= COORD_LIMIT * DT_LIMIT,
                iabs((v.y as int) * (dt as int)) <= COORD_LIMIT * DT_LIMIT,
                MILLIS_PER_SECOND >= 1,
                iabs(dx as int) >= 0,
                iabs(dy as int) >= 0,
        ;
    }
    Vec2 { x: pos.x + dx, y: pos.y + dy }
}

/// A body the simulation step accepts: bounded coordinates and velocity, a
/// well-formed collider, and for a bullet a sane heading and bounce count.
pub open spec fn body_ok(b: Body) -> bool {
    &&& b.collider.wf()
    &&& b.transform.pos.wf()
    &&& -AXIS_SCALE <= b.transform.rot_axis.x <= AXIS_SCALE
    &&& -AXIS_SCALE <= b.transform.rot_axis.y <= AXIS_SCALE
    &&& iabs(b.velocity.x as int) <= COORD_LIMIT
    &&& iabs(b.velocity.y as int) <= COORD_LIMIT
    &&& match b.kind {
        BodyKind::Bullet(bl) => bl.wf() && bl.bounce_count < 255 && iabs(bl.angle as int)
            <= ANGLE_LIMIT,
        BodyKind::Tank => true,
    }
}

/// What one frame does to one body. The collider first follows the body's
/// transform; a tank is pushed out of the first penetrated wall; a bullet
/// reflects off the first fresh wall it overlaps, despawns past the bounce
/// limit, and otherwise moves one frame along its heading.
pub open spec fn step_body_spec(body: Body, walls: Seq<Wall>, dt: u64) -> (
    Option<Body>,
    Seq<SimulationEvent>,
) {
    let c1 = refresh_spec(body.collider, body.transform);
    match body.kind {
        BodyKind::Tank => {
            let rr = tank_resolve_spec(body.transform.pos, body.velocity, c1, walls);
            let b2 = Body {
                id: body.id,
                kind: BodyKind::Tank,
                transform: Transform {
                    pos: rr.0,
                    rot: body.transform.rot,
                    rot_axis: body.transform.rot_axis,
                },
                velocity: rr.1,
                collider: c1,
            };
            let ev: Seq<SimulationEvent> = match tank_first_hit(c1, walls, 0) {
                Some(i) => seq![SimulationEvent::WallHit(body.id, i as u64)],
                None => Seq::empty(),
            };
            (Some(b2), ev)
        },
        BodyKind::Bullet(bl) => {
            let bs = bullet_step_spec(bl, body.transform.pos, c1, walls);
            let ev1: Seq<SimulationEvent> = match bs.2 {
                Some(i) => seq![SimulationEvent::WallHit(body.id, i as u64)],
                None => Seq::empty(),
            };
            if bs.3 {
                (None, ev1.push(SimulationEvent::BulletDespawned(body.id)))
            } else {
                let v2 = Velocity {
                    x: muldiv(bs.0.speed as int, bs.0.dir.x as int, AXIS_SCALE as int) as i64,
                    y: muldiv(bs.0.speed as int, bs.0.dir.y as int, AXIS_SCALE as int) as i64,
                };
                let pos3 = integrate_spec(bs.1, v2, dt);
                let b2 = Body {
                    id: body.id,
                    kind: BodyKind::Bullet(bs.0),
                    transform: Transform { pos: pos3, rot: bs.0.angle, rot_axis: bs.0.dir },
                    velocity: v2,
                    collider: c1,
                };
                (Some(b2), ev1)
            }
        },
    }
}

/// Step one body against the walls.
pub fn step_body(body: &Body, walls: &Vec<Wall>, dt: u64) -> (r: (
    Option<Body>,
    Vec<SimulationEvent>,
))
    requires
        body_ok(*body),
        dt <= DT_LIMIT,
        forall|i: int| 0 <= i < walls@.len() ==> #[trigger] crate::walls::wall_body_ok(walls@[i]),
    ensures
        r.0 == step_body_spec(*body, walls@, dt).0,
        r.1@ == step_body_spec(*body, walls@, dt).1,
{
    let c1 = update_bounds(&body.collider, &body.transform);
    proof {
        assert(c1.wf());
    }
    let mut events: Vec<SimulationEvent> = Vec::new();
    match body.kind {
        BodyKind::Tank => {
            let mut p = body.transform.pos;
            let mut v = body.velocity;
            let hit = tank_wall_collision(&mut p, &mut v, &c1, walls);
            match hit {
                Some(i) => {
                    events.push(SimulationEvent::WallHit(body.id, i as u64));
                    proof {
                        assert(events@ =~= seq![
                            SimulationEvent::WallHit(
                                body.id,
                                tank_first_hit(c1, walls@, 0)->Some_0 as u64,
                            ),
                        ]);
                    }
                },
                None => {},
            }
            let b2 = Body {
                id: body.id,
                kind: BodyKind::Tank,
                transform: Transform {
                    pos: p,
                    rot: body.transform.rot,
                    rot_axis: body.transform.rot_axis,
                },
                velocity: v,
                collider: c1,
            };
            (Some(b2), events)
        },
        BodyKind::Bullet(bl) => {
            let mut b = bl;
            let mut p = body.transform.pos;
            let (hit, despawn) = bullet_wall_collision(&mut b, &mut p, &c1, walls);
            let ghost bs = bullet_step_spec(bl, body.transform.pos, c1, walls@);
            match hit {
                Some(i) => {
                    events.push(SimulationEvent::WallHit(body.id, i as u64));
                    proof {
                        assert(events@ =~= seq![
                            SimulationEvent::WallHit(body.id, bs.2->Some_0 as u64),
                        ]);
                    }
                },
                None => {},
            }
            if despawn {
                events.push(SimulationEvent::BulletDespawned(body.id));
                (None, events)
            } else {
                let vv = b.velocity();
                let v2 = Velocity { x: vv.x, y: vv.y };
                let pos3 = integrate(p, v2, dt);
                let b2 = Body {
                    id: body.id,
                    kind: BodyKind::Bullet(b),
                    transform: Transform { pos: pos3, rot: b.angle, rot_axis: b.dir },
                    velocity: v2,
                    collider: c1,
                };
                (Some(b2), events)
            }
        },
    }
}

/// What one frame does to the whole body list, in order: each body steps
/// against the walls, despawned bullets leave the list, and the events of
/// all bodies are concatenated.
pub open spec fn sim_spec(bodies: Seq<Body>, walls: Seq<Wall>, dt: u64) -> (
    Seq<Body>,
    Seq<SimulationEvent>,
)
    decreases bodies.len(),
{
    if bodies.len() == 0 {
        (Seq::empty(), Seq::empty())
    } else {
        let prev = sim_spec(bodies.drop_last(), walls, dt);
        let one = step_body_spec(bodies.last(), walls, dt);
        let nb = match one.0 {
            Some(b) => prev.0.push(b),
            None => prev.0,
        };
        (nb, prev.1 + one.1)
    }
}

fn append_events(dst: &mut Vec<SimulationEvent>, src: &Vec<SimulationEvent>)
    ensures
        final(dst)@ == old(dst)@ + src@,
{
    let mut k: usize = 0;
    proof {
        assert(old(dst)@ + src@.subrange(0, 0) =~= old(dst)@);
    }
    while k < src.len()
        invariant
            k <= src@.len(),
            dst@ == old(dst)@ + src@.subrange(0, k as int),
        decreases src@.len() - k,
    {
        let ghost before = dst@;
        dst.push(src[k]);
        proof {
            assert(old(dst)@ + src@.subrange(0, (k + 1) as int) =~= before.push(src@[k as int]));
        }
        k = k + 1;
    }
    proof {
        assert(src@.subrange(0, src@.len() as int) =~= src@);
    }
}

/// Run one simulation frame: refresh bounds, resolve tank and bullet wall
/// contacts, remove despawned bullets, and integrate bullet motion;
/// the returned events tell the host which walls were hit and which bullets
/// despawned.
pub fn step_simulation(dt: u64, bodies: &mut Vec<Body>, walls: &Vec<Wall>) -> (events: Vec<
    SimulationEvent,
>)
    requires
        dt <= DT_LIMIT,
        forall|i: int| 0 <= i < old(bodies)@.len() ==> #[trigger] body_ok(old(bodies)@[i]),
        forall|i: int| 0 <= i < walls@.len() ==> #[trigger] crate::walls::wall_body_ok(walls@[i]),
    ensures
        final(bodies)@ == sim_spec(old(bodies)@, walls@, dt).0,
        events@ == sim_spec(old(bodies)@, walls@, dt).1,
{
    let mut out: Vec<Body> = Vec::new();
    let mut events: Vec<SimulationEvent> = Vec::new();
    let mut i: usize = 0;
    proof {
        assert(old(bodies)@.subrange(0, 0) =~= Seq::<Body>::empty());
    }
    while i < bodies.len()
        invariant
            i <= bodies@.len(),
            bodies@ == old(bodies)@,
            dt <= DT_LIMIT,
            forall|j: int| 0 <= j < old(bodies)@.len() ==> #[trigger] body_ok(old(bodies)@[j]),
            forall|j: int|
                0 <= j < walls@.len() ==> #[trigger] crate::walls::wall_body_ok(walls@[j]),
            out@ == sim_spec(old(bodies)@.subrange(0, i as int), walls@, dt).0,
            events@ == sim_spec(old(bodies)@.subrange(0, i as int), walls@, dt).1,
        decreases bodies@.len() - i,
    {
        let body = bodies[i];
        proof {
            assert(body_ok(old(bodies)@[i as int]));
        }
        let (ob, evs) = step_body(&body, walls, dt);
        match ob {
            Some(b) => {
                out.push(b);
            },
            None => {},
        }
        append_events(&mut events, &evs);
        proof {
            let pre = old(bodies)@.subrange(0, i as int);
            let cur = old(bodies)@.subrange(0, (i + 1) as int);
            assert(cur.drop_last() =~= pre);
            assert(cur.last() == old(bodies)@[i as int]);
        }
        i = i + 1;
    }
    proof {
        assert(old(bodies)@.subrange(0, old(bodies)@.len() as int) =~= old(bodies)@);
    }
    *bodies = out;
    events
}

} // verus!
