use tank_arena::collider::{Aabb, Collider};
use tank_arena::collision::{
    reflect_angle, reflect_dir, step_simulation, tank_wall_collision, Body, BodyKind,
    SimulationEvent, Transform, Velocity,
};
use tank_arena::shooting::{fire_bullet, Bullet};
use tank_arena::tank::Tank;
use tank_arena::vec2::Vec2;
use tank_arena::walls::{Wall, WallType};

fn wall_at(cx: i64, cy: i64, hx: i64, hy: i64, wall_type: WallType) -> Wall {
    Wall {
        wall_type,
        collider: Collider::Aabb(Aabb {
            center: Vec2 { x: cx, y: cy },
            half_extents: Vec2 { x: hx, y: hy },
        }),
    }
}

fn bullet_body(id: u64, bullet: Bullet, pos: Vec2) -> Body {
    Body {
        id,
        kind: BodyKind::Bullet(bullet),
        transform: Transform { pos, rot: bullet.angle, rot_axis: bullet.dir },
        velocity: Velocity { x: 0, y: 0 },
        collider: Collider::Aabb(Aabb { center: pos, half_extents: Vec2 { x: 2_500, y: 2_500 } }),
    }
}

/// The scaled unit vector of an angle given in millidegrees, as the host
/// computes it with floating-point trigonometry.
fn dir_of_millideg(angle: i64) -> Vec2 {
    let rad = (angle as f64) / 1000.0 * std::f64::consts::PI / 180.0;
    Vec2 { x: (rad.cos() * 1000.0).round() as i64, y: (rad.sin() * 1000.0).round() as i64 }
}

#[test]
fn reflection_of_thirty_degrees() {
    // A bullet at 30 degrees reflects to -30 off a horizontal wall and to
    // 150 off a vertical wall.
    assert_eq!(reflect_angle(30_000, WallType::Horizontal), -30_000);
    assert_eq!(reflect_angle(30_000, WallType::Vertical), 150_000);
}

#[test]
fn direction_reflection_matches_angle_reflection() {
    // Reflecting the unit vector agrees with taking the unit vector of the
    // reflected angle, for both wall orientations.
    for &angle in &[30_000i64, 135_000, -60_000, 90_000, 0] {
        let dir = dir_of_millideg(angle);
        for &wt in &[WallType::Horizontal, WallType::Vertical] {
            let reflected = reflect_dir(dir, wt);
            let expected = dir_of_millideg(reflect_angle(angle, wt));
            assert_eq!(reflected, expected, "angle {} wall {:?}", angle, wt);
        }
    }
}

#[test]
fn bullet_velocity_from_heading() {
    let b = Bullet {
        angle: 30_000,
        dir: Vec2 { x: 866, y: 500 },
        speed: 250_000,
        bounce_count: 0,
        last_hit_wall: None,
    };
    let v = b.velocity();
    assert_eq!(v, Vec2 { x: 216_500, y: 125_000 });
}

#[test]
fn fired_bullet_spawns_ahead() {
    let (bullet, spawn, collider) = fire_bullet(Vec2 { x: 1_000, y: 2_000 }, 0, Vec2 {
        x: 1000,
        y: 0,
    });
    assert_eq!(bullet.angle, 0);
    assert_eq!(bullet.speed, 250_000);
    assert_eq!(bullet.bounce_count, 0);
    assert_eq!(bullet.last_hit_wall, None);
    assert_eq!(spawn, Vec2 { x: 21_000, y: 2_000 });
    match collider {
        Collider::Aabb(a) => {
            assert_eq!(a.center, spawn);
            assert_eq!(a.half_extents, Vec2 { x: 2_500, y: 2_500 });
        }
        Collider::Obb(_) => panic!("bullets carry axis-aligned colliders"),
    }
}

#[test]
fn sixth_wall_hit_despawns_bullet() {
    // Two overlapping walls with distinct centers: the same-wall suppression
    // lets the bullet alternate between them, one bounce per frame, until
    // the sixth hit removes it.
    let walls = vec![
        wall_at(0, 5_000, 1_000_000, 1_000_000, WallType::Horizontal),
        wall_at(5_000, 0, 1_000_000, 1_000_000, WallType::Vertical),
    ];
    let bullet = Bullet {
        angle: 30_000,
        dir: Vec2 { x: 866, y: 500 },
        speed: 250_000,
        bounce_count: 0,
        last_hit_wall: None,
    };
    let mut bodies = vec![bullet_body(7, bullet, Vec2 { x: 0, y: 0 })];
    for frame in 1..=6u8 {
        let events = step_simulation(0, &mut bodies, &walls);
        if frame < 6 {
            assert_eq!(bodies.len(), 1, "frame {}", frame);
            assert_eq!(events.len(), 1);
            match bodies[0].kind {
                BodyKind::Bullet(b) => assert_eq!(b.bounce_count, frame),
                BodyKind::Tank => panic!("expected a bullet"),
            }
        } else {
            assert_eq!(bodies.len(), 0, "despawned after the sixth hit");
            assert_eq!(events.len(), 2);
            assert_eq!(events[1], SimulationEvent::BulletDespawned(7));
        }
    }
}

#[test]
fn same_wall_does_not_retrigger() {
    // One wall: after the first reflection the bullet still overlaps it, but
    // the following frame does not reflect again.
    let walls = vec![wall_at(0, 5_000, 1_000_000, 1_000_000, WallType::Horizontal)];
    let bullet = Bullet {
        angle: 30_000,
        dir: Vec2 { x: 866, y: 500 },
        speed: 250_000,
        bounce_count: 0,
        last_hit_wall: None,
    };
    let mut bodies = vec![bullet_body(1, bullet, Vec2 { x: 0, y: 0 })];
    let events = step_simulation(0, &mut bodies, &walls);
    assert_eq!(events, vec![SimulationEvent::WallHit(1, 0)]);
    let after_first = match bodies[0].kind {
        BodyKind::Bullet(b) => b,
        BodyKind::Tank => panic!("expected a bullet"),
    };
    assert_eq!(after_first.angle, -30_000);
    assert_eq!(after_first.bounce_count, 1);
    assert_eq!(after_first.last_hit_wall, Some(Vec2 { x: 0, y: 5_000 }));

    let events2 = step_simulation(0, &mut bodies, &walls);
    assert_eq!(events2, vec![]);
    match bodies[0].kind {
        BodyKind::Bullet(b) => {
            assert_eq!(b.angle, -30_000);
            assert_eq!(b.bounce_count, 1);
        }
        BodyKind::Tank => panic!("expected a bullet"),
    }
}

#[test]
fn bullet_nudged_against_velocity() {
    // Moving up into a horizontal wall nudges the bullet down by 0.1 units.
    let walls = vec![wall_at(0, 5_000, 1_000_000, 1_000_000, WallType::Horizontal)];
    let bullet = Bullet {
        angle: 90_000,
        dir: Vec2 { x: 0, y: 1000 },
        speed: 250_000,
        bounce_count: 0,
        last_hit_wall: None,
    };
    let mut bodies = vec![bullet_body(1, bullet, Vec2 { x: 0, y: 0 })];
    step_simulation(0, &mut bodies, &walls);
    // Position after the nudge: (0, -100); integration with dt 0 adds nothing.
    assert_eq!(bodies[0].transform.pos, Vec2 { x: 0, y: -100 });
}

#[test]
fn bullet_integrates_along_heading() {
    // No walls: half a second at 250 units per second along x.
    let walls: Vec<Wall> = vec![];
    let bullet = Bullet {
        angle: 0,
        dir: Vec2 { x: 1000, y: 0 },
        speed: 250_000,
        bounce_count: 0,
        last_hit_wall: None,
    };
    let mut bodies = vec![bullet_body(1, bullet, Vec2 { x: 0, y: 0 })];
    let events = step_simulation(500, &mut bodies, &walls);
    assert_eq!(events, vec![]);
    assert_eq!(bodies[0].transform.pos, Vec2 { x: 125_000, y: 0 });
    assert_eq!(bodies[0].velocity, Velocity { x: 250_000, y: 0 });
}

#[test]
fn tank_pushed_out_along_smaller_overlap() {
    // Tank at (15, 2) against a wall of half extents 10 at the origin: the x
    // overlap (5, plus no bias for a plain test we use a horizontal wall
    // whose bias only widens y) wins; the tank moves +5 on x and its inward
    // velocity component is canceled.
    let walls = vec![wall_at(0, 0, 10_000, 10_000, WallType::Vertical)];
    let mut pos = Vec2 { x: 15_000, y: 2_000 };
    let mut vel = Velocity { x: -100, y: 50 };
    let collider = Collider::Aabb(Aabb {
        center: pos,
        half_extents: Vec2 { x: 10_000, y: 10_000 },
    });
    let hit = tank_wall_collision(&mut pos, &mut vel, &collider, &walls);
    // The vertical bias adds 5 to the x overlap: depth 10 on x.
    assert_eq!(hit, Some(0));
    assert_eq!(pos, Vec2 { x: 25_000, y: 2_000 });
    assert_eq!(vel, Velocity { x: 0, y: 50 });
}

#[test]
fn tank_defaults() {
    let t = Tank::new();
    assert_eq!(t.speed, 150_000);
    assert_eq!(t.rotation_speed, 90_000);
    assert_eq!(Tank::size(), Vec2 { x: 60_000, y: 40_000 });
    assert_eq!(Tank::half_extents(), Vec2 { x: 30_000, y: 20_000 });
}
