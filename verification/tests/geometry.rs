use tank_arena::collider::{Aabb, Collider, Obb};
use tank_arena::vec2::Vec2;
use tank_arena::walls::WallType;

fn aabb(cx: i64, cy: i64, hx: i64, hy: i64) -> Collider {
    Collider::Aabb(Aabb { center: Vec2 { x: cx, y: cy }, half_extents: Vec2 { x: hx, y: hy } })
}

fn obb(cx: i64, cy: i64, hx: i64, hy: i64, ax: i64, ay: i64) -> Collider {
    Collider::Obb(Obb {
        center: Vec2 { x: cx, y: cy },
        half_extents: Vec2 { x: hx, y: hy },
        axis: Vec2 { x: ax, y: ay },
    })
}

#[test]
fn sat_gap_of_five_separates() {
    // An axis-aligned box of half extents 10 at the origin and an unrotated
    // oriented box of half extents 10 at x = 25: a gap of 5 units.
    let a = aabb(0, 0, 10_000, 10_000);
    let o = obb(25_000, 0, 10_000, 10_000, 1000, 0);
    assert!(!a.collides_with(&o));
    assert!(!o.collides_with(&a));
}

#[test]
fn sat_overlap_of_one_collides() {
    // Moving the oriented box to x = 19 overlaps by one unit.
    let a = aabb(0, 0, 10_000, 10_000);
    let o = obb(19_000, 0, 10_000, 10_000, 1000, 0);
    assert!(a.collides_with(&o));
    assert!(o.collides_with(&a));
}

#[test]
fn sat_rotated_diagonal() {
    // A 45-degree box at x = 25: its projected radius on the x axis shrinks
    // the corner reach of a square but a long box still touches.
    // axis = (cos 45, sin 45) * 1000 = (707, 707).
    let a = aabb(0, 0, 10_000, 10_000);
    // Half extents 10x10 rotated 45 degrees reach about 14.14 on x: gap.
    let o = obb(25_000, 0, 10_000, 10_000, 707, 707);
    assert!(!a.collides_with(&o));
    // Half extents 30x10 rotated 45 degrees reach about 28.3 on x: overlap.
    let o2 = obb(25_000, 0, 30_000, 10_000, 707, 707);
    assert!(a.collides_with(&o2));
}

#[test]
fn aabb_overlap_symmetry() {
    let a = aabb(0, 0, 10_000, 10_000);
    let b = aabb(15_000, 2_000, 10_000, 10_000);
    let c = aabb(50_000, 50_000, 1_000, 1_000);
    assert_eq!(a.collides_with(&b), b.collides_with(&a));
    assert_eq!(a.collides_with(&c), c.collides_with(&a));
    assert!(a.collides_with(&b));
    assert!(!a.collides_with(&c));
}

#[test]
fn zero_sized_collider_separates() {
    // A zero-sized collider never collides with anything it does not share a
    // point with: any nonzero separation separates.
    let z = aabb(0, 0, 0, 0);
    let o = obb(1, 0, 0, 0, 1000, 0);
    assert!(!z.collides_with(&o));
}

#[test]
fn touching_edges_count_as_aabb_overlap() {
    let a = aabb(0, 0, 10_000, 10_000);
    let b = aabb(20_000, 0, 10_000, 10_000);
    assert!(a.collides_with(&b));
}

#[test]
fn penetration_picks_smaller_overlap_axis() {
    // Wall of half extents 10 at the origin, body of half extents 10 at
    // (15, 2): x overlap 5, y overlap 18, so the resolution axis is x with
    // depth 5 and the normal points along positive x.
    let body = aabb(15_000, 2_000, 10_000, 10_000);
    let wall = aabb(0, 0, 10_000, 10_000);
    let info = body.collision_info(&wall, None);
    assert_eq!(info, Some((Vec2 { x: 1, y: 0 }, 5_000)));
    assert_eq!(body.compute_penetration_depth(&wall), 5_000);
    assert_eq!(body.compute_collision_normal(&wall), Vec2 { x: 1, y: 0 });
}

#[test]
fn collision_info_bias_favors_wall_axis() {
    // A horizontal wall adds 10 to the y overlap, a vertical wall 5 to x.
    let body = aabb(0, 18_000, 10_000, 10_000);
    let wall = aabb(0, 0, 10_000, 10_000);
    // Without bias: x overlap 20, y overlap 2: y axis wins with depth 2.
    assert_eq!(body.collision_info(&wall, None), Some((Vec2 { x: 0, y: 1 }, 2_000)));
    // With the horizontal bias the y overlap grows to 12, still smaller.
    assert_eq!(
        body.collision_info(&wall, Some(WallType::Horizontal)),
        Some((Vec2 { x: 0, y: 1 }, 12_000))
    );
}

#[test]
fn collision_info_none_without_overlap() {
    let body = aabb(50_000, 0, 10_000, 10_000);
    let wall = aabb(0, 0, 10_000, 10_000);
    assert_eq!(body.collision_info(&wall, None), None);
    assert_eq!(body.compute_penetration_depth(&wall), 0);
}
