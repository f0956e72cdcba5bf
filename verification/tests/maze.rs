use tank_arena::collider::Collider;
use tank_arena::walls::{generate_maze, setup_walls, Direction, MazeLayout, WallType};

/// The four slot codes, in slot order: up, down, left, right.
const UP: usize = 0;
const DOWN: usize = 1;
const LEFT: usize = 2;
const RIGHT: usize = 3;

fn open_canonical_edges(m: &MazeLayout) -> usize {
    let mut count = 0;
    for k in 0..m.walls.len() {
        if !m.walls[k] && (k % 4 == UP || k % 4 == RIGHT) {
            count += 1;
        }
    }
    count
}

fn connected_cells(m: &MazeLayout) -> usize {
    let w = m.width as usize;
    let h = m.height as usize;
    let n = w * h;
    let mut seen = vec![false; n];
    let mut stack = vec![0usize];
    seen[0] = true;
    let mut reached = 0;
    while let Some(c) = stack.pop() {
        reached += 1;
        let x = c % w;
        let y = c / w;
        let mut neighbors = Vec::new();
        if y + 1 < h && !m.walls[4 * c + UP] {
            neighbors.push(c + w);
        }
        if y >= 1 && !m.walls[4 * c + DOWN] {
            neighbors.push(c - w);
        }
        if x >= 1 && !m.walls[4 * c + LEFT] {
            neighbors.push(c - 1);
        }
        if x + 1 < w && !m.walls[4 * c + RIGHT] {
            neighbors.push(c + 1);
        }
        for nb in neighbors {
            if !seen[nb] {
                seen[nb] = true;
                stack.push(nb);
            }
        }
    }
    reached
}

fn check_edge_symmetry(m: &MazeLayout) {
    let w = m.width as usize;
    let h = m.height as usize;
    for c in 0..w * h {
        let x = c % w;
        let y = c / w;
        if y + 1 < h {
            assert_eq!(m.walls[4 * c + UP], m.walls[4 * (c + w) + DOWN]);
        } else {
            assert!(m.walls[4 * c + UP]);
        }
        if x + 1 < w {
            assert_eq!(m.walls[4 * c + RIGHT], m.walls[4 * (c + 1) + LEFT]);
        } else {
            assert!(m.walls[4 * c + RIGHT]);
        }
        if y == 0 {
            assert!(m.walls[4 * c + DOWN]);
        }
        if x == 0 {
            assert!(m.walls[4 * c + LEFT]);
        }
    }
}

#[test]
fn maze_is_spanning_tree_for_many_seeds() {
    for &(w, h) in &[(1u32, 1u32), (1, 5), (5, 1), (2, 2), (6, 6), (9, 4)] {
        for seed in 0..5u64 {
            let m = generate_maze(w, h, seed);
            let n = (w * h) as usize;
            assert_eq!(m.walls.len(), 4 * n);
            assert_eq!(open_canonical_edges(&m), n - 1, "size {}x{} seed {}", w, h, seed);
            assert_eq!(connected_cells(&m), n, "size {}x{} seed {}", w, h, seed);
            check_edge_symmetry(&m);
        }
    }
}

#[test]
fn maze_generation_is_deterministic() {
    let a = generate_maze(6, 6, 12345);
    let b = generate_maze(6, 6, 12345);
    assert_eq!(a.walls, b.walls);
    let c = generate_maze(6, 6, 54321);
    // Different seeds almost surely differ on a 6x6 grid.
    assert_ne!(a.walls, c.walls);
}

#[test]
fn single_cell_maze_keeps_all_walls() {
    let m = generate_maze(1, 1, 7);
    assert_eq!(m.walls, vec![true, true, true, true]);
}

#[test]
fn degenerate_grid_yields_no_walls() {
    // A zero-sized grid terminates cleanly with an empty wall set.
    let m = generate_maze(0, 0, 7);
    assert_eq!(m.walls, Vec::<bool>::new());
    let m2 = generate_maze(0, 5, 7);
    assert_eq!(m2.walls.len(), 0);
    assert_eq!(setup_walls(0, 0, 7).len(), 0);
}

#[test]
fn direction_offsets_and_opposites() {
    assert_eq!(Direction::Up.offset(), (0, 1));
    assert_eq!(Direction::Down.offset(), (0, -1));
    assert_eq!(Direction::Left.offset(), (-1, 0));
    assert_eq!(Direction::Right.offset(), (1, 0));
    assert_eq!(Direction::Up.opposite(), Direction::Down);
    assert_eq!(Direction::Left.opposite(), Direction::Right);
    assert_eq!(WallType::from(Direction::Up), WallType::Horizontal);
    assert_eq!(WallType::from(Direction::Down), WallType::Horizontal);
    assert_eq!(WallType::from(Direction::Left), WallType::Vertical);
    assert_eq!(WallType::from(Direction::Right), WallType::Vertical);
}

#[test]
fn placed_walls_of_single_cell() {
    // One cell of 120 units: the cell center is the origin, walls sit half a
    // cell out, horizontal walls span the cell with half thickness 2.5.
    let walls = setup_walls(1, 1, 3);
    assert_eq!(walls.len(), 4);
    let expect = [
        (WallType::Horizontal, (0, 60_000), (60_000, 2_500)),
        (WallType::Horizontal, (0, -60_000), (60_000, 2_500)),
        (WallType::Vertical, (-60_000, 0), (2_500, 60_000)),
        (WallType::Vertical, (60_000, 0), (2_500, 60_000)),
    ];
    for (i, wall) in walls.iter().enumerate() {
        assert_eq!(wall.wall_type, expect[i].0);
        match wall.collider {
            Collider::Aabb(a) => {
                assert_eq!((a.center.x, a.center.y), expect[i].1);
                assert_eq!((a.half_extents.x, a.half_extents.y), expect[i].2);
            }
            Collider::Obb(_) => panic!("maze walls are axis-aligned"),
        }
    }
}

#[test]
fn placed_walls_match_standing_slots() {
    let m = generate_maze(4, 3, 99);
    let walls = setup_walls(4, 3, 99);
    let standing = m.walls.iter().filter(|&&b| b).count();
    assert_eq!(walls.len(), standing);
}
