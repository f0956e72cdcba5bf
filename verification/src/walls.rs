use vstd::prelude::*;

verus! {

/// Orientation of a wall slab: its long axis is horizontal or vertical.
#[derive(Clone, Copy, Debug, PartialEq, Eq, Structural)]
pub enum WallType {
    Horizontal,
    Vertical,
}

/// One of the four wall slots of a grid cell.
#[derive(Clone, Copy, Debug, PartialEq, Eq, Structural)]
pub enum Direction {
    Up,
    Down,
    Left,
    Right,
}

/// The orientation of the wall sitting in a cell's `d` slot: the walls above
/// and below a cell lie horizontally, those beside it vertically.
pub open spec fn wall_type_of(d: Direction) -> WallType {
    match d {
        Direction::Up => WallType::Horizontal,
        Direction::Down => WallType::Horizontal,
        Direction::Left => WallType::Vertical,
        Direction::Right => WallType::Vertical,
    }
}

impl From<Direction> for WallType {
    fn from(value: Direction) -> (r: WallType) {
        match value {
            Direction::Up => WallType::Horizontal,
            Direction::Down => WallType::Horizontal,
            Direction::Left => WallType::Vertical,
            Direction::Right => WallType::Vertical,
        }
    }
}

impl vstd::std_specs::convert::FromSpecImpl<Direction> for WallType {
    open spec fn obeys_from_spec() -> bool {
        true
    }

    open spec fn from_spec(d: Direction) -> WallType {
        wall_type_of(d)
    }
}

/// The slot on the far side of the same edge.
pub open spec fn opposite_of(d: Direction) -> Direction {
    match d {
        Direction::Up => Direction::Down,
        Direction::Down => Direction::Up,
        Direction::Left => Direction::Right,
        Direction::Right => Direction::Left,
    }
}

impl Direction {
    /// Grid offset of the neighboring cell behind this wall slot.
    pub fn offset(&self) -> (r: (i32, i32))
        ensures
            r == offset_of(*self),
    {
        match self {
            Direction::Up => (0, 1),
            Direction::Down => (0, -1),
            Direction::Left => (-1, 0),
            Direction::Right => (1, 0),
        }
    }

    pub fn opposite(&self) -> (r: Direction)
        ensures
            r == opposite_of(*self),
    {
        match self {
            Direction::Up => Direction::Down,
            Direction::Down => Direction::Up,
            Direction::Left => Direction::Right,
            Direction::Right => Direction::Left,
        }
    }
}

pub open spec fn offset_of(d: Direction) -> (i32, i32) {
    match d {
        Direction::Up => (0i32, 1i32),
        Direction::Down => (0i32, -1i32),
        Direction::Left => (-1i32, 0i32),
        Direction::Right => (1i32, 0i32),
    }
}

} // verus!

// ---------------------------------------------------------------------------
// The maze grid.
//
// Cells of a `w` by `h` grid are numbered row by row: cell (x, y) has index
// `y * w + x`. Every cell owns four wall slots, one per direction; slot
// `4 * c + dir_index(d)` holds whether that wall is still standing. The two
// slots of a shared edge are opened together, so the final wall set is
// symmetric across edges.
// ---------------------------------------------------------------------------

verus! {

use crate::rng::{lemma_shuffle_permutes, rng_below, rng_step, seed_state, shuffle, shuffle_spec, Rng};

/// The grid dimensions the generator accepts: at least one cell, and few
/// enough that all `4 * w * h` wall slots can be indexed.
pub open spec fn grid_ok(w: usize, h: usize) -> bool {
    &&& w >= 1
    &&& h >= 1
    &&& 4 * (w as int) * (h as int) <= usize::MAX
}

/// Position of direction `d` in a cell's block of four wall slots.
pub open spec fn dir_index(d: Direction) -> int {
    match d {
        Direction::Up => 0,
        Direction::Down => 1,
        Direction::Left => 2,
        Direction::Right => 3,
    }
}

/// Index of cell `c`'s wall slot in direction `d`.
pub open spec fn slot_of(c: usize, d: Direction) -> int {
    4 * c + dir_index(d)
}

/// The neighbor of cell `c` in direction `d`, if it lies inside the grid.
pub open spec fn neighbor_of(c: usize, d: Direction, w: usize, h: usize) -> Option<usize> {
    let x = c as int % w as int;
    let y = c as int / w as int;
    match d {
        Direction::Up => if y + 1 < h {
            Some((c + w) as usize)
        } else {
            None
        },
        Direction::Down => if y >= 1 {
            Some((c - w) as usize)
        } else {
            None
        },
        Direction::Left => if x >= 1 {
            Some((c - 1) as usize)
        } else {
            None
        },
        Direction::Right => if x + 1 < w {
            Some((c + 1) as usize)
        } else {
            None
        },
    }
}

/// A cell index decomposes into a column below `w` and a row below `h`.
pub proof fn lemma_grid_cell(c: usize, w: usize, h: usize)
    requires
        w >= 1,
        h >= 1,
        c < w * h,
    ensures
        0 <= ((c as int) % (w as int)) < w,
        0 <= ((c as int) / (w as int)) < h,
        c == (w as int) * ((c as int) / (w as int)) + ((c as int) % (w as int)),
{
    let ci = c as int;
    let wi = w as int;
    vstd::arithmetic::div_mod::lemma_fundamental_div_mod(ci, wi);
    vstd::arithmetic::div_mod::lemma_mod_bound(ci, wi);
    let q = ci / wi;
    let r = ci % wi;
    assert(ci == wi * q + r);
    assert(q >= 0 && q < h) by (nonlinear_arith)
        requires
            ci == wi * q + r,
            0 <= r < wi,
            0 <= ci < wi * (h as int),
            wi >= 1,
    ;
}

/// The cell count fits in `usize` when the slot count does.
pub proof fn lemma_grid_size(w: usize, h: usize)
    requires
        grid_ok(w, h),
    ensures
        1 <= (w as int) * (h as int),
        (w as int) * (h as int) <= usize::MAX,
        4 * ((w as int) * (h as int)) <= usize::MAX,
{
    assert(1 <= (w as int) * (h as int) && (w as int) * (h as int) <= 4 * (w as int) * (h as int)
        && 4 * ((w as int) * (h as int)) == 4 * (w as int) * (h as int)) by (nonlinear_arith)
        requires
            w >= 1,
            h >= 1,
    ;
}

/// A neighbor relation is symmetric: stepping back along the opposite
/// direction returns to the starting cell, and the two cells differ.
pub proof fn lemma_neighbor_symm(c: usize, d: Direction, w: usize, h: usize)
    requires
        grid_ok(w, h),
        c < w * h,
        neighbor_of(c, d, w, h) is Some,
    ensures
        ({
            let n = neighbor_of(c, d, w, h)->Some_0;
            &&& n < w * h
            &&& n != c
            &&& neighbor_of(n, opposite_of(d), w, h) == Some(c)
        }),
{
    let ci = c as int;
    let wi = w as int;
    let hi = h as int;
    lemma_grid_cell(c, w, h);
    lemma_grid_size(w, h);
    let x = ci % wi;
    let y = ci / wi;
    match d {
        Direction::Up => {
            assert(ci + wi == (y + 1) * wi + x && ci + wi < wi * hi && wi * hi <= usize::MAX)
                by (nonlinear_arith)
                requires
                    ci == wi * y + x,
                    0 <= x < wi,
                    0 <= y,
                    y + 1 < hi,
                    wi >= 1,
                    (w as int) * (h as int) <= usize::MAX,
                    wi == w as int,
                    hi == h as int,
            ;
            assert(wi * hi == w * h);
            let n = (c + w) as usize;
            assert(n == ci + wi);
            vstd::arithmetic::div_mod::lemma_fundamental_div_mod_converse(ci + wi, wi, y + 1, x);
            assert(neighbor_of(n, Direction::Down, w, h) == Some(c));
        },
        Direction::Down => {
            assert(ci - wi == (y - 1) * wi + x && ci - wi >= 0) by (nonlinear_arith)
                requires
                    ci == wi * y + x,
                    0 <= x < wi,
                    y >= 1,
                    wi >= 1,
            ;
            let n = (c - w) as usize;
            assert(n == ci - wi);
            vstd::arithmetic::div_mod::lemma_fundamental_div_mod_converse(ci - wi, wi, y - 1, x);
            assert(neighbor_of(n, Direction::Up, w, h) == Some(c));
        },
        Direction::Left => {
            assert(ci - 1 == y * wi + (x - 1)) by (nonlinear_arith)
                requires
                    ci == wi * y + x,
            ;
            let n = (c - 1) as usize;
            vstd::arithmetic::div_mod::lemma_fundamental_div_mod_converse(ci - 1, wi, y, x - 1);
            assert(neighbor_of(n, Direction::Right, w, h) == Some(c));
        },
        Direction::Right => {
            assert(ci + 1 == y * wi + (x + 1) && ci + 1 < wi * hi && wi * hi <= usize::MAX)
                by (nonlinear_arith)
                requires
                    ci == wi * y + x,
                    0 <= x,
                    x + 1 < wi,
                    0 <= y < hi,
                    wi >= 1,
                    (w as int) * (h as int) <= usize::MAX,
                    wi == w as int,
                    hi == h as int,
            ;
            assert(wi * hi == w * h);
            let n = (c + 1) as usize;
            assert(n == ci + 1);
            vstd::arithmetic::div_mod::lemma_fundamental_div_mod_converse(ci + 1, wi, y, x + 1);
            assert(neighbor_of(n, Direction::Left, w, h) == Some(c));
        },
    }
}

/// How many cells are still unvisited.
pub open spec fn count_false(s: Seq<bool>) -> nat
    decreases s.len(),
{
    if s.len() == 0 {
        0
    } else {
        count_false(s.drop_last()) + (if s.last() {
            0nat
        } else {
            1nat
        })
    }
}

proof fn lemma_count_false_all_false(n: nat)
    ensures
        count_false(Seq::new(n, |i: int| false)) == n,
    decreases n,
{
    if n > 0 {
        lemma_count_false_all_false((n - 1) as nat);
        assert(Seq::new(n, |i: int| false).drop_last() =~= Seq::new((n - 1) as nat, |i: int| false));
    }
}

proof fn lemma_count_false_update_true(s: Seq<bool>, i: int)
    requires
        0 <= i < s.len(),
        !s[i],
    ensures
        count_false(s.update(i, true)) + 1 == count_false(s),
    decreases s.len(),
{
    let t = s.update(i, true);
    if i == s.len() - 1 {
        assert(t.drop_last() =~= s.drop_last());
    } else {
        assert(t.drop_last() =~= s.drop_last().update(i, true));
        lemma_count_false_update_true(s.drop_last(), i);
    }
}

proof fn lemma_count_false_zero(s: Seq<bool>)
    requires
        forall|i: int| 0 <= i < s.len() ==> s[i],
    ensures
        count_false(s) == 0,
    decreases s.len(),
{
    if s.len() > 0 {
        lemma_count_false_zero(s.drop_last());
    }
}

/// The generator's whole state: which cells the maze has reached, the
/// frontier of candidate cells, the wall slots still standing, and the
/// pseudo-random generator state.
pub struct GenState {
    pub visited: Seq<bool>,
    pub frontier: Seq<usize>,
    pub walls: Seq<bool>,
    pub rng: u64,
}

/// Push the neighbor of `c` in direction `d` onto the frontier if it exists,
/// is unvisited, and is not queued already.
pub open spec fn push_if_eligible(
    frontier: Seq<usize>,
    c: usize,
    d: Direction,
    visited: Seq<bool>,
    w: usize,
    h: usize,
) -> Seq<usize> {
    match neighbor_of(c, d, w, h) {
        Some(n) => if n < visited.len() && !visited[n as int] && !frontier.contains(n) {
            frontier.push(n)
        } else {
            frontier
        },
        None => frontier,
    }
}

/// Mark cell `c` as part of the maze and queue its unvisited neighbors.
pub open spec fn mark_spec(
    c: usize,
    visited: Seq<bool>,
    frontier: Seq<usize>,
    w: usize,
    h: usize,
) -> (Seq<bool>, Seq<usize>) {
    let v2 = visited.update(c as int, true);
    let f1 = push_if_eligible(frontier, c, Direction::Up, v2, w, h);
    let f2 = push_if_eligible(f1, c, Direction::Down, v2, w, h);
    let f3 = push_if_eligible(f2, c, Direction::Left, v2, w, h);
    let f4 = push_if_eligible(f3, c, Direction::Right, v2, w, h);
    (v2, f4)
}

/// Append the neighbor of `c` in direction `d` when it is already part of
/// the maze.
pub open spec fn push_if_visited(
    acc: Seq<(usize, Direction)>,
    c: usize,
    d: Direction,
    visited: Seq<bool>,
    w: usize,
    h: usize,
) -> Seq<(usize, Direction)> {
    match neighbor_of(c, d, w, h) {
        Some(n) => if n < visited.len() && visited[n as int] {
            acc.push((n, d))
        } else {
            acc
        },
        None => acc,
    }
}

/// The neighbors of `c` that the maze has already reached, with the
/// direction leading to each.
pub open spec fn maze_neighbors_spec(c: usize, visited: Seq<bool>, w: usize, h: usize) -> Seq<
    (usize, Direction),
> {
    let s0 = Seq::<(usize, Direction)>::empty();
    let s1 = push_if_visited(s0, c, Direction::Up, visited, w, h);
    let s2 = push_if_visited(s1, c, Direction::Down, visited, w, h);
    let s3 = push_if_visited(s2, c, Direction::Left, visited, w, h);
    push_if_visited(s3, c, Direction::Right, visited, w, h)
}

/// One generator iteration: pop the newest frontier cell, open one wall to a
/// random already-visited neighbor, mark the cell, queue its neighbors, and
/// shuffle the frontier. The guard branches are never reached from a
/// well-formed state; they keep the function total.
pub open spec fn gen_step(s: GenState, w: usize, h: usize) -> GenState {
    let c = s.frontier.last();
    let rest = s.frontier.drop_last();
    if c >= s.visited.len() || s.visited[c as int] {
        let sh = shuffle_spec(rest, s.rng);
        GenState { visited: s.visited, frontier: sh.0, walls: s.walls, rng: sh.1 }
    } else {
        let nb = maze_neighbors_spec(c, s.visited, w, h);
        if nb.len() == 0 {
            let sh = shuffle_spec(rest, s.rng);
            GenState { visited: s.visited, frontier: sh.0, walls: s.walls, rng: sh.1 }
        } else {
            let k = rng_below(s.rng, nb.len() as u64);
            let r1 = rng_step(s.rng);
            let n = nb[k].0;
            let d = nb[k].1;
            let walls2 = s.walls.update(slot_of(c, d), false).update(
                slot_of(n, opposite_of(d)),
                false,
            );
            let marked = mark_spec(c, s.visited, rest, w, h);
            let sh = shuffle_spec(marked.1, r1);
            GenState { visited: marked.0, frontier: sh.0, walls: walls2, rng: sh.1 }
        }
    }
}

/// Run the generator until the frontier empties. The fuel only bounds the
/// recursion; `generate_maze` shows it never runs out.
pub open spec fn gen_run(s: GenState, w: usize, h: usize, fuel: nat) -> Seq<bool>
    decreases fuel,
{
    if s.frontier.len() == 0 || fuel == 0 {
        s.walls
    } else {
        gen_run(gen_step(s, w, h), w, h, (fuel - 1) as nat)
    }
}

/// The state the generator starts from: no walls opened, the start cell
/// marked, its neighbors queued.
pub open spec fn initial_state(w: usize, h: usize, seed: u64) -> GenState {
    let visited0 = Seq::new((w * h) as nat, |i: int| false);
    let walls0 = Seq::new((4 * (w * h)) as nat, |i: int| true);
    let marked = mark_spec(0, visited0, Seq::empty(), w, h);
    GenState { visited: marked.0, frontier: marked.1, walls: walls0, rng: seed_state(seed) }
}

/// The wall set generated for a grid and seed: a pure function of the three
/// inputs, which is the determinism guarantee.
pub open spec fn maze_walls_spec(w: usize, h: usize, seed: u64) -> Seq<bool> {
    gen_run(initial_state(w, h, seed), w, h, (4 * (w * h) + 1) as nat)
}

} // verus!

verus! {

/// The neighbor of `c` in direction `d` exists and is already visited.
pub open spec fn dir_vis(c: usize, d: Direction, visited: Seq<bool>, w: usize, h: usize) -> bool {
    match neighbor_of(c, d, w, h) {
        Some(n) => n < visited.len() && visited[n as int],
        None => false,
    }
}

/// Some grid neighbor of `c` is already part of the maze.
pub open spec fn has_visited_neighbor(c: usize, visited: Seq<bool>, w: usize, h: usize) -> bool {
    ||| dir_vis(c, Direction::Up, visited, w, h)
    ||| dir_vis(c, Direction::Down, visited, w, h)
    ||| dir_vis(c, Direction::Left, visited, w, h)
    ||| dir_vis(c, Direction::Right, visited, w, h)
}

/// What holds of every queued frontier cell: in bounds, not yet visited, and
/// bordering the maze.
pub open spec fn frontier_cell_ok(visited: Seq<bool>, c: usize, w: usize, h: usize) -> bool {
    &&& c < w * h
    &&& c < visited.len() && !visited[c as int]
    &&& has_visited_neighbor(c, visited, w, h)
}

pub open spec fn frontier_ok(s: GenState, w: usize, h: usize) -> bool {
    forall|k: int|
        0 <= k < s.frontier.len() ==> frontier_cell_ok(s.visited, #[trigger] s.frontier[k], w, h)
}

/// The generator's loop invariant: sizes are right, the start cell is
/// visited, and the frontier holds distinct unvisited border cells.
pub open spec fn state_inv(s: GenState, w: usize, h: usize) -> bool {
    &&& s.visited.len() == w * h
    &&& s.walls.len() == 4 * (w * h)
    &&& 0 < s.visited.len() && s.visited[0]
    &&& s.frontier.no_duplicates()
    &&& frontier_ok(s, w, h)
}

proof fn lemma_push_nodup(s: Seq<usize>, x: usize)
    requires
        s.no_duplicates(),
        !s.contains(x),
    ensures
        s.push(x).no_duplicates(),
{
    let t = s.push(x);
    assert forall|i: int, j: int|
        0 <= i < t.len() && 0 <= j < t.len() && i != j implies t[i] != t[j] by {
        if i < s.len() && j < s.len() {
        } else if i == s.len() {
            if t[j] == x {
                assert(s[j] == x);
                assert(s.contains(x));
            }
        } else {
            if t[i] == x {
                assert(s[i] == x);
                assert(s.contains(x));
            }
        }
    }
}

proof fn lemma_drop_last_nodup(s: Seq<usize>)
    requires
        s.no_duplicates(),
        s.len() > 0,
    ensures
        s.drop_last().no_duplicates(),
        !s.drop_last().contains(s.last()),
{
    let r = s.drop_last();
    if r.contains(s.last()) {
        let k = choose|k: int| 0 <= k < r.len() && r[k] == s.last();
        assert(s[k] == s[s.len() - 1]);
        assert(false);
    }
}

/// The neighbor of `c` in direction `dd`, when unvisited, is queued in `f`.
pub open spec fn covers_dir(c: usize, dd: Direction, v2: Seq<bool>, f: Seq<usize>, w: usize, h: usize) -> bool {
    match neighbor_of(c, dd, w, h) {
        Some(m) => (m < v2.len() && !v2[m as int]) ==> f.contains(m),
        None => true,
    }
}

/// Queueing one eligible neighbor keeps the frontier distinct and all its
/// cells valid border cells.
proof fn lemma_push_if_eligible_ok(f: Seq<usize>, c: usize, d: Direction, v2: Seq<bool>, w: usize, h: usize)
    requires
        grid_ok(w, h),
        c < w * h,
        v2.len() == w * h,
        v2[c as int],
        f.no_duplicates(),
        forall|k: int| 0 <= k < f.len() ==> frontier_cell_ok(v2, #[trigger] f[k], w, h),
    ensures
        ({
            let g = push_if_eligible(f, c, d, v2, w, h);
            &&& g.no_duplicates()
            &&& forall|k: int| 0 <= k < g.len() ==> frontier_cell_ok(v2, #[trigger] g[k], w, h)
            &&& g.len() <= f.len() + 1
            &&& forall|x: usize| f.contains(x) ==> g.contains(x)
            &&& covers_dir(c, d, v2, g, w, h)
        }),
{
    let g = push_if_eligible(f, c, d, v2, w, h);
    match neighbor_of(c, d, w, h) {
        Some(n) => {
            if n < v2.len() && !v2[n as int] && !f.contains(n) {
                assert(g[g.len() - 1] == n);
                assert(g.contains(n));
                lemma_neighbor_symm(c, d, w, h);
                lemma_push_nodup(f, n);
                assert(dir_vis(n, opposite_of(d), v2, w, h));
                assert(frontier_cell_ok(v2, n, w, h));
                assert forall|k: int| 0 <= k < g.len() implies frontier_cell_ok(
                    v2,
                    g[k],
                    w,
                    h,
                ) by {
                    if k < f.len() {
                        assert(g[k] == f[k]);
                    } else {
                        assert(g[k] == n);
                    }
                }
                assert forall|x: usize| f.contains(x) implies g.contains(x) by {
                    let i = choose|i: int| 0 <= i < f.len() && f[i] == x;
                    assert(g[i] == x);
                }
            }
            assert(covers_dir(c, d, v2, g, w, h));
        },
        None => {},
    }
}

/// Marking the popped cell keeps every queued cell valid and queues only
/// valid new ones; exactly one cell becomes visited.
proof fn lemma_mark_ok(c: usize, visited: Seq<bool>, frontier: Seq<usize>, w: usize, h: usize)
    requires
        grid_ok(w, h),
        c < w * h,
        visited.len() == w * h,
        !visited[c as int],
        frontier.no_duplicates(),
        forall|k: int| 0 <= k < frontier.len() ==> frontier_cell_ok(visited, #[trigger] frontier[k], w, h),
        forall|k: int| 0 <= k < frontier.len() ==> #[trigger] frontier[k] != c,
    ensures
        ({
            let v2 = mark_spec(c, visited, frontier, w, h).0;
            let f4 = mark_spec(c, visited, frontier, w, h).1;
            &&& v2 == visited.update(c as int, true)
            &&& f4.no_duplicates()
            &&& forall|k: int| 0 <= k < f4.len() ==> frontier_cell_ok(v2, #[trigger] f4[k], w, h)
            &&& f4.len() <= frontier.len() + 4
            &&& count_false(v2) + 1 == count_false(visited)
            &&& forall|x: usize| frontier.contains(x) ==> f4.contains(x)
            &&& covers_dir(c, Direction::Up, v2, f4, w, h)
            &&& covers_dir(c, Direction::Down, v2, f4, w, h)
            &&& covers_dir(c, Direction::Left, v2, f4, w, h)
            &&& covers_dir(c, Direction::Right, v2, f4, w, h)
        }),
{
    let v2 = visited.update(c as int, true);
    lemma_count_false_update_true(visited, c as int);
    assert forall|k: int| 0 <= k < frontier.len() implies frontier_cell_ok(
        v2,
        frontier[k],
        w,
        h,
    ) by {
        let e = frontier[k];
        assert(frontier_cell_ok(visited, e, w, h));
        assert(!v2[e as int]);
        if dir_vis(e, Direction::Up, visited, w, h) {
            assert(dir_vis(e, Direction::Up, v2, w, h));
        }
        if dir_vis(e, Direction::Down, visited, w, h) {
            assert(dir_vis(e, Direction::Down, v2, w, h));
        }
        if dir_vis(e, Direction::Left, visited, w, h) {
            assert(dir_vis(e, Direction::Left, v2, w, h));
        }
        if dir_vis(e, Direction::Right, visited, w, h) {
            assert(dir_vis(e, Direction::Right, v2, w, h));
        }
    }
    let f1 = push_if_eligible(frontier, c, Direction::Up, v2, w, h);
    lemma_push_if_eligible_ok(frontier, c, Direction::Up, v2, w, h);
    let f2 = push_if_eligible(f1, c, Direction::Down, v2, w, h);
    lemma_push_if_eligible_ok(f1, c, Direction::Down, v2, w, h);
    let f3 = push_if_eligible(f2, c, Direction::Left, v2, w, h);
    lemma_push_if_eligible_ok(f2, c, Direction::Left, v2, w, h);
    lemma_push_if_eligible_ok(f3, c, Direction::Right, v2, w, h);
    let f4 = push_if_eligible(f3, c, Direction::Right, v2, w, h);
    assert(covers_dir(c, Direction::Up, v2, f4, w, h)) by {
        match neighbor_of(c, Direction::Up, w, h) {
            Some(m) => {
                if m < v2.len() && !v2[m as int] {
                    assert(f1.contains(m));
                }
            },
            None => {},
        }
    }
    assert(covers_dir(c, Direction::Down, v2, f4, w, h)) by {
        match neighbor_of(c, Direction::Down, w, h) {
            Some(m) => {
                if m < v2.len() && !v2[m as int] {
                    assert(f2.contains(m));
                }
            },
            None => {},
        }
    }
    assert(covers_dir(c, Direction::Left, v2, f4, w, h)) by {
        match neighbor_of(c, Direction::Left, w, h) {
            Some(m) => {
                if m < v2.len() && !v2[m as int] {
                    assert(f3.contains(m));
                }
            },
            None => {},
        }
    }
}

/// Entries of the visited-neighbor list really are visited grid neighbors,
/// and the list is non-empty whenever one exists.
pub open spec fn nb_ok(v: Seq<bool>, c: usize, e: (usize, Direction), w: usize, h: usize) -> bool {
    &&& neighbor_of(c, e.1, w, h) == Some(e.0)
    &&& e.0 < v.len() && v[e.0 as int]
}

proof fn lemma_push_if_visited_ok(
    acc: Seq<(usize, Direction)>,
    c: usize,
    d: Direction,
    v: Seq<bool>,
    w: usize,
    h: usize,
)
    requires
        forall|k: int| 0 <= k < acc.len() ==> nb_ok(v, c, #[trigger] acc[k], w, h),
    ensures
        ({
            let g = push_if_visited(acc, c, d, v, w, h);
            &&& forall|k: int| 0 <= k < g.len() ==> nb_ok(v, c, #[trigger] g[k], w, h)
            &&& acc.len() <= g.len() <= acc.len() + 1
            &&& (dir_vis(c, d, v, w, h) ==> g.len() == acc.len() + 1)
        }),
{
    let g = push_if_visited(acc, c, d, v, w, h);
    match neighbor_of(c, d, w, h) {
        Some(n) => {
            if n < v.len() && v[n as int] {
                assert forall|k: int| 0 <= k < g.len() implies nb_ok(v, c, g[k], w, h) by {
                    if k < acc.len() {
                        assert(g[k] == acc[k]);
                    } else {
                        assert(g[k] == (n, d));
                    }
                }
            }
        },
        None => {},
    }
}

pub proof fn lemma_maze_neighbors(c: usize, v: Seq<bool>, w: usize, h: usize)
    ensures
        ({
            let nb = maze_neighbors_spec(c, v, w, h);
            &&& forall|k: int| 0 <= k < nb.len() ==> nb_ok(v, c, #[trigger] nb[k], w, h)
            &&& (has_visited_neighbor(c, v, w, h) ==> nb.len() > 0)
            &&& nb.len() <= 4
        }),
{
    let s0 = Seq::<(usize, Direction)>::empty();
    lemma_push_if_visited_ok(s0, c, Direction::Up, v, w, h);
    let s1 = push_if_visited(s0, c, Direction::Up, v, w, h);
    lemma_push_if_visited_ok(s1, c, Direction::Down, v, w, h);
    let s2 = push_if_visited(s1, c, Direction::Down, v, w, h);
    lemma_push_if_visited_ok(s2, c, Direction::Left, v, w, h);
    let s3 = push_if_visited(s2, c, Direction::Left, v, w, h);
    lemma_push_if_visited_ok(s3, c, Direction::Right, v, w, h);
}

/// One generator step from a well-formed state with a non-empty frontier
/// takes the marking branch: it visits exactly the popped cell, keeps the
/// invariant, and grows the frontier by at most three.
pub proof fn lemma_gen_step_basic(s: GenState, w: usize, h: usize)
    requires
        grid_ok(w, h),
        state_inv(s, w, h),
        s.frontier.len() > 0,
    ensures
        ({
            let t = gen_step(s, w, h);
            let c = s.frontier.last();
            let nb = maze_neighbors_spec(c, s.visited, w, h);
            &&& state_inv(t, w, h)
            &&& count_false(t.visited) + 1 == count_false(s.visited)
            &&& t.frontier.len() <= s.frontier.len() + 3
            &&& frontier_cell_ok(s.visited, c, w, h)
            &&& nb.len() > 0
            &&& t.visited == s.visited.update(c as int, true)
        }),
{
    let c = s.frontier.last();
    assert(s.frontier[s.frontier.len() - 1] == c);
    assert(frontier_cell_ok(s.visited, c, w, h));
    let rest = s.frontier.drop_last();
    lemma_drop_last_nodup(s.frontier);
    assert forall|k: int| 0 <= k < rest.len() implies (frontier_cell_ok(s.visited, rest[k], w, h)
        && rest[k] != c) by {
        assert(rest[k] == s.frontier[k]);
        assert(s.frontier[k] != s.frontier[s.frontier.len() - 1]);
    }
    lemma_maze_neighbors(c, s.visited, w, h);
    let nb = maze_neighbors_spec(c, s.visited, w, h);
    let k = rng_below(s.rng, nb.len() as u64);
    assert(0 <= k < nb.len()) by {
        vstd::arithmetic::div_mod::lemma_mod_bound(rng_step(s.rng) as int, nb.len() as int);
    }
    assert(nb_ok(s.visited, c, nb[k], w, h));
    let n = nb[k].0;
    let d = nb[k].1;
    lemma_neighbor_symm(c, d, w, h);
    lemma_mark_ok(c, s.visited, rest, w, h);
    let marked = mark_spec(c, s.visited, rest, w, h);
    let r1 = rng_step(s.rng);
    lemma_shuffle_permutes(marked.1, r1);
    let sh = shuffle_spec(marked.1, r1);
    let t = gen_step(s, w, h);
    assert(t.frontier == sh.0 && t.visited == marked.0);
    assert forall|kk: int| 0 <= kk < sh.0.len() implies frontier_cell_ok(
        marked.0,
        sh.0[kk],
        w,
        h,
    ) by {
        let x = sh.0[kk];
        assert(sh.0.contains(x));
        assert(marked.1.contains(x));
        let j = choose|j: int| 0 <= j < marked.1.len() && marked.1[j] == x;
        assert(frontier_cell_ok(marked.0, marked.1[j], w, h));
    }
    assert(c != 0);
    assert(t.visited[0]);
}

} // verus!

verus! {

/// Whether the frontier already queues cell `x`.
fn contains_cell(v: &Vec<usize>, x: usize) -> (r: bool)
    ensures
        r == v@.contains(x),
{
    let mut i: usize = 0;
    while i < v.len()
        invariant
            i <= v@.len(),
            forall|k: int| 0 <= k < i ==> v@[k] != x,
        decreases v@.len() - i,
    {
        if v[i] == x {
            return true;
        }
        i = i + 1;
    }
    proof {
        if v@.contains(x) {
            let k = choose|k: int| 0 <= k < v@.len() && v@[k] == x;
            assert(false);
        }
    }
    false
}

/// A vector of `n` copies of `value`.
fn make_bools(n: usize, value: bool) -> (r: Vec<bool>)
    ensures
        r@ == Seq::new(n as nat, |i: int| value),
{
    let mut v: Vec<bool> = Vec::new();
    let mut i: usize = 0;
    while i < n
        invariant
            i <= n,
            v@.len() == i,
            forall|k: int| 0 <= k < i ==> v@[k] == value,
        decreases n - i,
    {
        v.push(value);
        i = i + 1;
    }
    proof {
        assert(v@ =~= Seq::new(n as nat, |i: int| value));
    }
    v
}

/// Position of a direction in a cell's block of four wall slots.
pub fn dir_code(d: Direction) -> (r: usize)
    ensures
        r == dir_index(d),
{
    match d {
        Direction::Up => 0,
        Direction::Down => 1,
        Direction::Left => 2,
        Direction::Right => 3,
    }
}

/// The neighboring cell index in direction `d`, when inside the grid.
pub fn neighbor(c: usize, d: Direction, w: usize, h: usize) -> (r: Option<usize>)
    requires
        grid_ok(w, h),
        c < w * h,
    ensures
        r == neighbor_of(c, d, w, h),
        r is Some ==> r->Some_0 < w * h,
{
    proof {
        lemma_grid_cell(c, w, h);
        lemma_grid_size(w, h);
        if neighbor_of(c, d, w, h) is Some {
            lemma_neighbor_symm(c, d, w, h);
        }
        let ci = c as int;
        let wi = w as int;
        let hi = h as int;
        let xg = ci % wi;
        let yg = ci / wi;
        assert((yg + 1 < hi ==> ci + wi < wi * hi) && (yg >= 1 ==> ci - wi >= 0) && wi * hi
            <= usize::MAX) by (nonlinear_arith)
            requires
                ci == wi * yg + xg,
                0 <= xg < wi,
                0 <= yg < hi,
                wi >= 1,
                (w as int) * (h as int) <= usize::MAX,
                wi == w as int,
                hi == h as int,
        ;
    }
    let x = c % w;
    let y = c / w;
    match d {
        Direction::Up => if y + 1 < h {
            Some(c + w)
        } else {
            None
        },
        Direction::Down => if y >= 1 {
            Some(c - w)
        } else {
            None
        },
        Direction::Left => if x >= 1 {
            Some(c - 1)
        } else {
            None
        },
        Direction::Right => if x + 1 < w {
            Some(c + 1)
        } else {
            None
        },
    }
}

/// Queue the neighbor of `c` in direction `d` when it exists, is unvisited
/// and is not queued yet.
fn push_neighbor(frontier: &mut Vec<usize>, c: usize, d: Direction, visited: &Vec<bool>, w: usize, h: usize)
    requires
        grid_ok(w, h),
        c < w * h,
        visited@.len() == w * h,
    ensures
        final(frontier)@ == push_if_eligible(old(frontier)@, c, d, visited@, w, h),
{
    match neighbor(c, d, w, h) {
        Some(n) => {
            if !visited[n] {
                if !contains_cell(frontier, n) {
                    frontier.push(n);
                }
            }
        },
        None => {},
    }
}

/// Mark cell `c` as part of the maze and queue its eligible neighbors.
pub fn mark_cell_as_maze(c: usize, visited: &mut Vec<bool>, frontier: &mut Vec<usize>, w: usize, h: usize)
    requires
        grid_ok(w, h),
        c < w * h,
        old(visited)@.len() == w * h,
    ensures
        final(visited)@ == mark_spec(c, old(visited)@, old(frontier)@, w, h).0,
        final(frontier)@ == mark_spec(c, old(visited)@, old(frontier)@, w, h).1,
{
    visited.set(c, true);
    push_neighbor(frontier, c, Direction::Up, visited, w, h);
    push_neighbor(frontier, c, Direction::Down, visited, w, h);
    push_neighbor(frontier, c, Direction::Left, visited, w, h);
    push_neighbor(frontier, c, Direction::Right, visited, w, h);
}

/// Append the neighbor in direction `d` when the maze has reached it.
fn push_vis(
    acc: &mut Vec<(usize, Direction)>,
    c: usize,
    d: Direction,
    visited: &Vec<bool>,
    w: usize,
    h: usize,
)
    requires
        grid_ok(w, h),
        c < w * h,
        visited@.len() == w * h,
    ensures
        final(acc)@ == push_if_visited(old(acc)@, c, d, visited@, w, h),
{
    match neighbor(c, d, w, h) {
        Some(n) => {
            if visited[n] {
                acc.push((n, d));
            }
        },
        None => {},
    }
}

/// The already-visited neighbors of `c`, each with the direction leading to
/// it from `c`.
pub fn get_maze_neighbors(c: usize, visited: &Vec<bool>, w: usize, h: usize) -> (r: Vec<
    (usize, Direction),
>)
    requires
        grid_ok(w, h),
        c < w * h,
        visited@.len() == w * h,
    ensures
        r@ == maze_neighbors_spec(c, visited@, w, h),
{
    let mut result: Vec<(usize, Direction)> = Vec::new();
    push_vis(&mut result, c, Direction::Up, visited, w, h);
    push_vis(&mut result, c, Direction::Down, visited, w, h);
    push_vis(&mut result, c, Direction::Left, visited, w, h);
    push_vis(&mut result, c, Direction::Right, visited, w, h);
    result
}

/// One loop iteration of the generator; it performs exactly one abstract
/// generator step.
fn gen_iteration(
    visited: &mut Vec<bool>,
    frontier: &mut Vec<usize>,
    walls: &mut Vec<bool>,
    rng: &mut Rng,
    w: usize,
    h: usize,
)
    requires
        grid_ok(w, h),
        old(frontier)@.len() > 0,
        state_inv(
            GenState {
                visited: old(visited)@,
                frontier: old(frontier)@,
                walls: old(walls)@,
                rng: old(rng).state,
            },
            w,
            h,
        ),
    ensures
        ({
            let s = GenState {
                visited: old(visited)@,
                frontier: old(frontier)@,
                walls: old(walls)@,
                rng: old(rng).state,
            };
            let t = gen_step(s, w, h);
            &&& final(visited)@ == t.visited
            &&& final(frontier)@ == t.frontier
            &&& final(walls)@ == t.walls
            &&& final(rng).state == t.rng
        }),
{
    let ghost s = GenState {
        visited: old(visited)@,
        frontier: old(frontier)@,
        walls: old(walls)@,
        rng: old(rng).state,
    };
    proof {
        lemma_gen_step_basic(s, w, h);
        lemma_grid_size(w, h);
    }
    let c = frontier.pop().unwrap();
    proof {
        assert(c == s.frontier.last());
        assert(frontier_cell_ok(s.visited, c, w, h));
        lemma_maze_neighbors(c, s.visited, w, h);
    }
    let nbrs = get_maze_neighbors(c, visited, w, h);
    let k64 = rng.below(nbrs.len() as u64);
    let k = k64 as usize;
    let pair = nbrs[k];
    let n = pair.0;
    let d = pair.1;
    proof {
        assert(nb_ok(s.visited, c, (n, d), w, h));
        lemma_neighbor_symm(c, d, w, h);
        assert(4 * c + 3 < 4 * (w * h) <= usize::MAX);
    }
    let slot1 = 4 * c + dir_code(d);
    let opp = d.opposite();
    let slot2 = 4 * n + dir_code(opp);
    walls.set(slot1, false);
    walls.set(slot2, false);
    mark_cell_as_maze(c, visited, frontier, w, h);
    shuffle(frontier, rng);
}

/// A generated maze: the grid size and, for each cell and direction,
/// whether that wall is still standing.
pub struct MazeLayout {
    pub width: u32,
    pub height: u32,
    pub walls: Vec<bool>,
}

/// Build a maze over a `width` by `height` grid from a seed, by randomized
/// frontier expansion.
///
/// The contract carries the generator's guarantees: the wall set is a pure
/// function of the three arguments (determinism); every cell is reachable
/// from the start cell through opened walls (connectivity); the two sides of
/// each shared edge agree and border walls all stand (symmetry); and exactly
/// `width * height - 1` edges are open, counted by their canonical slots,
/// which together with connectivity makes the open-edge graph a spanning
/// tree of the grid: a perfect maze.
pub fn generate_maze(width: u32, height: u32, seed: u64) -> (r: MazeLayout)
    requires
        4 * (width as int) * (height as int) <= usize::MAX,
    ensures
        r.width == width,
        r.height == height,
        r.walls@.len() == 4 * ((width as usize) * (height as usize)),
        (width == 0 || height == 0) ==> r.walls@ == Seq::<bool>::empty(),
        width >= 1 && height >= 1 ==> r.walls@ == maze_walls_spec(
            width as usize,
            height as usize,
            seed,
        ),
        width >= 1 && height >= 1 ==> forall|c: usize|
            c < (width as usize) * (height as usize) ==> #[trigger] reachable(
                r.walls@,
                c,
                width as usize,
                height as usize,
            ),
        open_canonical_set(r.walls@).finite(),
        width >= 1 && height >= 1 ==> open_canonical_set(r.walls@).len() + 1 == (width as usize)
            * (height as usize),
        width >= 1 && height >= 1 ==> forall|c: usize, d: Direction|
            c < (width as usize) * (height as usize) ==> #[trigger] pair_ok(
                r.walls@,
                c,
                d,
                width as usize,
                height as usize,
            ),
{
    if width == 0 || height == 0 {
        let empty_walls: Vec<bool> = Vec::new();
        proof {
            assert(empty_walls@ =~= Seq::<bool>::empty());
            assert(open_canonical_set(empty_walls@) =~= Set::<int>::empty());
            assert((width as usize) * (height as usize) == 0) by (nonlinear_arith)
                requires
                    width == 0 || height == 0,
            ;
        }
        return MazeLayout { width, height, walls: empty_walls };
    }
    let w = width as usize;
    let h = height as usize;
    proof {
        lemma_grid_size(w, h);
    }
    let n = w * h;
    let mut visited = make_bools(n, false);
    let mut walls = make_bools(4 * n, true);
    let mut frontier: Vec<usize> = Vec::new();
    let mut rng = Rng::new(seed);
    proof {
        lemma_count_false_all_false(n as nat);
    }
    mark_cell_as_maze(0, &mut visited, &mut frontier, w, h);
    proof {
        lemma_mark_ok(0, Seq::new(n as nat, |i: int| false), Seq::empty(), w, h);
    }
    let ghost mut fuel: nat = (4 * (w * h) + 1) as nat;
    let ghost target = maze_walls_spec(w, h, seed);
    proof {
        assert(GenState {
            visited: visited@,
            frontier: frontier@,
            walls: walls@,
            rng: rng.state,
        } == initial_state(w, h, seed));
        lemma_initial_maze_inv(w, h, seed);
    }
    while frontier.len() > 0
        invariant
            grid_ok(w, h),
            w == width as usize,
            h == height as usize,
            state_inv(
                GenState { visited: visited@, frontier: frontier@, walls: walls@, rng: rng.state },
                w,
                h,
            ),
            maze_inv(
                GenState { visited: visited@, frontier: frontier@, walls: walls@, rng: rng.state },
                w,
                h,
            ),
            fuel >= frontier@.len() + 4 * count_false(visited@),
            gen_run(
                GenState { visited: visited@, frontier: frontier@, walls: walls@, rng: rng.state },
                w,
                h,
                fuel,
            ) == target,
        decreases fuel,
    {
        let ghost s = GenState {
            visited: visited@,
            frontier: frontier@,
            walls: walls@,
            rng: rng.state,
        };
        proof {
            lemma_gen_step_basic(s, w, h);
            lemma_gen_step_full(s, w, h);
        }
        gen_iteration(&mut visited, &mut frontier, &mut walls, &mut rng, w, h);
        proof {
            assert(gen_run(s, w, h, fuel) == gen_run(gen_step(s, w, h), w, h, (fuel - 1) as nat));
            fuel = (fuel - 1) as nat;
        }
    }
    proof {
        let sf = GenState { visited: visited@, frontier: frontier@, walls: walls@, rng: rng.state };
        assert forall|z: usize| (z < w * h && !visited@[z as int]) implies !#[trigger] has_visited_neighbor(
            z,
            visited@,
            w,
            h,
        ) by {
            if has_visited_neighbor(z, visited@, w, h) {
                assert(sf.frontier.contains(z));
                assert(false);
            }
        }
        assert forall|c: usize| c < w * h implies visited@[c as int] by {
            lemma_all_visited(visited@, w, h, c);
        }
        lemma_count_false_zero(visited@);
        assert forall|c: usize| c < w * h implies #[trigger] reachable(walls@, c, w, h) by {
            assert(visited@[c as int]);
        }
    }
    MazeLayout { width, height, walls }
}

} // verus!

verus! {

use vstd::set::axiom_set_insert_len;
use vstd::set::axiom_set_insert_finite;

/// Cell `b` is the neighbor of `a` in direction `d` and the wall between
/// them on `a`'s side is open.
pub open spec fn dir_edge_open(walls: Seq<bool>, a: usize, d: Direction, b: usize, w: usize, h: usize) -> bool {
    neighbor_of(a, d, w, h) == Some(b) && !walls[slot_of(a, d)]
}

/// Adjacent cells `a` and `b` with the wall between them opened.
pub open spec fn edge_open(walls: Seq<bool>, a: usize, b: usize, w: usize, h: usize) -> bool {
    &&& a < w * h
    &&& b < w * h
    &&& (dir_edge_open(walls, a, Direction::Up, b, w, h) || dir_edge_open(
        walls,
        a,
        Direction::Down,
        b,
        w,
        h,
    ) || dir_edge_open(walls, a, Direction::Left, b, w, h) || dir_edge_open(
        walls,
        a,
        Direction::Right,
        b,
        w,
        h,
    ))
}

/// A walk from the start cell along open walls.
pub open spec fn is_path(p: Seq<usize>, walls: Seq<bool>, w: usize, h: usize) -> bool {
    &&& p.len() >= 1
    &&& p[0] == 0usize
    &&& forall|k: int| 0 <= k < p.len() - 1 ==> edge_open(walls, #[trigger] p[k], p[k + 1], w, h)
}

/// The maze connects the start cell to `c`: some walk along open walls
/// reaches it.
pub open spec fn reachable(walls: Seq<bool>, c: usize, w: usize, h: usize) -> bool {
    exists|p: Seq<usize>| is_path(p, walls, w, h) && p.last() == c
}

/// The two sides of one shared edge agree, and border walls stand.
pub open spec fn pair_ok(walls: Seq<bool>, c: usize, d: Direction, w: usize, h: usize) -> bool {
    match neighbor_of(c, d, w, h) {
        Some(n) => walls[slot_of(c, d)] == walls[slot_of(n, opposite_of(d))],
        None => walls[slot_of(c, d)] == true,
    }
}

/// An opened wall joins two cells the maze has reached.
pub open spec fn open_ok(walls: Seq<bool>, visited: Seq<bool>, c: usize, d: Direction, w: usize, h: usize) -> bool {
    match neighbor_of(c, d, w, h) {
        Some(n) => !walls[slot_of(c, d)] ==> (visited[c as int] && n < visited.len()
            && visited[n as int]),
        None => true,
    }
}

/// Each undirected edge has one canonical slot: the upward or rightward one.
pub open spec fn canonical_slot(k: int) -> bool {
    k % 4 == 0 || k % 4 == 3
}

/// The opened walls, one canonical slot per opened edge; its size is the
/// number of open edges of the maze.
pub open spec fn open_canonical_set(walls: Seq<bool>) -> Set<int> {
    Set::new(|k: int| 0 <= k < walls.len() && !walls[k] && canonical_slot(k))
}

/// A wall slot decomposes back into its cell and direction.
proof fn lemma_slot_mod(c: usize, d: Direction)
    ensures
        slot_of(c, d) % 4 == dir_index(d),
{
    vstd::arithmetic::div_mod::lemma_mod_multiples_vanish(c as int, dir_index(d), 4);
    assert(4 * (c as int) == (c as int) * 4) by (nonlinear_arith);
    assert(dir_index(d) % 4 == dir_index(d)) by {
        vstd::arithmetic::div_mod::lemma_small_mod(dir_index(d) as nat, 4nat);
    }
}

/// Distinct cell-direction pairs use distinct slots.
proof fn lemma_slot_inj(c: usize, d: Direction, c2: usize, d2: Direction)
    requires
        slot_of(c, d) == slot_of(c2, d2),
    ensures
        c == c2,
        d == d2,
{
    lemma_slot_mod(c, d);
    lemma_slot_mod(c2, d2);
}

/// Opening walls never disconnects: a walk stays valid when more walls open.
proof fn lemma_reachable_monotone(w1: Seq<bool>, w2: Seq<bool>, c: usize, w: usize, h: usize)
    requires
        w1.len() == w2.len(),
        w1.len() == 4 * (w * h),
        forall|k: int| 0 <= k < w2.len() ==> (#[trigger] w2[k] ==> w1[k]),
        reachable(w1, c, w, h),
    ensures
        reachable(w2, c, w, h),
{
    let p = choose|p: Seq<usize>| is_path(p, w1, w, h) && p.last() == c;
    assert forall|k: int| 0 <= k < p.len() - 1 implies edge_open(w2, #[trigger] p[k], p[k + 1], w, h) by {
        assert(edge_open(w1, p[k], p[k + 1], w, h));
        let a = p[k];
        let b = p[k + 1];
        if dir_edge_open(w1, a, Direction::Up, b, w, h) {
            assert(0 <= slot_of(a, Direction::Up) < w2.len());
            assert(dir_edge_open(w2, a, Direction::Up, b, w, h));
        } else if dir_edge_open(w1, a, Direction::Down, b, w, h) {
            assert(0 <= slot_of(a, Direction::Down) < w2.len());
            assert(dir_edge_open(w2, a, Direction::Down, b, w, h));
        } else if dir_edge_open(w1, a, Direction::Left, b, w, h) {
            assert(0 <= slot_of(a, Direction::Left) < w2.len());
            assert(dir_edge_open(w2, a, Direction::Left, b, w, h));
        } else {
            assert(0 <= slot_of(a, Direction::Right) < w2.len());
            assert(dir_edge_open(w2, a, Direction::Right, b, w, h));
        }
    }
    assert(is_path(p, w2, w, h) && p.last() == c);
}

/// One more open edge extends a walk by one cell.
proof fn lemma_reachable_extend(walls: Seq<bool>, a: usize, b: usize, w: usize, h: usize)
    requires
        reachable(walls, a, w, h),
        edge_open(walls, a, b, w, h),
    ensures
        reachable(walls, b, w, h),
{
    let p = choose|p: Seq<usize>| is_path(p, walls, w, h) && p.last() == a;
    let p2 = p.push(b);
    assert forall|k: int| 0 <= k < p2.len() - 1 implies edge_open(walls, #[trigger] p2[k], p2[k + 1], w, h) by {
        if k < p.len() - 1 {
            assert(p2[k] == p[k] && p2[k + 1] == p[k + 1]);
            assert(edge_open(walls, p[k], p[k + 1], w, h));
        } else {
            assert(p2[k] == p.last() && p2[k + 1] == b);
        }
    }
    assert(is_path(p2, walls, w, h) && p2.last() == b);
}

/// The start cell reaches itself by the empty walk.
proof fn lemma_reachable_start(walls: Seq<bool>, w: usize, h: usize)
    ensures
        reachable(walls, 0, w, h),
{
    let p = seq![0usize];
    assert(is_path(p, walls, w, h) && p.last() == 0usize);
}

/// The counting and connectivity invariant, on top of `state_inv`: walls are
/// edge-symmetric, open walls join visited cells, visited cells are
/// reachable, border cells are queued, and the number of open edges is one
/// less than the number of visited cells.
pub open spec fn maze_inv(s: GenState, w: usize, h: usize) -> bool {
    &&& forall|c: usize, d: Direction| c < w * h ==> #[trigger] pair_ok(s.walls, c, d, w, h)
    &&& forall|c: usize, d: Direction|
        c < w * h ==> #[trigger] open_ok(s.walls, s.visited, c, d, w, h)
    &&& forall|z: usize|
        (z < w * h && s.visited[z as int]) ==> #[trigger] reachable(s.walls, z, w, h)
    &&& forall|z: usize|
        (z < w * h && !s.visited[z as int] && #[trigger] has_visited_neighbor(z, s.visited, w, h))
            ==> s.frontier.contains(z)
    &&& open_canonical_set(s.walls).finite()
    &&& open_canonical_set(s.walls).len() + 1 + count_false(s.visited) == w * h
}

} // verus!

verus! {

/// One generator step keeps the counting and connectivity invariant: it
/// opens exactly one edge, between the newly visited cell and an
/// already-reached neighbor.
pub proof fn lemma_gen_step_full(s: GenState, w: usize, h: usize)
    requires
        grid_ok(w, h),
        state_inv(s, w, h),
        maze_inv(s, w, h),
        s.frontier.len() > 0,
    ensures
        maze_inv(gen_step(s, w, h), w, h),
{
    lemma_gen_step_basic(s, w, h);
    let t = gen_step(s, w, h);
    let c = s.frontier.last();
    assert(s.frontier[s.frontier.len() - 1] == c);
    assert(frontier_cell_ok(s.visited, c, w, h));
    let rest = s.frontier.drop_last();
    lemma_drop_last_nodup(s.frontier);
    assert forall|k: int| 0 <= k < rest.len() implies (frontier_cell_ok(s.visited, rest[k], w, h)
        && rest[k] != c) by {
        assert(rest[k] == s.frontier[k]);
        assert(s.frontier[k] != s.frontier[s.frontier.len() - 1]);
    }
    lemma_maze_neighbors(c, s.visited, w, h);
    let nb = maze_neighbors_spec(c, s.visited, w, h);
    let k = rng_below(s.rng, nb.len() as u64);
    assert(0 <= k < nb.len()) by {
        vstd::arithmetic::div_mod::lemma_mod_bound(rng_step(s.rng) as int, nb.len() as int);
    }
    assert(nb_ok(s.visited, c, nb[k], w, h));
    let n = nb[k].0;
    let d = nb[k].1;
    lemma_neighbor_symm(c, d, w, h);
    lemma_mark_ok(c, s.visited, rest, w, h);
    let marked = mark_spec(c, s.visited, rest, w, h);
    let v2 = marked.0;
    let r1 = rng_step(s.rng);
    lemma_shuffle_permutes(marked.1, r1);
    let sh = shuffle_spec(marked.1, r1);
    let sc = slot_of(c, d);
    let sn = slot_of(n, opposite_of(d));
    lemma_slot_mod(c, d);
    lemma_slot_mod(n, opposite_of(d));
    assert(opposite_of(opposite_of(d)) == d);
    assert(c != n);
    assert(sc != sn) by {
        if sc == sn {
            lemma_slot_inj(c, d, n, opposite_of(d));
        }
    }
    assert(0 <= sc < s.walls.len() && 0 <= sn < s.walls.len());
    // both walls stand before this step, because cell c is unvisited
    assert(open_ok(s.walls, s.visited, c, d, w, h));
    assert(open_ok(s.walls, s.visited, n, opposite_of(d), w, h));
    assert(s.walls[sc] == true && s.walls[sn] == true);
    let w2 = s.walls.update(sc, false).update(sn, false);
    assert(t.walls == w2 && t.visited == v2 && t.frontier == sh.0);
    assert(w2.len() == s.walls.len());
    assert(!w2[sc] && !w2[sn]);
    assert(forall|kk: int| 0 <= kk < w2.len() && kk != sc && kk != sn ==> w2[kk] == s.walls[kk]);

    // walls stay edge-symmetric
    assert forall|c2: usize, d2: Direction| c2 < w * h implies pair_ok(w2, c2, d2, w, h) by {
        assert(pair_ok(s.walls, c2, d2, w, h));
        let s2 = slot_of(c2, d2);
        match neighbor_of(c2, d2, w, h) {
            Some(m) => {
                lemma_neighbor_symm(c2, d2, w, h);
                let sm = slot_of(m, opposite_of(d2));
                assert(opposite_of(opposite_of(d2)) == d2);
                if s2 == sc {
                    lemma_slot_inj(c2, d2, c, d);
                    assert(m == n && sm == sn);
                } else if s2 == sn {
                    lemma_slot_inj(c2, d2, n, opposite_of(d));
                    assert(m == c && sm == sc);
                } else {
                    if sm == sc {
                        lemma_slot_inj(m, opposite_of(d2), c, d);
                        assert(m == c && opposite_of(d2) == d);
                        assert(neighbor_of(c, d, w, h) == Some(c2));
                        assert(c2 == n && d2 == opposite_of(d));
                        assert(s2 == sn);
                        assert(false);
                    }
                    if sm == sn {
                        lemma_slot_inj(m, opposite_of(d2), n, opposite_of(d));
                        assert(m == n && d2 == d);
                        assert(neighbor_of(n, opposite_of(d), w, h) == Some(c2));
                        assert(c2 == c);
                        assert(s2 == sc);
                        assert(false);
                    }
                    assert(0 <= sm < s.walls.len());
                    assert(w2[s2] == s.walls[s2] && w2[sm] == s.walls[sm]);
                }
            },
            None => {
                if s2 == sc {
                    lemma_slot_inj(c2, d2, c, d);
                    assert(false);
                }
                if s2 == sn {
                    lemma_slot_inj(c2, d2, n, opposite_of(d));
                    assert(false);
                }
            },
        }
    }

    // open walls still join visited cells
    assert forall|c2: usize, d2: Direction| c2 < w * h implies open_ok(w2, v2, c2, d2, w, h) by {
        assert(open_ok(s.walls, s.visited, c2, d2, w, h));
        let s2 = slot_of(c2, d2);
        match neighbor_of(c2, d2, w, h) {
            Some(m) => {
                if s2 == sc {
                    lemma_slot_inj(c2, d2, c, d);
                    assert(m == n);
                    assert(v2[c2 as int] && v2[m as int]);
                } else if s2 == sn {
                    lemma_slot_inj(c2, d2, n, opposite_of(d));
                    assert(neighbor_of(n, opposite_of(d), w, h) == Some(c));
                    assert(m == c);
                    assert(v2[c2 as int] && v2[m as int]);
                } else {
                    assert(w2[s2] == s.walls[s2]);
                }
            },
            None => {},
        }
    }

    // every visited cell stays reachable
    assert forall|z: usize| (z < w * h && v2[z as int]) implies reachable(w2, z, w, h) by {
        if z != c {
            assert(s.visited[z as int]);
            assert(reachable(s.walls, z, w, h));
            lemma_reachable_monotone(s.walls, w2, z, w, h);
        } else {
            assert(s.visited[n as int]);
            assert(reachable(s.walls, n, w, h));
            lemma_reachable_monotone(s.walls, w2, n, w, h);
            assert(neighbor_of(n, opposite_of(d), w, h) == Some(c));
            assert(dir_edge_open(w2, n, opposite_of(d), c, w, h));
            assert(edge_open(w2, n, c, w, h));
            lemma_reachable_extend(w2, n, c, w, h);
        }
    }

    // unvisited border cells are still queued
    assert forall|z: usize| (z < w * h && !v2[z as int] && has_visited_neighbor(z, v2, w, h))
        implies sh.0.contains(z) by {
        assert(z != c);
        if has_visited_neighbor(z, s.visited, w, h) {
            assert(s.frontier.contains(z));
            let j = choose|j: int| 0 <= j < s.frontier.len() && s.frontier[j] == z;
            assert(j != s.frontier.len() - 1);
            assert(rest[j] == z);
            assert(rest.contains(z));
            assert(marked.1.contains(z));
        } else {
            // the one newly visited cell is c, so c must be z's new neighbor
            let dd = choose|dd: Direction| dir_vis(z, dd, v2, w, h);
            assert(dir_vis(z, Direction::Up, v2, w, h) || dir_vis(z, Direction::Down, v2, w, h)
                || dir_vis(z, Direction::Left, v2, w, h) || dir_vis(z, Direction::Right, v2, w, h));
            let de = if dir_vis(z, Direction::Up, v2, w, h) {
                Direction::Up
            } else if dir_vis(z, Direction::Down, v2, w, h) {
                Direction::Down
            } else if dir_vis(z, Direction::Left, v2, w, h) {
                Direction::Left
            } else {
                Direction::Right
            };
            assert(dir_vis(z, de, v2, w, h));
            let m = neighbor_of(z, de, w, h)->Some_0;
            if m != c {
                assert(s.visited[m as int] == v2[m as int]);
                assert(dir_vis(z, de, s.visited, w, h));
                assert(has_visited_neighbor(z, s.visited, w, h));
                assert(false);
            }
            lemma_neighbor_symm(z, de, w, h);
            assert(neighbor_of(c, opposite_of(de), w, h) == Some(z));
            assert(covers_dir(c, opposite_of(de), v2, marked.1, w, h));
            assert(marked.1.contains(z));
        }
        assert(sh.0.contains(z));
    }

    // exactly one canonical slot opens
    let kc = if dir_index(d) == 0 || dir_index(d) == 3 {
        sc
    } else {
        sn
    };
    assert(canonical_slot(kc));
    assert(kc == sc ==> !canonical_slot(sn));
    assert(kc == sn ==> !canonical_slot(sc));
    let oc1 = open_canonical_set(s.walls);
    let oc2 = open_canonical_set(w2);
    assert(oc2 =~= oc1.insert(kc)) by {
        assert forall|kk: int| oc2.contains(kk) == oc1.insert(kc).contains(kk) by {
            if kk == sc || kk == sn {
            } else {
                if 0 <= kk < w2.len() {
                    assert(w2[kk] == s.walls[kk]);
                }
            }
        }
    }
    assert(!oc1.contains(kc));
    axiom_set_insert_len(oc1, kc);
    axiom_set_insert_finite(oc1, kc);
    assert(oc2.finite());
    assert(oc2.len() == oc1.len() + 1);
    assert(count_false(v2) + 1 == count_false(s.visited));
    assert(oc2.len() + 1 + count_false(v2) == w * h);
}

} // verus!

verus! {

/// When no unvisited cell borders the maze, every cell has been visited:
/// walking left and down from any cell must eventually meet a visited one.
proof fn lemma_all_visited(visited: Seq<bool>, w: usize, h: usize, c: usize)
    requires
        grid_ok(w, h),
        visited.len() == w * h,
        0 < visited.len() && visited[0],
        forall|z: usize|
            (z < w * h && !visited[z as int]) ==> !#[trigger] has_visited_neighbor(z, visited, w, h),
        c < w * h,
    ensures
        visited[c as int],
    decreases c,
{
    if c != 0 {
        lemma_grid_cell(c, w, h);
        let ci = c as int;
        let wi = w as int;
        let x = ci % wi;
        let y = ci / wi;
        if x >= 1 {
            let m = (c - 1) as usize;
            lemma_all_visited(visited, w, h, m);
            if !visited[c as int] {
                assert(neighbor_of(c, Direction::Left, w, h) == Some(m));
                assert(dir_vis(c, Direction::Left, visited, w, h));
                assert(has_visited_neighbor(c, visited, w, h));
                assert(false);
            }
        } else {
            assert(y >= 1) by (nonlinear_arith)
                requires
                    ci == wi * y + x,
                    x == 0,
                    ci >= 1,
                    wi >= 1,
                    y >= 0,
            ;
            assert(ci - wi >= 0) by (nonlinear_arith)
                requires
                    ci == wi * y + x,
                    x == 0,
                    y >= 1,
                    wi >= 1,
            ;
            let m = (c - w) as usize;
            lemma_all_visited(visited, w, h, m);
            if !visited[c as int] {
                assert(neighbor_of(c, Direction::Down, w, h) == Some(m));
                assert(dir_vis(c, Direction::Down, visited, w, h));
                assert(has_visited_neighbor(c, visited, w, h));
                assert(false);
            }
        }
    }
}

/// The freshly initialized state satisfies the counting and connectivity
/// invariant.
proof fn lemma_initial_maze_inv(w: usize, h: usize, seed: u64)
    requires
        grid_ok(w, h),
    ensures
        maze_inv(initial_state(w, h, seed), w, h),
        state_inv(initial_state(w, h, seed), w, h),
        initial_state(w, h, seed).frontier.len() + 4 * count_false(initial_state(w, h, seed).visited)
            < 4 * (w * h) + 1,
{
    lemma_grid_size(w, h);
    let n = w * h;
    let visited0 = Seq::new(n as nat, |i: int| false);
    let walls0 = Seq::new((4 * n) as nat, |i: int| true);
    lemma_count_false_all_false(n as nat);
    lemma_mark_ok(0, visited0, Seq::empty(), w, h);
    let s = initial_state(w, h, seed);
    let v1 = s.visited;
    let f1 = s.frontier;
    assert(v1 == visited0.update(0, true));
    assert(state_inv(s, w, h));
    assert forall|c2: usize, d2: Direction| c2 < w * h implies pair_ok(walls0, c2, d2, w, h) by {
        if neighbor_of(c2, d2, w, h) is Some {
            lemma_neighbor_symm(c2, d2, w, h);
            let m = neighbor_of(c2, d2, w, h)->Some_0;
            assert(0 <= slot_of(c2, d2) < walls0.len());
            assert(0 <= slot_of(m, opposite_of(d2)) < walls0.len());
        }
    }
    assert forall|c2: usize, d2: Direction| c2 < w * h implies open_ok(walls0, v1, c2, d2, w, h) by {
        assert(0 <= slot_of(c2, d2) < walls0.len());
        assert(walls0[slot_of(c2, d2)]);
    }
    assert forall|z: usize| (z < w * h && v1[z as int]) implies reachable(walls0, z, w, h) by {
        assert(z == 0);
        lemma_reachable_start(walls0, w, h);
    }
    assert forall|z: usize| (z < w * h && !v1[z as int] && has_visited_neighbor(z, v1, w, h))
        implies f1.contains(z) by {
        let de = if dir_vis(z, Direction::Up, v1, w, h) {
            Direction::Up
        } else if dir_vis(z, Direction::Down, v1, w, h) {
            Direction::Down
        } else if dir_vis(z, Direction::Left, v1, w, h) {
            Direction::Left
        } else {
            Direction::Right
        };
        assert(dir_vis(z, de, v1, w, h));
        let m = neighbor_of(z, de, w, h)->Some_0;
        assert(v1[m as int]);
        assert(m == 0);
        lemma_neighbor_symm(z, de, w, h);
        assert(neighbor_of(0usize, opposite_of(de), w, h) == Some(z));
        assert(covers_dir(0, opposite_of(de), v1, f1, w, h));
    }
    assert(open_canonical_set(walls0) =~= Set::<int>::empty());
    assert(open_canonical_set(walls0).len() == 0);
    assert(count_false(v1) + 1 == n);
}

} // verus!

verus! {

use crate::collider::{Aabb, Collider};
use crate::constants::{COORD_LIMIT, GRID_CELL_SIZE, WALL_HALF_THICKNESS};
use crate::vec2::Vec2;

/// A maze wall: its orientation and its world-space collision box.
#[derive(Clone, Copy, Debug, PartialEq, Eq, Structural)]
pub struct Wall {
    pub wall_type: WallType,
    pub collider: Collider,
}

/// Where the wall in cell (x, y)'s `direction` slot sits in the world: the
/// cell center plus half a cell toward the slot, spanning the cell along its
/// long axis and `WALL_HALF_THICKNESS` across. Out-of-grid slots place
/// nothing.
pub open spec fn place_wall_spec(x: usize, y: usize, direction: Direction, w: usize, h: usize, cell: int) -> Option<Wall> {
    if x < w && y < h {
        let half_cell = cell / 2;
        let cx = -(((w as int) * cell) / 2) + cell * x + half_cell;
        let cy = -(((h as int) * cell) / 2) + cell * y + half_cell;
        let px = match direction {
            Direction::Up => cx,
            Direction::Down => cx,
            Direction::Left => cx - half_cell,
            Direction::Right => cx + half_cell,
        };
        let py = match direction {
            Direction::Up => cy + half_cell,
            Direction::Down => cy - half_cell,
            Direction::Left => cy,
            Direction::Right => cy,
        };
        let hx = match wall_type_of(direction) {
            WallType::Horizontal => half_cell,
            WallType::Vertical => WALL_HALF_THICKNESS as int,
        };
        let hy = match wall_type_of(direction) {
            WallType::Horizontal => WALL_HALF_THICKNESS as int,
            WallType::Vertical => half_cell,
        };
        Some(
            Wall {
                wall_type: wall_type_of(direction),
                collider: Collider::Aabb(
                    Aabb {
                        center: Vec2 { x: px as i64, y: py as i64 },
                        half_extents: Vec2 { x: hx as i64, y: hy as i64 },
                    },
                ),
            },
        )
    } else {
        None
    }
}

/// Grid sizes and cell size small enough for the placement arithmetic.
pub open spec fn placement_ok(w: usize, h: usize, cell: int) -> bool {
    &&& 2 * (WALL_HALF_THICKNESS as int) <= cell <= COORD_LIMIT
    &&& 1 <= w
    &&& 1 <= h
    &&& (w as int) * cell <= COORD_LIMIT
    &&& (h as int) * cell <= COORD_LIMIT
}

/// Place the wall of one grid slot in the world, skipping slots outside the
/// grid.
pub fn place_wall(x: usize, y: usize, direction: Direction, w: usize, h: usize, cell: i64) -> (r:
    Option<Wall>)
    requires
        placement_ok(w, h, cell as int),
    ensures
        r == place_wall_spec(x, y, direction, w, h, cell as int),
        r is Some ==> (r->Some_0.collider.wf() && r->Some_0.collider.is_aabb()
            && r->Some_0.wall_type == wall_type_of(direction)),
{
    if is_within_bounds_grid(x, y, w, h) {
        proof {
            crate::collider::lemma_mul_nonneg_bound(x as int, cell as int, (w as int) - 1, cell as int);
            crate::collider::lemma_mul_nonneg_bound(y as int, cell as int, (h as int) - 1, cell as int);
            assert(((w as int) - 1) * cell == (w as int) * cell - cell) by (nonlinear_arith);
            assert(((h as int) - 1) * cell == (h as int) * cell - cell) by (nonlinear_arith);
            assert(0 <= (w as int) * cell) by (nonlinear_arith)
                requires
                    w >= 1,
                    cell >= 0,
            ;
            assert(0 <= (h as int) * cell) by (nonlinear_arith)
                requires
                    h >= 1,
                    cell >= 0,
            ;
            assert(x as int <= (x as int) * cell) by (nonlinear_arith)
                requires
                    cell >= 1,
                    x >= 0,
            ;
            assert((w as int) <= (w as int) * cell && (h as int) <= (h as int) * cell)
                by (nonlinear_arith)
                requires
                    cell >= 1,
                    w >= 1,
                    h >= 1,
            ;
            assert(cell * (x as int) == (x as int) * cell && cell * (y as int) == (y as int) * cell)
                by (nonlinear_arith);
        }
        let half_cell = ((cell as u64) / 2) as i64;
        let field_w = (w as i64) * cell;
        let field_h = (h as i64) * cell;
        let half_field_w = ((field_w as u64) / 2) as i64;
        let half_field_h = ((field_h as u64) / 2) as i64;
        let cx = -half_field_w + cell * (x as i64) + half_cell;
        let cy = -half_field_h + cell * (y as i64) + half_cell;
        let px = match direction {
            Direction::Up => cx,
            Direction::Down => cx,
            Direction::Left => cx - half_cell,
            Direction::Right => cx + half_cell,
        };
        let py = match direction {
            Direction::Up => cy + half_cell,
            Direction::Down => cy - half_cell,
            Direction::Left => cy,
            Direction::Right => cy,
        };
        let wall_type = WallType::from(direction);
        let half_extents = match wall_type {
            WallType::Horizontal => Vec2 { x: half_cell, y: WALL_HALF_THICKNESS },
            WallType::Vertical => Vec2 { x: WALL_HALF_THICKNESS, y: half_cell },
        };
        Some(
            Wall {
                wall_type,
                collider: Collider::Aabb(
                    Aabb { center: Vec2 { x: px, y: py }, half_extents },
                ),
            },
        )
    } else {
        None
    }
}

/// Whether the cell coordinates lie inside the grid.
pub fn is_within_bounds_grid(x: usize, y: usize, w: usize, h: usize) -> (r: bool)
    ensures
        r == (x < w && y < h),
{
    x < w && y < h
}

/// Signed-coordinate bounds check, for callers that step off the grid with
/// direction offsets.
pub fn is_within_bounds(x: i64, y: i64, w: u32, h: u32) -> (r: bool)
    ensures
        r == (0 <= x < w && 0 <= y < h),
{
    x >= 0 && y >= 0 && x < (w as i64) && y < (h as i64)
}

} // verus!

verus! {

/// The direction encoded in a wall slot's low two bits.
pub open spec fn dir_of_index(i: int) -> Direction {
    if i == 0 {
        Direction::Up
    } else if i == 1 {
        Direction::Down
    } else if i == 2 {
        Direction::Left
    } else {
        Direction::Right
    }
}

pub fn dir_of_code(i: usize) -> (r: Direction)
    requires
        i < 4,
    ensures
        r == dir_of_index(i as int),
{
    if i == 0 {
        Direction::Up
    } else if i == 1 {
        Direction::Down
    } else if i == 2 {
        Direction::Left
    } else {
        Direction::Right
    }
}

/// The world-space wall body of slot `k`.
pub open spec fn wall_of_slot(k: int, w: usize, h: usize, cell: int) -> Wall {
    let c = k / 4;
    let code = k % 4;
    let x = c % (w as int);
    let y = c / (w as int);
    place_wall_spec(x as usize, y as usize, dir_of_index(code), w, h, cell)->Some_0
}

/// A placed wall is a well-formed axis-aligned body.
pub open spec fn wall_body_ok(wall: Wall) -> bool {
    &&& wall.collider.wf()
    &&& wall.collider.is_aabb()
}

/// The wall bodies of the first `k` slots that are still standing, in slot
/// order.
pub open spec fn wall_rows(walls: Seq<bool>, w: usize, h: usize, cell: int, k: nat) -> Seq<Wall>
    decreases k,
{
    if k == 0 {
        Seq::empty()
    } else {
        let prev = wall_rows(walls, w, h, cell, (k - 1) as nat);
        if k - 1 < walls.len() && walls[k - 1] {
            prev.push(wall_of_slot(k - 1, w, h, cell))
        } else {
            prev
        }
    }
}

/// Generate a maze and place its surviving walls in the world: one body per
/// standing wall slot, in slot order, every collider an axis-aligned box.
pub fn setup_walls(width: u32, height: u32, seed: u64) -> (r: Vec<Wall>)
    requires
        4 * (width as int) * (height as int) <= usize::MAX,
        (width as int) * GRID_CELL_SIZE <= COORD_LIMIT,
        (height as int) * GRID_CELL_SIZE <= COORD_LIMIT,
    ensures
        (width == 0 || height == 0) ==> r@ == Seq::<Wall>::empty(),
        width >= 1 && height >= 1 ==> r@ == wall_rows(
            maze_walls_spec(width as usize, height as usize, seed),
            width as usize,
            height as usize,
            GRID_CELL_SIZE as int,
            (4 * ((width as usize) * (height as usize))) as nat,
        ),
        forall|i: int| 0 <= i < r@.len() ==> #[trigger] wall_body_ok(r@[i]),
{
    if width == 0 || height == 0 {
        let empty: Vec<Wall> = Vec::new();
        proof {
            assert(empty@ =~= Seq::<Wall>::empty());
        }
        return empty;
    }
    proof {
        assert(placement_ok(width as usize, height as usize, GRID_CELL_SIZE as int));
    }
    let layout = generate_maze(width, height, seed);
    let w = width as usize;
    let h = height as usize;
    proof {
        lemma_grid_size(w, h);
    }
    let n = w * h;
    let mut out: Vec<Wall> = Vec::new();
    let mut k: usize = 0;
    while k < 4 * n
        invariant
            grid_ok(w, h),
            placement_ok(w, h, GRID_CELL_SIZE as int),
            n == w * h,
            k <= 4 * n,
            4 * n <= usize::MAX,
            layout.walls@.len() == 4 * n,
            out@ == wall_rows(layout.walls@, w, h, GRID_CELL_SIZE as int, k as nat),
            forall|i: int| 0 <= i < out@.len() ==> #[trigger] wall_body_ok(out@[i]),
        decreases 4 * n - k,
    {
        let c = k / 4;
        let code = k % 4;
        proof {
            vstd::arithmetic::div_mod::lemma_fundamental_div_mod(k as int, 4);
            vstd::arithmetic::div_mod::lemma_mod_bound(k as int, 4);
            assert((k as int) / 4 < n) by (nonlinear_arith)
                requires
                    k as int == 4 * ((k as int) / 4) + (k as int) % 4,
                    0 <= (k as int) % 4 < 4,
                    (k as int) < 4 * (n as int),
            ;
            lemma_grid_cell(c, w, h);
        }
        let x = c % w;
        let y = c / w;
        let present = layout.walls[k];
        if present {
            let direction = dir_of_code(code);
            let wall_opt = place_wall(x, y, direction, w, h, GRID_CELL_SIZE);
            let wall = wall_opt.unwrap();
            let ghost prev = out@;
            out.push(wall);
            proof {
                assert(wall == wall_of_slot(k as int, w, h, GRID_CELL_SIZE as int));
                assert forall|i: int| 0 <= i < out@.len() implies #[trigger] wall_body_ok(
                    out@[i],
                ) by {
                    if i < out@.len() - 1 {
                        assert(out@[i] == prev[i]);
                        assert(wall_body_ok(prev[i]));
                    } else {
                        assert(out@[i] == wall);
                        assert(wall_body_ok(wall));
                    }
                }
            }
        }
        k = k + 1;
        proof {
            assert(out@ == wall_rows(layout.walls@, w, h, GRID_CELL_SIZE as int, k as nat));
        }
    }
    out
}

} // verus!
