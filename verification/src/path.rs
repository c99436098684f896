//! Deriving the enemies' route from a level.
//!
//! The route is found by a walk, not by a search: from the start tile the walk
//! takes, again and again, the first neighbouring tile in the order up, down,
//! left, right that can be walked on and is not the tile it just came from.

use crate::geometry::Point;
use crate::grid::{
    cell_of, lemma_cell_of_world, tile_type_at, type_at, Cell, Level, TileType, GRID_SIZE,
    TILE_SIZE,
};
use vstd::prelude::*;

verus! {

/// The most steps a walk takes.
pub const MAX_STEPS: usize = 100;

/// The waypoints that enemies follow, first to last.
#[derive(Clone, Debug)]
pub struct Path {
    pub points: Vec<Point>,
}

impl View for Path {
    type V = Seq<Point>;

    open spec fn view(&self) -> Seq<Point> {
        self.points@
    }
}

/// The world's origin, where a route begins if the level has no start tile.
pub open spec fn origin() -> Point {
    Point { x: 0, y: 0 }
}

/// The cell under the world's origin.
pub open spec fn origin_cell() -> Cell {
    Cell { x: 10, y: 11 }
}

/// Position of a cell when the rows are read one after the other.
pub open spec fn row_major(c: Cell) -> int {
    c.y * GRID_SIZE + c.x
}

/// `c` is a start tile, and no start tile comes later in row-major order.
pub open spec fn is_last_start(level: Level, c: Cell) -> bool {
    &&& c.in_grid()
    &&& type_at(level, c) == TileType::Start
    &&& forall|d: Cell|
        d.in_grid() && #[trigger] type_at(level, d) == TileType::Start ==> row_major(d)
            <= row_major(c)
}

/// The start tile of a level: the last one in row-major order, if any.
pub open spec fn start_cell(level: Level) -> Option<Cell> {
    if exists|c: Cell| is_last_start(level, c) {
        Some(choose|c: Cell| is_last_start(level, c))
    } else {
        None
    }
}

/// The `k`-th neighbour of a cell, in the order up, down, left, right, where
/// the grid has one.
pub open spec fn neighbor(c: Cell, k: int) -> Option<Cell> {
    if k == 0 {
        if c.y > 0 {
            Some(Cell { x: c.x, y: (c.y - 1) as usize })
        } else {
            None
        }
    } else if k == 1 {
        if c.y + 1 < GRID_SIZE {
            Some(Cell { x: c.x, y: (c.y + 1) as usize })
        } else {
            None
        }
    } else if k == 2 {
        if c.x > 0 {
            Some(Cell { x: (c.x - 1) as usize, y: c.y })
        } else {
            None
        }
    } else {
        if c.x + 1 < GRID_SIZE {
            Some(Cell { x: (c.x + 1) as usize, y: c.y })
        } else {
            None
        }
    }
}

/// A walk may step onto `n`: it is road or the end, and not the cell that the
/// walk just left.
pub open spec fn passable(level: Level, n: Cell, prev: Cell) -> bool {
    n != prev && (type_at(level, n) == TileType::Road || type_at(level, n) == TileType::End)
}

/// The `k`-th neighbour of `cur`, if the walk may step onto it.
pub open spec fn candidate(level: Level, cur: Cell, prev: Cell, k: int) -> Option<Cell> {
    match neighbor(cur, k) {
        Some(n) => if passable(level, n, prev) {
            Some(n)
        } else {
            None
        },
        None => None,
    }
}

/// The walk's next cell: the first neighbour, in the fixed order, that it may
/// step onto.
pub open spec fn next_cell(level: Level, cur: Cell, prev: Cell) -> Option<Cell> {
    if candidate(level, cur, prev, 0) is Some {
        candidate(level, cur, prev, 0)
    } else if candidate(level, cur, prev, 1) is Some {
        candidate(level, cur, prev, 1)
    } else if candidate(level, cur, prev, 2) is Some {
        candidate(level, cur, prev, 2)
    } else {
        candidate(level, cur, prev, 3)
    }
}

/// The cells that a walk visits after `cur`, having come from `prev`, in at
/// most `fuel` steps. It ends on the end tile or where no step is possible.
pub open spec fn walk(level: Level, cur: Cell, prev: Cell, fuel: nat) -> Seq<Cell>
    decreases fuel,
{
    if fuel == 0 {
        Seq::empty()
    } else {
        match next_cell(level, cur, prev) {
            None => Seq::empty(),
            Some(n) => if type_at(level, n) == TileType::End {
                seq![n]
            } else {
                seq![n] + walk(level, n, cur, (fuel - 1) as nat)
            },
        }
    }
}

/// The first waypoint of a level: the centre of its start tile, or the
/// world's origin if it has none.
pub open spec fn first_point(level: Level) -> Point {
    match start_cell(level) {
        Some(s) => s.world(),
        None => origin(),
    }
}

/// The cell where the walk begins: the one under the first waypoint.
pub open spec fn first_cell(level: Level) -> Cell {
    match start_cell(level) {
        Some(s) => s,
        None => origin_cell(),
    }
}

/// The cells of a level's route after the first waypoint.
pub open spec fn route_cells(level: Level) -> Seq<Cell> {
    walk(level, first_cell(level), first_cell(level), MAX_STEPS as nat)
}

/// The route of a level: its first waypoint, then the centres of the cells
/// that the walk visits.
pub open spec fn route(level: Level) -> Seq<Point> {
    seq![first_point(level)] + route_cells(level).map_values(|c: Cell| c.world())
}

/// Two cells share an edge.
pub open spec fn adjacent(a: Cell, b: Cell) -> bool {
    ||| a.x == b.x && (a.y + 1 == b.y || b.y + 1 == a.y)
    ||| a.y == b.y && (a.x + 1 == b.x || b.x + 1 == a.x)
}

/// Two points lie exactly one tile apart along a single axis.
pub open spec fn one_tile_apart(p: Point, q: Point) -> bool {
    ||| p.x == q.x && (p.y + TILE_SIZE == q.y || q.y + TILE_SIZE == p.y)
    ||| p.y == q.y && (p.x + TILE_SIZE == q.x || q.x + TILE_SIZE == p.x)
}

/// Finds the start tile of a level.
pub fn find_start(level: &Level) -> (r: Option<Cell>)
    ensures
        r == start_cell(*level),
{
    let mut found: Option<Cell> = None;
    let mut i: usize = 0;
    while i < 400
        invariant
            i <= 400,
            match found {
                Some(c) => c.in_grid() && row_major(c) < i && type_at(*level, c)
                    == TileType::Start,
                None => true,
            },
            forall|d: Cell|
                d.in_grid() && row_major(d) < i && #[trigger] type_at(*level, d)
                    == TileType::Start ==> found is Some && row_major(d) <= row_major(
                    found.unwrap(),
                ),
        decreases 400 - i,
    {
        let c = Cell { x: i % 20, y: i / 20 };
        assert(row_major(c) == i);
        if tile_type_at(level, c) == TileType::Start {
            found = Some(c);
        }
        assert forall|d: Cell|
            d.in_grid() && row_major(d) < i + 1 && #[trigger] type_at(*level, d)
                == TileType::Start implies found is Some && row_major(d) <= row_major(
            found.unwrap(),
        ) by {
            if row_major(d) == i {
                assert(d == c);
            }
        }
        i += 1;
    }
    proof {
        match found {
            Some(c) => {
                assert(is_last_start(*level, c));
                lemma_last_start_unique(*level, c, choose|e: Cell| is_last_start(*level, e));
            },
            None => {
                assert forall|e: Cell| !is_last_start(*level, e) by {
                    if is_last_start(*level, e) {
                        assert(type_at(*level, e) == TileType::Start);
                    }
                }
            },
        }
    }
    found
}

/// A level has at most one last start tile.
pub proof fn lemma_last_start_unique(level: Level, a: Cell, b: Cell)
    requires
        is_last_start(level, a),
        is_last_start(level, b),
    ensures
        a == b,
{
    assert(type_at(level, a) == TileType::Start);
    assert(type_at(level, b) == TileType::Start);
}

/// The `k`-th neighbour of a cell of the grid, if the walk may step onto it.
fn try_neighbor(level: &Level, cur: Cell, prev: Cell, k: u8) -> (r: Option<Cell>)
    requires
        cur.in_grid(),
        k < 4,
    ensures
        r == candidate(*level, cur, prev, k as int),
        r is Some ==> r.unwrap().in_grid(),
{
    let n = if k == 0 {
        if cur.y > 0 {
            Cell { x: cur.x, y: cur.y - 1 }
        } else {
            return None;
        }
    } else if k == 1 {
        if cur.y + 1 < GRID_SIZE {
            Cell { x: cur.x, y: cur.y + 1 }
        } else {
            return None;
        }
    } else if k == 2 {
        if cur.x > 0 {
            Cell { x: cur.x - 1, y: cur.y }
        } else {
            return None;
        }
    } else {
        if cur.x + 1 < GRID_SIZE {
            Cell { x: cur.x + 1, y: cur.y }
        } else {
            return None;
        }
    };
    if n.x == prev.x && n.y == prev.y {
        return None;
    }
    let t = tile_type_at(level, n);
    if t == TileType::Road || t == TileType::End {
        Some(n)
    } else {
        None
    }
}

/// The walk's next cell after `cur`, having come from `prev`.
pub fn next_step(level: &Level, cur: Cell, prev: Cell) -> (r: Option<Cell>)
    requires
        cur.in_grid(),
    ensures
        r == next_cell(*level, cur, prev),
        r is Some ==> r.unwrap().in_grid(),
{
    let up = try_neighbor(level, cur, prev, 0);
    if up.is_some() {
        return up;
    }
    let down = try_neighbor(level, cur, prev, 1);
    if down.is_some() {
        return down;
    }
    let left = try_neighbor(level, cur, prev, 2);
    if left.is_some() {
        return left;
    }
    try_neighbor(level, cur, prev, 3)
}

/// Derives the route of a level.
///
/// The route begins at the centre of the start tile. A level without a start
/// tile yields a route that begins at the world's origin and walks on from
/// the cell under it.
pub fn extract_path(level: &Level) -> (path: Path)
    ensures
        path@ == route(*level),
        1 <= path@.len() <= MAX_STEPS + 1,
        forall|i: int| 0 <= i < path@.len() ==> (#[trigger] path@[i]).in_world(),
{
    let start = find_start(level);
    let first_cell = match start {
        Some(s) => s,
        None => Cell { x: 10, y: 11 },
    };
    let first = match start {
        Some(s) => s.to_world(),
        None => Point { x: 0, y: 0 },
    };
    let mut points: Vec<Point> = Vec::new();
    points.push(first);
    let mut cur = first_cell;
    let mut prev = first_cell;
    let mut steps: usize = 0;
    let mut done = false;
    let ghost mut cells: Seq<Cell> = Seq::empty();
    while steps < MAX_STEPS && !done
        invariant
            steps <= MAX_STEPS,
            cur.in_grid(),
            first.in_world(),
            cells.len() == steps,
            points@ == seq![first] + cells.map_values(|c: Cell| c.world()),
            forall|i: int| 0 <= i < cells.len() ==> (#[trigger] cells[i]).in_grid(),
            route_cells(*level) == cells + (if done {
                Seq::empty()
            } else {
                walk(*level, cur, prev, (MAX_STEPS - steps) as nat)
            }),
        decreases MAX_STEPS - steps + (if done { 0int } else { 1int }),
    {
        match next_step(level, cur, prev) {
            None => {
                done = true;
            },
            Some(n) => {
                let ghost before = cells;
                let ghost rest = walk(*level, cur, prev, (MAX_STEPS - steps) as nat);
                points.push(n.to_world());
                proof {
                    cells = cells.push(n);
                    assert(cells.map_values(|c: Cell| c.world()) == before.map_values(
                        |c: Cell| c.world(),
                    ).push(n.world()));
                }
                if tile_type_at(level, n) == TileType::End {
                    done = true;
                    assert(before + rest == cells);
                } else {
                    assert(before + rest == cells + walk(
                        *level,
                        n,
                        cur,
                        (MAX_STEPS - steps - 1) as nat,
                    ));
                }
                prev = cur;
                cur = n;
                steps += 1;
            },
        }
    }
    proof {
        assert(route_cells(*level) == cells);
        assert forall|i: int| 0 <= i < points@.len() implies (#[trigger] points@[i]).in_world() by {
            if i > 0 {
                assert(cells[i - 1].in_grid());
            }
        }
    }
    Path { points }
}

/// What holds of every walk from a cell of the grid: it stays in the grid,
/// takes at most `fuel` steps, moves to an adjacent cell each time, and never
/// steps back onto the cell it just left.
pub proof fn lemma_walk_shape(level: Level, cur: Cell, prev: Cell, fuel: nat)
    requires
        cur.in_grid(),
    ensures
        walk(level, cur, prev, fuel).len() <= fuel,
        forall|i: int|
            0 <= i < walk(level, cur, prev, fuel).len() ==> (#[trigger] walk(
                level,
                cur,
                prev,
                fuel,
            )[i]).in_grid(),
        walk(level, cur, prev, fuel).len() > 0 ==> adjacent(cur, walk(level, cur, prev, fuel)[0])
            && walk(level, cur, prev, fuel)[0] != prev,
        walk(level, cur, prev, fuel).len() > 1 ==> walk(level, cur, prev, fuel)[1] != cur,
        forall|i: int|
            0 <= i && i + 1 < walk(level, cur, prev, fuel).len() ==> adjacent(
                #[trigger] walk(level, cur, prev, fuel)[i],
                walk(level, cur, prev, fuel)[i + 1],
            ),
        forall|i: int|
            0 <= i && i + 2 < walk(level, cur, prev, fuel).len() ==> #[trigger] walk(
                level,
                cur,
                prev,
                fuel,
            )[i] != walk(level, cur, prev, fuel)[i + 2],
    decreases fuel,
{
    let w = walk(level, cur, prev, fuel);
    if fuel > 0 {
        match next_cell(level, cur, prev) {
            None => {},
            Some(n) => {
                assert(adjacent(cur, n) && n != prev && n.in_grid());
                if type_at(level, n) != TileType::End {
                    let rest = walk(level, n, cur, (fuel - 1) as nat);
                    lemma_walk_shape(level, n, cur, (fuel - 1) as nat);
                    assert(w == seq![n] + rest);
                    assert forall|i: int| 0 <= i < w.len() implies (#[trigger] w[i]).in_grid() by {
                        if i > 0 {
                            assert(w[i] == rest[i - 1]);
                        }
                    }
                    assert forall|i: int| 0 <= i && i + 1 < w.len() implies adjacent(
                        #[trigger] w[i],
                        w[i + 1],
                    ) by {
                        if i > 0 {
                            assert(w[i] == rest[i - 1]);
                            assert(w[i + 1] == rest[i]);
                        } else {
                            assert(w[1] == rest[0]);
                        }
                    }
                    assert forall|i: int| 0 <= i && i + 2 < w.len() implies #[trigger] w[i]
                        != w[i + 2] by {
                        if i > 0 {
                            assert(w[i] == rest[i - 1]);
                            assert(w[i + 2] == rest[i + 1]);
                        } else {
                            assert(w[2] == rest[1]);
                        }
                    }
                    if w.len() > 1 {
                        assert(w[1] == rest[0]);
                    }
                }
            },
        }
    }
}

/// The cell from which a walk stepped onto its last cell: the cell before
/// the last, or `cur` where the walk has a single cell.
pub open spec fn came_from(w: Seq<Cell>, cur: Cell) -> Cell {
    if w.len() >= 2 {
        w[w.len() - 2]
    } else {
        cur
    }
}

/// Every cell of a walk but the last is road. A walk stops on the end tile,
/// after `fuel` steps, or on a road cell from which, having come the way it
/// came, there is no way on. A walk without a cell had no way on from `cur`.
pub proof fn lemma_walk_stops(level: Level, cur: Cell, prev: Cell, fuel: nat)
    requires
        cur.in_grid(),
    ensures
        forall|i: int|
            0 <= i && i + 1 < walk(level, cur, prev, fuel).len() ==> type_at(
                level,
                #[trigger] walk(level, cur, prev, fuel)[i],
            ) == TileType::Road,
        walk(level, cur, prev, fuel).len() == 0 && fuel > 0 ==> next_cell(level, cur, prev)
            is None,
        walk(level, cur, prev, fuel).len() > 0 ==> ({
            let w = walk(level, cur, prev, fuel);
            ||| type_at(level, w.last()) == TileType::End
            ||| type_at(level, w.last()) == TileType::Road && w.len() == fuel
            ||| type_at(level, w.last()) == TileType::Road && next_cell(
                level,
                w.last(),
                came_from(w, cur),
            ) is None
        }),
    decreases fuel,
{
    let w = walk(level, cur, prev, fuel);
    if fuel > 0 {
        match next_cell(level, cur, prev) {
            None => {},
            Some(n) => {
                assert(n.in_grid());
                if type_at(level, n) != TileType::End {
                    let rest = walk(level, n, cur, (fuel - 1) as nat);
                    lemma_walk_stops(level, n, cur, (fuel - 1) as nat);
                    assert(w == seq![n] + rest);
                    assert forall|i: int| 0 <= i && i + 1 < w.len() implies type_at(
                        level,
                        #[trigger] w[i],
                    ) == TileType::Road by {
                        if i > 0 {
                            assert(w[i] == rest[i - 1]);
                        }
                    }
                    if rest.len() > 0 {
                        assert(w.last() == rest.last());
                        if rest.len() >= 2 {
                            assert(w[w.len() - 2] == rest[rest.len() - 2]);
                        } else {
                            assert(w[w.len() - 2] == n);
                        }
                        assert(came_from(w, cur) == came_from(rest, n));
                    } else {
                        assert(w.last() == n);
                    }
                }
            },
        }
    }
}

/// Where a route ends: on the end tile, after the most steps a walk takes,
/// or on a road cell from which, having come the way it came, there is no
/// way on. Every cell before the last is road.
pub proof fn lemma_route_stops(level: Level)
    ensures
        forall|i: int|
            0 <= i && i + 1 < route_cells(level).len() ==> type_at(
                level,
                #[trigger] route_cells(level)[i],
            ) == TileType::Road,
        route_cells(level).len() == 0 ==> next_cell(level, first_cell(level), first_cell(level))
            is None,
        route_cells(level).len() > 0 ==> ({
            let w = route_cells(level);
            ||| type_at(level, w.last()) == TileType::End
            ||| type_at(level, w.last()) == TileType::Road && w.len() == MAX_STEPS
            ||| type_at(level, w.last()) == TileType::Road && next_cell(
                level,
                w.last(),
                came_from(w, first_cell(level)),
            ) is None
        }),
{
    let c0 = first_cell(level);
    if start_cell(level) is Some {
        assert(is_last_start(level, c0));
    }
    lemma_walk_stops(level, c0, c0, MAX_STEPS as nat);
}

/// Path validity: the route of a level with a start tile begins at the centre
/// of that tile, and each waypoint lies exactly one tile from the one before
/// it, along a single axis.
pub proof fn lemma_path_validity(level: Level)
    requires
        start_cell(level) is Some,
    ensures
        route(level)[0] == start_cell(level).unwrap().world(),
        forall|i: int|
            0 <= i && i + 1 < route(level).len() ==> one_tile_apart(
                #[trigger] route(level)[i],
                route(level)[i + 1],
            ),
{
    let s = start_cell(level).unwrap();
    assert(is_last_start(level, s));
    let cells = route_cells(level);
    let r = route(level);
    lemma_walk_shape(level, s, s, MAX_STEPS as nat);
    assert forall|i: int| 0 <= i && i + 1 < r.len() implies one_tile_apart(
        #[trigger] r[i],
        r[i + 1],
    ) by {
        assert(r[i + 1] == cells[i].world());
        if i == 0 {
            lemma_adjacent_centres(s, cells[0]);
        } else {
            assert(r[i] == cells[i - 1].world());
            assert(cells[i - 1].in_grid());
            assert(adjacent(cells[i - 1], cells[i]));
            lemma_adjacent_centres(cells[i - 1], cells[i]);
        }
    }
}

/// No backtracking: no waypoint of a route equals the waypoint two places
/// before it, so the walk never steps back onto the cell it just left.
pub proof fn lemma_no_backtrack(level: Level)
    ensures
        forall|i: int|
            0 <= i && i + 2 < route(level).len() ==> #[trigger] route(level)[i] != route(
                level,
            )[i + 2],
        forall|i: int|
            0 <= i && i + 2 < route_cells(level).len() ==> #[trigger] route_cells(level)[i]
                != route_cells(level)[i + 2],
        route_cells(level).len() > 1 ==> route_cells(level)[1] != first_cell(level),
{
    let c0 = first_cell(level);
    if start_cell(level) is Some {
        assert(is_last_start(level, c0));
    }
    let cells = route_cells(level);
    let r = route(level);
    lemma_walk_shape(level, c0, c0, MAX_STEPS as nat);
    assert forall|i: int| 0 <= i && i + 2 < r.len() implies #[trigger] r[i] != r[i + 2] by {
        assert(r[i + 2] == cells[i + 1].world());
        assert(cells[i + 1].in_grid());
        if i == 0 {
            if start_cell(level) is Some {
                assert(cells[1] != c0);
            }
        } else {
            assert(r[i] == cells[i - 1].world());
            assert(cells[i - 1].in_grid());
            assert(cells[i - 1] != cells[i + 1]);
        }
    }
}

/// The cell under the world's origin is [`origin_cell`]: a route without a
/// start tile walks on from the cell under its first waypoint, as every
/// other route does.
pub proof fn lemma_first_cell_is_under_first_point(level: Level)
    ensures
        cell_of(first_point(level)) == Some(first_cell(level)),
{
    match start_cell(level) {
        Some(s) => {
            assert(is_last_start(level, s));
            lemma_cell_of_world(s);
        },
        None => {},
    }
}

/// Each waypoint lies exactly one tile from the one before it, along a
/// single axis.
pub open spec fn stepwise(path: Seq<Point>) -> bool {
    forall|i: int| 0 <= i && i + 1 < path.len() ==> one_tile_apart(#[trigger] path[i], path[i + 1])
}

/// The route of a level with a start tile goes from waypoint to waypoint in
/// steps of one tile, has at most a hundred and one waypoints, and lies
/// inside the world.
pub proof fn lemma_route_is_stepwise(level: Level)
    requires
        start_cell(level) is Some,
    ensures
        stepwise(route(level)),
        1 <= route(level).len() <= MAX_STEPS + 1,
        forall|i: int| 0 <= i < route(level).len() ==> (#[trigger] route(level)[i]).in_world(),
{
    lemma_path_validity(level);
    let s = start_cell(level).unwrap();
    assert(is_last_start(level, s));
    lemma_walk_shape(level, s, s, MAX_STEPS as nat);
    let r = route(level);
    let cells = route_cells(level);
    assert forall|i: int| 0 <= i < r.len() implies (#[trigger] r[i]).in_world() by {
        if i > 0 {
            assert(r[i] == cells[i - 1].world());
            assert(cells[i - 1].in_grid());
        }
    }
}

/// The centres of adjacent cells lie one tile apart along a single axis.
pub proof fn lemma_adjacent_centres(a: Cell, b: Cell)
    requires
        a.in_grid(),
        b.in_grid(),
        adjacent(a, b),
    ensures
        one_tile_apart(a.world(), b.world()),
{
}

} // verus!
