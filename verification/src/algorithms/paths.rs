//! What a path on the grid is, and what it means for one to be shortest.

use vstd::prelude::*;
use crate::engine::grid::Grid;
use crate::engine::position::adjacent;
use crate::engine::position::lemma_manhattan_step;
use crate::engine::position::manhattan;

verus! {

/// A cell of the grid, as `(x, y)`.
pub type Cell = (usize, usize);

/// Whether the cell is walkable.
pub open spec fn cell_open(grid: &Grid, c: Cell) -> bool {
    grid.walkable(c.0 as int, c.1 as int)
}

/// Whether two cells are one orthogonal step apart.
pub open spec fn cells_touch(a: Cell, b: Cell) -> bool {
    adjacent(a.0 as int, a.1 as int, b.0 as int, b.1 as int)
}

/// The heuristic of the planner: the Manhattan distance from a cell to the
/// goal.
pub open spec fn estimate(c: Cell, goal: Cell) -> nat {
    manhattan(c.0 as int, c.1 as int, goal.0 as int, goal.1 as int)
}

/// A path: a non-empty sequence of walkable cells in which each cell is one
/// orthogonal step from the one before it.
pub open spec fn is_path(grid: &Grid, p: Seq<Cell>) -> bool {
    &&& p.len() > 0
    &&& forall|i: int| 0 <= i < p.len() ==> cell_open(grid, #[trigger] p[i])
    &&& forall|i: int| 0 < i < p.len() ==> cells_touch(p[i - 1], #[trigger] p[i])
}

/// A path that starts at `from` and ends at `to`.
pub open spec fn connects(grid: &Grid, p: Seq<Cell>, from: Cell, to: Cell) -> bool {
    is_path(grid, p) && p[0] == from && p[p.len() - 1] == to
}

/// Whether some path leads from `from` to `to`.
pub open spec fn reachable(grid: &Grid, from: Cell, to: Cell) -> bool {
    exists|p: Seq<Cell>| connects(grid, p, from, to)
}

/// A path from `from` to `to` such that no path between the two is shorter.
pub open spec fn shortest(grid: &Grid, p: Seq<Cell>, from: Cell, to: Cell) -> bool {
    &&& connects(grid, p, from, to)
    &&& forall|q: Seq<Cell>| connects(grid, q, from, to) ==> p.len() <= q.len()
}

/// The first cells of a path are a path.
pub proof fn lemma_path_prefix(grid: &Grid, p: Seq<Cell>, n: int)
    requires
        is_path(grid, p),
        0 < n <= p.len(),
    ensures
        connects(grid, p.take(n), p[0], p[n - 1]),
{
    let q = p.take(n);
    assert forall|i: int| 0 <= i < q.len() implies cell_open(grid, #[trigger] q[i]) by {
        assert(q[i] == p[i]);
    }
    assert forall|i: int| 0 < i < q.len() implies cells_touch(q[i - 1], #[trigger] q[i]) by {
        assert(q[i] == p[i]);
        assert(q[i - 1] == p[i - 1]);
    }
}

/// A path with one more walkable cell, a step from its end, is a path.
pub proof fn lemma_path_extend(grid: &Grid, p: Seq<Cell>, c: Cell)
    requires
        is_path(grid, p),
        cell_open(grid, c),
        cells_touch(p[p.len() - 1], c),
    ensures
        connects(grid, p.push(c), p[0], c),
{
    let q = p.push(c);
    assert forall|i: int| 0 <= i < q.len() implies cell_open(grid, #[trigger] q[i]) by {
        if i < p.len() {
            assert(q[i] == p[i]);
        }
    }
    assert forall|i: int| 0 < i < q.len() implies cells_touch(q[i - 1], #[trigger] q[i]) by {
        if i < p.len() {
            assert(q[i] == p[i]);
            assert(q[i - 1] == p[i - 1]);
        }
    }
}

/// The heuristic is consistent along a path: it drops by at most one per step.
pub proof fn lemma_estimate_along_path(grid: &Grid, p: Seq<Cell>, goal: Cell, i: int, j: int)
    requires
        is_path(grid, p),
        0 <= i <= j < p.len(),
    ensures
        estimate(p[i], goal) <= (j - i) + estimate(p[j], goal),
    decreases j - i,
{
    if i < j {
        lemma_estimate_along_path(grid, p, goal, i + 1, j);
        assert(cells_touch(p[i], p[i + 1]));
        lemma_manhattan_step(
            p[i].0 as int,
            p[i].1 as int,
            p[i + 1].0 as int,
            p[i + 1].1 as int,
            goal.0 as int,
            goal.1 as int,
        );
    }
}

/// A path from a cell to the goal has at least as many steps as the heuristic
/// says: the heuristic never overestimates.
pub proof fn lemma_estimate_admissible(grid: &Grid, p: Seq<Cell>, from: Cell, goal: Cell)
    requires
        connects(grid, p, from, goal),
    ensures
        estimate(from, goal) + 1 <= p.len(),
{
    lemma_estimate_along_path(grid, p, goal, 0, p.len() - 1);
}

/// A grid without obstacles: every cell inside it is walkable.
pub open spec fn obstacle_free(grid: &Grid) -> bool {
    forall|x: int, y: int|
        0 <= x < grid.width() && 0 <= y < grid.height() ==> #[trigger] grid.walkable(x, y)
}

/// The cell after `from` on the direct way to `to`: one step along the x axis
/// while the columns differ, then one step along the y axis.
pub open spec fn toward(from: Cell, to: Cell) -> Cell {
    if from.0 < to.0 {
        ((from.0 + 1) as usize, from.1)
    } else if from.0 > to.0 {
        ((from.0 - 1) as usize, from.1)
    } else if from.1 < to.1 {
        (from.0, (from.1 + 1) as usize)
    } else {
        (from.0, (from.1 - 1) as usize)
    }
}

/// The direct way from `from` to `to`: along the row to the column of `to`,
/// then along that column.
pub open spec fn direct_way(from: Cell, to: Cell) -> Seq<Cell>
    decreases estimate(from, to),
{
    if from == to {
        seq![from]
    } else {
        seq![from] + direct_way(toward(from, to), to)
    }
}

/// On a grid without obstacles the direct way between two of its cells is a
/// path, and it has as many steps as the heuristic says.
pub proof fn lemma_direct_way(grid: &Grid, from: Cell, to: Cell)
    requires
        obstacle_free(grid),
        from.0 < grid.width(),
        from.1 < grid.height(),
        to.0 < grid.width(),
        to.1 < grid.height(),
    ensures
        connects(grid, direct_way(from, to), from, to),
        direct_way(from, to).len() == estimate(from, to) + 1,
    decreases estimate(from, to),
{
    assert(grid.walkable(from.0 as int, from.1 as int));
    if from != to {
        let next = toward(from, to);
        lemma_direct_way(grid, next, to);
        let rest = direct_way(next, to);
        let way = direct_way(from, to);
        assert(way == seq![from] + rest);
        assert forall|i: int| 0 <= i < way.len() implies cell_open(grid, #[trigger] way[i]) by {
            if i > 0 {
                assert(way[i] == rest[i - 1]);
            }
        }
        assert forall|i: int| 0 < i < way.len() implies cells_touch(way[i - 1], #[trigger] way[i]) by {
            assert(way[i] == rest[i - 1]);
            if i > 1 {
                assert(way[i - 1] == rest[i - 2]);
            }
        }
        assert(way[way.len() - 1] == rest[rest.len() - 1]);
    }
}

/// On a grid without obstacles a shortest path between two cells has exactly
/// as many steps as their Manhattan distance.
pub proof fn lemma_shortest_on_open_grid(grid: &Grid, p: Seq<Cell>, from: Cell, to: Cell)
    requires
        obstacle_free(grid),
        shortest(grid, p, from, to),
    ensures
        p.len() == estimate(from, to) + 1,
{
    grid.lemma_walkable_in_bounds(from.0 as int, from.1 as int);
    grid.lemma_walkable_in_bounds(to.0 as int, to.1 as int);
    lemma_direct_way(grid, from, to);
    lemma_estimate_admissible(grid, p, from, to);
}

} // verus!
