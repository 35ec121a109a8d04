//! Why the search is right: what holds of every state that it reaches, and
//! what follows for the paths that it returns.

use vstd::prelude::*;
use vstd::relations::injective_on;
use vstd::set_lib::lemma_int_range;
use vstd::set_lib::lemma_len_subset;
use vstd::set_lib::lemma_map_size;
use vstd::set_lib::set_int_range;
use crate::algorithms::cell_map::lemma_slot_injective;
use crate::algorithms::cell_map::slot_of;
use crate::algorithms::paths::Cell;
use crate::algorithms::paths::cell_open;
use crate::algorithms::paths::cells_touch;
use crate::algorithms::paths::connects;
use crate::algorithms::paths::estimate;
use crate::algorithms::paths::is_path;
use crate::algorithms::paths::lemma_estimate_along_path;
use crate::algorithms::paths::lemma_path_extend;
use crate::algorithms::paths::lemma_path_prefix;
use crate::algorithms::paths::reachable;
use crate::algorithms::paths::shortest;
use crate::algorithms::search::Candidate;
use crate::algorithms::search::Outcome;
use crate::algorithms::search::SearchState;
use crate::algorithms::search::Step;
use crate::algorithms::search::advance;
use crate::algorithms::search::cap_reached;
use crate::algorithms::search::close;
use crate::algorithms::search::expand;
use crate::algorithms::search::first_best;
use crate::algorithms::search::precedes;
use crate::algorithms::search::relax;
use crate::algorithms::search::route;
use crate::algorithms::search::settle;
use crate::algorithms::search::start_state;
use crate::engine::grid::Grid;

verus! {

/// The candidate that leaves the open list is preceded by none, and precedes
/// all that were added before it.
pub proof fn lemma_first_best(open: Seq<Candidate>)
    requires
        open.len() > 0,
    ensures
        0 <= first_best(open) < open.len(),
        forall|j: int| 0 <= j < open.len() ==> !precedes(#[trigger] open[j], open[first_best(open)]),
        forall|j: int|
            0 <= j < first_best(open) ==> precedes(open[first_best(open)], #[trigger] open[j]),
    decreases open.len(),
{
    if open.len() > 1 {
        let earlier = open.drop_last();
        lemma_first_best(earlier);
        let m = first_best(earlier);
        assert(earlier[m] == open[m]);
        assert forall|j: int| 0 <= j < open.len() implies !precedes(
            #[trigger] open[j],
            open[first_best(open)],
        ) by {
            if j < open.len() - 1 {
                assert(earlier[j] == open[j]);
            }
        }
        assert forall|j: int| 0 <= j < first_best(open) implies precedes(
            open[first_best(open)],
            #[trigger] open[j],
        ) by {
            assert(earlier[j] == open[j]);
        }
    }
}

/// Whether the candidate at index `i` of the open list stands for the cell at
/// its best known cost.
pub open spec fn fresh(s: SearchState, c: Cell, i: int) -> bool {
    0 <= i < s.open.len() && s.open[i].cell == c && s.open[i].g == s.cost[c]
}

/// Every discovered cell is walkable, and every one but the start was reached
/// from a closed cell next to it, at one more than that cell's cost.
#[verifier::opaque]
pub open spec fn linked(grid: &Grid, start: Cell, s: SearchState) -> bool {
    &&& s.cost.contains_key(start)
    &&& s.cost[start] == 0
    &&& !s.parent.contains_key(start)
    &&& forall|c: Cell| #[trigger]
        s.cost.contains_key(c) ==> cell_open(grid, c) && (c == start || (s.parent.contains_key(c)
            && s.closed.contains(s.parent[c]) && s.cost.contains_key(s.parent[c]) && cells_touch(
            s.parent[c],
            c,
        ) && s.cost[s.parent[c]] + 1 == s.cost[c]))
}

/// The closed cells are counted by `expansions`, they are discovered, and no
/// cost exceeds the number of expansions.
#[verifier::opaque]
pub open spec fn counted(s: SearchState) -> bool {
    &&& s.closed.finite()
    &&& s.closed.len() == s.expansions
    &&& forall|c: Cell| #[trigger]
        s.closed.contains(c) ==> s.cost.contains_key(c) && s.cost[c] < s.expansions
    &&& forall|c: Cell| #[trigger] s.cost.contains_key(c) ==> s.cost[c] <= s.expansions
}

/// No path from the start to a closed cell has fewer steps than the cell's
/// cost.
#[verifier::opaque]
pub open spec fn closed_settled(grid: &Grid, start: Cell, s: SearchState) -> bool {
    forall|c: Cell, q: Seq<Cell>|
        s.closed.contains(c) && #[trigger] connects(grid, q, start, c) ==> s.cost[c] + 1 <= q.len()
}

/// Every candidate stands for a discovered cell, with its heuristic and a cost
/// no less than the best known; and every discovered cell that is not closed
/// has a candidate at its best known cost.
#[verifier::opaque]
pub open spec fn open_matches(goal: Cell, s: SearchState) -> bool {
    &&& forall|i: int|
        0 <= i < s.open.len() ==> s.cost.contains_key((#[trigger] s.open[i]).cell) && s.open[i].h
            == estimate(s.open[i].cell, goal) && s.cost[s.open[i].cell] <= s.open[i].g
    &&& forall|c: Cell| #[trigger]
        s.cost.contains_key(c) && !s.closed.contains(c) ==> exists|i: int| fresh(s, c, i)
}

/// Every walkable cell next to the closed cell `c` that is not closed itself
/// is discovered, at a cost of at most one more than that of `c`.
#[verifier::opaque]
pub open spec fn surrounded(grid: &Grid, s: SearchState, c: Cell) -> bool {
    forall|n: Cell|
        #[trigger] cells_touch(c, n) && cell_open(grid, n) && !s.closed.contains(n)
            ==> s.cost.contains_key(n) && s.cost[n] <= s.cost[c] + 1
}

/// What holds of a search state apart from the surroundings of closed cells.
pub open spec fn sound(grid: &Grid, start: Cell, goal: Cell, s: SearchState) -> bool {
    &&& grid.wf()
    &&& cell_open(grid, start)
    &&& cell_open(grid, goal)
    &&& linked(grid, start, s)
    &&& counted(s)
    &&& closed_settled(grid, start, s)
    &&& open_matches(goal, s)
    &&& !s.closed.contains(goal)
    &&& s.expansions > 0 ==> s.closed.contains(start)
    &&& s.best == start || s.closed.contains(s.best)
    &&& s.best_h == estimate(s.best, goal)
    &&& s.best_h <= estimate(start, goal)
}

/// What holds of every state that a search reaches between two steps.
pub open spec fn inv(grid: &Grid, start: Cell, goal: Cell, s: SearchState) -> bool {
    &&& sound(grid, start, goal, s)
    &&& forall|c: Cell| #[trigger] s.closed.contains(c) ==> surrounded(grid, s, c)
}

/// The route to a discovered cell is a path from the start to that cell, with
/// as many steps as the cell's cost.
pub proof fn lemma_route(grid: &Grid, start: Cell, s: SearchState, c: Cell)
    requires
        linked(grid, start, s),
        s.cost.contains_key(c),
    ensures
        connects(grid, route(s, c), start, c),
        route(s, c).len() == s.cost[c] + 1,
    decreases s.cost[c],
{
    reveal(linked);
    if c != start {
        let p = s.parent[c];
        lemma_route(grid, start, s, p);
        assert(route(s, c) == route(s, p).push(c));
        lemma_path_extend(grid, route(s, p), c);
    }
}

/// Along the route to a discovered cell the costs count up from zero, so no
/// cell comes twice, and every cell before the last is closed.
pub proof fn lemma_route_cells(grid: &Grid, start: Cell, s: SearchState, c: Cell)
    requires
        linked(grid, start, s),
        s.cost.contains_key(c),
    ensures
        route(s, c).len() == s.cost[c] + 1,
        forall|i: int|
            0 <= i < route(s, c).len() ==> s.cost.contains_key(#[trigger] route(s, c)[i])
                && s.cost[route(s, c)[i]] == i,
        forall|i: int|
            0 <= i < route(s, c).len() - 1 ==> s.closed.contains(#[trigger] route(s, c)[i]),
        route(s, c).no_duplicates(),
    decreases s.cost[c],
{
    reveal(linked);
    lemma_route(grid, start, s, c);
    if c != start {
        let p = s.parent[c];
        lemma_route_cells(grid, start, s, p);
        lemma_route(grid, start, s, p);
        let way = route(s, c);
        let before = route(s, p);
        assert(way == before.push(c));
        assert forall|i: int| 0 <= i < way.len() implies s.cost.contains_key(#[trigger] way[i])
            && s.cost[way[i]] == i by {
            if i < before.len() {
                assert(way[i] == before[i]);
            }
        }
        assert forall|i: int| 0 <= i < way.len() - 1 implies s.closed.contains(
            #[trigger] way[i],
        ) by {
            assert(way[i] == before[i]);
            if i == before.len() - 1 {
                assert(before[i] == p);
            }
        }
    }
    assert forall|i: int, j: int|
        0 <= i < route(s, c).len() && 0 <= j < route(s, c).len() && i != j implies route(s, c)[i]
        != route(s, c)[j] by {
        assert(s.cost[route(s, c)[i]] == i);
        assert(s.cost[route(s, c)[j]] == j);
    }
}

/// The state in which a search begins is sound.
pub proof fn lemma_start_inv(grid: &Grid, start: Cell, goal: Cell)
    requires
        grid.wf(),
        cell_open(grid, start),
        cell_open(grid, goal),
    ensures
        inv(grid, start, goal, start_state(start, goal)),
{
    reveal(linked);
    reveal(counted);
    reveal(closed_settled);
    reveal(open_matches);
    let s = start_state(start, goal);
    assert(fresh(s, start, 0));
}

/// On a way that ends outside a set, the first cell outside the set.
proof fn lemma_first_outside(q: Seq<Cell>, closed: Set<Cell>, from: int) -> (j: int)
    requires
        0 <= from < q.len(),
        !closed.contains(q[q.len() - 1]),
        forall|k: int| 0 <= k < from ==> closed.contains(#[trigger] q[k]),
    ensures
        from <= j < q.len(),
        !closed.contains(q[j]),
        forall|k: int| 0 <= k < j ==> closed.contains(#[trigger] q[k]),
    decreases q.len() - from,
{
    if !closed.contains(q[from]) {
        from
    } else {
        lemma_first_outside(q, closed, from + 1)
    }
}

/// Removing the candidate at index `i` keeps every other candidate: the one
/// at index `k` is found at index `k`, or one below if it stood behind `i`.
pub open spec fn shifted(i: int, k: int) -> int {
    if k < i {
        k
    } else {
        k - 1
    }
}

/// When a cell that is not closed leaves the open list, its best known cost is
/// the length of a shortest path to it: no path from the start is shorter.
pub proof fn lemma_pop_settled(grid: &Grid, start: Cell, goal: Cell, s: SearchState, q: Seq<Cell>)
    requires
        inv(grid, start, goal, s),
        s.open.len() > 0,
        !s.closed.contains(s.open[first_best(s.open)].cell),
        connects(grid, q, start, s.open[first_best(s.open)].cell),
    ensures
        s.cost[s.open[first_best(s.open)].cell] + 1 <= q.len(),
{
    lemma_first_best(s.open);
    let i = first_best(s.open);
    let cur = s.open[i];
    let last = q.len() - 1;
    let j = lemma_first_outside(q, s.closed, 0);
    let m = q[j];
    assert(cell_open(grid, m));
    assert(s.cost.contains_key(m) && s.cost[m] <= j) by {
        if j > 0 {
            let p = q[j - 1];
            assert(s.closed.contains(p));
            lemma_path_prefix(grid, q, j);
            assert(connects(grid, q.take(j), start, p));
            assert(s.cost[p] + 1 <= j) by {
                reveal(closed_settled);
            }
            assert(surrounded(grid, s, p));
            assert(cells_touch(p, m));
            reveal(surrounded);
        } else {
            reveal(linked);
        }
    }
    reveal(open_matches);
    let k = choose|k: int| fresh(s, m, k);
    assert(fresh(s, m, k));
    let e = s.open[k];
    lemma_estimate_along_path(grid, q, goal, j, last);
    assert(!precedes(e, cur));
    assert(s.cost.contains_key(cur.cell) && s.cost[cur.cell] <= cur.g);
}

/// Taking the candidate at index `i` off the open list keeps the list in
/// step with the costs, provided that the candidate's cell is closed
/// afterwards.
proof fn lemma_open_without(goal: Cell, s: SearchState, t: SearchState, i: int)
    requires
        open_matches(goal, s),
        0 <= i < s.open.len(),
        t.open == s.open.remove(i),
        t.cost == s.cost,
        t.closed.contains(s.open[i].cell),
        forall|c: Cell| s.closed.contains(c) ==> t.closed.contains(c),
    ensures
        open_matches(goal, t),
{
    reveal(open_matches);
    assert forall|k: int| 0 <= k < t.open.len() implies t.cost.contains_key(
        (#[trigger] t.open[k]).cell,
    ) && t.open[k].h == estimate(t.open[k].cell, goal) && t.cost[t.open[k].cell]
        <= t.open[k].g by {
        if k < i {
            assert(t.open[k] == s.open[k]);
        } else {
            assert(t.open[k] == s.open[k + 1]);
        }
    }
    assert forall|c: Cell| #[trigger] t.cost.contains_key(c) && !t.closed.contains(c) implies exists|
        k: int,
    |
        fresh(t, c, k) by {
        let k = choose|k: int| fresh(s, c, k);
        assert(fresh(s, c, k));
        assert(fresh(t, c, shifted(i, k)));
    }
}

/// Closing one more cell, or none, leaves the surroundings of a closed cell in
/// order as long as no cost changes.
proof fn lemma_surrounded_kept(grid: &Grid, s: SearchState, t: SearchState, c: Cell)
    requires
        surrounded(grid, s, c),
        t.cost == s.cost,
        forall|n: Cell| s.closed.contains(n) ==> t.closed.contains(n),
    ensures
        surrounded(grid, t, c),
{
    reveal(surrounded);
}

/// Taking a candidate whose cell is closed off the open list keeps the state
/// sound.
pub proof fn lemma_skip(grid: &Grid, start: Cell, goal: Cell, s: SearchState)
    requires
        inv(grid, start, goal, s),
        s.open.len() > 0,
        s.closed.contains(s.open[first_best(s.open)].cell),
    ensures
        inv(
            grid,
            start,
            goal,
            SearchState { open: s.open.remove(first_best(s.open)), ..s },
        ),
{
    lemma_first_best(s.open);
    let i = first_best(s.open);
    let t = SearchState { open: s.open.remove(i), ..s };
    lemma_open_without(goal, s, t, i);
    assert(linked(grid, start, t)) by {
        reveal(linked);
    }
    assert(counted(t)) by {
        reveal(counted);
    }
    assert(closed_settled(grid, start, t)) by {
        reveal(closed_settled);
    }
    assert forall|c: Cell| #[trigger] t.closed.contains(c) implies surrounded(grid, t, c) by {
        lemma_surrounded_kept(grid, s, t, c);
    }
}

/// Before the first expansion the start is the only discovered cell.
proof fn lemma_only_start_known(grid: &Grid, start: Cell, goal: Cell, s: SearchState, c: Cell)
    requires
        sound(grid, start, goal, s),
        s.expansions == 0,
        s.cost.contains_key(c),
    ensures
        c == start,
{
    reveal(linked);
    reveal(counted);
    if c != start {
        assert(s.closed.contains(s.parent[c]));
        assert(s.cost[s.parent[c]] < s.expansions);
    }
}

/// Closing the cell of the best candidate keeps the state sound, and the cells
/// that were closed before stay surrounded.
pub proof fn lemma_close(grid: &Grid, start: Cell, goal: Cell, s: SearchState)
    requires
        inv(grid, start, goal, s),
        s.open.len() > 0,
        !s.closed.contains(s.open[first_best(s.open)].cell),
        s.open[first_best(s.open)].cell != goal,
    ensures
        sound(grid, start, goal, close(goal, s, first_best(s.open))),
        forall|c: Cell| #[trigger]
            s.closed.contains(c) ==> surrounded(grid, close(goal, s, first_best(s.open)), c),
{
    lemma_first_best(s.open);
    let i = first_best(s.open);
    let cell = s.open[i].cell;
    let t = close(goal, s, i);
    assert(s.cost.contains_key(cell)) by {
        reveal(open_matches);
    }
    assert(linked(grid, start, t)) by {
        reveal(linked);
    }
    assert(counted(t)) by {
        reveal(counted);
    }
    assert(closed_settled(grid, start, t)) by {
        reveal(closed_settled);
        assert forall|c: Cell, q: Seq<Cell>|
            t.closed.contains(c) && #[trigger] connects(grid, q, start, c) implies t.cost[c] + 1
            <= q.len() by {
            if c == cell {
                lemma_pop_settled(grid, start, goal, s, q);
            }
        }
    }
    lemma_open_without(goal, s, t, i);
    assert(t.closed.contains(start)) by {
        if s.expansions == 0 {
            lemma_only_start_known(grid, start, goal, s, cell);
        }
    }
    assert forall|c: Cell| #[trigger] s.closed.contains(c) implies surrounded(grid, t, c) by {
        lemma_surrounded_kept(grid, s, t, c);
    }
}

/// What looking at one neighbor of a closed cell keeps and what it achieves.
pub proof fn lemma_relax(
    grid: &Grid,
    start: Cell,
    goal: Cell,
    s: SearchState,
    from: Cell,
    g: nat,
    x: int,
    y: int,
)
    requires
        sound(grid, start, goal, s),
        s.closed.contains(from),
        s.cost[from] == g,
        crate::engine::position::adjacent(from.0 as int, from.1 as int, x, y),
    ensures
        sound(grid, start, goal, relax(grid, goal, s, from, g, x, y)),
        relax(grid, goal, s, from, g, x, y).closed == s.closed,
        relax(grid, goal, s, from, g, x, y).expansions == s.expansions,
        relax(grid, goal, s, from, g, x, y).best == s.best,
        relax(grid, goal, s, from, g, x, y).best_h == s.best_h,
        relax(grid, goal, s, from, g, x, y).open.len() <= s.open.len() + 1,
        forall|c: Cell| #[trigger]
            s.cost.contains_key(c) ==> relax(grid, goal, s, from, g, x, y).cost.contains_key(c)
                && relax(grid, goal, s, from, g, x, y).cost[c] <= s.cost[c],
        forall|c: Cell| #[trigger]
            s.closed.contains(c) ==> relax(grid, goal, s, from, g, x, y).cost[c] == s.cost[c],
        forall|c: Cell|
            s.closed.contains(c) && surrounded(grid, s, c) ==> #[trigger] surrounded(
                grid,
                relax(grid, goal, s, from, g, x, y),
                c,
            ),
        grid.walkable(x, y) && !s.closed.contains((x as usize, y as usize)) ==> relax(
            grid,
            goal,
            s,
            from,
            g,
            x,
            y,
        ).cost.contains_key((x as usize, y as usize)) && relax(grid, goal, s, from, g, x, y).cost[(
            x as usize,
            y as usize,
        )] <= g + 1,
{
    let t = relax(grid, goal, s, from, g, x, y);
    let to = (x as usize, y as usize);
    assert(s.cost.contains_key(from) && g < s.expansions) by {
        reveal(counted);
    }
    if grid.walkable(x, y) && !s.closed.contains(to) && !(s.cost.contains_key(to) && s.cost[to] <= g
        + 1) {
        grid.lemma_walkable_in_bounds(x, y);
        grid.lemma_wf();
        assert(to.0 as int == x && to.1 as int == y);
        assert(s.closed.contains(start));
        assert(to != start);
        assert(to != from);
        let n = s.open.len() as int;
        assert(linked(grid, start, t)) by {
            reveal(linked);
            assert forall|c: Cell| #[trigger] t.cost.contains_key(c) implies cell_open(grid, c) && (
            c == start || (t.parent.contains_key(c) && t.closed.contains(t.parent[c])
                && t.cost.contains_key(t.parent[c]) && cells_touch(t.parent[c], c)
                && t.cost[t.parent[c]] + 1 == t.cost[c])) by {
                if c != to {
                    assert(s.cost.contains_key(c));
                    if c != start {
                        assert(s.closed.contains(s.parent[c]));
                    }
                }
            }
        }
        assert(counted(t)) by {
            reveal(counted);
        }
        assert(closed_settled(grid, start, t)) by {
            reveal(closed_settled);
            assert forall|c: Cell, q: Seq<Cell>|
                t.closed.contains(c) && #[trigger] connects(grid, q, start, c) implies t.cost[c]
                + 1 <= q.len() by {
                assert(s.closed.contains(c));
            }
        }
        assert(open_matches(goal, t)) by {
            reveal(open_matches);
            assert forall|i: int| 0 <= i < t.open.len() implies t.cost.contains_key(
                (#[trigger] t.open[i]).cell,
            ) && t.open[i].h == estimate(t.open[i].cell, goal) && t.cost[t.open[i].cell]
                <= t.open[i].g by {
                if i < n {
                    assert(t.open[i] == s.open[i]);
                    assert(s.cost.contains_key(s.open[i].cell));
                }
            }
            assert forall|c: Cell| #[trigger]
                t.cost.contains_key(c) && !t.closed.contains(c) implies exists|k: int|
                fresh(t, c, k) by {
                if c == to {
                    assert(fresh(t, c, n));
                } else {
                    let k = choose|k: int| fresh(s, c, k);
                    assert(fresh(s, c, k));
                    assert(t.open[k] == s.open[k]);
                    assert(fresh(t, c, k));
                }
            }
        }
        assert forall|c: Cell| s.closed.contains(c) && surrounded(grid, s, c) implies #[trigger]
            surrounded(grid, t, c) by {
            reveal(surrounded);
            assert forall|m: Cell|
                #[trigger] cells_touch(c, m) && cell_open(grid, m) && !t.closed.contains(m)
                    implies t.cost.contains_key(m) && t.cost[m] <= t.cost[c] + 1 by {
                assert(s.cost.contains_key(m) && s.cost[m] <= s.cost[c] + 1);
            }
        }
    } else {
        assert(t == s);
    }
}

/// Expanding a cell that was just closed restores what holds between steps.
pub proof fn lemma_expand(grid: &Grid, start: Cell, goal: Cell, s: SearchState, cell: Cell)
    requires
        sound(grid, start, goal, s),
        s.closed.contains(cell),
        forall|c: Cell| #[trigger] s.closed.contains(c) && c != cell ==> surrounded(grid, s, c),
    ensures
        inv(grid, start, goal, expand(grid, goal, s, cell, s.cost[cell])),
        expand(grid, goal, s, cell, s.cost[cell]).closed == s.closed,
        expand(grid, goal, s, cell, s.cost[cell]).expansions == s.expansions,
        expand(grid, goal, s, cell, s.cost[cell]).best == s.best,
        expand(grid, goal, s, cell, s.cost[cell]).best_h == s.best_h,
        expand(grid, goal, s, cell, s.cost[cell]).open.len() <= s.open.len() + 4,
{
    let g = s.cost[cell];
    let x = cell.0 as int;
    let y = cell.1 as int;
    let s1 = relax(grid, goal, s, cell, g, x - 1, y);
    let s2 = relax(grid, goal, s1, cell, g, x + 1, y);
    let s3 = relax(grid, goal, s2, cell, g, x, y - 1);
    let s4 = relax(grid, goal, s3, cell, g, x, y + 1);
    lemma_relax(grid, start, goal, s, cell, g, x - 1, y);
    lemma_relax(grid, start, goal, s1, cell, g, x + 1, y);
    lemma_relax(grid, start, goal, s2, cell, g, x, y - 1);
    lemma_relax(grid, start, goal, s3, cell, g, x, y + 1);
    assert(s4 == expand(grid, goal, s, cell, g));
    assert forall|c: Cell| #[trigger] s4.closed.contains(c) implies surrounded(grid, s4, c) by {
        if c != cell {
            assert(surrounded(grid, s, c));
            assert(surrounded(grid, s1, c));
            assert(surrounded(grid, s2, c));
            assert(surrounded(grid, s3, c));
            assert(surrounded(grid, s4, c));
        } else {
            reveal(surrounded);
            assert forall|n: Cell|
                #[trigger] cells_touch(cell, n) && cell_open(grid, n) && !s4.closed.contains(n)
                    implies s4.cost.contains_key(n) && s4.cost[n] <= s4.cost[cell] + 1 by {
                let nx = n.0 as int;
                let ny = n.1 as int;
                assert(n == (nx as usize, ny as usize));
                if nx == x - 1 {
                    assert(s1.cost.contains_key(n) && s1.cost[n] <= g + 1);
                    assert(s2.cost.contains_key(n) && s2.cost[n] <= g + 1);
                    assert(s3.cost.contains_key(n) && s3.cost[n] <= g + 1);
                } else if nx == x + 1 {
                    assert(s2.cost.contains_key(n) && s2.cost[n] <= g + 1);
                    assert(s3.cost.contains_key(n) && s3.cost[n] <= g + 1);
                } else if ny == y - 1 {
                    assert(s3.cost.contains_key(n) && s3.cost[n] <= g + 1);
                } else {
                    assert(ny == y + 1);
                }
            }
        }
    }
}

/// No more cells are expanded than the grid has.
pub proof fn lemma_closed_bounded(grid: &Grid, start: Cell, goal: Cell, s: SearchState)
    requires
        sound(grid, start, goal, s),
    ensures
        s.expansions <= grid.width() * grid.height(),
{
    reveal(linked);
    reveal(counted);
    grid.lemma_wf();
    let w = grid.width() as int;
    let h = grid.height() as int;
    let f = |c: Cell| slot_of(w, c);
    let image = s.closed.map(f);
    let range = set_int_range(0, w * h);
    assert forall|c: Cell| #[trigger] s.closed.contains(c) implies c.0 < w && c.1 < h by {
        assert(s.cost.contains_key(c));
        grid.lemma_walkable_in_bounds(c.0 as int, c.1 as int);
    }
    assert(injective_on(f, s.closed)) by {
        assert forall|a: Cell, b: Cell|
            s.closed.contains(a) && s.closed.contains(b) && #[trigger] f(a) == #[trigger] f(
                b,
            ) implies a == b by {
            lemma_slot_injective(w, h, a, b);
        }
    }
    lemma_map_size(s.closed, image, f);
    assert(image.subset_of(range)) by {
        assert forall|k: int| image.contains(k) implies range.contains(k) by {
            let c = choose|c: Cell| s.closed.contains(c) && f(c) == k;
            lemma_slot_injective(w, h, c, c);
        }
    }
    assert(0 <= w * h) by (nonlinear_arith)
        requires
            0 <= w,
            0 <= h,
    ;
    lemma_int_range(0, w * h);
    lemma_len_subset(image, range);
}

/// How far a search is from its end at most: every step lowers this number.
pub open spec fn potential(grid: &Grid, s: SearchState) -> nat {
    (4 * (grid.width() * grid.height() - s.expansions) + s.open.len()) as nat
}

/// A step that does not end the search keeps what holds between steps, brings
/// the search nearer to its end, and expands at most one cell.
pub proof fn lemma_advance_next(
    grid: &Grid,
    start: Cell,
    goal: Cell,
    cap: Option<nat>,
    s: SearchState,
)
    requires
        inv(grid, start, goal, s),
        advance(grid, goal, cap, s) is Next,
    ensures
        inv(grid, start, goal, advance(grid, goal, cap, s)->Next_0),
        potential(grid, advance(grid, goal, cap, s)->Next_0) < potential(grid, s),
        s.expansions <= advance(grid, goal, cap, s)->Next_0.expansions <= s.expansions + 1,
{
    lemma_first_best(s.open);
    let i = first_best(s.open);
    let cell = s.open[i].cell;
    let t = advance(grid, goal, cap, s)->Next_0;
    lemma_closed_bounded(grid, start, goal, s);
    if s.closed.contains(cell) {
        lemma_skip(grid, start, goal, s);
    } else {
        let closed = close(goal, s, i);
        lemma_close(grid, start, goal, s);
        lemma_closed_bounded(grid, start, goal, closed);
        assert(closed.cost[cell] == s.cost[cell]);
        lemma_expand(grid, start, goal, closed, cell);
        assert(advance(grid, goal, cap, s) == Step::Next(
            expand(grid, goal, closed, cell, s.cost[cell]),
        ));
    }
}

/// What the end of a search says: a full path is a shortest path to the goal;
/// a partial path leads from the start to a cell other than the goal, and
/// comes only when the cap is reached; it has no more cells than were
/// expanded, the goal is not among them, none comes twice, and it ends no
/// farther from the goal than the start is. Without a path the goal cannot be
/// reached.
pub proof fn lemma_advance_done(
    grid: &Grid,
    start: Cell,
    goal: Cell,
    cap: Option<nat>,
    s: SearchState,
)
    requires
        inv(grid, start, goal, s),
        advance(grid, goal, cap, s) is Done,
    ensures
        match advance(grid, goal, cap, s)->Done_0 {
            Outcome::Full(p) => shortest(grid, p, start, goal),
            Outcome::Partial(p) => {
                &&& is_path(grid, p)
                &&& p[0] == start
                &&& p[p.len() - 1] != goal
                &&& cap_reached(cap, s.expansions + 1)
                &&& p.len() <= s.expansions + 1
                &&& !p.contains(goal)
                &&& p.no_duplicates()
                &&& estimate(p[p.len() - 1], goal) <= estimate(start, goal)
            },
            Outcome::Absent => !reachable(grid, start, goal),
        },
{
    if s.open.len() == 0 {
        if reachable(grid, start, goal) {
            let q = choose|q: Seq<Cell>| connects(grid, q, start, goal);
            let j = lemma_first_outside(q, s.closed, 0);
            let m = q[j];
            assert(cell_open(grid, m));
            assert(s.cost.contains_key(m)) by {
                if j > 0 {
                    let p = q[j - 1];
                    assert(s.closed.contains(p));
                    assert(surrounded(grid, s, p));
                    assert(cells_touch(p, m));
                    reveal(surrounded);
                } else {
                    reveal(linked);
                }
            }
            reveal(open_matches);
            let k = choose|k: int| fresh(s, m, k);
            assert(fresh(s, m, k));
        }
    } else {
        lemma_first_best(s.open);
        let i = first_best(s.open);
        let cell = s.open[i].cell;
        if cell == goal {
            assert(s.cost.contains_key(goal)) by {
                reveal(open_matches);
            }
            lemma_route(grid, start, s, goal);
            assert forall|q: Seq<Cell>| connects(grid, q, start, goal) implies route(s, goal).len()
                <= q.len() by {
                lemma_pop_settled(grid, start, goal, s, q);
            }
        } else {
            let closed = close(goal, s, i);
            lemma_close(grid, start, goal, s);
            assert(closed.closed.contains(closed.best));
            assert(closed.cost.contains_key(closed.best) && closed.cost[closed.best]
                < closed.expansions) by {
                reveal(counted);
            }
            lemma_route(grid, start, closed, closed.best);
            lemma_route_cells(grid, start, closed, closed.best);
            let p = route(closed, closed.best);
            assert(!p.contains(goal)) by {
                if p.contains(goal) {
                    let k = choose|k: int| 0 <= k < p.len() && p[k] == goal;
                    if k < p.len() - 1 {
                        assert(closed.closed.contains(p[k]));
                    }
                }
            }
        }
    }
}

/// A search that is given more steps than its potential ends, in a state of
/// which all holds that holds between steps.
pub proof fn lemma_settle(
    grid: &Grid,
    start: Cell,
    goal: Cell,
    cap: Option<nat>,
    s: SearchState,
    fuel: nat,
)
    requires
        inv(grid, start, goal, s),
        potential(grid, s) < fuel,
    ensures
        inv(grid, start, goal, settle(grid, goal, cap, s, fuel)),
        advance(grid, goal, cap, settle(grid, goal, cap, s, fuel)) is Done,
        s.expansions <= settle(grid, goal, cap, s, fuel).expansions,
    decreases fuel,
{
    if advance(grid, goal, cap, s) is Next {
        lemma_advance_next(grid, start, goal, cap, s);
        lemma_settle(
            grid,
            start,
            goal,
            cap,
            advance(grid, goal, cap, s)->Next_0,
            (fuel - 1) as nat,
        );
    }
}

} // verus!
