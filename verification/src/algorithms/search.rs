//! The planner as a state machine over mathematical values.
//!
//! The search keeps an open list of candidates, the best known cost of each
//! discovered cell, the predecessor through which that cost was found, and the
//! set of closed cells. One step takes the best candidate off the open list
//! and either ends the search or expands the candidate's cell.

use vstd::prelude::*;
use crate::algorithms::paths::Cell;
use crate::algorithms::paths::estimate;
use crate::engine::grid::Grid;

verus! {

/// An entry of the open list: a cell, the cost of the route by which it was
/// found, and its heuristic distance to the goal.
pub struct Candidate {
    pub cell: Cell,
    pub g: nat,
    pub h: nat,
}

impl Candidate {
    /// The estimated cost of a route through the cell.
    pub open spec fn f(self) -> nat {
        self.g + self.h
    }
}

/// The order of the open list: a smaller `f` comes first, and among equal `f`
/// the smaller `h`, that is the candidate nearer to the goal.
pub open spec fn precedes(a: Candidate, b: Candidate) -> bool {
    a.f() < b.f() || (a.f() == b.f() && a.h < b.h)
}

/// The index of the candidate that leaves the open list next: the first one
/// that no other candidate precedes. Candidates that tie in both `f` and `h`
/// leave in the order in which they were added.
pub open spec fn first_best(open: Seq<Candidate>) -> int
    decreases open.len(),
{
    if open.len() <= 1 {
        0
    } else {
        let among_earlier = first_best(open.drop_last());
        if precedes(open.last(), open[among_earlier]) {
            open.len() - 1
        } else {
            among_earlier
        }
    }
}

/// The state of a search.
pub struct SearchState {
    /// The open list, in the order in which the candidates were added.
    pub open: Seq<Candidate>,
    /// The best known cost of each discovered cell.
    pub cost: Map<Cell, nat>,
    /// The cell from which each discovered cell other than the start was
    /// reached at its best known cost.
    pub parent: Map<Cell, Cell>,
    /// The cells that were expanded.
    pub closed: Set<Cell>,
    /// The expanded cell nearest to the goal by the heuristic; the first one
    /// found wins a tie. Before the first expansion, the start.
    pub best: Cell,
    /// The heuristic distance of `best` to the goal.
    pub best_h: nat,
    /// The number of cells expanded so far.
    pub expansions: nat,
}

/// How a search ends.
pub enum Outcome {
    /// The goal left the open list: a path from the start to the goal.
    Full(Seq<Cell>),
    /// The expansion cap was reached first: a path from the start to the most
    /// promising expanded cell.
    Partial(Seq<Cell>),
    /// The open list ran empty: no path leads to the goal.
    Absent,
}

impl Outcome {
    /// The path that the planner hands to its caller, if any.
    pub open spec fn path(self) -> Option<Seq<Cell>> {
        match self {
            Outcome::Full(p) => Some(p),
            Outcome::Partial(p) => Some(p),
            Outcome::Absent => None,
        }
    }
}

/// The result of one step: the search goes on from a new state, or it ends.
pub enum Step {
    Next(SearchState),
    Done(Outcome),
}

/// The route to a cell: its predecessors back to a cell that has none, over at
/// most `depth` links, listed from that cell forward.
pub open spec fn trace(parent: Map<Cell, Cell>, cell: Cell, depth: nat) -> Seq<Cell>
    decreases depth,
{
    if depth == 0 || !parent.contains_key(cell) {
        seq![cell]
    } else {
        trace(parent, parent[cell], (depth - 1) as nat).push(cell)
    }
}

/// The route by which a discovered cell was reached at its best known cost.
pub open spec fn route(s: SearchState, cell: Cell) -> Seq<Cell> {
    trace(s.parent, cell, s.cost[cell])
}

/// The state in which a search from `start` begins: the start is the only
/// candidate, at cost zero.
pub open spec fn start_state(start: Cell, goal: Cell) -> SearchState {
    SearchState {
        open: seq![Candidate { cell: start, g: 0, h: estimate(start, goal) }],
        cost: Map::empty().insert(start, 0nat),
        parent: Map::empty(),
        closed: Set::empty(),
        best: start,
        best_h: estimate(start, goal),
        expansions: 0,
    }
}

/// Looks at the cell `(x, y)` next to the cell `from`, which was just expanded
/// at cost `g`. A walkable cell that is not closed and was not known at cost
/// `g + 1` or less gets that cost, `from` as its predecessor, and a new
/// candidate at the end of the open list.
pub open spec fn relax(grid: &Grid, goal: Cell, s: SearchState, from: Cell, g: nat, x: int, y: int)
    -> SearchState {
    let to = (x as usize, y as usize);
    if !grid.walkable(x, y) || s.closed.contains(to) {
        s
    } else if s.cost.contains_key(to) && s.cost[to] <= g + 1 {
        s
    } else {
        SearchState {
            open: s.open.push(Candidate { cell: to, g: g + 1, h: estimate(to, goal) }),
            cost: s.cost.insert(to, g + 1),
            parent: s.parent.insert(to, from),
            ..s
        }
    }
}

/// Expands a cell whose best known cost is `g`: looks at its four neighbors in
/// the order left, right, up, down.
pub open spec fn expand(grid: &Grid, goal: Cell, s: SearchState, cell: Cell, g: nat)
    -> SearchState {
    let x = cell.0 as int;
    let y = cell.1 as int;
    let s1 = relax(grid, goal, s, cell, g, x - 1, y);
    let s2 = relax(grid, goal, s1, cell, g, x + 1, y);
    let s3 = relax(grid, goal, s2, cell, g, x, y - 1);
    relax(grid, goal, s3, cell, g, x, y + 1)
}

/// Whether a search with the given cap stops once it has made `expansions`
/// expansions.
pub open spec fn cap_reached(cap: Option<nat>, expansions: nat) -> bool {
    cap matches Some(limit) && expansions >= limit
}

/// The state after the cell of the candidate at index `i` was closed: the
/// candidate is off the open list, the cell counts as expanded, and it becomes
/// the most promising cell if it is strictly nearer to the goal than the one
/// before.
pub open spec fn close(goal: Cell, s: SearchState, i: int) -> SearchState {
    let cell = s.open[i].cell;
    let h = estimate(cell, goal);
    SearchState {
        open: s.open.remove(i),
        closed: s.closed.insert(cell),
        expansions: s.expansions + 1,
        best: if h < s.best_h {
            cell
        } else {
            s.best
        },
        best_h: if h < s.best_h {
            h
        } else {
            s.best_h
        },
        ..s
    }
}

/// One step of the search.
///
/// With an empty open list the search ends without a path. Otherwise the best
/// candidate leaves the list. If its cell is the goal, the search ends with
/// the route to it. If its cell is closed already, nothing else happens. If
/// not, the cell is closed; then the search ends with the route to the most
/// promising cell if the cap is reached, and expands the cell if not.
pub open spec fn advance(grid: &Grid, goal: Cell, cap: Option<nat>, s: SearchState) -> Step {
    if s.open.len() == 0 {
        Step::Done(Outcome::Absent)
    } else {
        let i = first_best(s.open);
        let cell = s.open[i].cell;
        if cell == goal {
            Step::Done(Outcome::Full(route(s, goal)))
        } else if s.closed.contains(cell) {
            Step::Next(SearchState { open: s.open.remove(i), ..s })
        } else {
            let closed = close(goal, s, i);
            if cap_reached(cap, closed.expansions) {
                Step::Done(Outcome::Partial(route(closed, closed.best)))
            } else {
                Step::Next(expand(grid, goal, closed, cell, s.cost[cell]))
            }
        }
    }
}

/// The state in which the search that starts in `s` ends, if it ends within
/// `fuel` steps; the state after `fuel` steps if not.
pub open spec fn settle(grid: &Grid, goal: Cell, cap: Option<nat>, s: SearchState, fuel: nat)
    -> SearchState
    decreases fuel,
{
    if fuel == 0 {
        s
    } else {
        match advance(grid, goal, cap, s) {
            Step::Done(_) => s,
            Step::Next(next) => settle(grid, goal, cap, next, (fuel - 1) as nat),
        }
    }
}

/// A number of steps within which every search on the grid ends: each cell is
/// expanded at most once, and each expansion adds at most four candidates.
pub open spec fn budget(grid: &Grid) -> nat {
    (4 * (grid.width() * grid.height()) + 2) as nat
}

/// The last state of the search from `start` to `goal`.
#[verifier::opaque]
pub open spec fn last_state(grid: &Grid, start: Cell, goal: Cell, cap: Option<nat>)
    -> SearchState {
    settle(grid, goal, cap, start_state(start, goal), budget(grid))
}

/// What the planner computes: nothing if the start or the goal is not
/// walkable, and the end of the search from `start` if both are.
#[verifier::opaque]
pub open spec fn plan(grid: &Grid, start: Cell, goal: Cell, cap: Option<nat>) -> Outcome {
    if !grid.walkable(start.0 as int, start.1 as int) || !grid.walkable(
        goal.0 as int,
        goal.1 as int,
    ) {
        Outcome::Absent
    } else {
        match advance(grid, goal, cap, last_state(grid, start, goal, cap)) {
            Step::Done(outcome) => outcome,
            Step::Next(_) => Outcome::Absent,
        }
    }
}

/// The number of cells that a search without a cap expands before it ends.
pub open spec fn effort(grid: &Grid, start: Cell, goal: Cell) -> nat {
    last_state(grid, start, goal, None).expansions
}

} // verus!
