//! What the planner promises, stated over the search as a whole.

use vstd::prelude::*;
use vstd::set_lib::lemma_int_range;
use vstd::set_lib::lemma_len_subset;
use vstd::set_lib::set_int_range;
use crate::algorithms::cell_map::lemma_slot_injective;
use crate::algorithms::cell_map::slot_of;
use crate::algorithms::paths::Cell;
use crate::algorithms::paths::cell_open;
use crate::algorithms::paths::connects;
use crate::algorithms::paths::estimate;
use crate::algorithms::paths::is_path;
use crate::algorithms::paths::lemma_direct_way;
use crate::algorithms::paths::lemma_shortest_on_open_grid;
use crate::algorithms::paths::obstacle_free;
use crate::algorithms::paths::reachable;
use crate::algorithms::paths::shortest;
use crate::algorithms::search::Outcome;
use crate::algorithms::search::SearchState;
use crate::algorithms::search::Step;
use crate::algorithms::search::advance;
use crate::algorithms::search::budget;
use crate::algorithms::search::cap_reached;
use crate::algorithms::search::close;
use crate::algorithms::search::effort;
use crate::algorithms::search::first_best;
use crate::algorithms::search::last_state;
use crate::algorithms::search::plan;
use crate::algorithms::search::settle;
use crate::algorithms::search::start_state;
use crate::algorithms::soundness::inv;
use crate::algorithms::soundness::lemma_advance_done;
use crate::algorithms::soundness::lemma_advance_next;
use crate::algorithms::soundness::counted;
use crate::algorithms::soundness::lemma_first_best;
use crate::algorithms::soundness::lemma_route;
use crate::algorithms::search::route;
use crate::algorithms::soundness::lemma_settle;
use crate::algorithms::soundness::lemma_start_inv;
use crate::algorithms::soundness::potential;
use crate::engine::grid::Grid;

verus! {

/// The number of expansions at which a search with the given cap stops. The
/// cap is looked at after each expansion, so a cap of zero stops the search
/// where a cap of one does.
pub open spec fn stops_at(limit: nat) -> nat {
    if limit == 0 {
        1
    } else {
        limit
    }
}

/// The budget of steps is more than the search needs from its first state.
pub proof fn lemma_budget_suffices(grid: &Grid, start: Cell, goal: Cell)
    requires
        grid.wf(),
    ensures
        potential(grid, start_state(start, goal)) < budget(grid),
{
    grid.lemma_wf();
}

/// The search ends within its budget, in a state of which all holds that
/// holds between steps.
pub proof fn lemma_search_ends(grid: &Grid, start: Cell, goal: Cell, cap: Option<nat>)
    requires
        grid.wf(),
        cell_open(grid, start),
        cell_open(grid, goal),
    ensures
        inv(grid, start, goal, last_state(grid, start, goal, cap)),
        advance(grid, goal, cap, last_state(grid, start, goal, cap)) == Step::Done(
            plan(grid, start, goal, cap),
        ),
{
    reveal(plan);
    reveal(last_state);
    lemma_start_inv(grid, start, goal);
    lemma_budget_suffices(grid, start, goal);
    lemma_settle(grid, start, goal, cap, start_state(start, goal), budget(grid));
}

/// What the planner's result says, for every grid, start, goal and cap.
///
/// A full path is a shortest path from the start to the goal. A partial path
/// comes only from a search with a cap. It is a path that begins at the start
/// and ends at a cell other than the goal, no farther from the goal than the
/// start is; it has no more cells than the cap allows expansions, the goal is
/// not among them, and none comes twice. And where the planner returns
/// nothing, no path leads from the start to the goal.
pub open spec fn plan_says(grid: &Grid, start: Cell, goal: Cell, cap: Option<nat>) -> bool {
    match plan(grid, start, goal, cap) {
        Outcome::Full(p) => shortest(grid, p, start, goal),
        Outcome::Partial(p) => {
            &&& is_path(grid, p)
            &&& p[0] == start
            &&& p[p.len() - 1] != goal
            &&& cap matches Some(limit) && p.len() <= stops_at(limit)
            &&& !p.contains(goal)
            &&& p.no_duplicates()
            &&& estimate(p[p.len() - 1], goal) <= estimate(start, goal)
        },
        Outcome::Absent => !reachable(grid, start, goal),
    }
}

/// A search with a cap that goes on has made fewer expansions than the cap
/// allows.
proof fn lemma_capped_stays_below(
    grid: &Grid,
    start: Cell,
    goal: Cell,
    limit: nat,
    s: SearchState,
    fuel: nat,
)
    requires
        inv(grid, start, goal, s),
        s.expansions < stops_at(limit),
    ensures
        settle(grid, goal, Some(limit), s, fuel).expansions < stops_at(limit),
    decreases fuel,
{
    let cap = Some(limit);
    if fuel > 0 && advance(grid, goal, cap, s) is Next {
        let t = advance(grid, goal, cap, s)->Next_0;
        lemma_advance_next(grid, start, goal, cap, s);
        lemma_first_best(s.open);
        let i = first_best(s.open);
        if !s.closed.contains(s.open[i].cell) {
            assert(close(goal, s, i).expansions == s.expansions + 1);
            assert(!cap_reached(cap, s.expansions + 1));
            assert(t.expansions == s.expansions + 1) by {
                crate::algorithms::soundness::lemma_close(grid, start, goal, s);
                crate::algorithms::soundness::lemma_expand(
                    grid,
                    start,
                    goal,
                    close(goal, s, i),
                    s.open[i].cell,
                );
            }
        }
        lemma_capped_stays_below(grid, start, goal, limit, t, (fuel - 1) as nat);
    }
}

/// The planner's result is as `plan_says`.
pub proof fn lemma_plan_sound(grid: &Grid, start: Cell, goal: Cell, cap: Option<nat>)
    requires
        grid.wf(),
    ensures
        plan_says(grid, start, goal, cap),
{
    if cell_open(grid, start) && cell_open(grid, goal) {
        lemma_search_ends(grid, start, goal, cap);
        let last = last_state(grid, start, goal, cap);
        lemma_advance_done(grid, start, goal, cap, last);
        match cap {
            Some(limit) => {
                reveal(last_state);
                lemma_start_inv(grid, start, goal);
                lemma_capped_stays_below(
                    grid,
                    start,
                    goal,
                    limit,
                    start_state(start, goal),
                    budget(grid),
                );
            },
            None => {},
        }
    } else {
        reveal(plan);
        if reachable(grid, start, goal) {
            let q = choose|q: Seq<Cell>| connects(grid, q, start, goal);
            assert(cell_open(grid, q[0]));
            assert(cell_open(grid, q[q.len() - 1]));
        }
    }
}

/// Optimality: where the goal can be reached from the start, the planner
/// without a cap returns a path from the start to the goal, and no path
/// between the two is shorter.
pub proof fn lemma_unbounded_plan_is_shortest(grid: &Grid, start: Cell, goal: Cell)
    requires
        grid.wf(),
        reachable(grid, start, goal),
    ensures
        plan(grid, start, goal, None) matches Outcome::Full(p) && shortest(grid, p, start, goal),
{
    lemma_plan_sound(grid, start, goal, None);
}

/// The number of expansions never drops in the course of a search.
proof fn lemma_settle_grows(
    grid: &Grid,
    start: Cell,
    goal: Cell,
    cap: Option<nat>,
    s: SearchState,
    fuel: nat,
)
    requires
        inv(grid, start, goal, s),
    ensures
        s.expansions <= settle(grid, goal, cap, s, fuel).expansions,
    decreases fuel,
{
    if fuel > 0 && advance(grid, goal, cap, s) is Next {
        lemma_advance_next(grid, start, goal, cap, s);
        lemma_settle_grows(
            grid,
            start,
            goal,
            cap,
            advance(grid, goal, cap, s)->Next_0,
            (fuel - 1) as nat,
        );
    }
}

/// A search with a cap goes the way of the search without one for as long as
/// the number of expansions stays below the cap.
proof fn lemma_same_below_cap(
    grid: &Grid,
    start: Cell,
    goal: Cell,
    limit: nat,
    s: SearchState,
    fuel: nat,
)
    requires
        inv(grid, start, goal, s),
        settle(grid, goal, None, s, fuel).expansions < stops_at(limit),
    ensures
        settle(grid, goal, Some(limit), s, fuel) == settle(grid, goal, None, s, fuel),
        advance(grid, goal, None, settle(grid, goal, None, s, fuel)) is Done ==> advance(
            grid,
            goal,
            Some(limit),
            settle(grid, goal, None, s, fuel),
        ) == advance(grid, goal, None, settle(grid, goal, None, s, fuel)),
    decreases fuel,
{
    if fuel > 0 && advance(grid, goal, None, s) is Next {
        let t = advance(grid, goal, None, s)->Next_0;
        lemma_advance_next(grid, start, goal, None, s);
        lemma_settle_grows(grid, start, goal, None, t, (fuel - 1) as nat);
        lemma_first_best(s.open);
        assert(advance(grid, goal, Some(limit), s) == Step::Next(t));
        lemma_same_below_cap(grid, start, goal, limit, t, (fuel - 1) as nat);
    }
}

/// A search with a cap ends with a partial path if the search without one
/// makes as many expansions as the cap allows, or more.
proof fn lemma_partial_at_cap(
    grid: &Grid,
    start: Cell,
    goal: Cell,
    limit: nat,
    s: SearchState,
    fuel: nat,
)
    requires
        inv(grid, start, goal, s),
        s.expansions < stops_at(limit),
        stops_at(limit) <= settle(grid, goal, None, s, fuel).expansions,
    ensures
        advance(grid, goal, Some(limit), settle(grid, goal, Some(limit), s, fuel)) matches Step::Done(
            Outcome::Partial(_),
        ),
    decreases fuel,
{
    if fuel > 0 && advance(grid, goal, None, s) is Next {
        let t = advance(grid, goal, None, s)->Next_0;
        lemma_advance_next(grid, start, goal, None, s);
        lemma_first_best(s.open);
        let i = first_best(s.open);
        if s.closed.contains(s.open[i].cell) {
            assert(advance(grid, goal, Some(limit), s) == Step::Next(t));
            lemma_partial_at_cap(grid, start, goal, limit, t, (fuel - 1) as nat);
        } else if cap_reached(Some(limit), s.expansions + 1) {
            assert(close(goal, s, i).expansions == s.expansions + 1);
            assert(advance(grid, goal, Some(limit), s) matches Step::Done(Outcome::Partial(_)));
        } else {
            assert(close(goal, s, i).expansions == s.expansions + 1);
            assert(advance(grid, goal, Some(limit), s) == Step::Next(t));
            lemma_partial_at_cap(grid, start, goal, limit, t, (fuel - 1) as nat);
        }
    }
}

/// Where the search without a cap would make as many expansions as the cap
/// allows, or more, the planner with the cap returns a partial path, of which
/// all holds that `plan_says`.
pub proof fn lemma_cap_reached_plan_is_partial(grid: &Grid, start: Cell, goal: Cell, limit: nat)
    requires
        grid.wf(),
        cell_open(grid, start),
        cell_open(grid, goal),
        stops_at(limit) <= effort(grid, start, goal),
    ensures
        plan(grid, start, goal, Some(limit)) is Partial,
        plan_says(grid, start, goal, Some(limit)),
{
    reveal(plan);
    reveal(last_state);
    lemma_start_inv(grid, start, goal);
    lemma_partial_at_cap(grid, start, goal, limit, start_state(start, goal), budget(grid));
    lemma_plan_sound(grid, start, goal, Some(limit));
}

/// Partial progress: with a cap of at least one, on a pair of which the goal
/// can be reached from the start but not within that many expansions, the
/// planner returns a non-empty path that begins at the start, is connected,
/// and does not end at the goal. The path has no more cells than the cap, the
/// goal is not among them, and it ends no farther from the goal than the start
/// is.
pub proof fn lemma_capped_plan_is_partial(grid: &Grid, start: Cell, goal: Cell, limit: nat)
    requires
        grid.wf(),
        reachable(grid, start, goal),
        limit >= 1,
        effort(grid, start, goal) > limit,
    ensures
        plan(grid, start, goal, Some(limit)) matches Outcome::Partial(p) && {
            &&& 1 <= p.len() <= limit
            &&& is_path(grid, p)
            &&& p[0] == start
            &&& p[p.len() - 1] != goal
            &&& !p.contains(goal)
            &&& estimate(p[p.len() - 1], goal) <= estimate(start, goal)
        },
{
    let q = choose|q: Seq<Cell>| connects(grid, q, start, goal);
    assert(cell_open(grid, q[0]));
    assert(cell_open(grid, q[q.len() - 1]));
    lemma_cap_reached_plan_is_partial(grid, start, goal, limit);
}

/// The search without a cap makes at least as many expansions as a shortest
/// path from the start to the goal has steps.
pub proof fn lemma_effort_reaches_distance(grid: &Grid, q: Seq<Cell>, start: Cell, goal: Cell)
    requires
        grid.wf(),
        shortest(grid, q, start, goal),
    ensures
        q.len() - 1 <= effort(grid, start, goal),
{
    assert(cell_open(grid, q[0]));
    assert(cell_open(grid, q[q.len() - 1]));
    lemma_search_ends(grid, start, goal, None);
    lemma_plan_sound(grid, start, goal, None);
    let last = last_state(grid, start, goal, None);
    lemma_first_best(last.open);
    assert(plan(grid, start, goal, None) == Outcome::Full(route(last, goal)));
    assert(last.cost.contains_key(goal) && last.cost[goal] <= last.expansions) by {
        reveal(crate::algorithms::soundness::open_matches);
        reveal(counted);
    }
    assert(route(last, goal).len() == last.cost[goal] + 1) by {
        lemma_route(grid, start, last, goal);
    }
    reveal(last_state);
}

/// Partial progress, by the distance: with a cap of at least one and at most
/// the number of steps of a shortest path from the start to the goal, the
/// planner returns a partial path. It begins at the start, is connected, has
/// at least one cell and no more than the cap, does not hold the goal, and
/// ends no farther from the goal than the start is.
pub proof fn lemma_capped_below_distance(
    grid: &Grid,
    q: Seq<Cell>,
    start: Cell,
    goal: Cell,
    limit: nat,
)
    requires
        grid.wf(),
        shortest(grid, q, start, goal),
        1 <= limit <= q.len() - 1,
    ensures
        plan(grid, start, goal, Some(limit)) matches Outcome::Partial(p) && {
            &&& 1 <= p.len() <= limit
            &&& is_path(grid, p)
            &&& p[0] == start
            &&& p[p.len() - 1] != goal
            &&& !p.contains(goal)
            &&& estimate(p[p.len() - 1], goal) <= estimate(start, goal)
        },
{
    assert(cell_open(grid, q[0]));
    assert(cell_open(grid, q[q.len() - 1]));
    lemma_effort_reaches_distance(grid, q, start, goal);
    lemma_cap_reached_plan_is_partial(grid, start, goal, limit);
}

/// The cells that can be reached from `start`.
pub open spec fn reach(grid: &Grid, start: Cell) -> Set<Cell> {
    Set::new(|c: Cell| reachable(grid, start, c))
}

/// The cells inside the grid.
pub open spec fn cells(grid: &Grid) -> Set<Cell> {
    Set::new(|c: Cell| c.0 < grid.width() && c.1 < grid.height())
}

/// The grid has finitely many cells: as many as its width times its height,
/// at most.
pub proof fn lemma_cells_finite(grid: &Grid)
    requires
        grid.wf(),
    ensures
        cells(grid).finite(),
        cells(grid).len() <= grid.width() * grid.height(),
{
    grid.lemma_wf();
    let w = grid.width() as int;
    let h = grid.height() as int;
    let range = set_int_range(0, w * h);
    let f = |k: int| choose|c: Cell| c.0 < w && c.1 < h && slot_of(w, c) == k;
    assert(0 <= w * h) by (nonlinear_arith)
        requires
            0 <= w,
            0 <= h,
    ;
    lemma_int_range(0, w * h);
    range.lemma_map_finite(f);
    vstd::set_lib::lemma_map_size_bound(range, range.map(f), f);
    assert(cells(grid).subset_of(range.map(f))) by {
        assert forall|c: Cell| cells(grid).contains(c) implies range.map(f).contains(c) by {
            let k = slot_of(w, c);
            lemma_slot_injective(w, h, c, c);
            assert(range.contains(k));
            lemma_slot_injective(w, h, f(k), c);
            assert(f(k) == c);
        }
    }
    lemma_len_subset(cells(grid), range.map(f));
}

/// Only finitely many cells can be reached from a cell, and the search
/// without a cap expands no more cells than can be reached from the start.
pub proof fn lemma_effort_within_reach(grid: &Grid, start: Cell, goal: Cell)
    requires
        grid.wf(),
        cell_open(grid, start),
        cell_open(grid, goal),
    ensures
        reach(grid, start).finite(),
        effort(grid, start, goal) <= reach(grid, start).len(),
{
    lemma_cells_finite(grid);
    assert(reach(grid, start).subset_of(cells(grid))) by {
        assert forall|c: Cell| reach(grid, start).contains(c) implies cells(grid).contains(c) by {
            let p = choose|p: Seq<Cell>| connects(grid, p, start, c);
            assert(cell_open(grid, p[p.len() - 1]));
            grid.lemma_walkable_in_bounds(c.0 as int, c.1 as int);
        }
    }
    lemma_len_subset(reach(grid, start), cells(grid));
    lemma_search_ends(grid, start, goal, None);
    let last = last_state(grid, start, goal, None);
    assert(last.closed.subset_of(reach(grid, start))) by {
        assert forall|c: Cell| last.closed.contains(c) implies reach(grid, start).contains(c) by {
            assert(last.cost.contains_key(c)) by {
                reveal(counted);
            }
            lemma_route(grid, start, last, c);
            assert(connects(grid, route(last, c), start, c));
        }
    }
    lemma_len_subset(last.closed, reach(grid, start));
    assert(last.closed.len() == last.expansions) by {
        reveal(counted);
    }
    reveal(last_state);
}

/// Where no path leads from the start to the goal, the planner returns
/// nothing if it has no cap, or if its cap is more than the number of cells
/// that can be reached from the start.
pub proof fn lemma_enclosed_plan_is_absent(grid: &Grid, start: Cell, goal: Cell, cap: Option<nat>)
    requires
        grid.wf(),
        !reachable(grid, start, goal),
        cap matches Some(limit) ==> reach(grid, start).len() < limit,
    ensures
        plan(grid, start, goal, cap) is Absent,
{
    if cell_open(grid, start) && cell_open(grid, goal) {
        lemma_effort_within_reach(grid, start, goal);
    }
    lemma_unreachable_plan_is_absent(grid, start, goal, cap);
}

/// Where no path leads from the start to the goal, the planner returns
/// nothing, provided that it has no cap or that the cap is more than the
/// number of cells that it has to expand to find that out. (With a smaller cap
/// the search stops early, and the planner returns a partial path.)
pub proof fn lemma_unreachable_plan_is_absent(
    grid: &Grid,
    start: Cell,
    goal: Cell,
    cap: Option<nat>,
)
    requires
        grid.wf(),
        !reachable(grid, start, goal),
        cap matches Some(limit) ==> effort(grid, start, goal) < limit || !cell_open(grid, start)
            || !cell_open(grid, goal),
    ensures
        plan(grid, start, goal, cap) is Absent,
{
    reveal(plan);
    reveal(last_state);
    if cell_open(grid, start) && cell_open(grid, goal) {
        lemma_plan_sound(grid, start, goal, None);
        match cap {
            Some(limit) => {
                lemma_start_inv(grid, start, goal);
                lemma_search_ends(grid, start, goal, None);
                lemma_same_below_cap(
                    grid,
                    start,
                    goal,
                    limit,
                    start_state(start, goal),
                    budget(grid),
                );
            },
            None => {},
        }
    }
}

/// On a grid without obstacles the planner without a cap returns, for any
/// two cells of the grid, a path with exactly as many steps as their Manhattan
/// distance.
pub proof fn lemma_plan_on_open_grid(grid: &Grid, start: Cell, goal: Cell)
    requires
        grid.wf(),
        obstacle_free(grid),
        start.0 < grid.width(),
        start.1 < grid.height(),
        goal.0 < grid.width(),
        goal.1 < grid.height(),
    ensures
        plan(grid, start, goal, None) matches Outcome::Full(p) && shortest(grid, p, start, goal)
            && p.len() == estimate(start, goal) + 1,
{
    lemma_direct_way(grid, start, goal);
    lemma_unbounded_plan_is_shortest(grid, start, goal);
    let p = plan(grid, start, goal, None)->Full_0;
    lemma_shortest_on_open_grid(grid, p, start, goal);
}

/// A search between two different walkable cells expands the start.
proof fn lemma_effort_positive(grid: &Grid, start: Cell, goal: Cell)
    requires
        grid.wf(),
        cell_open(grid, start),
        cell_open(grid, goal),
        start != goal,
    ensures
        effort(grid, start, goal) >= 1,
{
    reveal(last_state);
    let s = start_state(start, goal);
    lemma_start_inv(grid, start, goal);
    assert(s.open.len() == 1);
    assert(first_best(s.open) == 0);
    assert(advance(grid, goal, None, s) is Next);
    lemma_advance_next(grid, start, goal, None, s);
    let t = advance(grid, goal, None, s)->Next_0;
    assert(close(goal, s, 0).expansions == 1);
    assert(t.expansions == 1) by {
        crate::algorithms::soundness::lemma_close(grid, start, goal, s);
        crate::algorithms::soundness::lemma_expand(grid, start, goal, close(goal, s, 0), start);
    }
    lemma_settle_grows(grid, start, goal, None, t, (budget(grid) - 1) as nat);
    grid.lemma_wf();
}

/// When the planner returns a path: exactly if the goal can be reached from
/// the start, or start and goal are walkable and the search stops at its cap
/// before it has found out that the goal cannot be reached.
pub proof fn lemma_plan_gives_path(grid: &Grid, start: Cell, goal: Cell, cap: Option<nat>)
    requires
        grid.wf(),
    ensures
        plan(grid, start, goal, cap).path() is Some <==> (reachable(grid, start, goal) || (
        cell_open(grid, start) && cell_open(grid, goal) && (cap matches Some(limit) && stops_at(limit)
            <= effort(grid, start, goal)))),
{
    lemma_plan_sound(grid, start, goal, cap);
    if !reachable(grid, start, goal) {
        if cell_open(grid, start) && cell_open(grid, goal) {
            match cap {
                Some(limit) => {
                    if stops_at(limit) <= effort(grid, start, goal) {
                        lemma_cap_reached_plan_is_partial(grid, start, goal, limit);
                    } else {
                        if start == goal {
                            assert(connects(grid, seq![start], start, goal));
                        }
                        lemma_effort_positive(grid, start, goal);
                        lemma_unreachable_plan_is_absent(grid, start, goal, cap);
                    }
                },
                None => {},
            }
        } else {
            lemma_unreachable_plan_is_absent(grid, start, goal, cap);
        }
    }
}

} // verus!
