//! The planner: A* over the four-connected cells of a grid, with an optional
//! cap on the number of cells that it may expand.

use vstd::prelude::*;
use crate::algorithms::cell_map::CellMap;
use crate::algorithms::laws::lemma_budget_suffices;
use crate::algorithms::laws::lemma_plan_gives_path;
use crate::algorithms::laws::lemma_capped_below_distance;
use crate::algorithms::laws::lemma_enclosed_plan_is_absent;
use crate::algorithms::laws::lemma_plan_sound;
use crate::algorithms::laws::reach;
use crate::algorithms::laws::plan_says;
use crate::algorithms::laws::stops_at;
use crate::algorithms::paths::Cell;
use crate::algorithms::paths::cell_open;
use crate::algorithms::paths::connects;
use crate::algorithms::paths::estimate;
use crate::algorithms::paths::is_path;
use crate::algorithms::paths::reachable;
use crate::algorithms::paths::shortest;
use crate::algorithms::search::Candidate;
use crate::algorithms::search::Outcome;
use crate::algorithms::search::SearchState;
use crate::algorithms::search::Step;
use crate::algorithms::search::advance;
use crate::algorithms::search::budget;
use crate::algorithms::search::close;
use crate::algorithms::search::effort;
use crate::algorithms::search::expand;
use crate::algorithms::search::first_best;
use crate::algorithms::search::last_state;
use crate::algorithms::search::plan;
use crate::algorithms::search::precedes;
use crate::algorithms::search::relax;
use crate::algorithms::search::route;
use crate::algorithms::search::settle;
use crate::algorithms::search::start_state;
use crate::algorithms::soundness::counted;
use crate::algorithms::soundness::inv;
use crate::algorithms::soundness::lemma_advance_next;
use crate::algorithms::soundness::lemma_close;
use crate::algorithms::soundness::lemma_closed_bounded;
use crate::algorithms::soundness::lemma_first_best;
use crate::algorithms::soundness::lemma_relax;
use crate::algorithms::soundness::lemma_route;
use crate::algorithms::soundness::lemma_start_inv;
use crate::algorithms::soundness::linked;
use crate::algorithms::soundness::open_matches;
use crate::algorithms::soundness::potential;
use crate::algorithms::soundness::sound;
use crate::engine::grid::Grid;

verus! {

/// An entry of the open list.
pub struct Node {
    pub position: (usize, usize),
    pub g_cost: usize,
    pub h_cost: usize,
}

impl View for Node {
    type V = Candidate;

    open spec fn view(&self) -> Candidate {
        Candidate { cell: self.position, g: self.g_cost as nat, h: self.h_cost as nat }
    }
}

impl Node {
    /// The estimated cost of a route through the cell.
    pub fn f_cost(&self) -> (f: u128)
        ensures
            f == self@.f(),
    {
        self.g_cost as u128 + self.h_cost as u128
    }

    /// Whether this entry leaves the open list before the other.
    pub fn comes_before(&self, other: &Node) -> (r: bool)
        ensures
            r == precedes(self@, other@),
    {
        let own = self.f_cost();
        let others = other.f_cost();
        own < others || (own == others && self.h_cost < other.h_cost)
    }
}

/// The open list as the search sees it.
pub open spec fn candidates(open: Seq<Node>) -> Seq<Candidate> {
    Seq::new(open.len(), |i: int| open[i]@)
}

/// The cap of a search as a number, if it has one.
pub open spec fn cap_of(max_expansions: Option<usize>) -> Option<nat> {
    match max_expansions {
        Some(limit) => Some(limit as nat),
        None => None,
    }
}

/// Manhattan distance between two cells.
pub fn manhattan(a: (usize, usize), b: (usize, usize)) -> (d: usize)
    requires
        estimate(a, b) <= usize::MAX,
    ensures
        d == estimate(a, b),
{
    let dx = if a.0 > b.0 {
        a.0 - b.0
    } else {
        b.0 - a.0
    };
    let dy = if a.1 > b.1 {
        a.1 - b.1
    } else {
        b.1 - a.1
    };
    dx + dy
}

/// The index of the entry that leaves the open list next.
fn best_index(open: &Vec<Node>) -> (best: usize)
    requires
        open@.len() > 0,
    ensures
        best == first_best(candidates(open@)),
        best < open@.len(),
{
    let mut best: usize = 0;
    let mut k: usize = 1;
    proof {
        assert(candidates(open@).take(1).len() == 1);
    }
    while k < open.len()
        invariant
            1 <= k <= open@.len(),
            best < k,
            best == first_best(candidates(open@).take(k as int)),
        decreases open@.len() - k,
    {
        proof {
            let all = candidates(open@);
            assert(all.take(k + 1).drop_last() =~= all.take(k as int));
            assert(all.take(k + 1).last() == open@[k as int]@);
            assert(all.take(k as int)[best as int] == open@[best as int]@);
        }
        if open[k].comes_before(&open[best]) {
            best = k;
        }
        k += 1;
    }
    proof {
        assert(candidates(open@).take(open@.len() as int) =~= candidates(open@));
    }
    best
}

/// Whether the planner's tables hold the open list, the costs, the
/// predecessors and the closed cells of the search state `s`.
pub open spec fn mirrors(
    open: Seq<Node>,
    g_score: Map<Cell, usize>,
    came_from: Map<Cell, Cell>,
    closed: Map<Cell, bool>,
    s: SearchState,
) -> bool {
    &&& candidates(open) == s.open
    &&& g_score.dom() == s.cost.dom()
    &&& forall|c: Cell| #[trigger] g_score.contains_key(c) ==> g_score[c] as nat == s.cost[c]
    &&& came_from == s.parent
    &&& closed.dom() == s.closed
}

/// The heuristic between two walkable cells fits the machine word.
proof fn lemma_estimate_fits(grid: &Grid, a: Cell, b: Cell)
    requires
        grid.wf(),
        cell_open(grid, a),
        cell_open(grid, b),
    ensures
        estimate(a, b) <= usize::MAX,
{
    grid.lemma_wf();
    grid.lemma_walkable_in_bounds(a.0 as int, a.1 as int);
    grid.lemma_walkable_in_bounds(b.0 as int, b.1 as int);
    let w = grid.width() as int;
    let h = grid.height() as int;
    assert((w - 1) + (h - 1) <= w * h) by (nonlinear_arith)
        requires
            1 <= w,
            1 <= h,
    ;
}

/// Reconstruct the route to `end` from the predecessors.
fn reconstruct_path(
    came_from: &CellMap<(usize, usize)>,
    end: (usize, usize),
    Ghost(grid): Ghost<&Grid>,
    Ghost(start): Ghost<Cell>,
    Ghost(s): Ghost<SearchState>,
) -> (path: Vec<(usize, usize)>)
    requires
        came_from.wf(),
        came_from@ == s.parent,
        linked(grid, start, s),
        s.cost.contains_key(end),
    ensures
        path@ == route(s, end),
{
    let ghost full = route(s, end);
    proof {
        lemma_route(grid, start, s, end);
    }
    let mut backward: Vec<(usize, usize)> = Vec::new();
    let mut p = end;
    loop
        invariant_except_break
            s.cost.contains_key(p),
            s.cost[p] <= s.cost[end],
            backward@.len() == s.cost[end] - s.cost[p],
            full.take(s.cost[p] as int + 1) == route(s, p),
            forall|i: int| 0 <= i < backward@.len() ==> backward@[i] == full[s.cost[end] - i],
        invariant
            came_from.wf(),
            came_from@ == s.parent,
            linked(grid, start, s),
            s.cost.contains_key(end),
            full == route(s, end),
            full.len() == s.cost[end] + 1,
        ensures
            backward@.len() == full.len(),
            forall|i: int| 0 <= i < backward@.len() ==> backward@[i] == full[full.len() - 1 - i],
        decreases s.cost[p],
    {
        proof {
            lemma_route(grid, start, s, p);
            assert(full[s.cost[p] as int] == full.take(s.cost[p] as int + 1)[s.cost[p] as int]);
        }
        backward.push(p);
        match came_from.get(p) {
            Some(prev) => {
                proof {
                    reveal(linked);
                    lemma_route(grid, start, s, prev);
                    assert(route(s, p) == route(s, prev).push(p));
                    assert(full.take(s.cost[prev] as int + 1) =~= route(s, p).take(s.cost[prev] as int + 1));
                    assert(route(s, p).take(s.cost[prev] as int + 1) =~= route(s, prev));
                }
                p = prev;
            },
            None => {
                proof {
                    reveal(linked);
                }
                break ;
            },
        }
    }
    let mut path: Vec<(usize, usize)> = Vec::new();
    let mut k: usize = backward.len();
    while k > 0
        invariant
            k <= backward@.len(),
            backward@.len() == full.len(),
            path@.len() == backward@.len() - k,
            forall|i: int| 0 <= i < backward@.len() ==> backward@[i] == full[full.len() - 1 - i],
            forall|i: int| 0 <= i < path@.len() ==> path@[i] == full[i],
        decreases k,
    {
        k -= 1;
        path.push(backward[k]);
    }
    proof {
        assert(path@ =~= full);
    }
    path
}

/// Looks at the cell `(nx, ny)` next to the cell `from`, which was just
/// expanded at cost `g`.
fn relax_neighbor(
    grid: &Grid,
    goal: (usize, usize),
    from: (usize, usize),
    g: usize,
    nx: usize,
    ny: usize,
    open: &mut Vec<Node>,
    g_score: &mut CellMap<usize>,
    came_from: &mut CellMap<(usize, usize)>,
    closed: &CellMap<bool>,
    Ghost(start): Ghost<Cell>,
    Ghost(s): Ghost<SearchState>,
)
    requires
        old(g_score).wf(),
        old(came_from).wf(),
        closed.wf(),
        old(g_score).spec_width() == grid.width(),
        old(g_score).spec_height() == grid.height(),
        old(came_from).spec_width() == grid.width(),
        old(came_from).spec_height() == grid.height(),
        mirrors(old(open)@, old(g_score)@, old(came_from)@, closed@, s),
        sound(grid, start, goal, s),
        s.closed.contains(from),
        s.cost[from] == g,
        crate::engine::position::adjacent(from.0 as int, from.1 as int, nx as int, ny as int),
    ensures
        final(g_score).wf(),
        final(came_from).wf(),
        final(g_score).spec_width() == grid.width(),
        final(g_score).spec_height() == grid.height(),
        final(came_from).spec_width() == grid.width(),
        final(came_from).spec_height() == grid.height(),
        mirrors(
            final(open)@,
            final(g_score)@,
            final(came_from)@,
            closed@,
            relax(grid, goal, s, from, g as nat, nx as int, ny as int),
        ),
{
    if !grid.is_walkable(nx, ny) {
        return ;
    }
    let n = (nx, ny);
    if closed.contains(n) {
        return ;
    }
    proof {
        reveal(counted);
        lemma_closed_bounded(grid, start, goal, s);
        grid.lemma_wf();
        grid.lemma_walkable_in_bounds(nx as int, ny as int);
        lemma_estimate_fits(grid, n, goal);
        g_score.lemma_covers(n);
        came_from.lemma_covers(n);
    }
    let tentative = g + 1;
    let improves = match g_score.get(n) {
        Some(known) => tentative < known,
        None => true,
    };
    if improves {
        let h = manhattan(n, goal);
        let node = Node { position: n, g_cost: tentative, h_cost: h };
        g_score.insert(n, tentative);
        came_from.insert(n, from);
        open.push(node);
        proof {
            let t = relax(grid, goal, s, from, g as nat, nx as int, ny as int);
            assert(candidates(open@) =~= t.open);
            assert(g_score@.dom() =~= t.cost.dom());
        }
    }
}

/// Expands the cell `cell`, which was just closed and has the best known cost
/// `g`: looks at its four neighbors in the order left, right, up, down.
fn expand_cell(
    grid: &Grid,
    goal: (usize, usize),
    cell: (usize, usize),
    g: usize,
    open: &mut Vec<Node>,
    g_score: &mut CellMap<usize>,
    came_from: &mut CellMap<(usize, usize)>,
    closed: &CellMap<bool>,
    Ghost(start): Ghost<Cell>,
    Ghost(s): Ghost<SearchState>,
)
    requires
        old(g_score).wf(),
        old(came_from).wf(),
        closed.wf(),
        old(g_score).spec_width() == grid.width(),
        old(g_score).spec_height() == grid.height(),
        old(came_from).spec_width() == grid.width(),
        old(came_from).spec_height() == grid.height(),
        mirrors(old(open)@, old(g_score)@, old(came_from)@, closed@, s),
        sound(grid, start, goal, s),
        s.closed.contains(cell),
        s.cost[cell] == g,
    ensures
        final(g_score).wf(),
        final(came_from).wf(),
        final(g_score).spec_width() == grid.width(),
        final(g_score).spec_height() == grid.height(),
        final(came_from).spec_width() == grid.width(),
        final(came_from).spec_height() == grid.height(),
        mirrors(
            final(open)@,
            final(g_score)@,
            final(came_from)@,
            closed@,
            expand(grid, goal, s, cell, g as nat),
        ),
{
    let cx = cell.0;
    let cy = cell.1;
    let ghost cost = g as nat;
    let ghost s1 = relax(grid, goal, s, cell, cost, cx - 1, cy as int);
    let ghost s2 = relax(grid, goal, s1, cell, cost, cx + 1, cy as int);
    let ghost s3 = relax(grid, goal, s2, cell, cost, cx as int, cy - 1);
    proof {
        grid.lemma_wf();
        assert(cell_open(grid, cell)) by {
            reveal(counted);
            reveal(linked);
        }
        grid.lemma_walkable_in_bounds(cx as int, cy as int);
        lemma_relax(grid, start, goal, s, cell, cost, cx - 1, cy as int);
        lemma_relax(grid, start, goal, s1, cell, cost, cx + 1, cy as int);
        lemma_relax(grid, start, goal, s2, cell, cost, cx as int, cy - 1);
    }
    if cx > 0 {
        relax_neighbor(
            grid,
            goal,
            cell,
            g,
            cx - 1,
            cy,
            open,
            g_score,
            came_from,
            closed,
            Ghost(start),
            Ghost(s),
        );
    } else {
        proof {
            if grid.walkable(cx - 1, cy as int) {
                grid.lemma_walkable_in_bounds(cx - 1, cy as int);
            }
        }
    }
    relax_neighbor(
        grid,
        goal,
        cell,
        g,
        cx + 1,
        cy,
        open,
        g_score,
        came_from,
        closed,
        Ghost(start),
        Ghost(s1),
    );
    if cy > 0 {
        relax_neighbor(
            grid,
            goal,
            cell,
            g,
            cx,
            cy - 1,
            open,
            g_score,
            came_from,
            closed,
            Ghost(start),
            Ghost(s2),
        );
    } else {
        proof {
            if grid.walkable(cx as int, cy - 1) {
                grid.lemma_walkable_in_bounds(cx as int, cy - 1);
            }
        }
    }
    relax_neighbor(
        grid,
        goal,
        cell,
        g,
        cx,
        cy + 1,
        open,
        g_score,
        came_from,
        closed,
        Ghost(start),
        Ghost(s3),
    );
}

/// A* pathfinding on the provided grid.
///
/// Returns a path of `(x, y)` cells from `start` to `goal`, including both
/// endpoints, or `None` if no path exists or one of the two is not walkable.
///
/// If `max_expansions` is `Some(n)`, the search stops after expanding `n`
/// cells and returns the route to the expanded cell nearest to the goal: a
/// partial path. A cap of zero stops the search where a cap of one does.
///
/// The result is that of the search described in the module `search`: the
/// open list is ordered by ascending `f`, then by ascending `h`, and entries
/// that tie in both leave in the order in which they were added.
pub fn find_path(
    start: (usize, usize),
    goal: (usize, usize),
    grid: &Grid,
    max_expansions: Option<usize>,
) -> (result: Option<Vec<(usize, usize)>>)
    ensures
        match result {
            Some(path) => plan(grid, start, goal, cap_of(max_expansions)).path() == Some(path@),
            None => plan(grid, start, goal, cap_of(max_expansions)) is Absent,
        },
        result matches Some(path) ==> is_path(grid, path@) && path@[0] == start,
        result matches Some(path) ==> (path@[path@.len() - 1] == goal ==> shortest(
            grid,
            path@,
            start,
            goal,
        )),
        result is None ==> !reachable(grid, start, goal),
        result is Some <==> (reachable(grid, start, goal) || (cell_open(grid, start) && cell_open(
            grid,
            goal,
        ) && (max_expansions matches Some(limit) && stops_at(limit as nat) <= effort(
            grid,
            start,
            goal,
        )))),
        max_expansions is None ==> (result is Some <==> reachable(grid, start, goal)),
        max_expansions is None ==> (result matches Some(path) ==> path@[path@.len() - 1] == goal),
        result matches Some(path) ==> (path@[path@.len() - 1] != goal ==> {
            &&& max_expansions matches Some(limit) && path@.len() <= stops_at(limit as nat)
            &&& !path@.contains(goal)
            &&& path@.no_duplicates()
            &&& estimate(path@[path@.len() - 1], goal) <= estimate(start, goal)
        }),
        !reachable(grid, start, goal) && (max_expansions matches Some(limit) ==> reach(
            grid,
            start,
        ).len() < limit) ==> result is None,
        forall|q: Seq<Cell>|
            #[trigger] shortest(grid, q, start, goal) && (max_expansions matches Some(limit) && 1
                <= limit <= q.len() - 1) ==> (result matches Some(path) && path@[path@.len() - 1]
                != goal),
{
    // Without a walkable start and a walkable goal there is nothing to search.
    let result = if grid.is_walkable(start.0, start.1) && grid.is_walkable(goal.0, goal.1) {
        search(start, goal, grid, max_expansions)
    } else {
        None
    };
    proof {
        use_type_invariant(grid);
        let cap = cap_of(max_expansions);
        reveal(plan);
        lemma_plan_sound(grid, start, goal, cap);
        lemma_plan_gives_path(grid, start, goal, cap);
        if !reachable(grid, start, goal) && (max_expansions matches Some(limit) ==> reach(
            grid,
            start,
        ).len() < limit) {
            lemma_enclosed_plan_is_absent(grid, start, goal, cap);
        }
        assert forall|q: Seq<Cell>|
            #[trigger] shortest(grid, q, start, goal) && (max_expansions matches Some(limit) && 1
                <= limit <= q.len() - 1) implies (result matches Some(path) && path@[path@.len() - 1]
            != goal) by {
            lemma_capped_below_distance(grid, q, start, goal, max_expansions->0 as nat);
        }
    }
    result
}

/// The search from a walkable start to a walkable goal.
fn search(
    start: (usize, usize),
    goal: (usize, usize),
    grid: &Grid,
    max_expansions: Option<usize>,
) -> (result: Option<Vec<(usize, usize)>>)
    requires
        cell_open(grid, start),
        cell_open(grid, goal),
    ensures
        match result {
            Some(path) => plan(grid, start, goal, cap_of(max_expansions)).path() == Some(path@),
            None => plan(grid, start, goal, cap_of(max_expansions)) is Absent,
        },
        result matches Some(path) ==> is_path(grid, path@) && path@[0] == start,
        result matches Some(path) ==> (path@[path@.len() - 1] == goal ==> shortest(
            grid,
            path@,
            start,
            goal,
        )),
        result is None ==> !reachable(grid, start, goal),
        result is Some <==> (reachable(grid, start, goal) || (cell_open(grid, start) && cell_open(
            grid,
            goal,
        ) && (max_expansions matches Some(limit) && stops_at(limit as nat) <= effort(
            grid,
            start,
            goal,
        )))),
        max_expansions is None ==> (result is Some <==> reachable(grid, start, goal)),
        max_expansions is None ==> (result matches Some(path) ==> path@[path@.len() - 1] == goal),
        result matches Some(path) ==> (path@[path@.len() - 1] != goal ==> {
            &&& max_expansions matches Some(limit) && path@.len() <= stops_at(limit as nat)
            &&& !path@.contains(goal)
            &&& path@.no_duplicates()
            &&& estimate(path@[path@.len() - 1], goal) <= estimate(start, goal)
        }),
{
    let ghost cap = cap_of(max_expansions);
    proof {
        use_type_invariant(grid);
        grid.lemma_wf();
        lemma_plan_sound(grid, start, goal, cap);
        lemma_plan_gives_path(grid, start, goal, cap);
    }
    let width = grid.width();
    let height = grid.height();

    let mut open: Vec<Node> = Vec::new();
    let mut came_from: CellMap<(usize, usize)> = CellMap::new(width, height);
    let mut g_score: CellMap<usize> = CellMap::new(width, height);
    let mut closed: CellMap<bool> = CellMap::new(width, height);

    proof {
        lemma_estimate_fits(grid, start, goal);
        grid.lemma_walkable_in_bounds(start.0 as int, start.1 as int);
        g_score.lemma_covers(start);
    }
    // Track the best (closest-to-goal) cell seen so far for partial paths.
    let mut best_pos = start;
    let mut best_h = manhattan(start, goal);
    let mut expansions: usize = 0;

    g_score.insert(start, 0);
    open.push(Node { position: start, g_cost: 0, h_cost: best_h });

    let ghost mut s = start_state(start, goal);
    let ghost mut fuel = budget(grid);
    proof {
        reveal(last_state);
        lemma_start_inv(grid, start, goal);
        lemma_budget_suffices(grid, start, goal);
        assert(candidates(open@) =~= s.open);
        assert(g_score@.dom() =~= s.cost.dom());
        assert(came_from@ =~= s.parent);
        assert(closed@.dom() =~= s.closed);
    }

    loop
        invariant
            grid.wf(),
            cell_open(grid, start),
            cell_open(grid, goal),
            cap == cap_of(max_expansions),
            came_from.wf(),
            g_score.wf(),
            closed.wf(),
            g_score.spec_width() == grid.width(),
            g_score.spec_height() == grid.height(),
            came_from.spec_width() == grid.width(),
            came_from.spec_height() == grid.height(),
            closed.spec_width() == grid.width(),
            closed.spec_height() == grid.height(),
            mirrors(open@, g_score@, came_from@, closed@, s),
            best_pos == s.best,
            best_h == s.best_h,
            expansions == s.expansions,
            inv(grid, start, goal, s),
            potential(grid, s) < fuel,
            settle(grid, goal, cap, s, fuel) == last_state(grid, start, goal, cap),
            plan_says(grid, start, goal, cap),
            plan(grid, start, goal, cap).path() is Some <==> (reachable(grid, start, goal) || (
            cap matches Some(limit) && stops_at(limit) <= effort(grid, start, goal))),
        decreases potential(grid, s),
    {
        if open.len() == 0 {
            proof {
                reveal(plan);
                assert(advance(grid, goal, cap, s) == Step::Done(Outcome::Absent));
            }
            return None;
        }
        let i = best_index(&open);
        let current = open.remove(i);
        let current_pos = current.position;
        proof {
            lemma_first_best(s.open);
            assert(candidates(open@) =~= s.open.remove(i as int));
            assert(current@ == s.open[i as int]);
            assert(s.cost.contains_key(current_pos)) by {
                reveal(open_matches);
            }
            assert(cell_open(grid, current_pos)) by {
                reveal(linked);
            }
            grid.lemma_walkable_in_bounds(current_pos.0 as int, current_pos.1 as int);
        }

        if current_pos.0 == goal.0 && current_pos.1 == goal.1 {
            proof {
                reveal(plan);
                assert(advance(grid, goal, cap, s) == Step::Done(Outcome::Full(route(s, goal))));
            }
            let path = reconstruct_path(
                &came_from,
                current_pos,
                Ghost(grid),
                Ghost(start),
                Ghost(s),
            );
            proof {
                assert(connects(grid, path@, start, goal));
            }
            return Some(path);
        }
        if closed.contains(current_pos) {
            proof {
                let next = SearchState { open: s.open.remove(i as int), ..s };
                assert(advance(grid, goal, cap, s) == Step::Next(next));
                lemma_advance_next(grid, start, goal, cap, s);
                s = next;
                fuel = (fuel - 1) as nat;
            }
        } else {
            let ghost before = s;
            let ghost shut = close(goal, s, i as int);
            proof {
                grid.lemma_wf();
                lemma_close(grid, start, goal, s);
                lemma_closed_bounded(grid, start, goal, shut);
                lemma_estimate_fits(grid, current_pos, goal);
                closed.lemma_covers(current_pos);
                assert(shut.expansions == s.expansions + 1);
            }
            closed.insert(current_pos, true);
            expansions += 1;

            // Update best cell tracking.
            let h = manhattan(current_pos, goal);
            if h < best_h {
                best_h = h;
                best_pos = current_pos;
            }
            proof {
                assert(closed@.dom() =~= shut.closed);
                assert(mirrors(open@, g_score@, came_from@, closed@, shut));
            }

            // Bounded rationality: stop after max_expansions.
            let stop = match max_expansions {
                Some(limit) => expansions >= limit,
                None => false,
            };
            if stop {
                proof {
                    reveal(plan);
                    assert(advance(grid, goal, cap, s) == Step::Done(
                        Outcome::Partial(route(shut, shut.best)),
                    ));
                    assert(shut.cost.contains_key(shut.best)) by {
                        reveal(counted);
                    }
                }
                // Return partial path to the closest cell found.
                let path = reconstruct_path(
                    &came_from,
                    best_pos,
                    Ghost(grid),
                    Ghost(start),
                    Ghost(shut),
                );
                return Some(path);
            }
            let current_g = match g_score.get(current_pos) {
                Some(g) => g,
                None => 0,
            };
            expand_cell(
                grid,
                goal,
                current_pos,
                current_g,
                &mut open,
                &mut g_score,
                &mut came_from,
                &closed,
                Ghost(start),
                Ghost(shut),
            );
            proof {
                let next = expand(grid, goal, shut, current_pos, current_g as nat);
                assert(advance(grid, goal, cap, before) == Step::Next(next));
                lemma_advance_next(grid, start, goal, cap, before);
                s = next;
                fuel = (fuel - 1) as nat;
            }
        }
    }
}

} // verus!
