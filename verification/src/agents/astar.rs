//! The search agent: it plans a path with the planner and walks it one cell
//! per tick.

use vstd::prelude::*;
use vstd::string::StringExecFns;
use crate::agents::Agent;
use crate::agents::memory::SpatialMemory;
use crate::agents::memory::recorded;
use crate::algorithms::astar::cap_of;
use crate::algorithms::astar::find_path;
use crate::algorithms::laws::lemma_plan_sound;
use crate::algorithms::paths::Cell;
use crate::algorithms::paths::is_path;
use crate::algorithms::search::plan;
use crate::engine::grid::Grid;
use crate::engine::position::Position;

verus! {

/// What a search agent is, as plain values.
pub struct SearchView {
    pub pos: Position,
    /// The path from the last planning call.
    pub path: Seq<Cell>,
    /// The index in `path` of the cell that the agent walked to last.
    pub cursor: usize,
    /// Whether the agent found that no path leads to the goal.
    pub stuck: bool,
    /// The expansion cap of the planner, if any.
    pub limit: Option<usize>,
    /// The remembered positions, oldest first.
    pub memory: Seq<Position>,
    /// The capacity of the memory.
    pub capacity: usize,
    /// Whether decision noise moved the agent in the last tick.
    pub noise_triggered: bool,
}

/// A cell as a position.
pub open spec fn at(c: Cell) -> Position {
    Position { x: c.0, y: c.1 }
}

/// A position as a cell.
pub open spec fn cell_of(p: Position) -> Cell {
    (p.x, p.y)
}

/// Whether the agent has to plan before it can walk: it has no path, or it
/// has walked the one it has to its end.
pub open spec fn needs_plan(pre: SearchView) -> bool {
    pre.path.len() == 0 || pre.cursor + 1 >= pre.path.len()
}

/// Whether one tick on the grid may lead an agent from `pre` to `post`, given
/// whether this tick's noise draw fell below the agent's noise level.
///
/// The agent first records where it stands. A stuck agent, and one on the
/// goal, does nothing else. An agent that has to plan calls the planner; if
/// that returns nothing, the agent is stuck from now on. With a path that goes
/// on, the agent moves: to a random walkable neighbor, dropping the path, if
/// noise fired and there is one; to the next cell of the path if not.
pub open spec fn tick_allows(pre: SearchView, grid: &Grid, noise_fired: bool, post: SearchView)
    -> bool {
    let memory = recorded(pre.memory, pre.capacity as nat, pre.pos);
    let quiet = SearchView { memory, noise_triggered: false, ..pre };
    let planned = plan(grid, cell_of(pre.pos), cell_of(grid.goal()), cap_of(pre.limit)).path();
    let neighbors = grid.open_neighbors(pre.pos.x as int, pre.pos.y as int);
    if pre.stuck || pre.pos == grid.goal() {
        post == quiet
    } else if needs_plan(pre) && planned is None {
        post == (SearchView { stuck: true, ..quiet })
    } else {
        let path = if needs_plan(pre) {
            planned->0
        } else {
            pre.path
        };
        let cursor = if needs_plan(pre) {
            0usize
        } else {
            pre.cursor
        };
        if cursor + 1 < path.len() {
            if noise_fired && neighbors.len() > 0 {
                &&& neighbors.contains(post.pos)
                &&& post == (SearchView {
                    pos: post.pos,
                    path: Seq::empty(),
                    cursor,
                    noise_triggered: true,
                    ..quiet
                })
            } else {
                &&& post.cursor == cursor + 1
                &&& post == (SearchView {
                    pos: at(path[cursor + 1]),
                    path,
                    cursor: post.cursor,
                    ..quiet
                })
            }
        } else {
            post == (SearchView { path, cursor, ..quiet })
        }
    }
}

/// Whether the agent's path is a path on the grid, and the agent stands
/// where its cursor says. An agent without a path meets this if it stands on a
/// walkable cell.
pub open spec fn on_path(agent: SearchView, grid: &Grid) -> bool {
    &&& grid.passable(agent.pos)
    &&& agent.path.len() > 0 ==> {
        &&& is_path(grid, agent.path)
        &&& agent.cursor < agent.path.len()
        &&& at(agent.path[agent.cursor as int]) == agent.pos
    }
}

/// The path that a tick walks on, and the cursor on it before the move: the
/// agent's own, or a new one from the planner where the agent has to plan.
pub open spec fn walked(pre: SearchView, grid: &Grid) -> (Seq<Cell>, int) {
    if needs_plan(pre) {
        (plan(grid, cell_of(pre.pos), cell_of(grid.goal()), cap_of(pre.limit)).path()->0, 0)
    } else {
        (pre.path, pre.cursor as int)
    }
}

/// The path that a tick walks on is a path on the grid, and the agent stands
/// where the cursor says.
proof fn lemma_walked_is_path(pre: SearchView, grid: &Grid)
    requires
        grid.wf(),
        on_path(pre, grid),
        !(needs_plan(pre) && plan(
            grid,
            cell_of(pre.pos),
            cell_of(grid.goal()),
            cap_of(pre.limit),
        ).path() is None),
    ensures
        is_path(grid, walked(pre, grid).0),
        0 <= walked(pre, grid).1 < walked(pre, grid).0.len(),
        at(walked(pre, grid).0[walked(pre, grid).1]) == pre.pos,
{
    if needs_plan(pre) {
        lemma_plan_sound(grid, cell_of(pre.pos), cell_of(grid.goal()), cap_of(pre.limit));
    }
}

/// The next cell of a path is walkable and one step away.
proof fn lemma_next_on_path(grid: &Grid, path: Seq<Cell>, cursor: int)
    requires
        is_path(grid, path),
        0 <= cursor,
        cursor + 1 < path.len(),
    ensures
        at(path[cursor]).touches(at(path[cursor + 1])),
        grid.passable(at(path[cursor + 1])),
{
    assert(crate::algorithms::paths::cells_touch(path[cursor], path[cursor + 1]));
    assert(crate::algorithms::paths::cell_open(grid, path[cursor + 1]));
}

/// On one grid an agent that stands on a walkable cell keeps to walkable
/// cells: a tick moves it by one step to a walkable cell or not at all, and
/// its path stays a path on the grid that it stands on.
pub proof fn lemma_tick_keeps_to_path(
    pre: SearchView,
    grid: &Grid,
    noise_fired: bool,
    post: SearchView,
)
    requires
        grid.wf(),
        on_path(pre, grid),
        tick_allows(pre, grid, noise_fired, post),
    ensures
        on_path(post, grid),
        post.pos == pre.pos || (pre.pos.touches(post.pos) && grid.passable(post.pos)),
{
    let planned = plan(grid, cell_of(pre.pos), cell_of(grid.goal()), cap_of(pre.limit)).path();
    let neighbors = grid.open_neighbors(pre.pos.x as int, pre.pos.y as int);
    if pre.stuck || pre.pos == grid.goal() {
        assert(post.pos == pre.pos && post.path == pre.path && post.cursor == pre.cursor);
    } else if needs_plan(pre) && planned is None {
        assert(post.pos == pre.pos && post.path == pre.path && post.cursor == pre.cursor);
    } else {
        lemma_walked_is_path(pre, grid);
        let (path, cursor) = walked(pre, grid);
        if cursor + 1 < path.len() {
            if noise_fired && neighbors.len() > 0 {
                assert(post.path.len() == 0);
                grid.lemma_open_neighbors(pre.pos.x as int, pre.pos.y as int, post.pos);
            } else {
                lemma_next_on_path(grid, path, cursor);
                assert(post.pos == at(path[cursor + 1]) && post.path == path && post.cursor
                    == cursor + 1);
            }
        } else {
            assert(post.pos == pre.pos && post.path == path && post.cursor == cursor);
        }
    }
}

/// A stuck agent stays stuck and stays where it is.
pub proof fn lemma_stuck_stays(pre: SearchView, grid: &Grid, noise_fired: bool, post: SearchView)
    requires
        pre.stuck,
        tick_allows(pre, grid, noise_fired, post),
    ensures
        post.stuck,
        post.pos == pre.pos,
        post.path == pre.path,
{
}

/// Once an agent is stuck, it is stuck after every later tick, and never
/// moves again: `trail` holds the agent before the first tick and after each
/// one.
pub proof fn lemma_stuck_forever(grid: &Grid, trail: Seq<SearchView>, noise: Seq<bool>)
    requires
        trail.len() == noise.len() + 1,
        trail[0].stuck,
        forall|i: int|
            0 <= i < noise.len() ==> tick_allows(#[trigger] trail[i], grid, noise[i], trail[i + 1]),
    ensures
        forall|i: int|
            0 <= i < trail.len() ==> (#[trigger] trail[i]).stuck && trail[i].pos == trail[0].pos,
    decreases noise.len(),
{
    if noise.len() > 0 {
        assert(tick_allows(trail[0], grid, noise[0], trail[1]));
        let rest = trail.drop_first();
        let later = noise.drop_first();
        assert forall|i: int| 0 <= i < later.len() implies tick_allows(
            #[trigger] rest[i],
            grid,
            later[i],
            rest[i + 1],
        ) by {
            assert(tick_allows(trail[i + 1], grid, noise[i + 1], trail[i + 2]));
        }
        lemma_stuck_forever(grid, rest, later);
        assert forall|i: int| 0 <= i < trail.len() implies (#[trigger] trail[i]).stuck
            && trail[i].pos == trail[0].pos by {
            if i > 0 {
                assert(rest[i - 1] == trail[i]);
            }
        }
    }
}

/// Agent that uses A* pathfinding to move toward the goal.
pub struct AStarAgent {
    pos: Position,
    path: Vec<(usize, usize)>,
    path_index: usize,
    /// Set to true if we determined there is no path to the goal under the
    /// current grid configuration.
    stuck: bool,
    /// Max node expansions for bounded A*. `None` = unlimited.
    planning_limit: Option<usize>,
    memory: SpatialMemory,
    noise_triggered: bool,
}

impl View for AStarAgent {
    type V = SearchView;

    closed spec fn view(&self) -> SearchView {
        SearchView {
            pos: self.pos,
            path: self.path@,
            cursor: self.path_index,
            stuck: self.stuck,
            limit: self.planning_limit,
            memory: self.memory@,
            capacity: self.memory.capacity(),
            noise_triggered: self.noise_triggered,
        }
    }
}

impl AStarAgent {
    /// Validity of an agent: the cursor can be moved on, and the memory is
    /// valid.
    #[verifier::type_invariant]
    pub closed spec fn wf(&self) -> bool {
        self.path_index < usize::MAX && self.memory.wf()
    }

    /// An agent at the given cell, without a planning limit and without
    /// memory.
    pub fn new(start_x: usize, start_y: usize) -> (agent: AStarAgent)
        ensures
            agent.wf(),
            agent@ == (SearchView {
                pos: Position { x: start_x, y: start_y },
                path: Seq::empty(),
                cursor: 0,
                stuck: false,
                limit: None,
                memory: Seq::empty(),
                capacity: 0,
                noise_triggered: false,
            }),
    {
        AStarAgent::with_limits(start_x, start_y, None, 0)
    }

    /// Create an A* agent with a bounded planning limit.
    pub fn with_planning_limit(start_x: usize, start_y: usize, limit: usize) -> (agent: AStarAgent)
        ensures
            agent.wf(),
            agent@ == (SearchView {
                pos: Position { x: start_x, y: start_y },
                path: Seq::empty(),
                cursor: 0,
                stuck: false,
                limit: Some(limit),
                memory: Seq::empty(),
                capacity: 0,
                noise_triggered: false,
            }),
    {
        AStarAgent::with_limits(start_x, start_y, Some(limit), 0)
    }

    /// Create an A* agent with an optional planning limit and a memory of the
    /// given capacity.
    pub fn with_limits(
        start_x: usize,
        start_y: usize,
        planning_limit: Option<usize>,
        memory_capacity: usize,
    ) -> (agent: AStarAgent)
        ensures
            agent.wf(),
            agent@ == (SearchView {
                pos: Position { x: start_x, y: start_y },
                path: Seq::empty(),
                cursor: 0,
                stuck: false,
                limit: planning_limit,
                memory: Seq::empty(),
                capacity: memory_capacity,
                noise_triggered: false,
            }),
    {
        AStarAgent {
            pos: Position { x: start_x, y: start_y },
            path: Vec::new(),
            path_index: 0,
            stuck: false,
            planning_limit,
            memory: SpatialMemory::new(memory_capacity),
            noise_triggered: false,
        }
    }

    /// Where the agent stands.
    pub fn position(&self) -> (pos: Position)
        ensures
            pos == self@.pos,
    {
        self.pos
    }

    /// Whether the agent has determined that no path exists and stopped
    /// trying.
    pub fn is_stuck(&self) -> (stuck: bool)
        ensures
            stuck == self@.stuck,
    {
        self.stuck
    }

    /// Whether decision noise moved the agent in the last tick.
    pub fn did_noise_trigger(&self) -> (fired: bool)
        ensures
            fired == self@.noise_triggered,
    {
        self.noise_triggered
    }

    /// The expansion cap of the planner, if any.
    pub fn planning_limit(&self) -> (limit: Option<usize>)
        ensures
            limit == self@.limit,
    {
        self.planning_limit
    }

    /// The number of cells of the path from the last planning call.
    pub fn path_len(&self) -> (n: usize)
        ensures
            n == self@.path.len(),
    {
        self.path.len()
    }

    /// Update the agent: if we don't have a path, compute one. Then advance
    /// one step along the path toward the goal. `noise_fired` says whether
    /// this tick's noise draw fell below the agent's noise level.
    pub fn update(&mut self, grid: &Grid, noise_fired: bool)
        ensures
            final(self).wf(),
            tick_allows(old(self)@, grid, noise_fired, final(self)@),
    {
        proof {
            use_type_invariant(&*self);
            use_type_invariant(grid);
        }
        self.noise_triggered = false;
        // Record current position in memory.
        let mut memory = SpatialMemory::new(0);
        std::mem::swap(&mut memory, &mut self.memory);
        memory.record(self.pos);
        self.memory = memory;

        // If we already know there's no path, do nothing.
        if self.stuck {
            return ;
        }
        // Already at goal.

        let goal = grid.goal();
        if self.pos == goal {
            return ;
        }
        // Plan a path if needed or if we've exhausted the previous plan.

        if self.path.len() == 0 || self.path_index + 1 >= self.path.len() {
            match find_path((self.pos.x, self.pos.y), (goal.x, goal.y), grid, self.planning_limit) {
                Some(path) => {
                    self.path = path;
                    self.path_index = 0;
                },
                None => {
                    // Mark as stuck so we don't keep re-planning every tick.
                    self.stuck = true;
                    return ;
                },
            }
        }
        // Move along the path by one step, if possible.

        if self.path_index + 1 < self.path.len() {
            // Decision noise.
            if noise_fired {
                match grid.random_walkable_neighbor(self.pos.x, self.pos.y) {
                    Some(n) => {
                        proof {
                            grid.lemma_open_neighbors(
                                self.pos.x as int,
                                self.pos.y as int,
                                Position { x: n.0, y: n.1 },
                            );
                        }
                        self.pos = Position { x: n.0, y: n.1 };
                        // Invalidate path so we re-plan next tick.
                        self.path = Vec::new();
                        self.noise_triggered = true;
                        return ;
                    },
                    None => {},
                }
            }
            self.path_index += 1;
            let next = self.path[self.path_index];
            self.pos = Position { x: next.0, y: next.1 };
        }
    }
}

impl Agent for AStarAgent {
    open spec fn spec_position(&self) -> Position {
        self@.pos
    }

    open spec fn spec_is_stuck(&self) -> bool {
        self@.stuck
    }

    open spec fn spec_energy(&self) -> Option<u32> {
        None
    }

    open spec fn spec_noise_triggered(&self) -> bool {
        self@.noise_triggered
    }

    open spec fn spec_planning_radius(&self) -> Option<usize> {
        self@.limit
    }

    fn update(&mut self, grid: &Grid, noise_fired: bool)
        ensures
            tick_allows(old(self)@, grid, noise_fired, final(self)@),
    {
        self.update(grid, noise_fired);
    }

    fn position(&self) -> (pos: Position) {
        self.pos
    }

    fn name(&self) -> (name: &'static str)
        ensures
            name@ == "AStar"@,
    {
        "AStar"
    }

    fn is_stuck(&self) -> (stuck: bool) {
        self.stuck
    }

    fn energy(&self) -> (energy: Option<u32>) {
        None
    }

    /// "Stuck" for a stuck agent; for another, "Path len: " and the number
    /// of cells of its path.
    fn debug_state(&self) -> (text: String)
        ensures
            self@.stuck ==> text@ == "Stuck"@,
            !self@.stuck ==> "Path len: "@.is_prefix_of(text@),
    {
        if self.stuck {
            "Stuck".to_string()
        } else {
            let mut text = "Path len: ".to_string();
            let cells = self.path.len().to_string();
            text.append(cells.as_str());
            text
        }
    }

    fn did_noise_trigger(&self) -> (fired: bool) {
        self.noise_triggered
    }

    fn planning_radius(&self) -> (radius: Option<usize>) {
        self.planning_limit
    }
}

} // verus!
