//! The finite-state controller: an agent that explores at random, rests when
//! its energy runs low, and stops for good once it stands on the goal.

use vstd::prelude::*;
use crate::agents::Agent;
use crate::agents::memory::SpatialMemory;
use crate::agents::memory::recorded;
use crate::chance::pick;
use crate::engine::grid::Grid;
use crate::engine::position::Position;
use crate::engine::position::lemma_manhattan_step;

verus! {

/// FSM states for the agent.
#[derive(Debug, Clone, Copy, PartialEq, Eq, Structural)]
pub enum FSMState {
    Exploring,
    Resting,
    FoundGoal,
}

/// Simple action enum produced by the decision function.
#[derive(Debug, Clone, Copy, PartialEq, Eq, Structural)]
pub enum Action {
    MoveRandomly,
    Rest,
    /// Nothing to do.
    Idle,
}

/// What an FSM agent is, as plain values.
pub struct FsmView {
    pub pos: Position,
    pub state: FSMState,
    pub energy: u32,
    /// The remembered positions, oldest first.
    pub memory: Seq<Position>,
    /// The capacity of the memory.
    pub capacity: usize,
    /// Whether decision noise moved the agent in the last tick.
    pub noise_triggered: bool,
}

/// The energy after a move: one less, and never below zero.
pub open spec fn drained(energy: u32) -> u32 {
    if energy > 0 {
        (energy - 1) as u32
    } else {
        0
    }
}

/// The energy after a rest: ten more, and never above one hundred.
pub open spec fn rested(energy: u32) -> u32 {
    if energy + 10 <= 100 {
        (energy + 10) as u32
    } else {
        100
    }
}

/// The state after the transitions that depend on energy: an exploring agent
/// with less than ten energy rests, and a resting agent with full energy
/// explores.
pub open spec fn transition(state: FSMState, energy: u32) -> FSMState {
    match state {
        FSMState::Exploring => if energy < 10 {
            FSMState::Resting
        } else {
            FSMState::Exploring
        },
        FSMState::Resting => if energy >= 100 {
            FSMState::Exploring
        } else {
            FSMState::Resting
        },
        FSMState::FoundGoal => FSMState::FoundGoal,
    }
}

/// The action that an agent selects, from its state, its energy and whether
/// it stands on the goal.
pub open spec fn selected(state: FSMState, energy: u32, at_goal: bool) -> Action {
    if state == FSMState::FoundGoal || at_goal {
        Action::Idle
    } else {
        match state {
            FSMState::Exploring => if energy < 10 {
                Action::Rest
            } else {
                Action::MoveRandomly
            },
            FSMState::Resting => Action::Rest,
            FSMState::FoundGoal => Action::Idle,
        }
    }
}

/// The neighbors that are not in memory, in their order.
pub open spec fn unvisited(neighbors: Seq<Position>, memory: Seq<Position>) -> Seq<Position> {
    neighbors.filter(|p: Position| !memory.contains(p))
}

/// The cells among which a random move chooses: the neighbors that are not in
/// memory if there is one, and all neighbors if not.
pub open spec fn pool(neighbors: Seq<Position>, memory: Seq<Position>) -> Seq<Position> {
    if unvisited(neighbors, memory).len() == 0 {
        neighbors
    } else {
        unvisited(neighbors, memory)
    }
}

/// Whether a random move may end on `p`: it is one of the neighbors, and it is
/// not in memory if any neighbor is not.
pub open spec fn novel_choice(neighbors: Seq<Position>, memory: Seq<Position>, p: Position) -> bool {
    &&& neighbors.contains(p)
    &&& (exists|q: Position| neighbors.contains(q) && !memory.contains(q)) ==> !memory.contains(p)
}

/// Novelty preference: a cell is in the pool of a random move exactly if it is
/// a neighbor, and not in memory if any neighbor is not.
pub proof fn lemma_pool(neighbors: Seq<Position>, memory: Seq<Position>, p: Position)
    ensures
        pool(neighbors, memory).contains(p) <==> novel_choice(neighbors, memory, p),
{
    let fresh = |q: Position| !memory.contains(q);
    let kept = unvisited(neighbors, memory);
    neighbors.lemma_filter_len(fresh);
    assert forall|i: int| 0 <= i < kept.len() implies fresh(#[trigger] kept[i])
        && neighbors.contains(kept[i]) by {
        neighbors.lemma_filter_pred(fresh, i);
        neighbors.lemma_filter_contains_rev(fresh, kept[i]);
    }
    assert forall|i: int| 0 <= i < neighbors.len() && fresh(neighbors[i]) implies kept.contains(
        #[trigger] neighbors[i],
    ) by {
        neighbors.lemma_filter_contains(fresh, i);
    }
    if pool(neighbors, memory).contains(p) {
        if kept.len() == 0 {
            if exists|q: Position| neighbors.contains(q) && !memory.contains(q) {
                let q = choose|q: Position| neighbors.contains(q) && !memory.contains(q);
                let i = choose|i: int| 0 <= i < neighbors.len() && neighbors[i] == q;
                assert(kept.contains(neighbors[i]));
            }
        } else {
            let i = choose|i: int| 0 <= i < kept.len() && kept[i] == p;
            assert(fresh(kept[i]));
        }
    }
    if novel_choice(neighbors, memory, p) {
        if kept.len() > 0 {
            assert(neighbors.contains(kept[0]) && fresh(kept[0]));
            let i = choose|i: int| 0 <= i < neighbors.len() && neighbors[i] == p;
            assert(kept.contains(neighbors[i]));
        }
    }
}

/// Whether one tick on the grid may lead an agent from `pre` to `post`, given
/// whether this tick's noise draw fell below the agent's noise level.
///
/// The agent first records where it stands. An agent on the goal that has not
/// found it yet enters `FoundGoal`, and the tick ends. Otherwise the state
/// follows the energy, and an action is selected. If noise fired and the
/// agent has a walkable neighbor, it moves to one of them instead, at the cost
/// of one energy. If not, the action is carried out: a random move to a
/// cell of the pool, which prefers neighbors not in memory, at the cost of one
/// energy, or nothing if the agent is boxed in; a rest; or nothing.
pub open spec fn tick_allows(pre: FsmView, grid: &Grid, noise_fired: bool, post: FsmView) -> bool {
    let memory = recorded(pre.memory, pre.capacity as nat, pre.pos);
    let at_goal = pre.pos == grid.goal();
    let neighbors = grid.open_neighbors(pre.pos.x as int, pre.pos.y as int);
    let state = transition(pre.state, pre.energy);
    let quiet = FsmView { memory, noise_triggered: false, ..pre };
    if at_goal && pre.state != FSMState::FoundGoal {
        post == (FsmView { state: FSMState::FoundGoal, ..quiet })
    } else if noise_fired && neighbors.len() > 0 {
        &&& neighbors.contains(post.pos)
        &&& post == (FsmView {
            pos: post.pos,
            state,
            energy: drained(pre.energy),
            noise_triggered: true,
            ..quiet
        })
    } else {
        match selected(state, pre.energy, at_goal) {
            Action::MoveRandomly => if neighbors.len() == 0 {
                post == (FsmView { state, ..quiet })
            } else {
                &&& pool(neighbors, memory).contains(post.pos)
                &&& post == (FsmView {
                    pos: post.pos,
                    state,
                    energy: drained(pre.energy),
                    ..quiet
                })
            },
            Action::Rest => post == (FsmView { state, energy: rested(pre.energy), ..quiet }),
            Action::Idle => post == (FsmView { state, ..quiet }),
        }
    }
}

/// FSM-based agent with optional memory of the cells it visited.
pub struct FSMAgent {
    pos: Position,
    state: FSMState,
    energy: u32,
    /// Visited-cell memory with bounded capacity.
    memory: SpatialMemory,
    noise_triggered: bool,
}

impl View for FSMAgent {
    type V = FsmView;

    closed spec fn view(&self) -> FsmView {
        FsmView {
            pos: self.pos,
            state: self.state,
            energy: self.energy,
            memory: self.memory@,
            capacity: self.memory.capacity(),
            noise_triggered: self.noise_triggered,
        }
    }
}

impl FSMAgent {
    /// Validity of an agent: its energy is at most one hundred, and its memory
    /// is valid.
    #[verifier::type_invariant]
    pub closed spec fn wf(&self) -> bool {
        self.energy <= 100 && self.memory.wf()
    }

    /// Validity in terms of the view.
    pub proof fn lemma_wf(&self)
        requires
            self.wf(),
        ensures
            self@.energy <= 100,
            self@.memory.len() <= self@.capacity,
    {
        self.memory.lemma_wf();
    }

    /// Create a new FSM agent at the given starting coordinates, with full
    /// energy and without memory.
    pub fn new(start_x: usize, start_y: usize) -> (agent: FSMAgent)
        ensures
            agent.wf(),
            agent@ == (FsmView {
                pos: Position { x: start_x, y: start_y },
                state: FSMState::Exploring,
                energy: 100,
                memory: Seq::empty(),
                capacity: 0,
                noise_triggered: false,
            }),
    {
        FSMAgent::with_memory(start_x, start_y, 0)
    }

    /// Create an FSM agent that remembers up to `memory_capacity` visited
    /// cells.
    pub fn with_memory(start_x: usize, start_y: usize, memory_capacity: usize) -> (agent: FSMAgent)
        ensures
            agent.wf(),
            agent@ == (FsmView {
                pos: Position { x: start_x, y: start_y },
                state: FSMState::Exploring,
                energy: 100,
                memory: Seq::empty(),
                capacity: memory_capacity,
                noise_triggered: false,
            }),
    {
        FSMAgent {
            pos: Position { x: start_x, y: start_y },
            state: FSMState::Exploring,
            energy: 100,
            memory: SpatialMemory::new(memory_capacity),
            noise_triggered: false,
        }
    }

    /// The state of the controller.
    pub fn state(&self) -> (state: FSMState)
        ensures
            state == self@.state,
    {
        self.state
    }

    /// The energy, between 0 and 100.
    pub fn energy(&self) -> (energy: u32)
        ensures
            energy == self@.energy,
            energy <= 100,
    {
        proof {
            use_type_invariant(self);
        }
        self.energy
    }

    /// Where the agent stands.
    pub fn position(&self) -> (pos: Position)
        ensures
            pos == self@.pos,
    {
        self.pos
    }

    /// Whether decision noise moved the agent in the last tick.
    pub fn did_noise_trigger(&self) -> (fired: bool)
        ensures
            fired == self@.noise_triggered,
    {
        self.noise_triggered
    }

    /// Decide the next high-level action based on current state, internal
    /// energy, and environment.
    pub fn decide_next_action(&self, grid: &Grid) -> (action: Action)
        ensures
            action == selected(self@.state, self@.energy, self@.pos == grid.goal()),
    {
        // If we've already reached the goal, no further actions.
        if self.state == FSMState::FoundGoal || self.pos == grid.goal() {
            return Action::Idle;
        }
        match self.state {
            FSMState::Exploring => {
                if self.energy < 10 {
                    Action::Rest
                } else {
                    Action::MoveRandomly
                }
            },
            // While resting we don't move; once energy is high enough the
            // state machine will switch back to Exploring.
            FSMState::Resting => Action::Rest,
            FSMState::FoundGoal => Action::Idle,
        }
    }

    /// Advance the agent by one tick: handle transitions and perform the
    /// selected action. `noise_fired` says whether this tick's noise draw fell
    /// below the agent's noise level.
    pub fn update(&mut self, grid: &Grid, noise_fired: bool)
        ensures
            final(self).wf(),
            tick_allows(old(self)@, grid, noise_fired, final(self)@),
    {
        proof {
            use_type_invariant(&*self);
        }
        self.noise_triggered = false;
        // Record current position in memory.
        let mut memory = SpatialMemory::new(0);
        std::mem::swap(&mut memory, &mut self.memory);
        memory.record(self.pos);
        self.memory = memory;

        // Check for goal condition first.
        if self.pos == grid.goal() && self.state != FSMState::FoundGoal {
            self.state = FSMState::FoundGoal;
            return ;
        }
        // State transitions based on energy.

        match self.state {
            FSMState::Exploring => {
                if self.energy < 10 {
                    self.state = FSMState::Resting;
                }
            },
            FSMState::Resting => {
                if self.energy >= 100 {
                    self.state = FSMState::Exploring;
                }
            },
            FSMState::FoundGoal => {},
        }

        let action = self.decide_next_action(grid);

        // Decision noise.
        if noise_fired {
            match grid.random_walkable_neighbor(self.pos.x, self.pos.y) {
                Some(n) => {
                    proof {
                        use_type_invariant(grid);
                        grid.lemma_open_neighbors(
                            self.pos.x as int,
                            self.pos.y as int,
                            Position { x: n.0, y: n.1 },
                        );
                    }
                    self.pos = Position { x: n.0, y: n.1 };
                    if self.energy > 0 {
                        self.energy -= 1;
                    }
                    self.noise_triggered = true;
                    return ;
                },
                None => {},
            }
        }
        match action {
            Action::MoveRandomly => {
                self.move_randomly(grid);
            },
            Action::Rest => {
                // Resting recovers energy.
                self.energy = if self.energy + 10 < 100 {
                    self.energy + 10
                } else {
                    100
                };
            },
            Action::Idle => {
                // Do nothing (e.g., FoundGoal).
            },
        }
    }

    /// The cells among which a random move chooses: the walkable neighbors
    /// that are not in memory if there is one, and all walkable neighbors if
    /// not.
    pub fn move_candidates(&self, grid: &Grid) -> (list: Vec<Position>)
        ensures
            list@ == pool(
                grid.open_neighbors(self@.pos.x as int, self@.pos.y as int),
                self@.memory,
            ),
    {
        // Collect all valid neighbors.
        let candidates = grid.neighbors(self.pos.x, self.pos.y);
        // Prefer unvisited cells if memory is active.
        let ghost fresh = |p: Position| !self.memory@.contains(p);
        let mut unvisited: Vec<Position> = Vec::new();
        let mut k: usize = 0;
        proof {
            reveal(Seq::filter);
            assert(candidates@.take(0).filter(fresh) =~= Seq::<Position>::empty());
        }
        while k < candidates.len()
            invariant
                k <= candidates@.len(),
                fresh == |p: Position| !self.memory@.contains(p),
                unvisited@ == candidates@.take(k as int).filter(fresh),
            decreases candidates@.len() - k,
        {
            proof {
                reveal(Seq::filter);
                assert(candidates@.take(k + 1).drop_last() =~= candidates@.take(k as int));
            }
            if !self.memory.contains(&candidates[k]) {
                unvisited.push(candidates[k]);
            }
            k += 1;
        }
        proof {
            assert(candidates@.take(candidates@.len() as int) =~= candidates@);
        }
        if unvisited.len() == 0 {
            candidates
        } else {
            unvisited
        }
    }

    /// Moves to a cell of the pool chosen at random, at the cost of one
    /// energy. An agent without a walkable neighbor does nothing.
    fn move_randomly(&mut self, grid: &Grid)
        requires
            old(self).wf(),
        ensures
            final(self).wf(),
            grid.open_neighbors(old(self)@.pos.x as int, old(self)@.pos.y as int).len() == 0
                ==> final(self)@ == old(self)@,
            grid.open_neighbors(old(self)@.pos.x as int, old(self)@.pos.y as int).len() > 0 ==> {
                &&& pool(
                    grid.open_neighbors(old(self)@.pos.x as int, old(self)@.pos.y as int),
                    old(self)@.memory,
                ).contains(final(self)@.pos)
                &&& final(self)@ == (FsmView {
                    pos: final(self)@.pos,
                    energy: drained(old(self)@.energy),
                    ..old(self)@
                })
            },
    {
        let candidates = self.move_candidates(grid);
        match pick(&candidates) {
            Some(next) => {
                self.pos = next;
                // Exploring costs a bit of energy.
                if self.energy > 0 {
                    self.energy -= 1;
                }
            },
            None => {},
        }
    }
}

impl Agent for FSMAgent {
    open spec fn spec_position(&self) -> Position {
        self@.pos
    }

    open spec fn spec_is_stuck(&self) -> bool {
        false
    }

    open spec fn spec_energy(&self) -> Option<u32> {
        Some(self@.energy)
    }

    open spec fn spec_noise_triggered(&self) -> bool {
        self@.noise_triggered
    }

    open spec fn spec_planning_radius(&self) -> Option<usize> {
        None
    }

    fn update(&mut self, grid: &Grid, noise_fired: bool)
        ensures
            tick_allows(old(self)@, grid, noise_fired, final(self)@),
    {
        self.update(grid, noise_fired);
    }

    fn position(&self) -> (pos: Position) {
        self.pos
    }

    fn name(&self) -> (name: &'static str)
        ensures
            name@ == "FSM"@,
    {
        "FSM"
    }

    fn is_stuck(&self) -> (stuck: bool) {
        false
    }

    fn energy(&self) -> (energy: Option<u32>) {
        proof {
            use_type_invariant(self);
        }
        Some(self.energy)
    }

    /// The name of the state.
    fn debug_state(&self) -> (text: String)
        ensures
            text@ == match self@.state {
                FSMState::Exploring => "Exploring"@,
                FSMState::Resting => "Resting"@,
                FSMState::FoundGoal => "FoundGoal"@,
            },
    {
        match self.state {
            FSMState::Exploring => "Exploring".to_string(),
            FSMState::Resting => "Resting".to_string(),
            FSMState::FoundGoal => "FoundGoal".to_string(),
        }
    }

    fn did_noise_trigger(&self) -> (fired: bool) {
        self.noise_triggered
    }

    fn planning_radius(&self) -> (radius: Option<usize>) {
        None
    }
}

/// A resting agent with full energy that does not stand on the goal explores
/// after the next tick.
pub proof fn lemma_rested_agent_explores(
    pre: FsmView,
    grid: &Grid,
    noise_fired: bool,
    post: FsmView,
)
    requires
        pre.state == FSMState::Resting,
        pre.energy >= 100,
        pre.pos != grid.goal(),
        tick_allows(pre, grid, noise_fired, post),
    ensures
        post.state == FSMState::Exploring,
{
}

/// An exploring agent with less than ten energy that does not stand on the
/// goal rests after the next tick.
pub proof fn lemma_tired_agent_rests(pre: FsmView, grid: &Grid, noise_fired: bool, post: FsmView)
    requires
        pre.state == FSMState::Exploring,
        pre.energy < 10,
        pre.pos != grid.goal(),
        tick_allows(pre, grid, noise_fired, post),
    ensures
        post.state == FSMState::Resting,
{
}

/// An agent that stands on the goal, or has found it before, is in
/// `FoundGoal` after the next tick.
pub proof fn lemma_goal_found(pre: FsmView, grid: &Grid, noise_fired: bool, post: FsmView)
    requires
        pre.pos == grid.goal() || pre.state == FSMState::FoundGoal,
        tick_allows(pre, grid, noise_fired, post),
    ensures
        post.state == FSMState::FoundGoal,
{
}

/// Once an agent stands on the goal, it is in `FoundGoal` after every later
/// tick, whatever the noise: `trail` holds the agent before the first tick and
/// after each one.
pub proof fn lemma_found_goal_forever(grid: &Grid, trail: Seq<FsmView>, noise: Seq<bool>)
    requires
        trail.len() == noise.len() + 1,
        trail[0].pos == grid.goal() || trail[0].state == FSMState::FoundGoal,
        forall|i: int|
            0 <= i < noise.len() ==> tick_allows(#[trigger] trail[i], grid, noise[i], trail[i + 1]),
    ensures
        forall|i: int| 0 < i < trail.len() ==> (#[trigger] trail[i]).state == FSMState::FoundGoal,
    decreases noise.len(),
{
    if noise.len() > 0 {
        let n = noise.len() as int;
        assert(tick_allows(trail[0], grid, noise[0], trail[1]));
        lemma_goal_found(trail[0], grid, noise[0], trail[1]);
        let rest = trail.drop_first();
        let later = noise.drop_first();
        assert forall|i: int| 0 <= i < later.len() implies tick_allows(
            #[trigger] rest[i],
            grid,
            later[i],
            rest[i + 1],
        ) by {
            assert(tick_allows(trail[i + 1], grid, noise[i + 1], trail[i + 2]));
        }
        lemma_found_goal_forever(grid, rest, later);
        assert forall|i: int| 0 < i < trail.len() implies (#[trigger] trail[i]).state
            == FSMState::FoundGoal by {
            if i > 1 {
                assert(rest[i - 1] == trail[i]);
            }
        }
    }
}

/// A tick keeps the energy between 0 and 100, and moves the agent by one
/// step to a walkable cell or not at all.
pub proof fn lemma_tick_bounds(pre: FsmView, grid: &Grid, noise_fired: bool, post: FsmView)
    requires
        grid.wf(),
        pre.energy <= 100,
        tick_allows(pre, grid, noise_fired, post),
    ensures
        post.energy <= 100,
        post.capacity == pre.capacity,
        post.pos == pre.pos || (pre.pos.touches(post.pos) && grid.passable(post.pos)),
{
    if post.pos != pre.pos {
        lemma_pool(
            grid.open_neighbors(pre.pos.x as int, pre.pos.y as int),
            recorded(pre.memory, pre.capacity as nat, pre.pos),
            post.pos,
        );
        grid.lemma_open_neighbors(pre.pos.x as int, pre.pos.y as int, post.pos);
    }
}

/// A tick moves the agent by one step to a walkable cell or not at all.
pub proof fn lemma_tick_step(pre: FsmView, grid: &Grid, noise_fired: bool, post: FsmView)
    requires
        grid.wf(),
        tick_allows(pre, grid, noise_fired, post),
    ensures
        post.pos == pre.pos || (pre.pos.touches(post.pos) && grid.passable(post.pos)),
{
    if post.pos != pre.pos {
        lemma_pool(
            grid.open_neighbors(pre.pos.x as int, pre.pos.y as int),
            recorded(pre.memory, pre.capacity as nat, pre.pos),
            post.pos,
        );
        grid.lemma_open_neighbors(pre.pos.x as int, pre.pos.y as int, post.pos);
    }
}

/// No agent arrives sooner than its distance allows: after `i` ticks it is at
/// most `i` steps nearer to the goal than it was. `trail` holds the agent
/// before the first tick and after each one.
pub proof fn lemma_no_shortcut(grid: &Grid, trail: Seq<FsmView>, noise: Seq<bool>)
    requires
        grid.wf(),
        trail.len() == noise.len() + 1,
        forall|i: int|
            0 <= i < noise.len() ==> tick_allows(#[trigger] trail[i], grid, noise[i], trail[i + 1]),
    ensures
        forall|i: int|
            0 <= i < trail.len() ==> trail[0].pos.distance(grid.goal()) <= (
            #[trigger] trail[i]).pos.distance(grid.goal()) + i,
    decreases noise.len(),
{
    if noise.len() > 0 {
        let n = noise.len() as int;
        let earlier = trail.drop_last();
        let before = noise.drop_last();
        assert forall|i: int| 0 <= i < before.len() implies tick_allows(
            #[trigger] earlier[i],
            grid,
            before[i],
            earlier[i + 1],
        ) by {
            assert(tick_allows(trail[i], grid, noise[i], trail[i + 1]));
        }
        lemma_no_shortcut(grid, earlier, before);
        assert(tick_allows(trail[n - 1], grid, noise[n - 1], trail[n]));
        lemma_tick_step(trail[n - 1], grid, noise[n - 1], trail[n]);
        let goal = grid.goal();
        let a = trail[n - 1].pos;
        let b = trail[n].pos;
        if a != b {
            lemma_manhattan_step(
                a.x as int,
                a.y as int,
                b.x as int,
                b.y as int,
                goal.x as int,
                goal.y as int,
            );
        }
        assert forall|i: int| 0 <= i < trail.len() implies trail[0].pos.distance(grid.goal()) <= (
        #[trigger] trail[i]).pos.distance(grid.goal()) + i by {
            if i < n {
                assert(earlier[i] == trail[i]);
            } else {
                assert(earlier[n - 1] == trail[n - 1]);
            }
        }
    }
}

} // verus!
