//! A world with several agents on one grid.

use vstd::prelude::*;
use crate::agents::Agent;
use crate::agents::AnyAgent;
use crate::agents::tick_allows;

pub use crate::engine::grid::Grid;
pub use crate::engine::position::Position;

verus! {

/// The number of agents among the first `n` that stand on `goal`.
pub open spec fn count_at(agents: Seq<AnyAgent>, goal: Position, n: nat) -> nat
    decreases n,
{
    if n == 0 || n > agents.len() {
        0
    } else {
        count_at(agents, goal, (n - 1) as nat) + if agents[n - 1].spec_position() == goal {
            1nat
        } else {
            0nat
        }
    }
}

/// No more agents stand on the goal than there are, and all of them do
/// exactly when each one does.
pub proof fn lemma_count_at(agents: Seq<AnyAgent>, goal: Position, n: nat)
    requires
        n <= agents.len(),
    ensures
        count_at(agents, goal, n) <= n,
        count_at(agents, goal, n) == n <==> forall|i: int|
            0 <= i < n ==> (#[trigger] agents[i]).spec_position() == goal,
    decreases n,
{
    if n > 0 {
        lemma_count_at(agents, goal, (n - 1) as nat);
    }
}

/// Whether this tick's noise draw fired for agent `i`: what the list says, and
/// no for an agent that the list does not reach.
pub open spec fn fired_for(noise: Seq<bool>, i: int) -> bool {
    0 <= i < noise.len() && noise[i]
}

/// A world that holds multiple agents navigating the same grid.
pub struct MultiWorld {
    pub grid: Grid,
    pub agents: Vec<AnyAgent>,
    pub step: usize,
}

impl MultiWorld {
    /// Create a multi-agent world from a pre-built grid and a list of agents.
    pub fn new(grid: Grid, agents: Vec<AnyAgent>) -> (world: MultiWorld)
        ensures
            world.grid == grid,
            world.agents == agents,
            world.step == 0,
    {
        MultiWorld { grid, agents, step: 0 }
    }

    /// Advance every agent by one tick, in the order of the list. Entry `i`
    /// of `noise` says whether this tick's noise draw fired for agent `i`; an
    /// agent without an entry gets no noise.
    pub fn update(&mut self, noise: &[bool])
        requires
            old(self).step < usize::MAX,
        ensures
            final(self).step == old(self).step + 1,
            final(self).grid == old(self).grid,
            final(self).agents@.len() == old(self).agents@.len(),
            forall|i: int|
                0 <= i < old(self).agents@.len() ==> tick_allows(
                    #[trigger] old(self).agents@[i],
                    &old(self).grid,
                    fired_for(noise@, i),
                    final(self).agents@[i],
                ),
    {
        let mut i: usize = 0;
        while i < self.agents.len()
            invariant
                i <= self.agents@.len(),
                self.agents@.len() == old(self).agents@.len(),
                self.grid == old(self).grid,
                self.step == old(self).step,
                forall|j: int| i <= j < self.agents@.len() ==> self.agents@[j] == old(self).agents@[j],
                forall|j: int|
                    0 <= j < i ==> tick_allows(
                        #[trigger] old(self).agents@[j],
                        &old(self).grid,
                        fired_for(noise@, j),
                        self.agents@[j],
                    ),
            decreases self.agents@.len() - i,
        {
            let fired = i < noise.len() && noise[i];
            self.agents[i].update(&self.grid, fired);
            i += 1;
        }
        self.step += 1;
    }

    /// Check if a specific agent has reached the goal.
    pub fn agent_at_goal(&self, index: usize) -> (reached: bool)
        ensures
            reached == (index < self.agents@.len() && self.agents@[index as int].spec_position()
                == self.grid.goal()),
    {
        if index < self.agents.len() {
            self.agents[index].position() == self.grid.goal()
        } else {
            false
        }
    }

    /// Whether a specific agent is stuck. An index past the last agent names
    /// no agent, and none is stuck there.
    pub fn is_agent_stuck(&self, index: usize) -> (stuck: bool)
        ensures
            stuck == (index < self.agents@.len() && self.agents@[index as int].spec_is_stuck()),
    {
        if index < self.agents.len() {
            self.agents[index].is_stuck()
        } else {
            false
        }
    }

    /// Has any agent reached the goal?
    pub fn any_done(&self) -> (done: bool)
        ensures
            done == exists|i: int|
                0 <= i < self.agents@.len() && (#[trigger] self.agents@[i]).spec_position()
                    == self.grid.goal(),
    {
        let goal = self.grid.goal();
        let mut i: usize = 0;
        while i < self.agents.len()
            invariant
                i <= self.agents@.len(),
                goal == self.grid.goal(),
                forall|j: int| 0 <= j < i ==> (#[trigger] self.agents@[j]).spec_position() != goal,
            decreases self.agents@.len() - i,
        {
            if self.agents[i].position() == goal {
                return true;
            }
            i += 1;
        }
        false
    }

    /// How many agents have reached the goal?
    pub fn done_count(&self) -> (count: usize)
        ensures
            count == count_at(self.agents@, self.grid.goal(), self.agents@.len()),
            count <= self.agents@.len(),
    {
        let goal = self.grid.goal();
        let mut count: usize = 0;
        let mut i: usize = 0;
        while i < self.agents.len()
            invariant
                i <= self.agents@.len(),
                count <= i,
                goal == self.grid.goal(),
                count == count_at(self.agents@, goal, i as nat),
            decreases self.agents@.len() - i,
        {
            if self.agents[i].position() == goal {
                count += 1;
            }
            i += 1;
        }
        count
    }

    /// Are all agents at the goal?
    pub fn all_done(&self) -> (done: bool)
        ensures
            done == forall|i: int|
                0 <= i < self.agents@.len() ==> (#[trigger] self.agents@[i]).spec_position()
                    == self.grid.goal(),
    {
        proof {
            lemma_count_at(self.agents@, self.grid.goal(), self.agents@.len());
        }
        self.done_count() == self.agents.len()
    }
}

} // verus!
