//! The agents and what they share.

use vstd::prelude::*;
use crate::agents::astar::AStarAgent;
use crate::agents::behavior_tree::BehaviorTreeAgent;
use crate::agents::behavior_tree::Status;
use crate::agents::behavior_tree::outcome;
use crate::agents::fsm::FSMAgent;
use crate::agents::fsm::FSMState;
use crate::engine::grid::Grid;
use crate::engine::position::Position;

pub mod astar;
pub mod behavior_tree;
pub mod fsm;
pub mod memory;

verus! {

/// What every agent can do and tell, whatever its strategy.
pub trait Agent {
    /// Where the agent stands.
    spec fn spec_position(&self) -> Position;

    /// Whether the agent has given up for good.
    spec fn spec_is_stuck(&self) -> bool;

    /// The agent's energy, if it tracks one.
    spec fn spec_energy(&self) -> Option<u32>;

    /// Whether decision noise moved the agent in the last tick.
    spec fn spec_noise_triggered(&self) -> bool;

    /// The expansion cap of the agent's planner, if it has one.
    spec fn spec_planning_radius(&self) -> Option<usize>;

    /// Advance the agent by exactly one tick. `noise_fired` says whether this
    /// tick's noise draw fell below the agent's noise level.
    ///
    /// A stuck agent stays stuck and does not move, energy stays between 0
    /// and 100, and noise is reported only where it fired.
    fn update(&mut self, grid: &Grid, noise_fired: bool)
        ensures
            old(self).spec_is_stuck() ==> final(self).spec_is_stuck(),
            old(self).spec_is_stuck() ==> final(self).spec_position() == old(self).spec_position(),
            final(self).spec_energy() is Some <==> old(self).spec_energy() is Some,
            final(self).spec_energy() matches Some(energy) ==> energy <= 100,
            final(self).spec_planning_radius() == old(self).spec_planning_radius(),
            final(self).spec_noise_triggered() ==> noise_fired,
    ;

    /// Where the agent stands.
    fn position(&self) -> (pos: Position)
        ensures
            pos == self.spec_position(),
    ;

    /// The name of the agent's strategy.
    fn name(&self) -> (name: &'static str);

    /// Whether the agent has given up for good. Only a search agent ever does.
    fn is_stuck(&self) -> (stuck: bool)
        ensures
            stuck == self.spec_is_stuck(),
    ;

    /// The agent's energy, if it tracks one.
    fn energy(&self) -> (energy: Option<u32>)
        ensures
            energy == self.spec_energy(),
            energy matches Some(level) ==> level <= 100,
    ;

    /// A free-form description of the agent's state.
    fn debug_state(&self) -> (text: String);

    /// Whether decision noise moved the agent in the last tick.
    fn did_noise_trigger(&self) -> (fired: bool)
        ensures
            fired == self.spec_noise_triggered(),
    ;

    /// The expansion cap of the agent's planner, if it has one: a hint for
    /// those who draw the agent.
    fn planning_radius(&self) -> (radius: Option<usize>)
        ensures
            radius == self.spec_planning_radius(),
    ;
}

/// An agent of any of the three strategies.
pub enum AnyAgent {
    Fsm(FSMAgent),
    AStar(AStarAgent),
    BehaviorTree(BehaviorTreeAgent),
}

/// Whether one tick on the grid may lead an agent from `pre` to `post`, given
/// whether this tick's noise draw fell below the agent's noise level: what the
/// agent's own strategy allows. A behavior tree does not look at the noise.
pub open spec fn tick_allows(pre: AnyAgent, grid: &Grid, noise_fired: bool, post: AnyAgent) -> bool {
    match (pre, post) {
        (AnyAgent::Fsm(a), AnyAgent::Fsm(b)) => crate::agents::fsm::tick_allows(
            a@,
            grid,
            noise_fired,
            b@,
        ),
        (AnyAgent::AStar(a), AnyAgent::AStar(b)) => crate::agents::astar::tick_allows(
            a@,
            grid,
            noise_fired,
            b@,
        ),
        (AnyAgent::BehaviorTree(a), AnyAgent::BehaviorTree(b)) => {
            &&& b.tree() == a.tree()
            &&& outcome(a.tree(), a@, grid, b@, Status::Success) || outcome(
                a.tree(),
                a@,
                grid,
                b@,
                Status::Failure,
            )
        },
        _ => false,
    }
}

impl Agent for AnyAgent {
    open spec fn spec_position(&self) -> Position {
        match self {
            AnyAgent::Fsm(agent) => agent.spec_position(),
            AnyAgent::AStar(agent) => agent.spec_position(),
            AnyAgent::BehaviorTree(agent) => agent.spec_position(),
        }
    }

    open spec fn spec_is_stuck(&self) -> bool {
        match self {
            AnyAgent::Fsm(agent) => agent.spec_is_stuck(),
            AnyAgent::AStar(agent) => agent.spec_is_stuck(),
            AnyAgent::BehaviorTree(agent) => agent.spec_is_stuck(),
        }
    }

    open spec fn spec_energy(&self) -> Option<u32> {
        match self {
            AnyAgent::Fsm(agent) => agent.spec_energy(),
            AnyAgent::AStar(agent) => agent.spec_energy(),
            AnyAgent::BehaviorTree(agent) => agent.spec_energy(),
        }
    }

    open spec fn spec_noise_triggered(&self) -> bool {
        match self {
            AnyAgent::Fsm(agent) => agent.spec_noise_triggered(),
            AnyAgent::AStar(agent) => agent.spec_noise_triggered(),
            AnyAgent::BehaviorTree(agent) => agent.spec_noise_triggered(),
        }
    }

    open spec fn spec_planning_radius(&self) -> Option<usize> {
        match self {
            AnyAgent::Fsm(agent) => agent.spec_planning_radius(),
            AnyAgent::AStar(agent) => agent.spec_planning_radius(),
            AnyAgent::BehaviorTree(agent) => agent.spec_planning_radius(),
        }
    }

    fn update(&mut self, grid: &Grid, noise_fired: bool)
        ensures
            tick_allows(*old(self), grid, noise_fired, *final(self)),
    {
        match self {
            AnyAgent::Fsm(agent) => Agent::update(agent, grid, noise_fired),
            AnyAgent::AStar(agent) => Agent::update(agent, grid, noise_fired),
            AnyAgent::BehaviorTree(agent) => Agent::update(agent, grid, noise_fired),
        }
    }

    fn position(&self) -> (pos: Position) {
        match self {
            AnyAgent::Fsm(agent) => Agent::position(agent),
            AnyAgent::AStar(agent) => Agent::position(agent),
            AnyAgent::BehaviorTree(agent) => Agent::position(agent),
        }
    }

    fn name(&self) -> (name: &'static str)
        ensures
            name@ == match self {
                AnyAgent::Fsm(_) => "FSM"@,
                AnyAgent::AStar(_) => "AStar"@,
                AnyAgent::BehaviorTree(_) => "BehaviorTree"@,
            },
    {
        match self {
            AnyAgent::Fsm(agent) => agent.name(),
            AnyAgent::AStar(agent) => agent.name(),
            AnyAgent::BehaviorTree(agent) => agent.name(),
        }
    }

    fn is_stuck(&self) -> (stuck: bool) {
        match self {
            AnyAgent::Fsm(agent) => Agent::is_stuck(agent),
            AnyAgent::AStar(agent) => Agent::is_stuck(agent),
            AnyAgent::BehaviorTree(agent) => Agent::is_stuck(agent),
        }
    }

    fn energy(&self) -> (energy: Option<u32>) {
        match self {
            AnyAgent::Fsm(agent) => Agent::energy(agent),
            AnyAgent::AStar(agent) => Agent::energy(agent),
            AnyAgent::BehaviorTree(agent) => Agent::energy(agent),
        }
    }

    /// The name of an FSM agent's state; "Stuck" or the length of its path
    /// for a search agent; "Running" for a behavior tree.
    fn debug_state(&self) -> (text: String)
        ensures
            match self {
                AnyAgent::Fsm(agent) => text@ == match agent@.state {
                    FSMState::Exploring => "Exploring"@,
                    FSMState::Resting => "Resting"@,
                    FSMState::FoundGoal => "FoundGoal"@,
                },
                AnyAgent::AStar(agent) => if agent@.stuck {
                    text@ == "Stuck"@
                } else {
                    "Path len: "@.is_prefix_of(text@)
                },
                AnyAgent::BehaviorTree(_) => text@ == "Running"@,
            },
    {
        match self {
            AnyAgent::Fsm(agent) => agent.debug_state(),
            AnyAgent::AStar(agent) => agent.debug_state(),
            AnyAgent::BehaviorTree(agent) => agent.debug_state(),
        }
    }

    fn did_noise_trigger(&self) -> (fired: bool) {
        match self {
            AnyAgent::Fsm(agent) => Agent::did_noise_trigger(agent),
            AnyAgent::AStar(agent) => Agent::did_noise_trigger(agent),
            AnyAgent::BehaviorTree(agent) => Agent::did_noise_trigger(agent),
        }
    }

    fn planning_radius(&self) -> (radius: Option<usize>) {
        match self {
            AnyAgent::Fsm(agent) => agent.planning_radius(),
            AnyAgent::AStar(agent) => agent.planning_radius(),
            AnyAgent::BehaviorTree(agent) => agent.planning_radius(),
        }
    }
}

} // verus!
