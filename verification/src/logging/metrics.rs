use vstd::prelude::*;

verus! {

/// Summary of a single episode/run of an agent.
#[derive(Debug, Clone)]
pub struct EpisodeLog {
    /// Sequential episode index (0-based or 1-based, up to the caller).
    pub episode: u32,
    /// Human-readable agent type, e.g. "FSM", "AStar", "BehaviorTree".
    pub agent_type: String,
    /// Number of steps taken in the episode.
    pub steps: u32,
    /// Whether the agent reached the goal.
    pub success: bool,
    /// Agent's remaining energy at the end of the episode (0 for agents that
    /// do not track energy).
    pub energy_remaining: u32,
}

/// Optional per-step log for more detailed analysis.
#[derive(Debug, Clone)]
pub struct StepLog {
    pub episode: u32,
    pub step: u32,
    pub x: usize,
    pub y: usize,
    pub energy: u32,
}

} // verus!
