use vstd::prelude::*;
use crate::agents::Agent;
use crate::agents::AnyAgent;
use crate::agents::tick_allows;
use crate::agents::astar::AStarAgent;
use crate::agents::astar::SearchView;
use crate::agents::behavior_tree::BehaviorTreeAgent;
use crate::agents::behavior_tree::BtView;
use crate::agents::behavior_tree::is_default_policy;
use crate::agents::fsm::FSMAgent;
use crate::agents::fsm::FSMState;
use crate::agents::fsm::FsmView;
use crate::engine::grid::Grid;
use crate::engine::grid::scattered;
use crate::engine::position::Position;
use crate::logging::metrics::EpisodeLog;

verus! {

/// Which agent implementation to evaluate.
#[derive(Debug, Clone, Copy)]
pub enum AgentType {
    Fsm,
    AStar,
    BehaviorTree,
}

/// Configuration for a batch of episodes. The grid of each episode has its
/// goal in the corner opposite the start.
pub struct ExperimentConfig {
    pub episodes: u32,
    pub grid_width: usize,
    pub grid_height: usize,
    pub agent_type: AgentType,
    /// Maximum steps per episode before we declare failure.
    pub max_steps: u32,
}

impl ExperimentConfig {
    /// Whether a grid can be made to the configuration: both dimensions are
    /// positive, and the number of cells fits the machine word.
    pub open spec fn feasible(&self) -> bool {
        &&& 0 < self.grid_width
        &&& 0 < self.grid_height
        &&& self.grid_width * self.grid_height <= usize::MAX
    }

    /// The goal of the grids: the corner opposite the start.
    pub open spec fn goal(&self) -> Position {
        Position { x: (self.grid_width - 1) as usize, y: (self.grid_height - 1) as usize }
    }
}

impl Default for ExperimentConfig {
    /// A hundred episodes of the search agent on a grid of ten by five cells,
    /// with up to five hundred steps each.
    fn default() -> (config: ExperimentConfig)
        ensures
            config.episodes == 100,
            config.grid_width == 10,
            config.grid_height == 5,
            config.agent_type is AStar,
            config.max_steps == 500,
            config.feasible(),
    {
        ExperimentConfig {
            episodes: 100,
            grid_width: 10,
            grid_height: 5,
            agent_type: AgentType::AStar,
            max_steps: 500,
        }
    }
}

/// The name under which an agent type is logged.
pub open spec fn label(agent_type: AgentType) -> Seq<char> {
    match agent_type {
        AgentType::Fsm => "FSM"@,
        AgentType::AStar => "AStar"@,
        AgentType::BehaviorTree => "BehaviorTree"@,
    }
}

/// Whether the agent has arrived, as an episode counts it: an FSM agent when
/// it is in `FoundGoal`, any other when it stands on the goal.
pub open spec fn arrived(agent: AnyAgent, grid: &Grid) -> bool {
    match agent {
        AnyAgent::Fsm(fsm) => fsm@.state == FSMState::FoundGoal,
        _ => agent.spec_position() == grid.goal(),
    }
}

/// Whether the agent has arrived.
pub fn has_arrived(agent: &AnyAgent, grid: &Grid) -> (done: bool)
    ensures
        done == arrived(*agent, grid),
{
    match agent {
        AnyAgent::Fsm(fsm) => fsm.state() == FSMState::FoundGoal,
        _ => agent.position() == grid.goal(),
    }
}

/// Whether the agent is a fresh one of the given type at the start `(0, 0)`:
/// with full energy where it has energy, without memory, planning limit or
/// path, and with the default policy where it has a tree.
pub open spec fn is_fresh(agent: AnyAgent, agent_type: AgentType) -> bool {
    let origin = Position { x: 0, y: 0 };
    match agent_type {
        AgentType::Fsm => agent matches AnyAgent::Fsm(fsm) && fsm@ == (FsmView {
            pos: origin,
            state: FSMState::Exploring,
            energy: 100,
            memory: Seq::empty(),
            capacity: 0,
            noise_triggered: false,
        }),
        AgentType::AStar => agent matches AnyAgent::AStar(search) && search@ == (SearchView {
            pos: origin,
            path: Seq::empty(),
            cursor: 0,
            stuck: false,
            limit: None,
            memory: Seq::empty(),
            capacity: 0,
            noise_triggered: false,
        }),
        AgentType::BehaviorTree => agent matches AnyAgent::BehaviorTree(tree) && tree@ == (BtView {
            pos: origin,
            energy: 100,
        }) && is_default_policy(tree.tree()),
    }
}

/// A fresh agent of the given type at the start `(0, 0)`.
pub fn fresh_agent(agent_type: AgentType) -> (agent: AnyAgent)
    ensures
        is_fresh(agent, agent_type),
{
    match agent_type {
        AgentType::Fsm => AnyAgent::Fsm(FSMAgent::new(0, 0)),
        AgentType::AStar => AnyAgent::AStar(AStarAgent::new(0, 0)),
        AgentType::BehaviorTree => AnyAgent::BehaviorTree(BehaviorTreeAgent::new(0, 0)),
    }
}

/// Whether `trail` is the course of an episode on the grid: the agent before
/// the first tick and after each one, where each tick was made without noise
/// by an agent that had not arrived.
pub open spec fn is_course(trail: Seq<AnyAgent>, grid: &Grid) -> bool {
    &&& trail.len() > 0
    &&& forall|i: int|
        0 <= i < trail.len() - 1 ==> !arrived(#[trigger] trail[i], grid) && tick_allows(
            trail[i],
            grid,
            false,
            trail[i + 1],
        )
}

/// The energy that is logged for an agent: its own, or none for an agent that
/// does not track energy.
pub open spec fn logged_energy(agent: AnyAgent) -> u32 {
    match agent.spec_energy() {
        Some(energy) => energy,
        None => 0,
    }
}

/// Whether the log is that of the episode with the given course: a fresh
/// agent, as many steps as ticks were made and no more than allowed, success
/// exactly if the agent was seen to have arrived before its steps ran out, and
/// the energy that the agent has left.
pub open spec fn logs_course(
    log: EpisodeLog,
    trail: Seq<AnyAgent>,
    grid: &Grid,
    config: ExperimentConfig,
    episode_idx: u32,
) -> bool {
    &&& is_course(trail, grid)
    &&& is_fresh(trail[0], config.agent_type)
    &&& log.episode == episode_idx
    &&& log.agent_type@ == label(config.agent_type)
    &&& log.steps == trail.len() - 1
    &&& log.steps <= config.max_steps
    &&& log.success <==> log.steps < config.max_steps
    &&& log.success ==> arrived(trail[trail.len() - 1], grid)
    &&& log.energy_remaining == logged_energy(trail[trail.len() - 1])
    &&& log.energy_remaining <= 100
}

/// Runs one episode with a fresh agent on the grid, without decision noise:
/// the agent is advanced until it has arrived or `max_steps` ticks are spent.
/// Whether it has arrived is looked at before each tick, so an agent that
/// arrives with its last tick is not counted as a success.
pub fn run_single_episode(config: &ExperimentConfig, episode_idx: u32, grid: &Grid) -> (log:
    EpisodeLog)
    ensures
        exists|trail: Seq<AnyAgent>| logs_course(log, trail, grid, *config, episode_idx),
{
    let mut agent = fresh_agent(config.agent_type);
    let mut steps: u32 = 0;
    let mut success = false;
    let ghost mut trail: Seq<AnyAgent> = seq![agent];
    while steps < config.max_steps
        invariant_except_break
            !success,
        invariant
            steps <= config.max_steps,
            is_course(trail, grid),
            is_fresh(trail[0], config.agent_type),
            trail.len() == steps + 1,
            trail[trail.len() - 1] == agent,
        ensures
            steps <= config.max_steps,
            success <==> steps < config.max_steps,
            success ==> arrived(agent, grid),
            is_course(trail, grid),
            is_fresh(trail[0], config.agent_type),
            trail.len() == steps + 1,
            trail[trail.len() - 1] == agent,
        decreases config.max_steps - steps,
    {
        if has_arrived(&agent, grid) {
            success = true;
            break ;
        }
        agent.update(grid, false);
        steps += 1;
        proof {
            let before = trail;
            trail = trail.push(agent);
            assert forall|i: int| 0 <= i < trail.len() - 1 implies !arrived(
                #[trigger] trail[i],
                grid,
            ) && tick_allows(trail[i], grid, false, trail[i + 1]) by {
                if i < before.len() - 1 {
                    assert(trail[i] == before[i]);
                    assert(trail[i + 1] == before[i + 1]);
                }
            }
        }
    }
    // An agent that does not track energy is logged with none left.
    let energy_remaining = match agent.energy() {
        Some(energy) => energy,
        None => 0,
    };
    let log = EpisodeLog {
        episode: episode_idx,
        agent_type: match config.agent_type {
            AgentType::Fsm => "FSM".to_string(),
            AgentType::AStar => "AStar".to_string(),
            AgentType::BehaviorTree => "BehaviorTree".to_string(),
        },
        steps,
        success,
        energy_remaining,
    };
    proof {
        assert(logs_course(log, trail, grid, *config, episode_idx));
    }
    log
}

/// The grid of an episode: obstacles scattered by the given draws, one per
/// cell and row by row, with the start and the goal kept walkable.
pub fn make_grid_with_obstacles(config: &ExperimentConfig, goal: Position, blocked: &[bool]) -> (grid:
    Grid)
    requires
        config.feasible(),
        goal.x < config.grid_width,
        goal.y < config.grid_height,
    ensures
        grid.wf(),
        grid.width() == config.grid_width,
        grid.height() == config.grid_height,
        grid.goal() == goal,
        forall|x: int, y: int|
            grid.walkable(x, y) <==> (0 <= x < config.grid_width && 0 <= y < config.grid_height
                && !scattered(blocked@, config.grid_width as int, goal, x, y)),
{
    Grid::with_scattered_obstacles(config.grid_width, config.grid_height, goal, blocked)
}

/// The obstacle draws for the grid of episode `e`: entry `e` of the list, or
/// none where the list does not reach.
pub open spec fn draws_for(draws: Seq<Vec<bool>>, e: int) -> Seq<bool> {
    if 0 <= e < draws.len() {
        draws[e]@
    } else {
        Seq::empty()
    }
}

/// Whether the grid is that of an episode with the given obstacle draws.
pub open spec fn is_episode_grid(grid: &Grid, config: ExperimentConfig, blocked: Seq<bool>) -> bool {
    &&& grid.wf()
    &&& grid.width() == config.grid_width
    &&& grid.height() == config.grid_height
    &&& grid.goal() == config.goal()
    &&& forall|x: int, y: int|
        grid.walkable(x, y) <==> (0 <= x < config.grid_width && 0 <= y < config.grid_height
            && !scattered(blocked, config.grid_width as int, config.goal(), x, y))
}

/// Whether the log is that of episode `e` of a batch: of some course on the
/// grid with the episode's obstacle draws.
pub open spec fn logs_episode(
    log: EpisodeLog,
    config: ExperimentConfig,
    draws: Seq<Vec<bool>>,
    e: int,
) -> bool {
    exists|grid: &Grid, trail: Seq<AnyAgent>|
        #![trigger logs_course(log, trail, grid, config, e as u32)]
        is_episode_grid(grid, config, draws_for(draws, e)) && logs_course(
            log,
            trail,
            grid,
            config,
            e as u32,
        )
}

/// Run a batch of episodes and return the collected episode logs. Entry `e`
/// of `draws` holds the obstacle draws for the grid of episode `e`; an episode
/// without an entry runs on an open grid.
pub fn run_batch(config: &ExperimentConfig, draws: &Vec<Vec<bool>>) -> (logs: Vec<EpisodeLog>)
    requires
        config.feasible(),
    ensures
        logs@.len() == config.episodes,
        forall|e: int| 0 <= e < logs@.len() ==> logs_episode(#[trigger] logs@[e], *config, draws@, e),
{
    let goal = Position { x: config.grid_width - 1, y: config.grid_height - 1 };
    let none: Vec<bool> = Vec::new();
    let mut logs: Vec<EpisodeLog> = Vec::new();
    let mut episode: u32 = 0;
    while episode < config.episodes
        invariant
            episode <= config.episodes,
            config.feasible(),
            goal == config.goal(),
            none@.len() == 0,
            logs@.len() == episode,
            forall|e: int|
                0 <= e < logs@.len() ==> logs_episode(#[trigger] logs@[e], *config, draws@, e),
        decreases config.episodes - episode,
    {
        let blocked = if (episode as usize) < draws.len() {
            &draws[episode as usize]
        } else {
            &none
        };
        let grid = make_grid_with_obstacles(config, goal, blocked.as_slice());
        let log = run_single_episode(config, episode, &grid);
        proof {
            assert(blocked@ =~= draws_for(draws@, episode as int));
            let trail = choose|trail: Seq<AnyAgent>|
                logs_course(log, trail, &grid, *config, episode);
            assert(logs_course(log, trail, &grid, *config, (episode as int) as u32));
            assert(is_episode_grid(&grid, *config, draws_for(draws@, episode as int)));
            assert(logs_episode(log, *config, draws@, episode as int));
        }
        logs.push(log);
        episode += 1;
    }
    logs
}

} // verus!
