use cognitive_grid::engine::world::{Grid, Position};
use cognitive_grid::experiments::runner::{
    fresh_agent, has_arrived, make_grid_with_obstacles, run_batch, run_single_episode, AgentType,
    ExperimentConfig,
};
use cognitive_grid::logging::metrics::{EpisodeLog, StepLog};

fn config(agent_type: AgentType, max_steps: u32) -> ExperimentConfig {
    ExperimentConfig { episodes: 3, grid_width: 10, grid_height: 5, agent_type, max_steps }
}

#[test]
fn default_config_is_the_search_agent_on_ten_by_five() {
    let config = ExperimentConfig::default();
    assert_eq!(config.episodes, 100);
    assert_eq!(config.grid_width, 10);
    assert_eq!(config.grid_height, 5);
    assert!(matches!(config.agent_type, AgentType::AStar));
    assert_eq!(config.max_steps, 500);
}

#[test]
fn search_agent_episode_takes_the_shortest_way() {
    let grid = Grid::new(10, 5, Position { x: 9, y: 4 });
    let log = run_single_episode(&config(AgentType::AStar, 500), 7, &grid);
    assert_eq!(log.episode, 7);
    assert_eq!(log.agent_type, "AStar");
    assert_eq!(log.steps, 13);
    assert!(log.success);
    assert_eq!(log.energy_remaining, 0);
}

#[test]
fn episode_ends_when_the_steps_run_out() {
    let grid = Grid::new(10, 5, Position { x: 9, y: 4 });
    let short = run_single_episode(&config(AgentType::AStar, 12), 0, &grid);
    assert_eq!(short.steps, 12);
    assert!(!short.success);
    // An agent that arrives with its last step is not seen to arrive.
    let exact = run_single_episode(&config(AgentType::AStar, 13), 0, &grid);
    assert_eq!(exact.steps, 13);
    assert!(!exact.success);
    let none = run_single_episode(&config(AgentType::Fsm, 0), 0, &grid);
    assert_eq!(none.steps, 0);
    assert!(!none.success);
    assert_eq!(none.energy_remaining, 100);
}

#[test]
fn stuck_search_agent_fails_its_episode() {
    let obstacles = [(1, 0), (0, 1)];
    let grid = Grid::with_obstacles(10, 5, Position { x: 9, y: 4 }, &obstacles);
    let log = run_single_episode(&config(AgentType::AStar, 40), 1, &grid);
    assert_eq!(log.steps, 40);
    assert!(!log.success);
}

#[test]
fn fsm_and_tree_episodes_log_their_agents() {
    let grid = Grid::new(10, 5, Position { x: 9, y: 4 });
    let fsm = run_single_episode(&config(AgentType::Fsm, 200), 2, &grid);
    assert_eq!(fsm.agent_type, "FSM");
    assert!(fsm.steps <= 200);
    assert!(fsm.success || fsm.steps == 200);
    assert!(fsm.energy_remaining <= 100);
    let tree = run_single_episode(&config(AgentType::BehaviorTree, 200), 3, &grid);
    assert_eq!(tree.agent_type, "BehaviorTree");
    assert!(tree.steps <= 200);
    assert!(tree.success || tree.steps == 200);
    assert!(tree.energy_remaining <= 100);
}

#[test]
fn fresh_agents_start_at_the_origin() {
    let grid = Grid::new(1, 1, Position { x: 0, y: 0 });
    let far = Grid::new(2, 1, Position { x: 1, y: 0 });
    // An FSM agent has arrived once it has noticed; the others when they stand there.
    assert!(!has_arrived(&fresh_agent(AgentType::Fsm), &grid));
    assert!(has_arrived(&fresh_agent(AgentType::AStar), &grid));
    assert!(has_arrived(&fresh_agent(AgentType::BehaviorTree), &grid));
    assert!(!has_arrived(&fresh_agent(AgentType::AStar), &far));
}

#[test]
fn episode_grid_follows_the_draws() {
    let config = config(AgentType::AStar, 10);
    let goal = Position { x: 9, y: 4 };
    let mut draws = vec![false; 50];
    draws[0] = true;
    draws[1] = true;
    draws[49] = true;
    draws[23] = true;
    let grid = make_grid_with_obstacles(&config, goal, &draws);
    assert!(grid.is_walkable(0, 0));
    assert!(!grid.is_walkable(1, 0));
    assert!(grid.is_walkable(9, 4));
    assert!(!grid.is_walkable(3, 2));
    assert!(grid.is_walkable(4, 2));
}

#[test]
fn batch_runs_every_episode_on_its_own_grid() {
    let config = config(AgentType::AStar, 50);
    // Episode 0: open. Episode 1: the start is walled in. Episode 2: no draws.
    let mut walled = vec![false; 50];
    walled[1] = true;
    walled[10] = true;
    let draws = vec![vec![false; 50], walled];
    let logs = run_batch(&config, &draws);
    assert_eq!(logs.len(), 3);
    assert_eq!(logs[0].episode, 0);
    assert_eq!(logs[1].episode, 1);
    assert_eq!(logs[2].episode, 2);
    assert!(logs[0].success);
    assert_eq!(logs[0].steps, 13);
    assert!(!logs[1].success);
    assert_eq!(logs[1].steps, 50);
    assert!(logs[2].success);
    assert_eq!(logs[2].steps, 13);
}

#[test]
fn logs_are_plain_records() {
    let log = EpisodeLog {
        episode: 1,
        agent_type: "FSM".to_string(),
        steps: 12,
        success: true,
        energy_remaining: 88,
    };
    let copy = log.clone();
    assert_eq!(copy.episode, 1);
    assert_eq!(copy.agent_type, "FSM");
    assert_eq!(copy.steps, 12);
    assert!(copy.success);
    assert_eq!(copy.energy_remaining, 88);
    let step = StepLog { episode: 1, step: 3, x: 4, y: 5, energy: 97 };
    let again = step.clone();
    assert_eq!((again.episode, again.step, again.x, again.y, again.energy), (1, 3, 4, 5, 97));
}
