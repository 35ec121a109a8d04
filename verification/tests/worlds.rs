use cognitive_grid::agents::astar::AStarAgent;
use cognitive_grid::agents::behavior_tree::BehaviorTreeAgent;
use cognitive_grid::agents::fsm::FSMAgent;
use cognitive_grid::agents::{Agent, AnyAgent};
use cognitive_grid::engine::multi_world::MultiWorld;
use cognitive_grid::engine::world::{Grid, Position, World};

#[test]
fn world_puts_the_goal_in_the_far_corner() {
    let world = World::new(10, 5, AnyAgent::AStar(AStarAgent::new(0, 0)));
    assert_eq!(world.grid.width(), 10);
    assert_eq!(world.grid.height(), 5);
    assert_eq!(world.grid.goal(), Position { x: 9, y: 4 });
    assert_eq!(world.step, 0);
    assert!(!world.has_reached_goal());
    assert!(!world.is_agent_stuck());
    let single = World::new(1, 1, AnyAgent::Fsm(FSMAgent::new(0, 0)));
    assert!(single.has_reached_goal());
}

#[test]
fn world_with_search_agent_arrives_after_the_shortest_way() {
    let mut world = World::new(10, 5, AnyAgent::AStar(AStarAgent::new(0, 0)));
    let mut tick: usize = 0;
    while tick < 13 {
        assert!(!world.has_reached_goal());
        world.update(false);
        tick += 1;
        assert_eq!(world.step, tick);
    }
    assert!(world.has_reached_goal());
    assert_eq!(world.agent.position(), Position { x: 9, y: 4 });
}

#[test]
fn agents_tell_their_names_and_states() {
    let fsm = AnyAgent::Fsm(FSMAgent::new(0, 0));
    let search = AnyAgent::AStar(AStarAgent::with_planning_limit(0, 0, 30));
    let tree = AnyAgent::BehaviorTree(BehaviorTreeAgent::new(0, 0));
    assert_eq!(fsm.name(), "FSM");
    assert_eq!(search.name(), "AStar");
    assert_eq!(tree.name(), "BehaviorTree");
    assert_eq!(fsm.energy(), Some(100));
    assert_eq!(search.energy(), None);
    assert_eq!(tree.energy(), Some(100));
    assert_eq!(fsm.planning_radius(), None);
    assert_eq!(search.planning_radius(), Some(30));
    assert_eq!(tree.planning_radius(), None);
    assert_eq!(fsm.debug_state(), "Exploring");
    assert_eq!(search.debug_state(), "Path len: 0");
    assert_eq!(tree.debug_state(), "Running");
    assert!(!fsm.is_stuck() && !search.is_stuck() && !tree.is_stuck());
    assert!(!fsm.did_noise_trigger() && !search.did_noise_trigger() && !tree.did_noise_trigger());
}

#[test]
fn stuck_agent_says_so() {
    let grid = Grid::with_obstacles(3, 3, Position { x: 2, y: 2 }, &[(1, 0), (0, 1)]);
    let mut agent = AnyAgent::AStar(AStarAgent::new(0, 0));
    agent.update(&grid, false);
    assert!(agent.is_stuck());
    assert_eq!(agent.debug_state(), "Stuck");
    let mut fsm = FSMAgent::new(2, 2);
    Agent::update(&mut fsm, &grid, false);
    assert_eq!(fsm.debug_state(), "FoundGoal");
}

#[test]
fn multi_world_advances_every_agent_once() {
    let grid = Grid::new(6, 1, Position { x: 5, y: 0 });
    let agents = vec![
        AnyAgent::AStar(AStarAgent::new(0, 0)),
        AnyAgent::AStar(AStarAgent::new(3, 0)),
        AnyAgent::AStar(AStarAgent::new(5, 0)),
    ];
    let mut world = MultiWorld::new(grid, agents);
    assert_eq!(world.step, 0);
    assert_eq!(world.done_count(), 1);
    assert!(world.any_done());
    assert!(!world.all_done());
    assert!(world.agent_at_goal(2));
    assert!(!world.agent_at_goal(0));
    assert!(!world.agent_at_goal(3));
    world.update(&[]);
    assert_eq!(world.step, 1);
    assert_eq!(world.agents[0].position(), Position { x: 1, y: 0 });
    assert_eq!(world.agents[1].position(), Position { x: 4, y: 0 });
    assert_eq!(world.agents[2].position(), Position { x: 5, y: 0 });
    world.update(&[false, false]);
    assert_eq!(world.done_count(), 2);
    let mut tick: u32 = 0;
    while tick < 3 {
        world.update(&[false, false, false]);
        tick += 1;
    }
    assert_eq!(world.step, 5);
    assert_eq!(world.done_count(), 3);
    assert!(world.all_done());
}

#[test]
fn multi_world_hands_each_agent_its_own_noise() {
    let grid = Grid::new(9, 9, Position { x: 8, y: 8 });
    let agents = vec![
        AnyAgent::Fsm(FSMAgent::new(4, 4)),
        AnyAgent::Fsm(FSMAgent::new(4, 4)),
        AnyAgent::BehaviorTree(BehaviorTreeAgent::new(4, 4)),
    ];
    let mut world = MultiWorld::new(grid, agents);
    world.update(&[false, true, true]);
    assert!(!world.agents[0].did_noise_trigger());
    assert!(world.agents[1].did_noise_trigger());
    // A behavior tree has no decision noise.
    assert!(!world.agents[2].did_noise_trigger());
    assert_eq!(world.agents[0].energy(), Some(99));
    assert_eq!(world.agents[1].energy(), Some(99));
}

#[test]
fn empty_multi_world_is_done() {
    let grid = Grid::new(2, 2, Position { x: 1, y: 1 });
    let mut world = MultiWorld::new(grid, Vec::new());
    assert_eq!(world.done_count(), 0);
    assert!(world.all_done());
    assert!(!world.any_done());
    assert!(!world.is_agent_stuck(0));
    world.update(&[true]);
    assert_eq!(world.step, 1);
}

#[test]
fn multi_world_tells_which_agent_is_stuck() {
    let grid = Grid::with_obstacles(3, 3, Position { x: 2, y: 2 }, &[(1, 0), (0, 1)]);
    let agents = vec![
        AnyAgent::AStar(AStarAgent::new(0, 0)),
        AnyAgent::AStar(AStarAgent::new(1, 1)),
        AnyAgent::Fsm(FSMAgent::new(0, 0)),
    ];
    let mut world = MultiWorld::new(grid, agents);
    assert!(!world.is_agent_stuck(0));
    assert!(!world.any_done());
    world.update(&[]);
    assert!(world.is_agent_stuck(0));
    assert!(!world.is_agent_stuck(1));
    assert!(!world.is_agent_stuck(2));
    assert!(!world.is_agent_stuck(3));
    world.update(&[]);
    assert!(world.agent_at_goal(1));
    assert!(world.any_done());
    assert!(!world.all_done());
    assert_eq!(world.done_count(), 1);
}
