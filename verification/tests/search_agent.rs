use cognitive_grid::agents::astar::AStarAgent;
use cognitive_grid::engine::world::{Grid, Position};

#[test]
fn search_agent_walks_its_path() {
    let grid = Grid::new(5, 1, Position { x: 4, y: 0 });
    let mut agent = AStarAgent::new(0, 0);
    assert_eq!(agent.path_len(), 0);
    let mut tick: usize = 0;
    while tick < 4 {
        agent.update(&grid, false);
        assert_eq!(agent.position(), Position { x: tick + 1, y: 0 });
        assert_eq!(agent.path_len(), 5);
        assert!(!agent.is_stuck());
        tick += 1;
    }
    // On the goal nothing changes any more.
    agent.update(&grid, false);
    assert_eq!(agent.position(), Position { x: 4, y: 0 });
    assert!(!agent.is_stuck());
}

#[test]
fn search_agent_walks_round_a_wall() {
    let obstacles = [(0, 2), (1, 2), (3, 2), (4, 2)];
    let grid = Grid::with_obstacles(5, 5, Position { x: 4, y: 4 }, &obstacles);
    let mut agent = AStarAgent::new(0, 0);
    let mut tick: u32 = 0;
    while tick < 8 {
        let before = agent.position();
        agent.update(&grid, false);
        let after = agent.position();
        assert_eq!(before.x.abs_diff(after.x) + before.y.abs_diff(after.y), 1);
        assert!(grid.is_walkable(after.x, after.y));
        tick += 1;
    }
    assert_eq!(agent.position(), Position { x: 4, y: 4 });
}

#[test]
fn enclosed_search_agent_is_stuck_for_good() {
    let grid = Grid::with_obstacles(3, 3, Position { x: 2, y: 2 }, &[(1, 0), (0, 1)]);
    let mut agent = AStarAgent::new(0, 0);
    assert!(!agent.is_stuck());
    agent.update(&grid, false);
    assert!(agent.is_stuck());
    assert_eq!(agent.position(), Position { x: 0, y: 0 });
    // Not even on a grid without the obstacles does it plan again.
    let open = Grid::new(3, 3, Position { x: 2, y: 2 });
    let mut tick: u32 = 0;
    while tick < 10 {
        agent.update(&open, tick % 2 == 0);
        assert!(agent.is_stuck());
        assert_eq!(agent.position(), Position { x: 0, y: 0 });
        assert!(!agent.did_noise_trigger());
        tick += 1;
    }
}

#[test]
fn bounded_search_agent_plans_again_at_the_end_of_a_partial_path() {
    let grid = Grid::new(10, 1, Position { x: 9, y: 0 });
    let mut agent = AStarAgent::with_planning_limit(0, 0, 3);
    assert_eq!(agent.planning_limit(), Some(3));
    // Each plan reaches two cells further.
    let mut tick: usize = 0;
    while tick < 9 {
        agent.update(&grid, false);
        assert_eq!(agent.position(), Position { x: tick + 1, y: 0 });
        assert!(!agent.is_stuck());
        tick += 1;
    }
    assert_eq!(agent.position(), grid.goal());
}

#[test]
fn search_agent_with_a_cap_of_one_never_leaves() {
    let grid = Grid::new(10, 1, Position { x: 9, y: 0 });
    let mut agent = AStarAgent::with_planning_limit(0, 0, 1);
    let mut tick: u32 = 0;
    while tick < 5 {
        agent.update(&grid, false);
        // The partial path holds the start alone.
        assert_eq!(agent.path_len(), 1);
        assert_eq!(agent.position(), Position { x: 0, y: 0 });
        assert!(!agent.is_stuck());
        tick += 1;
    }
}

#[test]
fn noise_takes_the_search_agent_off_its_path() {
    let grid = Grid::new(5, 5, Position { x: 4, y: 4 });
    let mut agent = AStarAgent::with_limits(2, 2, None, 4);
    agent.update(&grid, true);
    let after = agent.position();
    assert_eq!(after.x.abs_diff(2) + after.y.abs_diff(2), 1);
    assert!(agent.did_noise_trigger());
    // The plan is dropped, and made anew with the next tick.
    assert_eq!(agent.path_len(), 0);
    agent.update(&grid, false);
    assert!(!agent.did_noise_trigger());
    assert!(agent.path_len() > 0);
}

#[test]
fn noise_does_not_move_a_search_agent_on_the_goal() {
    let grid = Grid::new(3, 3, Position { x: 1, y: 1 });
    let mut agent = AStarAgent::new(1, 1);
    agent.update(&grid, true);
    assert_eq!(agent.position(), Position { x: 1, y: 1 });
    assert!(!agent.did_noise_trigger());
}
