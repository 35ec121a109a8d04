use cognitive_grid::agents::fsm::{Action, FSMAgent, FSMState};
use cognitive_grid::engine::world::{Grid, Position};

fn far_grid() -> Grid {
    // Too large to be crossed before the energy runs low.
    Grid::new(60, 60, Position { x: 59, y: 59 })
}

#[test]
fn fsm_agent_reaches_goal_on_open_grid() {
    let grid = Grid::new(10, 5, Position { x: 9, y: 4 });
    let mut agent = FSMAgent::new(0, 0);
    let mut ticks: u32 = 0;
    while agent.state() != FSMState::FoundGoal {
        agent.update(&grid, false);
        ticks += 1;
        assert!(ticks < 5_000_000, "the agent should find the goal");
    }
    assert_eq!(agent.position(), grid.goal());
    // Thirteen steps are needed at least, and one more tick to notice.
    assert!(ticks >= 14);
    // Neither position nor state changes after that.
    let energy: u32 = agent.energy();
    let mut more: u32 = 0;
    while more < 50 {
        agent.update(&grid, false);
        assert_eq!(agent.state(), FSMState::FoundGoal);
        assert_eq!(agent.position(), grid.goal());
        assert_eq!(agent.energy(), energy);
        more += 1;
    }
}

#[test]
fn new_fsm_agent_explores_with_full_energy() {
    let grid = far_grid();
    let agent = FSMAgent::new(3, 4);
    assert_eq!(agent.position(), Position { x: 3, y: 4 });
    assert_eq!(agent.state(), FSMState::Exploring);
    assert_eq!(agent.energy(), 100);
    assert!(!agent.did_noise_trigger());
    assert_eq!(agent.decide_next_action(&grid), Action::MoveRandomly);
}

#[test]
fn fsm_agent_rests_when_tired_and_explores_when_rested() {
    let grid = far_grid();
    // The goal is further away than the agent gets before it tires.
    let mut agent = FSMAgent::new(0, 0);
    // Ninety-one moves, one energy each.
    let mut tick: u32 = 0;
    while tick < 91 {
        let before = agent.position();
        agent.update(&grid, false);
        let after = agent.position();
        assert_eq!(before.x.abs_diff(after.x) + before.y.abs_diff(after.y), 1);
        assert_eq!(agent.state(), FSMState::Exploring);
        assert_eq!(agent.energy(), 100 - (tick + 1));
        tick += 1;
    }
    assert_eq!(agent.energy(), 9);
    assert_eq!(agent.decide_next_action(&grid), Action::Rest);
    // Energy below ten: the very next tick the agent rests.
    let place = agent.position();
    agent.update(&grid, false);
    assert_eq!(agent.state(), FSMState::Resting);
    assert_eq!(agent.energy(), 19);
    assert_eq!(agent.position(), place);
    assert_eq!(agent.decide_next_action(&grid), Action::Rest);
    // Ten per tick, capped at one hundred.
    let mut rest: u32 = 0;
    while rest < 9 {
        agent.update(&grid, false);
        assert_eq!(agent.state(), FSMState::Resting);
        assert_eq!(agent.position(), place);
        rest += 1;
    }
    assert_eq!(agent.energy(), 100);
    // Full energy: the very next tick the agent explores again, and moves.
    agent.update(&grid, false);
    assert_eq!(agent.state(), FSMState::Exploring);
    assert_eq!(agent.energy(), 99);
    assert_ne!(agent.position(), place);
}

#[test]
fn fsm_agent_on_goal_finds_it_and_stops() {
    let grid = Grid::new(3, 3, Position { x: 1, y: 1 });
    let mut agent = FSMAgent::new(1, 1);
    assert_eq!(agent.decide_next_action(&grid), Action::Idle);
    agent.update(&grid, true);
    // The tick ends with the transition: no noise, no move, no cost.
    assert_eq!(agent.state(), FSMState::FoundGoal);
    assert_eq!(agent.position(), Position { x: 1, y: 1 });
    assert_eq!(agent.energy(), 100);
    assert!(!agent.did_noise_trigger());
    assert_eq!(agent.decide_next_action(&grid), Action::Idle);
}

#[test]
fn noise_moves_the_agent_and_is_reported() {
    let grid = far_grid();
    let mut agent = FSMAgent::new(10, 10);
    agent.update(&grid, true);
    let after = agent.position();
    assert_eq!(after.x.abs_diff(10) + after.y.abs_diff(10), 1);
    assert_eq!(agent.energy(), 99);
    assert!(agent.did_noise_trigger());
    assert_eq!(agent.state(), FSMState::Exploring);
    // The flag holds for one tick only.
    agent.update(&grid, false);
    assert!(!agent.did_noise_trigger());
}

#[test]
fn noise_moves_even_an_agent_that_found_the_goal() {
    let grid = Grid::new(3, 1, Position { x: 0, y: 0 });
    let mut agent = FSMAgent::new(0, 0);
    agent.update(&grid, false);
    assert_eq!(agent.state(), FSMState::FoundGoal);
    agent.update(&grid, true);
    assert_eq!(agent.state(), FSMState::FoundGoal);
    assert_eq!(agent.position(), Position { x: 1, y: 0 });
    assert_eq!(agent.energy(), 99);
    assert!(agent.did_noise_trigger());
}

#[test]
fn boxed_in_fsm_agent_stays_and_keeps_its_energy() {
    let grid = Grid::with_obstacles(3, 3, Position { x: 2, y: 2 }, &[(1, 0), (0, 1)]);
    let mut agent = FSMAgent::new(0, 0);
    let mut tick: u32 = 0;
    while tick < 20 {
        agent.update(&grid, tick % 2 == 0);
        assert_eq!(agent.position(), Position { x: 0, y: 0 });
        assert_eq!(agent.energy(), 100);
        assert_eq!(agent.state(), FSMState::Exploring);
        assert!(!agent.did_noise_trigger());
        tick += 1;
    }
}

#[test]
fn fsm_agent_with_memory_prefers_new_cells() {
    // In a corridor an agent that remembers where it was never turns round.
    let grid = Grid::new(30, 1, Position { x: 29, y: 0 });
    let mut agent = FSMAgent::with_memory(0, 0, 10);
    let mut tick: usize = 0;
    while tick < 29 {
        agent.update(&grid, false);
        assert_eq!(agent.position(), Position { x: tick + 1, y: 0 });
        tick += 1;
    }
    agent.update(&grid, false);
    assert_eq!(agent.state(), FSMState::FoundGoal);
}

#[test]
fn fsm_agent_falls_back_to_visited_cells() {
    // Two cells: after the first move the only neighbor is in memory.
    let grid = Grid::with_obstacles(3, 1, Position { x: 2, y: 0 }, &[(1, 0)]);
    let single = Grid::new(2, 1, Position { x: 1, y: 0 });
    let mut boxed = FSMAgent::with_memory(0, 0, 10);
    boxed.update(&grid, false);
    assert_eq!(boxed.position(), Position { x: 0, y: 0 });
    // A dead end: the agent has to go back over a remembered cell.
    let dead_end = Grid::with_obstacles(3, 2, Position { x: 2, y: 1 }, &[(1, 1), (0, 1), (2, 0)]);
    let mut agent = FSMAgent::with_memory(0, 0, 10);
    agent.update(&dead_end, false);
    assert_eq!(agent.position(), Position { x: 1, y: 0 });
    agent.update(&dead_end, false);
    assert_eq!(agent.position(), Position { x: 0, y: 0 });
    assert_eq!(agent.energy(), 98);
    let mut walker = FSMAgent::new(0, 0);
    walker.update(&single, false);
    assert_eq!(walker.position(), Position { x: 1, y: 0 });
}

#[test]
fn move_candidates_prefer_cells_that_are_not_remembered() {
    let grid = Grid::new(3, 3, Position { x: 2, y: 2 });
    let mut agent = FSMAgent::with_memory(1, 1, 10);
    // Nothing is remembered yet: all four neighbors, left, right, up, down.
    assert_eq!(
        agent.move_candidates(&grid),
        vec![
            Position { x: 0, y: 1 },
            Position { x: 2, y: 1 },
            Position { x: 1, y: 0 },
            Position { x: 1, y: 2 },
        ]
    );
    agent.update(&grid, false);
    let first = agent.position();
    // The cell that the agent came from is remembered, the others are not.
    let pool = agent.move_candidates(&grid);
    assert!(!pool.is_empty());
    assert!(!pool.contains(&Position { x: 1, y: 1 }));
    for cell in &pool {
        assert_eq!(cell.x.abs_diff(first.x) + cell.y.abs_diff(first.y), 1);
    }
    // Without memory every neighbor stays in the pool.
    let mut forgetful = FSMAgent::new(1, 1);
    forgetful.update(&grid, false);
    let back = forgetful.move_candidates(&grid);
    assert!(back.contains(&Position { x: 1, y: 1 }));
}

#[test]
fn move_candidates_fall_back_to_all_neighbors() {
    let dead_end = Grid::with_obstacles(3, 2, Position { x: 2, y: 1 }, &[(1, 1), (0, 1), (2, 0)]);
    let mut agent = FSMAgent::with_memory(0, 0, 10);
    assert_eq!(agent.move_candidates(&dead_end), vec![Position { x: 1, y: 0 }]);
    agent.update(&dead_end, false);
    // The only neighbor is remembered: it is the pool all the same.
    assert_eq!(agent.move_candidates(&dead_end), vec![Position { x: 0, y: 0 }]);
    let boxed = Grid::with_obstacles(3, 3, Position { x: 2, y: 2 }, &[(1, 0), (0, 1)]);
    assert_eq!(FSMAgent::new(0, 0).move_candidates(&boxed), vec![]);
}
