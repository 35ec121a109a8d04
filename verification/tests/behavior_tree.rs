use cognitive_grid::agents::behavior_tree::{
    step_toward, wander_with, Behavior, BehaviorTreeAgent, Node, Predicate, Status,
};
use cognitive_grid::engine::world::{Grid, Position};

fn dummy_grid() -> Grid {
    Grid::new(1, 1, Position { x: 0, y: 0 })
}

fn dummy_agent() -> BehaviorTreeAgent {
    BehaviorTreeAgent::new(0, 0)
}

fn cond_true() -> Predicate {
    Predicate::Fixed(true)
}

fn cond_false() -> Predicate {
    Predicate::Fixed(false)
}

fn action_success() -> Behavior {
    Behavior::Fixed(Status::Success)
}

fn action_failure() -> Behavior {
    Behavior::Fixed(Status::Failure)
}

/// Wanders until the agent's energy has dropped to `energy`.
fn tire(agent: &mut BehaviorTreeAgent, grid: &Grid, energy: u32) {
    let wander = Node::Action(Behavior::Wander);
    let mut ticks: u32 = 0;
    while agent.energy() > energy {
        wander.tick(agent, grid);
        ticks += 1;
        assert!(ticks < 100_000, "the agent should tire");
    }
}

#[test]
fn sequence_fails_on_first_failure() {
    let mut root = Node::Sequence(vec![
        Node::Action(action_failure()),
        Node::Action(action_success()),
    ]);

    let mut agent = dummy_agent();
    let grid = dummy_grid();

    let status = root.tick(&mut agent, &grid);
    assert_eq!(status, Status::Failure);
}

#[test]
fn selector_succeeds_on_first_success() {
    let mut root = Node::Selector(vec![
        Node::Action(action_failure()),
        Node::Action(action_success()),
    ]);

    let mut agent = dummy_agent();
    let grid = dummy_grid();

    let status = root.tick(&mut agent, &grid);
    assert_eq!(status, Status::Success);
}

#[test]
fn condition_wraps_bool_result() {
    let mut node_true = Node::Condition(cond_true());
    let mut node_false = Node::Condition(cond_false());

    let mut agent = dummy_agent();
    let grid = dummy_grid();

    assert_eq!(node_true.tick(&mut agent, &grid), Status::Success);
    assert_eq!(node_false.tick(&mut agent, &grid), Status::Failure);
}

#[test]
fn sequence_does_not_evaluate_children_after_a_failure() {
    let grid = Grid::new(3, 3, Position { x: 2, y: 2 });
    let mut agent = BehaviorTreeAgent::new(0, 0);
    let root = Node::Sequence(vec![
        Node::Condition(Predicate::Fixed(false)),
        Node::Action(Behavior::MoveTowardsGoal),
    ]);
    assert_eq!(root.tick(&mut agent, &grid), Status::Failure);
    // The move was not made.
    assert_eq!(agent.position(), Position { x: 0, y: 0 });
    assert_eq!(agent.energy(), 100);
}

#[test]
fn selector_does_not_evaluate_children_after_a_success() {
    let grid = Grid::new(3, 3, Position { x: 2, y: 2 });
    let mut agent = BehaviorTreeAgent::new(0, 0);
    let root = Node::Selector(vec![
        Node::Condition(Predicate::Fixed(true)),
        Node::Action(Behavior::MoveTowardsGoal),
    ]);
    assert_eq!(root.tick(&mut agent, &grid), Status::Success);
    assert_eq!(agent.position(), Position { x: 0, y: 0 });
    assert_eq!(agent.energy(), 100);
}

#[test]
fn running_ends_a_sequence_and_a_selector() {
    let grid = Grid::new(3, 3, Position { x: 2, y: 2 });
    let mut agent = BehaviorTreeAgent::new(0, 0);
    let sequence = Node::Sequence(vec![
        Node::Action(Behavior::Fixed(Status::Success)),
        Node::Action(Behavior::Fixed(Status::Running)),
        Node::Action(Behavior::MoveTowardsGoal),
    ]);
    assert_eq!(sequence.tick(&mut agent, &grid), Status::Running);
    let selector = Node::Selector(vec![
        Node::Action(Behavior::Fixed(Status::Failure)),
        Node::Action(Behavior::Fixed(Status::Running)),
        Node::Action(Behavior::MoveTowardsGoal),
    ]);
    assert_eq!(selector.tick(&mut agent, &grid), Status::Running);
    assert_eq!(agent.position(), Position { x: 0, y: 0 });
}

#[test]
fn sequence_of_successes_succeeds_and_selector_of_failures_fails() {
    let grid = dummy_grid();
    let mut agent = dummy_agent();
    let sequence = Node::Sequence(vec![
        Node::Action(action_success()),
        Node::Condition(cond_true()),
    ]);
    assert_eq!(sequence.tick(&mut agent, &grid), Status::Success);
    let selector = Node::Selector(vec![
        Node::Action(action_failure()),
        Node::Condition(cond_false()),
    ]);
    assert_eq!(selector.tick(&mut agent, &grid), Status::Failure);
    // Without children a sequence succeeds and a selector fails.
    assert_eq!(Node::Sequence(vec![]).tick(&mut agent, &grid), Status::Success);
    assert_eq!(Node::Selector(vec![]).tick(&mut agent, &grid), Status::Failure);
}

#[test]
fn new_agent_is_full_of_energy_and_not_hungry() {
    let grid = dummy_grid();
    let mut agent = BehaviorTreeAgent::new(0, 0);
    assert_eq!(agent.energy(), 100);
    assert_eq!(agent.position(), Position { x: 0, y: 0 });
    assert_eq!(
        Node::Condition(Predicate::IsHungry).tick(&mut agent, &grid),
        Status::Failure
    );
}

#[test]
fn greedy_move_takes_the_first_of_the_nearest_neighbors() {
    let grid = Grid::new(3, 3, Position { x: 2, y: 2 });
    let mut agent = BehaviorTreeAgent::new(0, 0);
    let step = Node::Action(Behavior::MoveTowardsGoal);
    // Right and down are equally near; right is looked at first.
    assert_eq!(step.tick(&mut agent, &grid), Status::Success);
    assert_eq!(agent.position(), Position { x: 1, y: 0 });
    assert_eq!(agent.energy(), 99);
    assert_eq!(step.tick(&mut agent, &grid), Status::Success);
    assert_eq!(agent.position(), Position { x: 2, y: 0 });
    assert_eq!(step.tick(&mut agent, &grid), Status::Success);
    assert_eq!(agent.position(), Position { x: 2, y: 1 });
    assert_eq!(step.tick(&mut agent, &grid), Status::Success);
    assert_eq!(agent.position(), Position { x: 2, y: 2 });
    assert_eq!(agent.energy(), 96);
}

#[test]
fn greedy_move_fails_behind_a_wall() {
    // The only neighbor that is nearer to the goal is blocked.
    let grid = Grid::with_obstacles(3, 1, Position { x: 2, y: 0 }, &[(1, 0)]);
    let mut agent = BehaviorTreeAgent::new(0, 0);
    let step = Node::Action(Behavior::MoveTowardsGoal);
    assert_eq!(step.tick(&mut agent, &grid), Status::Failure);
    assert_eq!(agent.position(), Position { x: 0, y: 0 });
    assert_eq!(agent.energy(), 100);
}

#[test]
fn agent_eats_on_the_goal() {
    let grid = Grid::new(2, 1, Position { x: 0, y: 0 });
    let mut agent = BehaviorTreeAgent::new(0, 0);
    tire(&mut agent, &grid, 70);
    assert_eq!(agent.energy(), 70);
    // Wandering on two cells ends on either; walk back if need be.
    let step = Node::Action(Behavior::MoveTowardsGoal);
    if agent.position() != (Position { x: 0, y: 0 }) {
        assert_eq!(step.tick(&mut agent, &grid), Status::Success);
        assert_eq!(agent.energy(), 69);
    }
    let before: u32 = agent.energy();
    assert_eq!(step.tick(&mut agent, &grid), Status::Success);
    assert_eq!(agent.position(), Position { x: 0, y: 0 });
    assert_eq!(agent.energy(), before + 20);
    // Energy is capped at one hundred.
    assert_eq!(step.tick(&mut agent, &grid), Status::Success);
    assert_eq!(agent.energy(), 100);
}

#[test]
fn wander_moves_to_a_walkable_neighbor() {
    let grid = Grid::with_obstacles(3, 3, Position { x: 2, y: 2 }, &[(1, 0)]);
    let wander = Node::Action(Behavior::Wander);
    let mut round: u32 = 0;
    while round < 200 {
        let mut agent = BehaviorTreeAgent::new(0, 0);
        let status = wander.tick(&mut agent, &grid);
        if status == Status::Success {
            // Down is the only way out of the corner.
            assert_eq!(agent.position(), Position { x: 0, y: 1 });
            assert_eq!(agent.energy(), 99);
        } else {
            assert_eq!(status, Status::Failure);
            assert_eq!(agent.position(), Position { x: 0, y: 0 });
            assert_eq!(agent.energy(), 100);
        }
        round += 1;
    }
}

#[test]
fn wander_draws_every_direction() {
    // From the middle of a cross each direction leads to another cell.
    let grid = Grid::with_obstacles(
        3,
        3,
        Position { x: 1, y: 1 },
        &[(0, 0), (2, 0), (0, 2), (2, 2)],
    );
    let wander = Node::Action(Behavior::Wander);
    let mut seen: Vec<Position> = Vec::new();
    let mut round: u32 = 0;
    while round < 2000 {
        let mut agent = BehaviorTreeAgent::new(1, 1);
        // With four walkable neighbors the first draw always succeeds.
        assert_eq!(wander.tick(&mut agent, &grid), Status::Success);
        if !seen.contains(&agent.position()) {
            seen.push(agent.position());
        }
        round += 1;
    }
    assert_eq!(seen.len(), 4);
    assert!(seen.contains(&Position { x: 0, y: 1 }));
    assert!(seen.contains(&Position { x: 2, y: 1 }));
    assert!(seen.contains(&Position { x: 1, y: 0 }));
    assert!(seen.contains(&Position { x: 1, y: 2 }));
}

#[test]
fn wander_fails_without_a_way_out() {
    let grid = dummy_grid();
    let mut agent = dummy_agent();
    assert_eq!(
        Node::Action(Behavior::Wander).tick(&mut agent, &grid),
        Status::Failure
    );
    assert_eq!(agent.position(), Position { x: 0, y: 0 });
    assert_eq!(agent.energy(), 100);
}

#[test]
fn default_policy_wanders_until_hungry_then_seeks_the_goal() {
    let grid = Grid::new(6, 6, Position { x: 5, y: 5 });
    let mut agent = BehaviorTreeAgent::new(0, 0);
    // Every tick of a fed agent is one wandering step, or none at all where
    // eight draws in a row led nowhere.
    let mut moves: u32 = 0;
    let mut ticks: u32 = 0;
    while agent.energy() >= 50 {
        let before = agent.position();
        let energy: u32 = agent.energy();
        agent.update(&grid);
        let after = agent.position();
        if after == before {
            assert_eq!(agent.energy(), energy);
        } else {
            assert_eq!(before.x.abs_diff(after.x) + before.y.abs_diff(after.y), 1);
            assert_eq!(agent.energy(), energy - 1);
            moves += 1;
        }
        ticks += 1;
        assert!(ticks < 100_000, "the agent should get hungry");
    }
    assert_eq!(moves, 51);
    // A hungry agent walks straight to the goal, where it eats.
    let mut budget: u32 = 0;
    while agent.position() != grid.goal() {
        let before = agent.position();
        agent.update(&grid);
        let after = agent.position();
        let old_distance: usize = before.x.abs_diff(5) + before.y.abs_diff(5);
        let new_distance: usize = after.x.abs_diff(5) + after.y.abs_diff(5);
        assert_eq!(new_distance + 1, old_distance);
        budget += 1;
        assert!(budget <= 10);
    }
    let hungry: u32 = agent.energy();
    agent.update(&grid);
    assert_eq!(agent.position(), grid.goal());
    assert_eq!(agent.energy(), hungry + 20);
}

#[test]
fn directions_are_left_right_up_down() {
    let grid = Grid::with_obstacles(3, 3, Position { x: 2, y: 2 }, &[(1, 0)]);
    let middle = Position { x: 1, y: 1 };
    assert_eq!(step_toward(middle, 0, &grid), Some(Position { x: 0, y: 1 }));
    assert_eq!(step_toward(middle, 1, &grid), Some(Position { x: 2, y: 1 }));
    // The cell above is blocked.
    assert_eq!(step_toward(middle, 2, &grid), None);
    assert_eq!(step_toward(middle, 3, &grid), Some(Position { x: 1, y: 2 }));
    // Four is no direction.
    assert_eq!(step_toward(middle, 4, &grid), None);
    // No step leads off the grid.
    let corner = Position { x: 0, y: 0 };
    assert_eq!(step_toward(corner, 0, &grid), None);
    assert_eq!(step_toward(corner, 2, &grid), None);
    assert_eq!(step_toward(Position { x: 2, y: 2 }, 1, &grid), None);
    assert_eq!(step_toward(Position { x: 2, y: 2 }, 3, &grid), None);
    let far = Position { x: usize::MAX, y: usize::MAX };
    assert_eq!(step_toward(far, 1, &grid), None);
    assert_eq!(step_toward(far, 3, &grid), None);
}

#[test]
fn wandering_takes_the_first_draw_that_leads_somewhere() {
    // From the corner only right (1) and down (3) lead anywhere.
    let grid = Grid::new(3, 3, Position { x: 2, y: 2 });
    let mut agent = BehaviorTreeAgent::new(0, 0);
    let status = wander_with(&mut agent, &grid, &[0, 2, 2, 3, 1, 1, 1, 1]);
    assert_eq!(status, Status::Success);
    assert_eq!(agent.position(), Position { x: 0, y: 1 });
    assert_eq!(agent.energy(), 99);
    let status = wander_with(&mut agent, &grid, &[1, 0, 2, 3, 0, 0, 0, 0]);
    assert_eq!(status, Status::Success);
    assert_eq!(agent.position(), Position { x: 1, y: 1 });
    assert_eq!(agent.energy(), 98);
}

#[test]
fn wandering_fails_after_eight_draws_that_lead_nowhere() {
    let grid = Grid::new(3, 3, Position { x: 2, y: 2 });
    let mut agent = BehaviorTreeAgent::new(0, 0);
    let status = wander_with(&mut agent, &grid, &[0, 2, 0, 2, 2, 0, 0, 2]);
    assert_eq!(status, Status::Failure);
    assert_eq!(agent.position(), Position { x: 0, y: 0 });
    assert_eq!(agent.energy(), 100);
    // The eighth draw still counts.
    let status = wander_with(&mut agent, &grid, &[0, 2, 0, 2, 2, 0, 0, 1]);
    assert_eq!(status, Status::Success);
    assert_eq!(agent.position(), Position { x: 1, y: 0 });
    assert_eq!(agent.energy(), 99);
}

#[test]
fn wandering_does_not_look_at_a_ninth_draw() {
    let grid = Grid::new(3, 3, Position { x: 2, y: 2 });
    let mut agent = BehaviorTreeAgent::new(0, 0);
    let status = wander_with(&mut agent, &grid, &[0, 2, 0, 2, 2, 0, 0, 2, 1, 3]);
    assert_eq!(status, Status::Failure);
    assert_eq!(agent.position(), Position { x: 0, y: 0 });
    assert_eq!(agent.energy(), 100);
}

#[test]
fn wandering_with_fewer_draws_tries_them_all() {
    let grid = Grid::new(3, 3, Position { x: 2, y: 2 });
    let mut agent = BehaviorTreeAgent::new(2, 2);
    assert_eq!(wander_with(&mut agent, &grid, &[]), Status::Failure);
    assert_eq!(wander_with(&mut agent, &grid, &[1, 3]), Status::Failure);
    assert_eq!(agent.position(), Position { x: 2, y: 2 });
    assert_eq!(wander_with(&mut agent, &grid, &[1, 3, 2]), Status::Success);
    assert_eq!(agent.position(), Position { x: 2, y: 1 });
    // A number that is no direction leads nowhere.
    assert_eq!(wander_with(&mut agent, &grid, &[4, 7, 100]), Status::Failure);
    assert_eq!(agent.position(), Position { x: 2, y: 1 });
    assert_eq!(agent.energy(), 99);
}

#[test]
fn wandering_without_a_walkable_neighbor_always_fails() {
    let grid = Grid::with_obstacles(3, 3, Position { x: 2, y: 2 }, &[(1, 0), (0, 1)]);
    let mut agent = BehaviorTreeAgent::new(0, 0);
    let mut first: u32 = 0;
    while first < 4 {
        let draws = [first, 0, 1, 2, 3, 3, 2, 1];
        assert_eq!(wander_with(&mut agent, &grid, &draws), Status::Failure);
        assert_eq!(agent.position(), Position { x: 0, y: 0 });
        assert_eq!(agent.energy(), 100);
        first += 1;
    }
}

#[test]
fn wandering_costs_no_energy_that_is_not_there() {
    let grid = Grid::new(2, 1, Position { x: 1, y: 0 });
    let mut agent = BehaviorTreeAgent::new(0, 0);
    tire(&mut agent, &grid, 0);
    assert_eq!(agent.energy(), 0);
    let here = agent.position();
    let status = wander_with(&mut agent, &grid, &[0, 1, 0, 1, 0, 1, 0, 1]);
    assert_eq!(status, Status::Success);
    assert_ne!(agent.position(), here);
    assert_eq!(agent.energy(), 0);
}
