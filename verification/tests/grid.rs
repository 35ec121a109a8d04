use cognitive_grid::engine::grid::Grid;
use cognitive_grid::engine::position::Position;

#[test]
fn open_grid_is_walkable_inside_only() {
    let grid = Grid::new(4, 3, Position { x: 3, y: 2 });
    assert_eq!(grid.width(), 4);
    assert_eq!(grid.height(), 3);
    assert_eq!(grid.goal(), Position { x: 3, y: 2 });
    let mut y: usize = 0;
    while y < 5 {
        let mut x: usize = 0;
        while x < 6 {
            assert_eq!(grid.is_walkable(x, y), x < 4 && y < 3);
            x += 1;
        }
        y += 1;
    }
    assert!(!grid.is_walkable(usize::MAX, 0));
    assert!(!grid.is_walkable(0, usize::MAX));
}

#[test]
fn obstacles_block_cells_but_never_the_goal() {
    let goal = Position { x: 2, y: 2 };
    let grid = Grid::with_obstacles(3, 3, goal, &[(1, 0), (2, 2), (7, 7), (0, 0), (1, 0)]);
    assert!(!grid.is_walkable(1, 0));
    assert!(!grid.is_walkable(0, 0));
    assert!(grid.is_walkable(2, 2));
    assert!(grid.is_walkable(0, 1));
    assert!(grid.is_walkable(1, 1));
    assert!(!grid.is_walkable(7, 7));
}

#[test]
fn neighbors_come_in_the_order_left_right_up_down() {
    let grid = Grid::new(3, 3, Position { x: 2, y: 2 });
    assert_eq!(
        grid.neighbors(1, 1),
        vec![
            Position { x: 0, y: 1 },
            Position { x: 2, y: 1 },
            Position { x: 1, y: 0 },
            Position { x: 1, y: 2 },
        ]
    );
    assert_eq!(
        grid.neighbors(0, 0),
        vec![Position { x: 1, y: 0 }, Position { x: 0, y: 1 }]
    );
    assert_eq!(
        grid.neighbors(2, 2),
        vec![Position { x: 1, y: 2 }, Position { x: 2, y: 1 }]
    );
    // A cell outside the grid can still touch it.
    assert_eq!(grid.neighbors(3, 1), vec![Position { x: 2, y: 1 }]);
    assert_eq!(grid.neighbors(usize::MAX, usize::MAX), vec![]);
}

#[test]
fn neighbors_leave_out_blocked_cells() {
    let grid = Grid::with_obstacles(3, 3, Position { x: 2, y: 2 }, &[(0, 1), (1, 2)]);
    assert_eq!(
        grid.neighbors(1, 1),
        vec![Position { x: 2, y: 1 }, Position { x: 1, y: 0 }]
    );
}

#[test]
fn random_neighbor_is_a_walkable_neighbor() {
    let grid = Grid::with_obstacles(3, 3, Position { x: 2, y: 2 }, &[(0, 1)]);
    let mut seen: Vec<(usize, usize)> = Vec::new();
    let mut round: u32 = 0;
    while round < 2000 {
        let chosen = grid.random_walkable_neighbor(1, 1).expect("the cell has neighbors");
        assert!(chosen == (2, 1) || chosen == (1, 0) || chosen == (1, 2));
        if !seen.contains(&chosen) {
            seen.push(chosen);
        }
        round += 1;
    }
    // Each of the three comes up.
    assert_eq!(seen.len(), 3);
}

#[test]
fn boxed_in_cell_has_no_random_neighbor() {
    let grid = Grid::with_obstacles(3, 3, Position { x: 2, y: 2 }, &[(1, 0), (0, 1)]);
    assert_eq!(grid.random_walkable_neighbor(0, 0), None);
    let single = Grid::new(1, 1, Position { x: 0, y: 0 });
    assert_eq!(single.random_walkable_neighbor(0, 0), None);
}

#[test]
fn scattered_obstacles_spare_start_and_goal() {
    let goal = Position { x: 2, y: 1 };
    let all = [true; 6];
    let grid = Grid::with_scattered_obstacles(3, 2, goal, &all);
    assert!(grid.is_walkable(0, 0));
    assert!(grid.is_walkable(2, 1));
    assert!(!grid.is_walkable(1, 0));
    assert!(!grid.is_walkable(2, 0));
    assert!(!grid.is_walkable(0, 1));
    assert!(!grid.is_walkable(1, 1));
}

#[test]
fn scattered_obstacles_follow_the_draws_row_by_row() {
    let goal = Position { x: 2, y: 1 };
    // Row 0: (1,0) drawn. Row 1: (0,1) drawn; the draw of (2,1) is missing.
    let draws = [false, true, false, true, false];
    let grid = Grid::with_scattered_obstacles(3, 2, goal, &draws);
    assert!(grid.is_walkable(0, 0));
    assert!(!grid.is_walkable(1, 0));
    assert!(grid.is_walkable(2, 0));
    assert!(!grid.is_walkable(0, 1));
    assert!(grid.is_walkable(1, 1));
    assert!(grid.is_walkable(2, 1));
    let open = Grid::with_scattered_obstacles(3, 2, goal, &[]);
    assert!(open.is_walkable(1, 0));
    assert!(open.is_walkable(0, 1));
}

#[test]
fn obstacles_are_listed_row_by_row() {
    let grid = Grid::with_obstacles(3, 3, Position { x: 2, y: 2 }, &[(2, 1), (1, 0), (0, 1), (2, 2)]);
    assert_eq!(grid.obstacle_positions(), vec![(1, 0), (0, 1), (2, 1)]);
    let open = Grid::new(3, 3, Position { x: 2, y: 2 });
    assert_eq!(open.obstacle_positions(), vec![]);
}

#[test]
fn cloned_grid_has_the_same_cells() {
    let grid = Grid::with_obstacles(4, 3, Position { x: 3, y: 2 }, &[(1, 0), (2, 2)]);
    let copy = grid.clone();
    assert_eq!(copy.width(), 4);
    assert_eq!(copy.height(), 3);
    assert_eq!(copy.goal(), Position { x: 3, y: 2 });
    let mut y: usize = 0;
    while y < 4 {
        let mut x: usize = 0;
        while x < 5 {
            assert_eq!(copy.is_walkable(x, y), grid.is_walkable(x, y));
            x += 1;
        }
        y += 1;
    }
    assert_eq!(copy.obstacle_positions(), vec![(1, 0), (2, 2)]);
}
