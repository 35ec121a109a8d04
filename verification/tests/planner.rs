use cognitive_grid::algorithms::astar::{find_path, manhattan, Node};
use cognitive_grid::engine::world::{Grid, Position};

fn is_connected(grid: &Grid, path: &[(usize, usize)]) -> bool {
    if path.is_empty() {
        return false;
    }
    for cell in path {
        if !grid.is_walkable(cell.0, cell.1) {
            return false;
        }
    }
    for pair in path.windows(2) {
        let dx: usize = pair[0].0.abs_diff(pair[1].0);
        let dy: usize = pair[0].1.abs_diff(pair[1].1);
        if dx + dy != 1 {
            return false;
        }
    }
    true
}

#[test]
fn straight_line_path() {
    let goal = Position { x: 4, y: 0 };
    let grid = Grid::new(5, 1, goal);
    let start = (0, 0);

    let path = find_path(start, (4, 0), &grid, None).expect("path should exist");
    assert_eq!(path.first().copied(), Some(start));
    assert_eq!(path.last().copied(), Some((4, 0)));
    assert_eq!(path.len(), 5);
}

#[test]
fn path_around_wall() {
    // 5x5 grid with a horizontal wall at y=2 except at x=2.
    let goal = Position { x: 4, y: 4 };
    let obstacles = [(0, 2), (1, 2), (3, 2), (4, 2)];
    let grid = Grid::with_obstacles(5, 5, goal, &obstacles);

    let start = (0, 0);
    let path = find_path(start, (4, 4), &grid, None).expect("path should exist");
    assert_eq!(path.first().copied(), Some(start));
    assert_eq!(path.last().copied(), Some((4, 4)));
}

#[test]
fn no_path_when_fully_blocked() {
    let goal = Position { x: 2, y: 2 };
    // Block all neighbors around start (0,0).
    let obstacles = [(1, 0), (0, 1)];
    let grid = Grid::with_obstacles(3, 3, goal, &obstacles);

    let start = (0, 0);
    let path = find_path(start, (2, 2), &grid, None);
    assert!(path.is_none());
}

#[test]
fn bounded_search_returns_partial_path() {
    // 10x1 grid — optimal path is 10 cells long (start..=goal).
    // With max_expansions = 3, agent can't see all the way.
    let goal = Position { x: 9, y: 0 };
    let grid = Grid::new(10, 1, goal);
    let start = (0, 0);

    let path = find_path(start, (9, 0), &grid, Some(3)).expect("partial path should exist");
    assert_eq!(path.first().copied(), Some(start));
    // Should NOT reach the goal — path is partial.
    assert!(path.len() < 10, "bounded search should not find full path");
    assert!(path.len() > 1, "should make some progress");
}

#[test]
fn straight_line_path_is_exact() {
    let grid = Grid::new(5, 1, Position { x: 4, y: 0 });
    let path = find_path((0, 0), (4, 0), &grid, None);
    assert_eq!(path, Some(vec![(0, 0), (1, 0), (2, 0), (3, 0), (4, 0)]));
}

#[test]
fn bounded_search_stops_after_three_expansions() {
    let grid = Grid::new(10, 1, Position { x: 9, y: 0 });
    let path = find_path((0, 0), (9, 0), &grid, Some(3)).expect("partial path should exist");
    // The cells (0,0), (1,0) and (2,0) are expanded; the last is nearest to the goal.
    assert_eq!(path, vec![(0, 0), (1, 0), (2, 0)]);
    assert!(!path.contains(&(9, 0)));
}

#[test]
fn enclosed_start_has_no_path() {
    let grid = Grid::with_obstacles(3, 3, Position { x: 2, y: 2 }, &[(1, 0), (0, 1)]);
    assert_eq!(find_path((0, 0), (2, 2), &grid, None), None);
}

#[test]
fn path_around_wall_is_shortest_and_connected() {
    let obstacles = [(0, 2), (1, 2), (3, 2), (4, 2)];
    let grid = Grid::with_obstacles(5, 5, Position { x: 4, y: 4 }, &obstacles);
    let path = find_path((0, 0), (4, 4), &grid, None).expect("path should exist");
    // Eight steps are needed whichever way leads through the gap at (2, 2).
    assert_eq!(path.len(), 9);
    assert!(path.contains(&(2, 2)));
    assert!(is_connected(&grid, &path));
}

#[test]
fn detour_is_as_long_as_the_shortest_way_round() {
    // A wall across the middle column, open only at the bottom.
    let obstacles = [(2, 0), (2, 1), (2, 2), (2, 3)];
    let grid = Grid::with_obstacles(5, 5, Position { x: 4, y: 0 }, &obstacles);
    let path = find_path((0, 0), (4, 0), &grid, None).expect("path should exist");
    // Down four, across four, up four.
    assert_eq!(path.len(), 13);
    assert_eq!(path.first().copied(), Some((0, 0)));
    assert_eq!(path.last().copied(), Some((4, 0)));
    assert!(is_connected(&grid, &path));
}

#[test]
fn unwalkable_start_or_goal_gives_nothing() {
    let grid = Grid::with_obstacles(3, 3, Position { x: 2, y: 2 }, &[(0, 0), (1, 1)]);
    // The start is blocked.
    assert_eq!(find_path((0, 0), (2, 2), &grid, None), None);
    // The target is blocked.
    assert_eq!(find_path((2, 2), (1, 1), &grid, None), None);
    // The start lies outside the grid.
    assert_eq!(find_path((3, 0), (2, 2), &grid, Some(5)), None);
    // The target lies outside the grid.
    assert_eq!(find_path((2, 2), (0, 7), &grid, Some(5)), None);
}

#[test]
fn start_on_goal_is_a_path_of_one_cell() {
    let grid = Grid::new(4, 4, Position { x: 3, y: 3 });
    assert_eq!(find_path((1, 2), (1, 2), &grid, None), Some(vec![(1, 2)]));
    assert_eq!(find_path((1, 2), (1, 2), &grid, Some(0)), Some(vec![(1, 2)]));
}

#[test]
fn cap_of_zero_stops_where_a_cap_of_one_does() {
    let grid = Grid::new(10, 1, Position { x: 9, y: 0 });
    assert_eq!(find_path((0, 0), (9, 0), &grid, Some(0)), Some(vec![(0, 0)]));
    assert_eq!(find_path((0, 0), (9, 0), &grid, Some(1)), Some(vec![(0, 0)]));
}

#[test]
fn cap_that_is_large_enough_gives_the_full_path() {
    let grid = Grid::new(10, 1, Position { x: 9, y: 0 });
    // Nine cells are expanded before the goal leaves the open list.
    let partial = find_path((0, 0), (9, 0), &grid, Some(9)).expect("partial path should exist");
    assert_eq!(partial.len(), 9);
    assert_eq!(partial.last().copied(), Some((8, 0)));
    let full = find_path((0, 0), (9, 0), &grid, Some(10)).expect("path should exist");
    assert_eq!(full.len(), 10);
    assert_eq!(full.last().copied(), Some((9, 0)));
}

#[test]
fn capped_search_in_an_enclosure() {
    // The start can reach three cells, none of them the goal.
    let obstacles = [(0, 1), (1, 1), (2, 1), (3, 0)];
    let grid = Grid::with_obstacles(5, 3, Position { x: 4, y: 2 }, &obstacles);
    // Without a cap, and with a cap above the three cells, the planner finds out.
    assert_eq!(find_path((0, 0), (4, 2), &grid, None), None);
    assert_eq!(find_path((0, 0), (4, 2), &grid, Some(4)), None);
    // With a smaller cap it stops early, at the cell nearest to the goal.
    assert_eq!(find_path((0, 0), (4, 2), &grid, Some(3)), Some(vec![(0, 0), (1, 0), (2, 0)]));
    assert_eq!(find_path((0, 0), (4, 2), &grid, Some(2)), Some(vec![(0, 0), (1, 0)]));
}

#[test]
fn partial_path_is_connected_and_misses_the_goal() {
    let obstacles = [(1, 1), (2, 1), (3, 1), (1, 3), (2, 3)];
    let grid = Grid::with_obstacles(6, 6, Position { x: 5, y: 5 }, &obstacles);
    let mut cap: usize = 1;
    while cap <= 8 {
        let path = find_path((0, 0), (5, 5), &grid, Some(cap)).expect("partial path should exist");
        assert_eq!(path.first().copied(), Some((0, 0)));
        assert_ne!(path.last().copied(), Some((5, 5)));
        assert!(is_connected(&grid, &path));
        cap += 1;
    }
}

#[test]
fn ties_prefer_the_cell_nearer_to_the_goal() {
    // On an open grid every cell between start and goal has the same f; the
    // search then follows the smaller h and expands no cell twice, so a cap of
    // n leaves a path of n cells.
    let grid = Grid::new(6, 6, Position { x: 5, y: 5 });
    let path = find_path((0, 0), (5, 5), &grid, Some(4)).expect("partial path should exist");
    assert_eq!(path.len(), 4);
    assert!(is_connected(&grid, &path));
}

#[test]
fn manhattan_adds_the_gaps_along_both_axes() {
    assert_eq!(manhattan((0, 0), (3, 4)), 7);
    assert_eq!(manhattan((3, 4), (0, 0)), 7);
    assert_eq!(manhattan((5, 1), (2, 6)), 8);
    assert_eq!(manhattan((2, 2), (2, 2)), 0);
}

#[test]
fn open_list_orders_by_f_then_by_h() {
    let near = Node { position: (1, 0), g_cost: 4, h_cost: 2 };
    let far = Node { position: (0, 1), g_cost: 2, h_cost: 4 };
    let cheap = Node { position: (2, 2), g_cost: 1, h_cost: 4 };
    assert_eq!(near.f_cost(), 6);
    assert_eq!(far.f_cost(), 6);
    assert_eq!(cheap.f_cost(), 5);
    // A smaller f comes first, whatever the h.
    assert!(cheap.comes_before(&near));
    assert!(!near.comes_before(&cheap));
    // Equal f: the smaller h comes first.
    assert!(near.comes_before(&far));
    assert!(!far.comes_before(&near));
    // Equal in both: neither comes before the other.
    let twin = Node { position: (9, 9), g_cost: 4, h_cost: 2 };
    assert!(!near.comes_before(&twin));
    assert!(!twin.comes_before(&near));
    // The sum does not overflow.
    let huge = Node { position: (0, 0), g_cost: usize::MAX, h_cost: usize::MAX };
    assert_eq!(huge.f_cost(), 2 * (usize::MAX as u128));
}

#[test]
fn cap_up_to_the_distance_gives_a_partial_path_no_longer_than_the_cap() {
    let start = (0, 0);
    let goal = (5, 5);
    let open = Grid::new(6, 6, Position { x: 5, y: 5 });
    let walled = Grid::with_obstacles(
        6,
        6,
        Position { x: 5, y: 5 },
        &[(1, 1), (2, 1), (3, 1), (1, 3), (2, 3), (4, 4), (4, 5)],
    );
    for grid in [&open, &walled] {
        let full = find_path(start, goal, grid, None).expect("path should exist");
        let distance: usize = full.len() - 1;
        let mut cap: usize = 1;
        while cap <= distance {
            let path = find_path(start, goal, grid, Some(cap)).expect("partial path should exist");
            assert!(1 <= path.len() && path.len() <= cap);
            assert_eq!(path.first().copied(), Some(start));
            assert!(!path.contains(&goal));
            let last = path[path.len() - 1];
            assert!(manhattan(last, goal) <= manhattan(start, goal));
            assert!(is_connected(grid, &path));
            let mut seen: Vec<(usize, usize)> = Vec::new();
            for cell in &path {
                assert!(!seen.contains(cell));
                seen.push(*cell);
            }
            cap += 1;
        }
    }
}

#[test]
fn cap_above_the_cells_in_reach_finds_out_that_the_goal_is_enclosed() {
    // Six cells can be reached from the start; the goal is behind a wall.
    let obstacles = [(3, 0), (3, 1), (0, 2), (1, 2), (2, 2), (3, 2)];
    let grid = Grid::with_obstacles(6, 4, Position { x: 5, y: 3 }, &obstacles);
    assert_eq!(find_path((0, 0), (5, 3), &grid, None), None);
    let mut cap: usize = 7;
    while cap <= 30 {
        assert_eq!(find_path((0, 0), (5, 3), &grid, Some(cap)), None);
        cap += 1;
    }
    // With a cap of six or less the search stops before it knows.
    let mut small: usize = 1;
    while small <= 6 {
        let path = find_path((0, 0), (5, 3), &grid, Some(small)).expect("partial path");
        assert!(path.len() <= small);
        assert!(!path.contains(&(5, 3)));
        small += 1;
    }
}
