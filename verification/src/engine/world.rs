//! A world: one grid and one agent, advanced tick by tick.

use vstd::prelude::*;
use crate::agents::Agent;
use crate::agents::AnyAgent;
use crate::agents::tick_allows;

pub use crate::engine::grid::Grid;
pub use crate::engine::position::Position;

verus! {

/// The character that stands for the cell `(x, y)` in a picture of the grid:
/// `A` for the agent, `G` for the goal, `.` for another walkable cell, and `#`
/// for a blocked one.
pub open spec fn symbol(grid: &Grid, agent: Position, x: int, y: int) -> char {
    if agent.x == x && agent.y == y {
        'A'
    } else if grid.goal().x == x && grid.goal().y == y {
        'G'
    } else if grid.walkable(x, y) {
        '.'
    } else {
        '#'
    }
}

/// A picture of the grid with an agent on it, row by row.
pub fn render(grid: &Grid, agent: Position) -> (rows: Vec<Vec<char>>)
    ensures
        rows@.len() == grid.height(),
        forall|y: int| 0 <= y < rows@.len() ==> (#[trigger] rows@[y])@.len() == grid.width(),
        forall|y: int, x: int|
            0 <= y < grid.height() && 0 <= x < grid.width() ==> #[trigger] rows@[y]@[x] == symbol(
                grid,
                agent,
                x,
                y,
            ),
{
    let width = grid.width();
    let height = grid.height();
    let goal = grid.goal();
    let mut rows: Vec<Vec<char>> = Vec::new();
    let mut y: usize = 0;
    while y < height
        invariant
            y <= height,
            width == grid.width(),
            height == grid.height(),
            goal == grid.goal(),
            rows@.len() == y,
            forall|j: int| 0 <= j < y ==> (#[trigger] rows@[j])@.len() == width,
            forall|j: int, i: int|
                0 <= j < y && 0 <= i < width ==> #[trigger] rows@[j]@[i] == symbol(grid, agent, i, j),
        decreases height - y,
    {
        let mut row: Vec<char> = Vec::new();
        let mut x: usize = 0;
        while x < width
            invariant
                x <= width,
                y < height,
                width == grid.width(),
                goal == grid.goal(),
                row@.len() == x,
                forall|i: int| 0 <= i < x ==> #[trigger] row@[i] == symbol(grid, agent, i, y as int),
            decreases width - x,
        {
            let mark = if agent.x == x && agent.y == y {
                'A'
            } else if goal.x == x && goal.y == y {
                'G'
            } else if grid.is_walkable(x, y) {
                '.'
            } else {
                '#'
            };
            row.push(mark);
            x += 1;
        }
        rows.push(row);
        y += 1;
    }
    rows
}

/// The world contains the grid and an agent of any strategy.
pub struct World {
    pub grid: Grid,
    pub agent: AnyAgent,
    pub step: usize,
}

impl World {
    /// Create a new world with the given agent: an open grid of the given
    /// size with the goal in the corner opposite the origin.
    pub fn new(width: usize, height: usize, agent: AnyAgent) -> (world: World)
        requires
            0 < width,
            0 < height,
            width * height <= usize::MAX,
        ensures
            world.grid.width() == width,
            world.grid.height() == height,
            world.grid.goal() == (Position { x: (width - 1) as usize, y: (height - 1) as usize }),
            forall|x: int, y: int|
                world.grid.walkable(x, y) <==> (0 <= x < width && 0 <= y < height),
            world.agent == agent,
            world.step == 0,
    {
        let goal = Position { x: width - 1, y: height - 1 };
        let grid = Grid::new(width, height, goal);
        World { grid, agent, step: 0 }
    }

    /// Has the agent reached the goal cell?
    pub fn has_reached_goal(&self) -> (reached: bool)
        ensures
            reached == (self.agent.spec_position() == self.grid.goal()),
    {
        let pos = self.agent.position();
        pos == self.grid.goal()
    }

    /// Whether the agent is stuck (mostly for A*).
    pub fn is_agent_stuck(&self) -> (stuck: bool)
        ensures
            stuck == self.agent.spec_is_stuck(),
    {
        self.agent.is_stuck()
    }

    /// Advance the world by one tick: update the agent. `noise_fired` says
    /// whether this tick's noise draw fell below the agent's noise level.
    pub fn update(&mut self, noise_fired: bool)
        requires
            old(self).step < usize::MAX,
        ensures
            final(self).step == old(self).step + 1,
            final(self).grid == old(self).grid,
            tick_allows(old(self).agent, &old(self).grid, noise_fired, final(self).agent),
    {
        self.agent.update(&self.grid, noise_fired);
        self.step += 1;
    }

    /// A picture of the world, row by row: `A` for the agent, `G` for the
    /// goal, `.` for another walkable cell, and `#` for a blocked one.
    pub fn picture(&self) -> (rows: Vec<Vec<char>>)
        ensures
            rows@.len() == self.grid.height(),
            forall|y: int| 0 <= y < rows@.len() ==> (#[trigger] rows@[y])@.len() == self.grid.width(),
            forall|y: int, x: int|
                0 <= y < self.grid.height() && 0 <= x < self.grid.width() ==> #[trigger] rows@[y]@[x]
                    == symbol(&self.grid, self.agent.spec_position(), x, y),
    {
        render(&self.grid, self.agent.position())
    }
}

} // verus!
