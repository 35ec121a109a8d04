use vstd::prelude::*;
use crate::chance::pick;
use crate::engine::position::Position;
use crate::engine::position::adjacent;

verus! {

/// Whether the draws block the cell `(x, y)` of a grid of the given width:
/// the cell was drawn, and it is neither the start `(0, 0)` nor the goal.
pub open spec fn scattered(blocked: Seq<bool>, width: int, goal: Position, x: int, y: int) -> bool {
    &&& 0 <= y * width + x < blocked.len()
    &&& blocked[y * width + x]
    &&& !(x == 0 && y == 0)
    &&& !(x == goal.x && y == goal.y)
}

/// A 2D grid of walkable and blocked cells with a single goal cell.
///
/// The dimensions are fixed at construction, both are positive, and the goal
/// lies inside the grid and is never blocked.
pub struct Grid {
    width: usize,
    height: usize,
    goal: Position,
    tiles: Vec<Vec<bool>>,
}

/// Whether the tile matrix has exactly `height` rows of `width` cells each.
spec fn shaped(tiles: Seq<Vec<bool>>, width: int, height: int) -> bool {
    &&& tiles.len() == height
    &&& forall|y: int| 0 <= y < height ==> (#[trigger] tiles[y])@.len() == width
}

/// A tile matrix of the given size in which every cell is walkable.
fn open_tiles(width: usize, height: usize) -> (tiles: Vec<Vec<bool>>)
    ensures
        shaped(tiles@, width as int, height as int),
        forall|y: int, x: int| 0 <= y < height && 0 <= x < width ==> #[trigger] tiles@[y]@[x],
{
    let mut tiles: Vec<Vec<bool>> = Vec::new();
    let mut y: usize = 0;
    while y < height
        invariant
            y <= height,
            tiles@.len() == y,
            forall|j: int| 0 <= j < y ==> (#[trigger] tiles@[j])@.len() == width,
            forall|j: int, i: int| 0 <= j < y && 0 <= i < width ==> #[trigger] tiles@[j]@[i],
        decreases height - y,
    {
        let mut row: Vec<bool> = Vec::new();
        let mut x: usize = 0;
        while x < width
            invariant
                x <= width,
                row@.len() == x,
                forall|i: int| 0 <= i < x ==> row@[i],
            decreases width - x,
        {
            row.push(true);
            x += 1;
        }
        tiles.push(row);
        y += 1;
    }
    tiles
}

impl Grid {
    /// Validity of a grid: the tile matrix has the stated dimensions, the
    /// number of cells fits the machine word, and the goal is a walkable cell.
    #[verifier::type_invariant]
    pub closed spec fn wf(&self) -> bool {
        &&& 0 < self.width
        &&& 0 < self.height
        &&& self.width * self.height <= usize::MAX
        &&& shaped(self.tiles@, self.width as int, self.height as int)
        &&& self.walkable(self.goal.x as int, self.goal.y as int)
    }

    pub closed spec fn spec_width(&self) -> usize {
        self.width
    }

    pub closed spec fn spec_height(&self) -> usize {
        self.height
    }

    pub closed spec fn spec_goal(&self) -> Position {
        self.goal
    }

    /// Whether the cell `(x, y)` lies inside the grid and is not blocked.
    pub closed spec fn walkable(&self, x: int, y: int) -> bool {
        &&& 0 <= x < self.width
        &&& 0 <= y < self.height
        &&& self.tiles@[y]@[x]
    }

    /// Whether the position is a walkable cell.
    pub open spec fn passable(&self, p: Position) -> bool {
        self.walkable(p.x as int, p.y as int)
    }

    /// Whether `(nx, ny)` is a walkable cell one orthogonal step from `(x, y)`.
    pub open spec fn open_neighbor(&self, x: int, y: int, nx: int, ny: int) -> bool {
        adjacent(x, y, nx, ny) && self.walkable(nx, ny)
    }

    /// The walkable cells one orthogonal step from `(x, y)`, in the order
    /// left, right, up, down.
    pub open spec fn open_neighbors(&self, x: int, y: int) -> Seq<Position> {
        self.open_cell(x - 1, y) + self.open_cell(x + 1, y) + self.open_cell(x, y - 1)
            + self.open_cell(x, y + 1)
    }

    /// The cell `(x, y)` as a list: one entry if it is walkable, none if not.
    pub open spec fn open_cell(&self, x: int, y: int) -> Seq<Position> {
        if self.walkable(x, y) {
            seq![Position { x: x as usize, y: y as usize }]
        } else {
            seq![]
        }
    }

    /// A position is listed among the open neighbors of a cell exactly when it
    /// is a walkable cell one step away.
    pub proof fn lemma_open_neighbors(&self, x: int, y: int, p: Position)
        requires
            self.wf(),
        ensures
            self.open_neighbors(x, y).contains(p) <==> self.open_neighbor(
                x,
                y,
                p.x as int,
                p.y as int,
            ),
    {
        let l = self.open_cell(x - 1, y);
        let r = self.open_cell(x + 1, y);
        let u = self.open_cell(x, y - 1);
        let d = self.open_cell(x, y + 1);
        let all = self.open_neighbors(x, y);
        if all.contains(p) {
            let k = choose|k: int| 0 <= k < all.len() && all[k] == p;
            assert(l.contains(p) || r.contains(p) || u.contains(p) || d.contains(p)) by {
                if k < l.len() {
                    assert(l[k] == p);
                } else if k < l.len() + r.len() {
                    assert(r[k - l.len()] == p);
                } else if k < l.len() + r.len() + u.len() {
                    assert(u[k - l.len() - r.len()] == p);
                } else {
                    assert(d[k - l.len() - r.len() - u.len()] == p);
                }
            }
        }
        if self.open_neighbor(x, y, p.x as int, p.y as int) {
            if p.x == x - 1 {
                assert(l[0] == p);
                assert(all[0] == p);
            } else if p.x == x + 1 {
                assert(r[0] == p);
                assert(all[l.len() as int] == p);
            } else if p.y == y - 1 {
                assert(u[0] == p);
                assert(all[(l.len() + r.len()) as int] == p);
            } else {
                assert(d[0] == p);
                assert(all[(l.len() + r.len() + u.len()) as int] == p);
            }
        }
    }

    /// What validity says to code outside this module.
    pub proof fn lemma_wf(&self)
        requires
            self.wf(),
        ensures
            0 < self.width(),
            0 < self.height(),
            self.width() * self.height() <= usize::MAX,
            self.passable(self.goal()),
    {
    }

    /// Walkable cells lie inside the grid.
    pub proof fn lemma_walkable_in_bounds(&self, x: int, y: int)
        requires
            self.walkable(x, y),
        ensures
            0 <= x < self.width(),
            0 <= y < self.height(),
    {
    }

    /// A grid of the given size without obstacles.
    pub fn new(width: usize, height: usize, goal: Position) -> (grid: Grid)
        requires
            0 < width,
            0 < height,
            width * height <= usize::MAX,
            goal.x < width,
            goal.y < height,
        ensures
            grid.wf(),
            grid.width() == width,
            grid.height() == height,
            grid.goal() == goal,
            forall|x: int, y: int|
                grid.walkable(x, y) <==> (0 <= x < width && 0 <= y < height),
    {
        let tiles = open_tiles(width, height);
        Grid { width, height, goal, tiles }
    }

    /// A grid in which the listed cells are blocked. Entries outside the grid
    /// are ignored, and the goal stays walkable even when it is listed.
    pub fn with_obstacles(
        width: usize,
        height: usize,
        goal: Position,
        obstacles: &[(usize, usize)],
    ) -> (grid: Grid)
        requires
            0 < width,
            0 < height,
            width * height <= usize::MAX,
            goal.x < width,
            goal.y < height,
        ensures
            grid.wf(),
            grid.width() == width,
            grid.height() == height,
            grid.goal() == goal,
            forall|x: int, y: int|
                grid.walkable(x, y) <==> (0 <= x < width && 0 <= y < height && (!obstacles@.contains(
                    (x as usize, y as usize),
                ) || (x == goal.x && y == goal.y))),
    {
        let mut tiles = open_tiles(width, height);
        let mut i: usize = 0;
        while i < obstacles.len()
            invariant
                i <= obstacles@.len(),
                shaped(tiles@, width as int, height as int),
                forall|y: int, x: int|
                    0 <= y < height && 0 <= x < width ==> (#[trigger] tiles@[y]@[x] <==> (
                    !obstacles@.take(i as int).contains((x as usize, y as usize)) || (x == goal.x && y
                        == goal.y))),
            decreases obstacles@.len() - i,
        {
            let (x, y) = obstacles[i];
            if x < width && y < height && (x != goal.x || y != goal.y) {
                tiles[y].set(x, false);
            }
            proof {
                let before = obstacles@.take(i as int);
                let after = obstacles@.take(i + 1);
                assert(after =~= before.push(obstacles@[i as int]));
                assert forall|c: (usize, usize)| after.contains(c) <==> (before.contains(c) || c
                    == obstacles@[i as int]) by {
                    if before.contains(c) {
                        let k = choose|k: int| 0 <= k < before.len() && before[k] == c;
                        assert(after[k] == c);
                    }
                    if c == obstacles@[i as int] {
                        assert(after[i as int] == c);
                    }
                }
            }
            i += 1;
        }
        proof {
            assert(obstacles@.take(obstacles@.len() as int) =~= obstacles@);
        }
        Grid { width, height, goal, tiles }
    }

    /// A grid with obstacles scattered by chance. `blocked` holds one draw per
    /// cell, row by row: the draw of cell `(x, y)` stands at index
    /// `y * width + x`, and a cell without a draw counts as not drawn. A drawn
    /// cell is blocked, except for the start `(0, 0)` and the goal, which are
    /// never blocked.
    pub fn with_scattered_obstacles(
        width: usize,
        height: usize,
        goal: Position,
        blocked: &[bool],
    ) -> (grid: Grid)
        requires
            0 < width,
            0 < height,
            width * height <= usize::MAX,
            goal.x < width,
            goal.y < height,
        ensures
            grid.wf(),
            grid.width() == width,
            grid.height() == height,
            grid.goal() == goal,
            forall|x: int, y: int|
                grid.walkable(x, y) <==> (0 <= x < width && 0 <= y < height && !scattered(
                    blocked@,
                    width as int,
                    goal,
                    x,
                    y,
                )),
    {
        let mut tiles: Vec<Vec<bool>> = Vec::new();
        let mut y: usize = 0;
        while y < height
            invariant
                y <= height,
                width * height <= usize::MAX,
                tiles@.len() == y,
                forall|j: int| 0 <= j < y ==> (#[trigger] tiles@[j])@.len() == width,
                forall|j: int, i: int|
                    0 <= j < y && 0 <= i < width ==> (#[trigger] tiles@[j]@[i] <==> !scattered(
                        blocked@,
                        width as int,
                        goal,
                        i,
                        j,
                    )),
            decreases height - y,
        {
            let mut row: Vec<bool> = Vec::new();
            let mut x: usize = 0;
            while x < width
                invariant
                    x <= width,
                    y < height,
                    width * height <= usize::MAX,
                    row@.len() == x,
                    forall|i: int|
                        0 <= i < x ==> (#[trigger] row@[i] <==> !scattered(
                            blocked@,
                            width as int,
                            goal,
                            i,
                            y as int,
                        )),
                decreases width - x,
            {
                proof {
                    assert(y * width + x < width * height) by (nonlinear_arith)
                        requires
                            x < width,
                            y < height,
                    ;
                    assert(0 <= y * width) by (nonlinear_arith)
                        requires
                            0 <= y,
                            0 <= width,
                    ;
                }
                let index = y * width + x;
                let drawn = index < blocked.len() && blocked[index];
                let spared = (x == 0 && y == 0) || (x == goal.x && y == goal.y);
                row.push(!(drawn && !spared));
                x += 1;
            }
            tiles.push(row);
            y += 1;
        }
        Grid { width, height, goal, tiles }
    }

    /// The number of columns.
    #[verifier::when_used_as_spec(spec_width)]
    pub fn width(&self) -> (w: usize)
        ensures
            w == self.spec_width(),
    {
        self.width
    }

    /// The number of rows.
    #[verifier::when_used_as_spec(spec_height)]
    pub fn height(&self) -> (h: usize)
        ensures
            h == self.spec_height(),
    {
        self.height
    }

    /// The goal cell.
    #[verifier::when_used_as_spec(spec_goal)]
    pub fn goal(&self) -> (g: Position)
        ensures
            g == self.spec_goal(),
    {
        self.goal
    }

    /// Whether the given cell is walkable: inside the grid and not blocked.
    pub fn is_walkable(&self, x: usize, y: usize) -> (r: bool)
        ensures
            r == self.walkable(x as int, y as int),
    {
        proof {
            use_type_invariant(self);
        }
        if x >= self.width || y >= self.height {
            return false;
        }
        self.tiles[y][x]
    }

    /// The blocked cells of the grid, row by row.
    pub fn obstacle_positions(&self) -> (blocked: Vec<(usize, usize)>)
        ensures
            forall|c: (usize, usize)|
                blocked@.contains(c) <==> (c.0 < self.width() && c.1 < self.height()
                    && !self.walkable(c.0 as int, c.1 as int)),
            forall|i: int, j: int|
                0 <= i < j < blocked@.len() ==> blocked@[i].1 < blocked@[j].1 || (blocked@[i].1
                    == blocked@[j].1 && blocked@[i].0 < blocked@[j].0),
    {
        let mut blocked: Vec<(usize, usize)> = Vec::new();
        let mut y: usize = 0;
        while y < self.height
            invariant
                y <= self.height,
                forall|c: (usize, usize)|
                    blocked@.contains(c) <==> (c.0 < self.width && c.1 < y && !self.walkable(
                        c.0 as int,
                        c.1 as int,
                    )),
                forall|i: int, j: int|
                    0 <= i < j < blocked@.len() ==> blocked@[i].1 < blocked@[j].1 || (blocked@[i].1
                        == blocked@[j].1 && blocked@[i].0 < blocked@[j].0),
            decreases self.height - y,
        {
            let mut x: usize = 0;
            while x < self.width
                invariant
                    x <= self.width,
                    y < self.height,
                    forall|c: (usize, usize)|
                        blocked@.contains(c) <==> (c.0 < self.width && !self.walkable(
                            c.0 as int,
                            c.1 as int,
                        ) && (c.1 < y || (c.1 == y && c.0 < x))),
                    forall|i: int, j: int|
                        0 <= i < j < blocked@.len() ==> blocked@[i].1 < blocked@[j].1 || (
                        blocked@[i].1 == blocked@[j].1 && blocked@[i].0 < blocked@[j].0),
                decreases self.width - x,
            {
                let ghost before = blocked@;
                if !self.is_walkable(x, y) {
                    blocked.push((x, y));
                    proof {
                        assert forall|i: int, j: int| 0 <= i < j < blocked@.len() implies blocked@[i].1
                            < blocked@[j].1 || (blocked@[i].1 == blocked@[j].1 && blocked@[i].0
                            < blocked@[j].0) by {
                            if j == before.len() {
                                assert(before.contains(before[i]));
                            }
                        }
                    }
                }
                proof {
                    assert forall|c: (usize, usize)|
                        blocked@.contains(c) <==> (c.0 < self.width && !self.walkable(
                            c.0 as int,
                            c.1 as int,
                        ) && (c.1 < y || (c.1 == y && c.0 < x + 1))) by {
                        if before.contains(c) {
                            let k = choose|k: int| 0 <= k < before.len() && before[k] == c;
                            assert(blocked@[k] == c);
                        }
                        if blocked@.contains(c) && !before.contains(c) {
                            let k = choose|k: int| 0 <= k < blocked@.len() && blocked@[k] == c;
                            if k < before.len() {
                                assert(before[k] == c);
                            }
                        }
                        if c == (x, y) && !self.walkable(x as int, y as int) {
                            assert(blocked@[before.len() as int] == c);
                        }
                    }
                }
                x += 1;
            }
            y += 1;
        }
        blocked
    }

    /// The walkable cells one orthogonal step from `(x, y)`, in the order
    /// left, right, up, down.
    pub fn neighbors(&self, x: usize, y: usize) -> (list: Vec<Position>)
        ensures
            list@ == self.open_neighbors(x as int, y as int),
            forall|p: Position|
                list@.contains(p) <==> self.open_neighbor(x as int, y as int, p.x as int, p.y as int),
    {
        proof {
            use_type_invariant(self);
        }
        let mut list: Vec<Position> = Vec::new();
        if x > 0 && self.is_walkable(x - 1, y) {
            list.push(Position { x: x - 1, y });
        }
        if x < usize::MAX && self.is_walkable(x + 1, y) {
            list.push(Position { x: x + 1, y });
        }
        if y > 0 && self.is_walkable(x, y - 1) {
            list.push(Position { x, y: y - 1 });
        }
        if y < usize::MAX && self.is_walkable(x, y + 1) {
            list.push(Position { x, y: y + 1 });
        }
        proof {
            assert(list@ =~= self.open_neighbors(x as int, y as int));
            assert forall|p: Position|
                list@.contains(p) <==> self.open_neighbor(
                    x as int,
                    y as int,
                    p.x as int,
                    p.y as int,
                ) by {
                self.lemma_open_neighbors(x as int, y as int, p);
            }
        }
        list
    }

    /// A walkable neighbor of `(x, y)` chosen at random, or `None` if the cell
    /// is boxed in.
    pub fn random_walkable_neighbor(&self, x: usize, y: usize) -> (r: Option<(usize, usize)>)
        ensures
            r is None <==> self.open_neighbors(x as int, y as int).len() == 0,
            r matches Some(c) ==> self.open_neighbor(x as int, y as int, c.0 as int, c.1 as int),
    {
        let candidates = self.neighbors(x, y);
        match pick(&candidates) {
            Some(p) => Some((p.x, p.y)),
            None => None,
        }
    }
}

impl Clone for Grid {
    /// A grid of the same size, with the same goal and the same obstacles.
    fn clone(&self) -> (copy: Grid)
        ensures
            copy.wf(),
            copy.width() == self.width(),
            copy.height() == self.height(),
            copy.goal() == self.goal(),
            forall|x: int, y: int| copy.walkable(x, y) == self.walkable(x, y),
    {
        proof {
            use_type_invariant(self);
        }
        let mut tiles: Vec<Vec<bool>> = Vec::new();
        let mut y: usize = 0;
        while y < self.height
            invariant
                y <= self.height,
                shaped(self.tiles@, self.width as int, self.height as int),
                tiles@.len() == y,
                forall|j: int| 0 <= j < y ==> (#[trigger] tiles@[j])@.len() == self.width,
                forall|j: int, i: int|
                    0 <= j < y && 0 <= i < self.width ==> #[trigger] tiles@[j]@[i]
                        == self.tiles@[j]@[i],
            decreases self.height - y,
        {
            let mut row: Vec<bool> = Vec::new();
            let mut x: usize = 0;
            while x < self.width
                invariant
                    x <= self.width,
                    y < self.height,
                    shaped(self.tiles@, self.width as int, self.height as int),
                    row@.len() == x,
                    forall|i: int| 0 <= i < x ==> #[trigger] row@[i] == self.tiles@[y as int]@[i],
                decreases self.width - x,
            {
                row.push(self.tiles[y][x]);
                x += 1;
            }
            tiles.push(row);
            y += 1;
        }
        Grid { width: self.width, height: self.height, goal: self.goal, tiles }
    }
}

} // verus!
