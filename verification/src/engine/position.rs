use vstd::prelude::*;

verus! {

/// A position on the grid.
#[derive(Clone, Copy, Debug, PartialEq, Eq, Structural, Hash)]
pub struct Position {
    pub x: usize,
    pub y: usize,
}

/// Distance between two integers.
pub open spec fn gap(a: int, b: int) -> nat {
    if a <= b {
        (b - a) as nat
    } else {
        (a - b) as nat
    }
}

/// Manhattan distance between two cells given by their coordinates.
pub open spec fn manhattan(ax: int, ay: int, bx: int, by: int) -> nat {
    gap(ax, bx) + gap(ay, by)
}

/// Whether two cells share an edge: they differ by one step along one axis.
pub open spec fn adjacent(ax: int, ay: int, bx: int, by: int) -> bool {
    manhattan(ax, ay, bx, by) == 1
}

impl Position {
    /// Manhattan distance from this position to another.
    pub open spec fn distance(self, other: Position) -> nat {
        manhattan(self.x as int, self.y as int, other.x as int, other.y as int)
    }

    /// Whether the other position is one orthogonal step away.
    pub open spec fn touches(self, other: Position) -> bool {
        self.distance(other) == 1
    }
}

/// A step along one axis changes the Manhattan distance to any third cell by
/// at most one.
pub proof fn lemma_manhattan_step(ax: int, ay: int, bx: int, by: int, tx: int, ty: int)
    requires
        adjacent(ax, ay, bx, by),
    ensures
        manhattan(ax, ay, tx, ty) <= manhattan(bx, by, tx, ty) + 1,
        manhattan(bx, by, tx, ty) <= manhattan(ax, ay, tx, ty) + 1,
{
}

} // verus!
