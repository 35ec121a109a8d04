//! A map from the cells of a grid to values, held in a hash map under each
//! cell's row-major index.

use std::collections::HashMap;
use vstd::prelude::*;
use crate::algorithms::paths::Cell;

verus! {

broadcast use vstd::std_specs::hash::group_hash_axioms;

/// A cell and its row-major index in a grid of the given width.
pub open spec fn slot_of(width: int, c: Cell) -> int {
    c.1 * width + c.0
}

/// Two cells inside a grid that share a row-major index are the same cell.
pub proof fn lemma_slot_injective(width: int, height: int, a: Cell, b: Cell)
    requires
        a.0 < width,
        b.0 < width,
        a.1 < height,
        b.1 < height,
        slot_of(width, a) == slot_of(width, b),
    ensures
        a == b,
        0 <= slot_of(width, a) < width * height,
{
    let ax = a.0 as int;
    let ay = a.1 as int;
    let bx = b.0 as int;
    let by = b.1 as int;
    assert(ay == by) by (nonlinear_arith)
        requires
            0 <= ax < width,
            0 <= bx < width,
            0 <= ay,
            0 <= by,
            ay * width + ax == by * width + bx,
    ;
    assert(0 <= ay * width + ax < width * height) by (nonlinear_arith)
        requires
            0 <= ax < width,
            0 <= ay < height,
    ;
}

/// A map from cells of a grid of fixed size to values.
pub struct CellMap<V> {
    width: usize,
    height: usize,
    slots: HashMap<usize, V>,
}

impl<V> View for CellMap<V> {
    type V = Map<Cell, V>;

    /// The map from cells to values: a cell inside the grid has the value
    /// stored under its index.
    closed spec fn view(&self) -> Map<Cell, V> {
        Map::new(
            |c: Cell|
                c.0 < self.width && c.1 < self.height && self.slots@.contains_key(
                    slot_of(self.width as int, c) as usize,
                ),
            |c: Cell| self.slots@[slot_of(self.width as int, c) as usize],
        )
    }
}

impl<V: Copy> CellMap<V> {
    /// Validity: every index of a cell fits the machine word.
    pub closed spec fn wf(&self) -> bool {
        self.width * self.height <= usize::MAX
    }

    /// Whether the cell lies inside the grid that the map was made for.
    pub closed spec fn covers(&self, c: Cell) -> bool {
        c.0 < self.width && c.1 < self.height
    }

    pub closed spec fn spec_width(&self) -> usize {
        self.width
    }

    pub closed spec fn spec_height(&self) -> usize {
        self.height
    }

    /// A cell is covered exactly when it lies inside the grid, and only
    /// covered cells have values.
    pub proof fn lemma_covers(&self, c: Cell)
        ensures
            self.covers(c) <==> c.0 < self.spec_width() && c.1 < self.spec_height(),
            self@.contains_key(c) ==> self.covers(c),
    {
    }

    /// An empty map for a grid of the given size.
    pub fn new(width: usize, height: usize) -> (map: Self)
        requires
            width * height <= usize::MAX,
        ensures
            map.wf(),
            map@ == Map::<Cell, V>::empty(),
            map.spec_width() == width,
            map.spec_height() == height,
    {
        let map = CellMap { width, height, slots: HashMap::new() };
        assert(map@ =~= Map::<Cell, V>::empty());
        map
    }

    /// The index under which a covered cell is stored.
    fn slot(&self, c: Cell) -> (k: usize)
        requires
            self.wf(),
            self.covers(c),
        ensures
            k == slot_of(self.width as int, c),
    {
        proof {
            lemma_slot_injective(self.width as int, self.height as int, c, c);
            assert(c.1 * self.width <= slot_of(self.width as int, c)) by (nonlinear_arith)
                requires
                    slot_of(self.width as int, c) == c.1 * self.width + c.0,
                    0 <= c.0,
            ;
        }
        c.1 * self.width + c.0
    }

    /// The value of a cell, if it has one.
    pub fn get(&self, c: Cell) -> (value: Option<V>)
        requires
            self.wf(),
        ensures
            value == if self@.contains_key(c) {
                Some(self@[c])
            } else {
                None
            },
    {
        if c.0 >= self.width || c.1 >= self.height {
            return None;
        }
        let k = self.slot(c);
        match self.slots.get(&k) {
            Some(v) => Some(*v),
            None => None,
        }
    }

    /// Whether the cell has a value.
    pub fn contains(&self, c: Cell) -> (found: bool)
        requires
            self.wf(),
        ensures
            found == self@.contains_key(c),
    {
        if c.0 >= self.width || c.1 >= self.height {
            return false;
        }
        let k = self.slot(c);
        self.slots.contains_key(&k)
    }

    /// Gives a covered cell a value, in place of the one it had.
    pub fn insert(&mut self, c: Cell, value: V)
        requires
            old(self).wf(),
            old(self).covers(c),
        ensures
            final(self).wf(),
            final(self)@ == old(self)@.insert(c, value),
            final(self).spec_width() == old(self).spec_width(),
            final(self).spec_height() == old(self).spec_height(),
    {
        let k = self.slot(c);
        self.slots.insert(k, value);
        proof {
            let w = self.width as int;
            let h = self.height as int;
            assert forall|d: Cell| d.0 < w && d.1 < h && d != c implies slot_of(w, d) as usize
                != k by {
                lemma_slot_injective(w, h, d, d);
                if slot_of(w, d) == slot_of(w, c) {
                    lemma_slot_injective(w, h, d, c);
                }
            }
            assert(self@ =~= old(self)@.insert(c, value));
        }
    }
}

} // verus!
