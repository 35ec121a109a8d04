use std::collections::VecDeque;
use vstd::prelude::*;
use crate::engine::position::Position;

verus! {

/// What a memory of the given capacity holds after `pos` is recorded into
/// `entries` (oldest entry first).
///
/// A memory of capacity zero stays empty. A position equal to the newest entry
/// is not recorded again. A full memory drops its oldest entry first.
pub open spec fn recorded(entries: Seq<Position>, capacity: nat, pos: Position) -> Seq<Position> {
    if capacity == 0 {
        entries
    } else if entries.len() > 0 && entries.last() == pos {
        entries
    } else if entries.len() >= capacity {
        entries.drop_first().push(pos)
    } else {
        entries.push(pos)
    }
}

/// What a memory of the given capacity holds after the positions of `history`
/// were recorded one after another into an empty memory.
pub open spec fn replay(capacity: nat, history: Seq<Position>) -> Seq<Position>
    decreases history.len(),
{
    if history.len() == 0 {
        Seq::empty()
    } else {
        recorded(replay(capacity, history.drop_last()), capacity, history.last())
    }
}

/// A memory with capacity zero contains no position, however many were
/// recorded.
pub proof fn lemma_disabled_memory_contains_nothing(history: Seq<Position>, pos: Position)
    ensures
        !replay(0, history).contains(pos),
    decreases history.len(),
{
    if history.len() > 0 {
        lemma_disabled_memory_contains_nothing(history.drop_last(), pos);
    }
}

/// A memory never holds more entries than its capacity, and never the same
/// position twice in a row.
pub proof fn lemma_replay_bounded(capacity: nat, history: Seq<Position>)
    ensures
        replay(capacity, history).len() <= capacity,
        replay(capacity, history).len() <= history.len(),
        forall|i: int|
            0 < i < replay(capacity, history).len() ==> replay(capacity, history)[i - 1] != (
            #[trigger] replay(capacity, history)[i]),
    decreases history.len(),
{
    if history.len() > 0 {
        lemma_replay_bounded(capacity, history.drop_last());
    }
}

/// A bounded record of recently visited positions.
///
/// When the capacity is reached, the oldest entry is evicted. A capacity of
/// zero disables the memory: it never remembers anything.
pub struct SpatialMemory {
    capacity: usize,
    entries: VecDeque<Position>,
}

impl View for SpatialMemory {
    type V = Seq<Position>;

    /// The remembered positions, oldest first.
    closed spec fn view(&self) -> Seq<Position> {
        self.entries@
    }
}

impl SpatialMemory {
    /// Validity of a memory: it holds no more entries than its capacity, and
    /// no position twice in a row.
    #[verifier::type_invariant]
    pub closed spec fn wf(&self) -> bool {
        &&& self.entries@.len() <= self.capacity
        &&& forall|i: int|
            0 < i < self.entries@.len() ==> self.entries@[i - 1] != #[trigger] self.entries@[i]
    }

    pub closed spec fn spec_capacity(&self) -> usize {
        self.capacity
    }

    /// Validity in terms of the view.
    pub proof fn lemma_wf(&self)
        requires
            self.wf(),
        ensures
            self@.len() <= self.capacity(),
            forall|i: int| 0 < i < self@.len() ==> self@[i - 1] != #[trigger] self@[i],
            self.capacity() == 0 ==> forall|pos: Position| !self@.contains(pos),
    {
    }

    /// Create a new memory with the given capacity. Capacity 0 disables
    /// memory entirely.
    pub fn new(capacity: usize) -> (memory: SpatialMemory)
        ensures
            memory.wf(),
            memory@ == Seq::<Position>::empty(),
            memory.capacity() == capacity,
    {
        let reserve: usize = if capacity < 256 {
            capacity
        } else {
            256
        };
        SpatialMemory { capacity, entries: VecDeque::with_capacity(reserve) }
    }

    /// Record a position. Evicts the oldest entry if at capacity.
    pub fn record(&mut self, pos: Position)
        ensures
            final(self).wf(),
            final(self).capacity() == old(self).capacity(),
            final(self)@ == recorded(old(self)@, old(self).capacity() as nat, pos),
    {
        proof {
            use_type_invariant(&*self);
        }
        if self.capacity == 0 {
            return ;
        }
        let n = self.entries.len();
        if n > 0 && self.entries[n - 1] == pos {
            return ;
        }
        let mut entries: VecDeque<Position> = VecDeque::new();
        std::mem::swap(&mut entries, &mut self.entries);
        if n >= self.capacity {
            entries.pop_front();
        }
        entries.push_back(pos);
        self.entries = entries;
    }

    /// Check whether a position has been visited recently (is in memory).
    pub fn contains(&self, pos: &Position) -> (found: bool)
        ensures
            found == self@.contains(*pos),
            self.capacity() == 0 ==> !found,
    {
        proof {
            use_type_invariant(self);
        }
        let mut i: usize = 0;
        while i < self.entries.len()
            invariant
                i <= self.entries@.len(),
                self.entries@.len() <= self.capacity,
                forall|j: int| 0 <= j < i ==> self.entries@[j] != *pos,
            decreases self.entries@.len() - i,
        {
            if self.entries[i] == *pos {
                return true;
            }
            i += 1;
        }
        false
    }

    /// Number of entries currently stored.
    pub fn len(&self) -> (n: usize)
        ensures
            n == self@.len(),
            n <= self.capacity(),
    {
        proof {
            use_type_invariant(self);
        }
        self.entries.len()
    }

    /// Whether memory is empty.
    pub fn is_empty(&self) -> (empty: bool)
        ensures
            empty == (self@.len() == 0),
    {
        self.entries.len() == 0
    }

    /// The capacity of this memory.
    #[verifier::when_used_as_spec(spec_capacity)]
    pub fn capacity(&self) -> (c: usize)
        ensures
            c == self.spec_capacity(),
    {
        self.capacity
    }
}

} // verus!
