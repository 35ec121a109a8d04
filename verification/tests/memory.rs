use cognitive_grid::agents::memory::SpatialMemory;
use cognitive_grid::engine::world::Position;

fn cell(x: usize, y: usize) -> Position {
    Position { x, y }
}

#[test]
fn disabled_memory_never_contains_anything() {
    let mut memory = SpatialMemory::new(0);
    assert_eq!(memory.capacity(), 0);
    let mut i: usize = 0;
    while i < 100 {
        memory.record(cell(i % 7, i % 3));
        assert!(!memory.contains(&cell(i % 7, i % 3)));
        assert!(memory.is_empty());
        assert_eq!(memory.len(), 0);
        i += 1;
    }
    assert!(!memory.contains(&cell(0, 0)));
}

#[test]
fn new_memory_is_empty() {
    let memory = SpatialMemory::new(5);
    assert!(memory.is_empty());
    assert_eq!(memory.len(), 0);
    assert_eq!(memory.capacity(), 5);
    assert!(!memory.contains(&cell(0, 0)));
}

#[test]
fn memory_remembers_what_was_recorded() {
    let mut memory = SpatialMemory::new(3);
    memory.record(cell(1, 1));
    memory.record(cell(2, 1));
    assert_eq!(memory.len(), 2);
    assert!(!memory.is_empty());
    assert!(memory.contains(&cell(1, 1)));
    assert!(memory.contains(&cell(2, 1)));
    assert!(!memory.contains(&cell(1, 2)));
}

#[test]
fn full_memory_evicts_the_oldest_entry() {
    let mut memory = SpatialMemory::new(3);
    memory.record(cell(0, 0));
    memory.record(cell(1, 0));
    memory.record(cell(2, 0));
    assert_eq!(memory.len(), 3);
    memory.record(cell(3, 0));
    assert_eq!(memory.len(), 3);
    assert!(!memory.contains(&cell(0, 0)));
    assert!(memory.contains(&cell(1, 0)));
    assert!(memory.contains(&cell(2, 0)));
    assert!(memory.contains(&cell(3, 0)));
    memory.record(cell(4, 0));
    assert!(!memory.contains(&cell(1, 0)));
    assert!(memory.contains(&cell(4, 0)));
    assert_eq!(memory.len(), 3);
}

#[test]
fn standing_still_does_not_fill_the_memory() {
    let mut memory = SpatialMemory::new(3);
    memory.record(cell(0, 0));
    memory.record(cell(1, 0));
    let mut i: u32 = 0;
    while i < 10 {
        memory.record(cell(1, 0));
        i += 1;
    }
    assert_eq!(memory.len(), 2);
    assert!(memory.contains(&cell(0, 0)));
    // Only a repetition of the newest entry is left out.
    memory.record(cell(0, 0));
    assert_eq!(memory.len(), 3);
    memory.record(cell(1, 0));
    assert_eq!(memory.len(), 3);
    assert!(memory.contains(&cell(0, 0)));
    assert!(memory.contains(&cell(1, 0)));
}

#[test]
fn memory_of_one_keeps_the_newest() {
    let mut memory = SpatialMemory::new(1);
    memory.record(cell(5, 5));
    memory.record(cell(6, 5));
    assert_eq!(memory.len(), 1);
    assert!(memory.contains(&cell(6, 5)));
    assert!(!memory.contains(&cell(5, 5)));
}
