//! Path planning on the grid.

pub mod paths;
pub mod astar;
mod cell_map;
pub mod laws;
pub mod search;
pub mod soundness;
