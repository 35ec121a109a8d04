//! The environment: positions and the grid, and the worlds that hold a grid
//! and its agents.

pub mod grid;
pub mod multi_world;
pub mod position;
pub mod world;
