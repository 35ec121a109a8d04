//! Episodes: one agent on one grid until it arrives or its steps run out.

pub mod runner;
