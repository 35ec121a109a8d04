//! Agents with limited cognition that walk a 2D grid toward a goal cell.
//!
//! Three control strategies share one environment: a search agent that plans
//! with A* under an optional expansion budget, a finite-state controller and a
//! behavior tree. Every function of the library carries a contract that the
//! verifier proves.

mod chance;
pub mod agents;
pub mod algorithms;
pub mod engine;
pub mod experiments;
pub mod logging;
