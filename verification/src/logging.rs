//! Records of what the agents did.

pub mod metrics;
