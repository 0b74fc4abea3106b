//! Collision detection and motion integration.

pub mod query;
pub mod rects;
pub mod simulator;
pub mod tree;
