//! Entities, their components, and which of them are active.

pub mod actives;
pub mod component;
pub mod error;
