//! Small helpers.

pub mod flag;
pub mod hash;
