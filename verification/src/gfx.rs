//! What the renderer is told: errors, textures and pipeline attributes.

pub mod error;
pub mod pipeline;
pub mod texture;
