//! A small 2-D engine core: swept collision queries, a spatial index of
//! colliders and the per-tick simulator, on an exact integer grid.
//!
//! Positions, sizes and velocities are whole numbers of grid units, and time
//! is a whole number of ticks. Every time of contact is an exact ratio, so
//! the geometry is free of rounding; the one step that rounds, the correction
//! of a velocity after a contact, rounds towards the safe side. Sums that
//! leave the grid are kept at its edge.

pub mod ecs;
pub mod gfx;
pub mod math;
pub mod misc;
pub mod phys;
pub mod scene;

pub use ecs::actives::Actives;
pub use ecs::component::{Collider, Component, RigidBody, Transform};
pub use ecs::error::EcsError;
pub use gfx::error::GfxError;
pub use gfx::pipeline::PipelineAttributes;
pub use gfx::texture::TextureKind;
pub use math::{Point, Ratio, Ray, Size, Vector};
pub use misc::flag::Flag;
pub use misc::hash::TypeIdHasher;
pub use phys::query::{dynrect_vs_rect, ray_vs_rect, Collision, RatioPoint};
pub use phys::simulator::{Body, Simulator};
pub use phys::tree::{CollisionEvent, CollisionTree, TreeObject, TreeObjectSource};
pub use scene::SceneError;
