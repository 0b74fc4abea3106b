//! Component variants.

use crate::math::{Point, Size, Vector};
use vstd::prelude::*;

verus! {

/// Defines a component.
pub trait Component: Send + Sync {

}

/// The position and scale of an entity.
#[derive(Debug, Clone, Copy, PartialEq, Eq, Structural)]
pub struct Transform {
    pub position: Point,
    pub scale: Vector,
}

impl Transform {
    /// Create a new transform component.
    pub fn new(position: Point, scale: Vector) -> (t: Self)
        ensures
            t.position == position,
            t.scale == scale,
    {
        Self { position: position, scale: scale }
    }
}

impl Component for Transform {

}

/// The rigid body component.
#[derive(Debug, Clone, Copy, PartialEq, Eq, Structural)]
pub struct RigidBody {
    /// The velocity of the rigid body, in grid units per tick.
    pub velocity: Vector,
    /// Acceleration of the rigid body, in grid units per tick and tick.
    pub acceleration: Vector,
}

impl RigidBody {
    /// Create a new rigid body.
    pub fn new(velocity: Vector, acceleration: Vector) -> (b: Self)
        ensures
            b.velocity == velocity,
            b.acceleration == acceleration,
    {
        Self { velocity: velocity, acceleration: acceleration }
    }
}

impl Component for RigidBody {

}

/// The collider component.
#[derive(Debug, Clone, Copy, PartialEq, Eq, Structural)]
pub struct Collider {
    /// Where the collider's minimum corner lies, seen from the entity's
    /// position.
    pub offset: Point,
    pub size: Size,
}

impl Collider {
    /// Create a new collider.
    pub fn new(offset: Point, size: Size) -> (c: Self)
        ensures
            c.offset == offset,
            c.size == size,
    {
        Self { offset: offset, size: size }
    }
}

impl Component for Collider {

}

} // verus!
