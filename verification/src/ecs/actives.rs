//! Active entities.

use crate::gfx::error::GfxError;
use hecs::Entity;
use vstd::prelude::*;

verus! {

/// Active entities.
pub struct Actives {
    camera: Option<Entity>,
}

impl Actives {
    /// The entity that holds the active camera, if one was set.
    pub closed spec fn active_camera(&self) -> Option<Entity> {
        self.camera
    }

    /// Create the actives, with no camera.
    pub fn new() -> (actives: Self)
        ensures
            actives.active_camera() is None,
    {
        Self { camera: None }
    }

    /// Get the active camera.
    pub fn camera(&self) -> (camera: Result<Entity, GfxError>)
        ensures
            match self.active_camera() {
                Some(entity) => camera == Ok::<Entity, GfxError>(entity),
                None => camera == Err::<Entity, GfxError>(GfxError::NoActiveCamera),
            },
    {
        match self.camera {
            Some(entity) => Ok(entity),
            None => Err(GfxError::NoActiveCamera),
        }
    }

    /// Set the active camera.
    pub fn set_camera(&mut self, entity: Entity)
        ensures
            final(self).active_camera() == Some(entity),
    {
        self.camera = Some(entity);
    }
}

impl Default for Actives {
    fn default() -> (actives: Self)
        ensures
            actives.active_camera() is None,
    {
        Self { camera: None }
    }
}

} // verus!
