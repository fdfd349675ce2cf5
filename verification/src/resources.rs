//! Process-wide resources the systems read: the pause flag, the store of
//! loaded models, and the window dimensions.

use vstd::prelude::*;
use crate::components::{model_index, ModelId};

verus! {

/// Gates velocity integration: while set, velocities are frozen, not
/// zeroed, and queue and force evaluation still run.
#[derive(Clone, Copy, PartialEq, Eq, Structural, Debug)]
pub struct Paused(pub bool);

/// One loaded model per renderable model identifier.
pub struct Models<T>(pub [T; 4]);

impl<T> Models<T> {
    /// The model a model identifier selects.
    pub fn get(&self, id: ModelId) -> (r: &T)
        ensures
            *r == self.0@[model_index(id)],
    {
        match id {
            ModelId::Carrier => &self.0[0],
            ModelId::Fighter => &self.0[1],
            ModelId::Explosion => &self.0[2],
            ModelId::Asteroid => &self.0[3],
        }
    }
}

/// Window dimensions in pixels.
#[derive(Clone, Copy, PartialEq, Eq, Structural, Debug)]
pub struct Dimensions {
    pub width: u32,
    pub height: u32,
}

} // verus!
