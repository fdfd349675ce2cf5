//! Components attached to simulated entities: the order queue's command
//! type, marker components consumed by out-of-core systems, and the model
//! identifiers of the renderable ship classes.

use vstd::prelude::*;
use crate::vec3::Vec3;

verus! {

/// The ways one unit can interact with another.
#[derive(Clone, Copy, PartialEq, Eq, Structural, Debug)]
pub enum InteractionType {
    Attack,
    Mine,
    BeCarriedBy,
}

/// A standing order: steer toward a fixed point, or steer relative to
/// another unit until within `range_sq` of it.
#[derive(Clone, Copy, PartialEq, Eq, Structural, Debug)]
pub enum Command {
    MoveTo { point: Vec3 },
    Interact { target: usize, ty: InteractionType, range_sq: i64 },
}

/// Marker: the unit is currently selected by the player.
pub struct Selected;

/// Marker: the effect expands over its lifetime.
pub struct Expands;

/// Marker: the unit obeys queued commands.
pub struct FollowsCommands;

/// Marker: the camera is following this unit.
pub struct CameraFollowing;

/// Marker: the unit belongs to the player's fleet.
#[derive(Default)]
pub struct Friendly;

/// Marker: the unit belongs to the opposing fleet.
#[derive(Default)]
pub struct Enemy;

/// Marker: the unit cannot be destroyed.
pub struct Indestructible;

/// Identifier of a renderable model.
#[derive(Clone, Copy, PartialEq, Eq, Structural, Debug)]
pub enum ModelId {
    Carrier,
    Fighter,
    Explosion,
    Asteroid,
}

/// The slot a model identifier selects in the model store.
pub open spec fn model_index(id: ModelId) -> int {
    match id {
        ModelId::Carrier => 0,
        ModelId::Fighter => 1,
        ModelId::Explosion => 2,
        ModelId::Asteroid => 3,
    }
}

} // verus!
