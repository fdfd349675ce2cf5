//! Movement-and-tactics core of a real-time space-combat simulation.
//!
//! Every simulation tick the library decides, for each mobile unit, the
//! velocity it should adopt, based on a queue of standing orders, nearby
//! threats and nearby traffic.  Positions, velocities and forces are held
//! as fixed-point integer vectors so that every step of the computation is
//! exact and provable; the contracts pin the whole tick down to a
//! mathematical function of the previous world state.

pub mod vec3;
pub mod boid;
pub mod components;
pub mod resources;
pub mod keyboard;
pub mod world;
pub mod steering;
pub mod laws;
pub mod gpu_structs;
