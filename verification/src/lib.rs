//! Simulation core of a top-down arena survival game: the entity registry,
//! the phase state machine, and the per-frame pipeline that turns collision
//! pairs into damage, death, and mana outcomes.

pub mod collision;
pub mod combat;
pub mod economy;
pub mod entity;
pub mod events;
pub mod game;
pub mod layers;
pub mod phase;
pub mod registry;
pub mod spawn;
pub mod targeting;
pub mod timer;
pub mod vitals;
pub mod world;
