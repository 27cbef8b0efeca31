//! Collision-driven entity lifecycle core of a small arena shooter.
//!
//! The crate keeps the authoritative entity store, decides which entities a
//! tick's collision events remove, and applies every structural change at one
//! commit point per tick. Lengths are whole thousandths of a world unit and
//! times are whole milliseconds, so that every rule is exact.

pub mod layer;
pub mod vector;
pub mod cooldown;
pub mod entity;
pub mod store;
pub mod events;
pub mod systems;
pub mod laws;
