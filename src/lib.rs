//! Core of a turn-synchronized, tile-based roguelike simulation: grid
//! positions and metrics, a reactive AI state machine, an entity store
//! adapter, an event bus with deferred delivery, and the per-tick systems.

pub mod ai;
pub mod entities;
pub mod error;
pub mod events;
pub mod input;
pub mod models;
pub mod stats;
pub mod systems;
pub mod world;
