//! A hex-grid tile-stacking engine: axial coordinate geometry, an
//! occupancy table mapping cell entities to their hex and stack height,
//! and a pointer-driven state machine that turns enter/leave/press/release
//! events into validated "place a new layer" commands.
//!
//! The rendering, camera and input layers that surround the engine are
//! deliberately outside this crate; they exchange plain values (entity
//! identifiers, coordinates, spawn commands) with the verified core.

pub mod board;
pub mod events;
pub mod hex;
pub mod laws;
