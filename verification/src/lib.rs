//! Core of a small real-time arcade loop.
//!
//! A player-controlled entity moves on a 2D field, collides with spawned
//! targets to score points, and targets spawn both on a repeating timer and
//! on player clicks. Everything the game decides happens in one per-frame
//! update; the host engine owns the frame loop, rendering, input capture and
//! audio, and hands this library plain values each tick.
//!
//! Times are measured in milli-time-units (1000 per spawn interval) and
//! positions in milli-distance-units, so that every quantity the rules speak
//! of is an integer.

pub mod game;
pub mod laws;
pub mod model;
mod rng;
pub mod text;
