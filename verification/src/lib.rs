//! Falling-note rhythm game core: lanes of descending notes, a touch zone per
//! lane, edge-triggered key tracking and the per-frame simulation step.
//!
//! All geometry is in whole sub-pixel units and all durations in whole ticks,
//! so that every rule of the game is exact integer arithmetic.

pub mod math;
pub mod keyboard;


pub mod game_object;
pub mod game;
