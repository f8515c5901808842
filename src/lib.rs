//! An arena of gravitating bodies: two controlled ships, an immovable sun
//! and the bullets they fire, advanced one tick at a time.
//!
//! Quantities are integers in fixed units chosen by the caller; constants
//! that are fractions (gravity, drag, the time step) are ratios of integers.

pub mod vec2;
pub mod game;
pub mod physics;
pub mod lifecycle;
pub mod frame;
