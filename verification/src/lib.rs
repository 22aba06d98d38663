//! The core of a small tunnel-flying game: a helicopter holds its place while
//! a randomly shaped tunnel scrolls past it, and the run ends when the
//! helicopter touches the ground or the ceiling.
//!
//! All numbers are fixed-point (see [`fixed`]), so each step of the game is a
//! total function whose result is stated exactly.

pub mod collision;
pub mod fixed;
pub mod options;
pub mod random;
pub mod render;
pub mod simulation;
pub mod tunnel;
pub mod vector;
pub mod vehicle;

