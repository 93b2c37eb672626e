//! Terminator-walker simulation: the scheduling core of a simulator in which a
//! walker on a rotating planet keeps to the boundary between day and night.
//!
//! The library decides, for one run, in which order walkers move, when the star
//! frame turns, which positions become trajectory points and which progress
//! stages are announced. The geometry itself (rotations, day/night test,
//! latitude and longitude) is carried out by the caller for each action.

pub mod application;
pub mod config;
pub mod message;
pub mod run;
pub mod sampler;
pub mod stage;
pub mod trace;
