//! Core logic of a terminal fire animation: the integer heart of the
//! lattice-gradient noise field, fixed-point color-gradient mapping,
//! configuration parsing, and the animation scheduler's state machine.
//!
//! Floating-point evaluation of the noise field itself lives outside this
//! library; everything here works on plain integers and is verified.

pub mod gradient;
pub mod noise;
pub mod parse;
pub mod render;
pub mod sched;
