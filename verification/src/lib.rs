//! Game rules for a small dodging game: a square slides along the floor of the
//! screen and must avoid circles that fall from above.
//!
//! Every quantity is a whole number in a fixed scale, so that a frame of the
//! game is exact integer arithmetic:
//!
//! * time is counted in milliseconds,
//! * velocities in thousandths of a screen unit per second,
//! * positions, sizes and radii in millionths of a screen unit.
//!
//! A velocity times a time is therefore a distance, with nothing rounded.

pub mod chance;
pub mod circle;
pub mod game;
pub mod player;
pub mod scale;
