//! A small falling-shapes sandbox on a whole-number grid.
//!
//! Squares, polygons and circles fall under constant gravity, are held to a
//! greatest falling speed, and stop where they first touch a floor made of
//! connected line segments. Lengths are whole numbers of sub-units
//! ([`geometry::UNIT`] of them make one unit of length) and time is counted in
//! ticks of one sixtieth of a second, so every quantity is exact.

pub mod geometry;
pub mod physics;
pub mod collision;
pub mod simulation;

pub use crate::geometry::SCREEN_SIZE;
