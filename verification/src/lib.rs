//! A verified simulation core for a pool-style game: circular bodies moving
//! inside the unit-square arena, with continuous collision detection,
//! elastic collision resolution, gravity wells and goal zones.
//!
//! All quantities are fixed-point numbers: an `i64` holds the real value
//! multiplied by `math::SCALE`. Every arithmetic step has an exact
//! specification, so the contracts below pin down each computed value.

pub mod arrow;
pub mod blackhole;
pub mod goalzone;
pub mod game;
pub mod golfball;
pub mod math;
pub mod physics;
pub mod planet;
pub mod poolball;
