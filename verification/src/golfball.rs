//! A free-flying ball with combined position and velocity integration,
//! used by the driving-range mode.

use crate::math::{fx_ok, vadd_s, vscale_s, Vec2};
use vstd::prelude::*;

verus! {

/// Default mass of a golfball (0.1).
pub const GOLF_MASS: i64 = 100_000;

/// Default radius of a golfball (1.0).
pub const GOLF_RADIUS: i64 = 1_000_000;

/// A single golfball: position, velocity and fixed radius and mass.
#[derive(Clone, Copy, Debug)]
pub struct Golfball {
    pub position: Vec2,
    pub radius: i64,
    pub mass: i64,
    pub velocity: Vec2,
}

impl Golfball {
    /// Creates a new Golfball with an initial position and velocity.
    pub fn new(position: Vec2, velocity: Vec2) -> (r: Golfball)
        requires
            position@.ok(),
            velocity@.ok(),
        ensures
            r.position@ == position@,
            r.velocity@ == velocity@,
            r.radius == GOLF_RADIUS,
            r.mass == GOLF_MASS,
    {
        Golfball { position, radius: GOLF_RADIUS, mass: GOLF_MASS, velocity }
    }

    /// Updates the ball's position using its current velocity, then updates
    /// the velocity from the acceleration.
    pub fn update(&mut self, acceleration: Vec2, delta_time: i64)
        requires
            old(self).position@.ok(),
            old(self).velocity@.ok(),
            acceleration@.ok(),
            fx_ok(delta_time as int),
        ensures
            final(self).position@ == vadd_s(
                old(self).position@,
                vscale_s(old(self).velocity@, delta_time as int),
            ),
            final(self).velocity@ == vadd_s(
                old(self).velocity@,
                vscale_s(acceleration@, delta_time as int),
            ),
            final(self).radius == old(self).radius,
            final(self).mass == old(self).mass,
            final(self).position@.ok(),
            final(self).velocity@.ok(),
    {
        self.position = self.position.add(self.velocity.scale(delta_time));
        self.velocity = self.velocity.add(acceleration.scale(delta_time));
    }
}

} // verus!
