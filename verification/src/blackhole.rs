//! A static gravity well: it attracts balls within its reach and destroys
//! balls that come within its capture radius.

use crate::math::{mag_s, vsub_s, Vec2, Vec2Model, FX_MAX};
use crate::poolball::{BallModel, Poolball};
use vstd::prelude::*;

verus! {

/// Information about a single blackhole in the game.
#[derive(Clone, Copy, Debug)]
pub struct Blackhole {
    pub position: Vec2,
    pub mass: i64,
    pub radius: i64,
    pub reach: i64,
}

/// Mathematical model of a [`Blackhole`].
pub struct HoleModel {
    pub position: Vec2Model,
    pub mass: int,
    pub radius: int,
    pub reach: int,
}

impl View for Blackhole {
    type V = HoleModel;

    open spec fn view(&self) -> HoleModel {
        HoleModel {
            position: self.position@,
            mass: self.mass as int,
            radius: self.radius as int,
            reach: self.reach as int,
        }
    }
}

impl HoleModel {
    /// Well-formedness: coordinates in range, mass and radius positive,
    /// reach non-negative.
    pub open spec fn valid(self) -> bool {
        &&& self.position.ok()
        &&& 1 <= self.mass <= FX_MAX as int
        &&& 1 <= self.radius <= FX_MAX as int
        &&& 0 <= self.reach <= FX_MAX as int
    }
}

/// A ball is captured when its distance to the hole is below the sum of the
/// hole's capture radius and the ball's radius.
pub open spec fn spagettified_s(h: HoleModel, b: BallModel) -> bool {
    mag_s(vsub_s(h.position, b.position)) < h.radius + b.radius
}

impl Blackhole {
    /// Constructs a new Blackhole with the given properties.
    pub fn new(position: Vec2, mass: i64, radius: i64, reach: i64) -> (r: Blackhole)
        requires
            position@.ok(),
            1 <= mass <= FX_MAX,
            1 <= radius <= FX_MAX,
            0 <= reach <= FX_MAX,
        ensures
            r@ == (HoleModel {
                position: position@,
                mass: mass as int,
                radius: radius as int,
                reach: reach as int,
            }),
            r@.valid(),
    {
        Blackhole { position, mass, radius, reach }
    }

    /// Returns `true` if the given poolball is in contact with the blackhole.
    pub fn is_spagettified(&self, poolball: &Poolball) -> (r: bool)
        requires
            self@.valid(),
            poolball@.valid(),
        ensures
            r == spagettified_s(self@, poolball@),
    {
        let distance = crate::math::calc_magnitude(self.position.sub(poolball.position));
        (distance as i128) < (self.radius as i128) + (poolball.radius as i128)
    }
}

} // verus!
