//! A static circular goal zone: a ball that reaches it leaves play and its
//! score value is added to the running score.

use crate::math::{mag_s, vsub_s, Vec2, Vec2Model, FX_MAX};
use crate::poolball::{BallModel, Poolball};
use vstd::prelude::*;

verus! {

/// Radius of every goalzone (0.05).
pub const GOAL_RADIUS: i64 = 50_000;

/// A basic goalzone, one in each corner of the playing field.
#[derive(Clone, Copy, Debug)]
pub struct Goalzone {
    position: Vec2,
    radius: i64,
}

/// Mathematical model of a [`Goalzone`].
pub struct ZoneModel {
    pub position: Vec2Model,
    pub radius: int,
}

impl View for Goalzone {
    type V = ZoneModel;

    closed spec fn view(&self) -> ZoneModel {
        ZoneModel { position: self.position@, radius: self.radius as int }
    }
}

impl ZoneModel {
    /// Well-formedness: coordinates in range and a positive radius.
    pub open spec fn valid(self) -> bool {
        &&& self.position.ok()
        &&& 1 <= self.radius <= FX_MAX as int
    }
}

/// A ball is holed when its distance to the zone's center is at most the sum
/// of the zone's radius and the ball's radius.
pub open spec fn reached_goal_s(z: ZoneModel, b: BallModel) -> bool {
    mag_s(vsub_s(z.position, b.position)) <= z.radius + b.radius
}

impl Goalzone {
    /// Creates a new goalzone at the given position.
    pub fn new(position: Vec2) -> (r: Goalzone)
        requires
            position@.ok(),
        ensures
            r@ == (ZoneModel { position: position@, radius: GOAL_RADIUS as int }),
            r@.valid(),
    {
        Goalzone { position, radius: GOAL_RADIUS }
    }

    /// Returns `true` if the given poolball is inside the goalzone.
    pub fn reached_goal(&self, ball: &Poolball) -> (r: bool)
        requires
            self@.valid(),
            ball@.valid(),
        ensures
            r == reached_goal_s(self@, ball@),
    {
        let distance = crate::math::calc_magnitude(self.position.sub(ball.position));
        (distance as i128) <= (self.radius as i128) + (ball.radius as i128)
    }

    /// Read-only accessor for the zone's center (for the rendering host).
    pub fn position(&self) -> (r: Vec2)
        ensures
            r@ == self@.position,
    {
        self.position
    }

    /// Read-only accessor for the zone's radius (for the rendering host).
    pub fn radius(&self) -> (r: i64)
        ensures
            r as int == self@.radius,
    {
        self.radius
    }
}

} // verus!
