//! A single ball on the table: position, velocity, radius, mass and color,
//! with the motion-integration methods the frame stepper uses.

use crate::math::{fx_ok, vadd_s, vscale_s, vzero_s, Vec2, Vec2Model, FX_MAX};
use vstd::prelude::*;

verus! {

/// Color of a ball, which decides its score value. Only one ball may be
/// `White` (the cue ball) in play at any moment.
#[derive(Clone, Copy, Debug, PartialEq, Eq, Structural)]
pub enum BallType {
    White,
    Red,
    Blue,
}

/// Default mass of a ball (0.1).
pub const MASS: i64 = 100_000;

/// Default radius of a ball (0.01).
pub const RADIUS: i64 = 10_000;

/// Information about a single poolball in the game, and methods for
/// manipulating its physical state.
#[derive(Clone, Copy, Debug)]
pub struct Poolball {
    pub position: Vec2,
    pub radius: i64,
    pub mass: i64,
    pub velocity: Vec2,
    pub ball_type: BallType,
}

/// Mathematical model of a [`Poolball`]: unbounded-integer coordinates.
pub struct BallModel {
    pub position: Vec2Model,
    pub radius: int,
    pub mass: int,
    pub velocity: Vec2Model,
    pub ball_type: BallType,
}

impl View for Poolball {
    type V = BallModel;

    open spec fn view(&self) -> BallModel {
        BallModel {
            position: self.position@,
            radius: self.radius as int,
            mass: self.mass as int,
            velocity: self.velocity@,
            ball_type: self.ball_type,
        }
    }
}

impl BallModel {
    /// Well-formedness: coordinates in the scalar range, radius and mass
    /// positive.
    pub open spec fn valid(self) -> bool {
        &&& self.position.ok()
        &&& self.velocity.ok()
        &&& 1 <= self.radius <= FX_MAX as int
        &&& 1 <= self.mass <= FX_MAX as int
    }
}

/// Score value of a ball of the given color; the cue ball is a penalty.
pub open spec fn ball_value_s(t: BallType) -> int {
    match t {
        BallType::White => -100,
        BallType::Red => 10,
        BallType::Blue => 30,
    }
}

/// A ball after moving along its velocity for `dt`.
pub open spec fn ball_advanced_s(b: BallModel, dt: int) -> BallModel {
    BallModel { position: vadd_s(b.position, vscale_s(b.velocity, dt)), ..b }
}

/// A ball after its velocity gained `acc * dt`.
pub open spec fn ball_accelerated_s(b: BallModel, acc: Vec2Model, dt: int) -> BallModel {
    BallModel { velocity: vadd_s(b.velocity, vscale_s(acc, dt)), ..b }
}

impl Poolball {
    /// Creates a new Poolball at a position, with the default radius and
    /// mass, at rest.
    pub fn new(position: Vec2, ball_type: BallType) -> (r: Poolball)
        requires
            position@.ok(),
        ensures
            r@ == (BallModel {
                position: position@,
                radius: RADIUS as int,
                mass: MASS as int,
                velocity: vzero_s(),
                ball_type,
            }),
            r@.valid(),
    {
        Poolball {
            position,
            radius: RADIUS,
            mass: MASS,
            velocity: Vec2::new(0, 0),
            ball_type,
        }
    }

    /// Moves the ball along its current velocity for `delta_time`.
    pub fn update(&mut self, delta_time: i64)
        requires
            old(self)@.valid(),
            fx_ok(delta_time as int),
        ensures
            final(self)@ == ball_advanced_s(old(self)@, delta_time as int),
            final(self)@.valid(),
    {
        self.position = self.position.add(self.velocity.scale(delta_time));
    }

    /// Applies an acceleration to the velocity for `delta_time`.
    pub fn update_velocity(&mut self, acceleration: Vec2, delta_time: i64)
        requires
            old(self)@.valid(),
            acceleration@.ok(),
            fx_ok(delta_time as int),
        ensures
            final(self)@ == ball_accelerated_s(old(self)@, acceleration@, delta_time as int),
            final(self)@.valid(),
    {
        self.velocity = self.velocity.add(acceleration.scale(delta_time));
    }

    /// Sets the velocity of the ball to the given velocity.
    pub fn set_velocity(&mut self, new_velocity: Vec2)
        requires
            old(self)@.valid(),
            new_velocity@.ok(),
        ensures
            final(self)@ == (BallModel { velocity: new_velocity@, ..old(self)@ }),
            final(self)@.valid(),
    {
        self.velocity = new_velocity;
    }

    /// Returns the score value of the ball depending on its color.
    pub fn get_value(&self) -> (r: i32)
        ensures
            r as int == ball_value_s(self@.ball_type),
    {
        match self.ball_type {
            BallType::White => -100,
            BallType::Red => 10,
            BallType::Blue => 30,
        }
    }

    /// Returns true if the poolball is stationary.
    pub fn is_stationary(&self) -> (r: bool)
        ensures
            r == (self@.velocity == vzero_s()),
    {
        self.velocity.is_zero()
    }
}

} // verus!
