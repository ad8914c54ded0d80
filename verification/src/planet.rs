//! A static attracting planet: the plain data record an orbital scene is
//! built from.

use crate::math::Vec2;
use vstd::prelude::*;

verus! {

/// A planet: a fixed attractor with a surface radius and a gravity reach.
#[derive(Clone, Copy, Debug)]
pub struct Planet {
    pub position: Vec2,
    pub radius: i64,
    pub mass: i64,
    pub reach: i64,
}

} // verus!
