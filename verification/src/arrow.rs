//! The aiming-arrow interaction state. The arrow itself is drawn by the
//! rendering host; the mode enum below distinguishes the two stages of user
//! interaction with the cue ball.

use vstd::prelude::*;

verus! {

/// Mode to distinguish between the different stages of user interaction with
/// the white poolball. In `Rotate` mode the user decides the direction,
/// whereas in `Power` mode the user decides the poolball's initial speed.
#[derive(Clone, Copy, Debug, PartialEq, Eq, Structural)]
pub enum ShootingMode {
    Rotate,
    Power,
}

} // verus!
