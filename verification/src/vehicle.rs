//! The helicopter: a point that rises under thrust and sinks without it.

use crate::fixed::{clamp, sat_add, sat_sub};
use crate::vector::V2;
use vstd::prelude::*;

verus! {

/// What one tick of thrust adds to the vertical speed, and what one tick
/// without thrust takes from it: 0.0001.
pub const THRUST: i64 = 100;

/// Where the helicopter starts, and stays horizontally: 0.1.
pub const START_X: i64 = 100_000;

/// The height at which the helicopter starts: 0.5.
pub const START_Y: i64 = 500_000;

/// The helicopter's position and its velocity per tick.
#[derive(Clone, Copy, Debug, PartialEq, Eq, Structural)]
pub struct Vehicle {
    pub position: V2,
    pub velocity: V2,
}

impl Vehicle {
    /// The helicopter at rest at its starting point.
    pub open spec fn at_start() -> Vehicle {
        Vehicle { position: V2 { x: START_X, y: START_Y }, velocity: V2 { x: 0, y: 0 } }
    }

    /// The helicopter one tick later: first the vertical speed changes by
    /// `THRUST`, up under thrust and down without it, then the position changes
    /// by the new velocity. The horizontal speed is left as it is.
    pub open spec fn advanced(self, thrust: bool) -> Vehicle {
        let change: int = if thrust {
            THRUST as int
        } else {
            -THRUST
        };
        let velocity = V2 { x: self.velocity.x, y: clamp(self.velocity.y + change) };
        Vehicle { position: self.position.plus(velocity), velocity }
    }

    /// The helicopter at rest at its starting point.
    pub fn start() -> (v: Vehicle)
        ensures
            v == Vehicle::at_start(),
    {
        Vehicle { position: V2::new(START_X, START_Y), velocity: V2::new(0, 0) }
    }

    /// Moves the helicopter on by one tick.
    pub fn advance(&mut self, thrust: bool)
        ensures
            *final(self) == old(self).advanced(thrust),
    {
        let speed: i64 = if thrust {
            sat_add(self.velocity.y, THRUST)
        } else {
            sat_sub(self.velocity.y, THRUST)
        };
        let velocity: V2 = V2::new(self.velocity.x, speed);
        self.velocity = velocity;
        self.position = self.position + velocity;
    }
}

} // verus!
