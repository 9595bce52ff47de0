//! Names of the bodies of the simulation.
use vstd::prelude::*;

verus! {

/// The ball, or the robot with the given identifier.
#[derive(Debug, Copy, Clone)]
pub enum SolidId {
    Ball,
    Robot(i32),
}

} // verus!
