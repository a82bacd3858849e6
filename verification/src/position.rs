//! A position and heading in the plane.

use vstd::prelude::*;

verus! {

/// Where something is and which way it faces. Each number is carried as a
/// single-precision bit pattern, so the default is the origin, facing along
/// the axis.
#[derive(Copy, Clone, Default, PartialEq, Eq, Debug)]
pub struct Position {
    pub x: u32,
    pub y: u32,
    pub direction: u32,
}

impl Position {
    /// The position at `x` and `y`, facing `direction`.
    pub fn new(x: u32, y: u32, direction: u32) -> (position: Self)
        ensures
            position == (Position { x, y, direction }),
    {
        Position { x, y, direction }
    }
}

} // verus!
