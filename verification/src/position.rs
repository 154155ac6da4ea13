//! A 2D integer grid coordinate, used as a value and as a tile-map key.

use vstd::prelude::*;

verus! {

/// An integer pair (x, y). Two positions with equal coordinates are
/// interchangeable: they hash and compare equal.
#[derive(Debug, Clone, Copy, PartialEq, Eq, Hash, Structural)]
pub struct Position {
    pub x: i32,
    pub y: i32,
}

impl Position {
    pub fn new(x: i32, y: i32) -> (r: Self)
        ensures
            r == (Position { x, y }),
    {
        Self { x, y }
    }
}

} // verus!
