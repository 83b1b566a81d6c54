use crate::geometry::Coord;
use vstd::prelude::*;

verus! {

/// Where an entity stands.
#[derive(PartialEq, Eq, Structural, Clone, Copy, Debug)]
pub struct Position {
    pub x: i32,
    pub y: i32,
}

impl Position {
    /// The cell as a pair of mathematical integers.
    pub open spec fn cell(self) -> (int, int) {
        (self.x as int, self.y as int)
    }

/// The same place as a grid coordinate.
    pub fn coord(&self) -> (c: Coord)
        ensures
            c == (Coord { x: self.x, y: self.y }),
    {
        Coord { x: self.x, y: self.y }
    }
}

} // verus!
