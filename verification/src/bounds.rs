//! The rectangle that the board takes up on the screen.

use vstd::prelude::*;

verus! {

/// An axis-aligned rectangle in whole screen units: `position` is its corner
/// with the smallest coordinates, `size` its width and height. The rectangle
/// holds the two edges that meet in `position` and not the two opposite ones,
/// so that rectangles laid side by side share no point.
#[derive(Debug, Copy, Clone)]
pub struct Bounds2 {
    pub position: (i64, i64),
    pub size: (u64, u64),
}

impl Bounds2 {
    /// Whether the point `(x, y)` lies in the rectangle.
    pub open spec fn contains(&self, x: int, y: int) -> bool {
        &&& self.position.0 <= x < self.position.0 + self.size.0
        &&& self.position.1 <= y < self.position.1 + self.size.1
    }

    /// Whether `coords` lies in the rectangle.
    pub fn in_bounds(&self, coords: (i64, i64)) -> (inside: bool)
        ensures
            inside == self.contains(coords.0 as int, coords.1 as int),
    {
        let x: i128 = coords.0 as i128;
        let y: i128 = coords.1 as i128;
        let left: i128 = self.position.0 as i128;
        let low: i128 = self.position.1 as i128;
        x >= left && y >= low && x < left + self.size.0 as i128 && y < low + self.size.1 as i128
    }
}

} // verus!
