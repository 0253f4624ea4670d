//! Two-dimensional integer coordinates. The grid convention is that
//! increasing `y` points up, so "below" a position is `y - 1`.

use vstd::prelude::*;

verus! {

/// A pair of signed integer coordinates.
#[derive(Clone, Copy, PartialEq, Eq, Structural, Debug)]
pub struct Vector {
    pub x: i32,
    pub y: i32,
}

impl Vector {
    pub fn new(x: i32, y: i32) -> (v: Vector)
        ensures
            v.x == x,
            v.y == y,
    {
        Vector { x, y }
    }

    /// The position displaced by `(dx, dy)`.
    pub fn offset(&self, dx: i32, dy: i32) -> (v: Vector)
        requires
            i32::MIN <= self.x + dx <= i32::MAX,
            i32::MIN <= self.y + dy <= i32::MAX,
        ensures
            v.x == self.x + dx,
            v.y == self.y + dy,
    {
        Vector { x: self.x + dx, y: self.y + dy }
    }

    /// The squared Euclidean length, as a mathematical integer.
    pub open spec fn length_squared(self) -> int {
        self.x * self.x + self.y * self.y
    }
}

} // verus!
