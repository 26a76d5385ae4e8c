//! Points whose coordinates may be of any type.

use vstd::prelude::*;

verus! {

/// A point whose two coordinates are of one type.
pub struct Point<T> {
    pub x: T,
    pub y: T,
}

impl<T> Point<T> {
    /// The first coordinate.
    pub fn x(&self) -> (x: &T)
        ensures
            *x == self.x,
    {
        &self.x
    }
}

/// A point whose two coordinates may be of different types.
pub struct PointMixed<X1, Y1> {
    pub x: X1,
    pub y: Y1,
}

impl<X1, Y1> PointMixed<X1, Y1> {
    /// The point that has the first coordinate of `self` and the second
    /// coordinate of `other`.
    pub fn mixup<X2, Y2>(self, other: PointMixed<X2, Y2>) -> (mixed: PointMixed<X1, Y2>)
        ensures
            mixed.x == self.x,
            mixed.y == other.y,
    {
        PointMixed { x: self.x, y: other.y }
    }
}

} // verus!
