//! Points and displacements in the plane.

use vstd::prelude::*;
use crate::fixed::saturate;
use crate::fixed::saturated;

verus! {

/// A position in the plane, or the displacement between two positions.
#[derive(Clone, Copy, Debug, PartialEq, Eq)]
pub struct Point {
    pub x: i64,
    pub y: i64,
}

impl Point {
    /// The displacement from `origin` to `self`, each coordinate held
    /// inside the 64-bit range.
    pub open spec fn spec_minus(self, origin: Point) -> Point {
        Point {
            x: saturated(self.x - origin.x) as i64,
            y: saturated(self.y - origin.y) as i64,
        }
    }

    /// The opposite displacement, each coordinate held inside the 64-bit
    /// range.
    pub open spec fn spec_negated(self) -> Point {
        Point { x: saturated(-self.x) as i64, y: saturated(-self.y) as i64 }
    }

    /// The point with the given coordinates.
    pub fn new(x: i64, y: i64) -> (point: Self)
        ensures
            point == (Point { x, y }),
    {
        Point { x, y }
    }

    /// The origin, or no displacement at all.
    pub fn zero() -> (point: Self)
        ensures
            point == (Point { x: 0, y: 0 }),
    {
        Point { x: 0, y: 0 }
    }

    /// Whether both coordinates are 0.
    pub fn is_zero(&self) -> (zero: bool)
        ensures
            zero == (self.x == 0 && self.y == 0),
    {
        self.x == 0 && self.y == 0
    }

    /// The displacement from `origin` to `self`.
    pub fn minus(self, origin: Point) -> (displacement: Point)
        ensures
            displacement == self.spec_minus(origin),
    {
        Point {
            x: saturate(self.x as i128 - origin.x as i128),
            y: saturate(self.y as i128 - origin.y as i128),
        }
    }

    /// The opposite displacement.
    pub fn negated(self) -> (opposite: Point)
        ensures
            opposite == self.spec_negated(),
    {
        Point { x: saturate(-(self.x as i128)), y: saturate(-(self.y as i128)) }
    }
}

impl Default for Point {
    fn default() -> (point: Self)
        ensures
            point == (Point { x: 0, y: 0 }),
    {
        Point::zero()
    }
}

} // verus!
