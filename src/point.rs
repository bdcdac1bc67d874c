use vstd::prelude::*;

verus! {

/// A pair of signed coordinates: a position on the canvas, or a displacement.
#[derive(Debug, Clone, Copy, PartialEq, Eq, Structural)]
pub struct Point {
    pub x: i32,
    pub y: i32,
}

/// Whether the component-wise sum of `a` and `b` stays representable.
pub open spec fn sum_fits(a: Point, b: Point) -> bool {
    i32::MIN <= a.x + b.x <= i32::MAX && i32::MIN <= a.y + b.y <= i32::MAX
}

impl Point {
    /// The component-wise sum.
    pub fn add(self, rhs: Point) -> (r: Point)
        requires
            sum_fits(self, rhs),
        ensures
            r.x == self.x + rhs.x,
            r.y == self.y + rhs.y,
    {
        Point { x: self.x + rhs.x, y: self.y + rhs.y }
    }

    /// Moves this point by `other`.
    pub fn add_assign(&mut self, other: Point)
        requires
            sum_fits(*old(self), other),
        ensures
            final(self).x == old(self).x + other.x,
            final(self).y == old(self).y + other.y,
    {
        *self = Point { x: self.x + other.x, y: self.y + other.y };
    }
}

} // verus!
