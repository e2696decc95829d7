//! Points and axis-aligned rectangles.
use vstd::prelude::*;

verus! {

/// A point of the plane.
#[derive(Clone, Copy, Debug, PartialEq, Eq, Structural, Default)]
pub struct Point2D<T> {
    pub x: T,
    pub y: T,
}

impl<T> Point2D<T> {
    /// The point `(x, y)`.
    pub fn new(x: T, y: T) -> (p: Self)
        ensures
            p.x == x,
            p.y == y,
    {
        Point2D { x, y }
    }
}

/// The rectangle spanned by a corner `min` and the opposite corner `max`.
#[derive(Clone, Copy, Debug, PartialEq, Eq, Structural, Default)]
pub struct Rectangle<T> {
    min: Point2D<T>,
    max: Point2D<T>,
}

impl<T: Copy> Rectangle<T> {
    /// The corner given as `min`.
    pub closed spec fn spec_min(self) -> Point2D<T> {
        self.min
    }

    /// The corner given as `max`.
    pub closed spec fn spec_max(self) -> Point2D<T> {
        self.max
    }

    /// The rectangle with corners `min` and `max`.
    pub fn new(min: Point2D<T>, max: Point2D<T>) -> (r: Self)
        ensures
            r.spec_min() == min,
            r.spec_max() == max,
    {
        Rectangle { min, max }
    }

    /// The corner given as `min`.
    pub fn min(&self) -> (p: Point2D<T>)
        ensures
            p == self.spec_min(),
    {
        self.min
    }

    /// The corner given as `max`.
    pub fn max(&self) -> (p: Point2D<T>)
        ensures
            p == self.spec_max(),
    {
        self.max
    }
}

impl Rectangle<i32> {
    /// The horizontal extent, `max.x - min.x`.
    pub fn width(&self) -> (w: i32)
        requires
            i32::MIN <= self.spec_max().x - self.spec_min().x <= i32::MAX,
        ensures
            w == self.spec_max().x - self.spec_min().x,
    {
        self.max.x - self.min.x
    }

    /// The vertical extent, `max.y - min.y`.
    pub fn height(&self) -> (h: i32)
        requires
            i32::MIN <= self.spec_max().y - self.spec_min().y <= i32::MAX,
        ensures
            h == self.spec_max().y - self.spec_min().y,
    {
        self.max.y - self.min.y
    }
}

} // verus!
