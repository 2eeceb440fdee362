//! Integer geometry of the drawing surface: points, sizes, rectangles and pixels.
//!
//! Coordinates are signed, so that a drawing client may name places outside the
//! surface; extents are unsigned. All reasoning about a rectangle is done over
//! mathematical integers, so a rectangle that reaches past `i32::MAX` is as well
//! defined as any other.

use vstd::prelude::*;

verus! {

/// A place on (or off) the surface. `x` grows to the right, `y` grows downwards.
#[derive(Clone, Copy, Debug, PartialEq, Eq, Structural)]
pub struct Point {
    pub x: i32,
    pub y: i32,
}

/// An extent in pixels.
#[derive(Clone, Copy, Debug, PartialEq, Eq, Structural)]
pub struct Size {
    pub width: u32,
    pub height: u32,
}

/// An axis-aligned rectangle, given by its top left corner and its extent.
#[derive(Clone, Copy, Debug, PartialEq, Eq, Structural)]
pub struct Rectangle {
    pub top_left: Point,
    pub size: Size,
}

/// A colour together with the place it is meant for.
#[derive(Debug)]
pub struct Pixel<PIX> {
    pub point: Point,
    pub color: PIX,
}

impl<PIX: Copy> Clone for Pixel<PIX> {
    fn clone(&self) -> (copy: Self)
        ensures
            copy == *self,
    {
        *self
    }
}

impl<PIX: Copy> Copy for Pixel<PIX> {

}

impl Point {
    pub fn new(x: i32, y: i32) -> (p: Point)
        ensures
            p == (Point { x, y }),
    {
        Point { x, y }
    }
}

impl Size {
    pub fn new(width: u32, height: u32) -> (s: Size)
        ensures
            s == (Size { width, height }),
    {
        Size { width, height }
    }
}

impl<PIX> Pixel<PIX> {
    pub fn new(point: Point, color: PIX) -> (p: Pixel<PIX>)
        ensures
            p == (Pixel { point, color }),
    {
        Pixel { point, color }
    }
}

impl Rectangle {
    pub fn new(top_left: Point, size: Size) -> (r: Rectangle)
        ensures
            r == (Rectangle { top_left, size }),
    {
        Rectangle { top_left, size }
    }

    /// The column just right of the rectangle.
    pub open spec fn right(self) -> int {
        self.top_left.x + self.size.width
    }

    /// The row just below the rectangle.
    pub open spec fn bottom(self) -> int {
        self.top_left.y + self.size.height
    }

    /// Whether the place `(x, y)` lies inside the rectangle.
    pub open spec fn contains(self, x: int, y: int) -> bool {
        self.top_left.x <= x < self.right() && self.top_left.y <= y < self.bottom()
    }

    /// How many places the rectangle holds.
    pub open spec fn point_count(self) -> int {
        self.size.width * self.size.height
    }

    /// The rank of `(x, y)` when the rectangle is scanned row by row from its top
    /// left corner, each row from left to right.
    pub open spec fn rank_of(self, x: int, y: int) -> int {
        (x - self.top_left.x) + (y - self.top_left.y) * self.size.width
    }

    /// The column of the place with rank `i` in that scan.
    pub open spec fn nth_x(self, i: int) -> int {
        self.top_left.x + i % (self.size.width as int)
    }

    /// The row of the place with rank `i` in that scan.
    pub open spec fn nth_y(self, i: int) -> int {
        self.top_left.y + i / (self.size.width as int)
    }

    /// The places of the rectangle in the order of that scan, each with the
    /// colour of its rank, up to the last place or the last colour.
    pub open spec fn paired<PIX>(self, colors: Seq<PIX>) -> Seq<Pixel<PIX>> {
        Seq::new(
            if self.point_count() <= colors.len() {
                self.point_count() as nat
            } else {
                colors.len()
            },
            |i: int|
                Pixel {
                    point: Point { x: self.nth_x(i) as i32, y: self.nth_y(i) as i32 },
                    color: colors[i],
                },
        )
    }

    /// Whether every place of the rectangle has coordinates that a [`Point`] can
    /// hold.
    pub open spec fn within_reach(self) -> bool {
        self.right() <= i32::MAX + 1 && self.bottom() <= i32::MAX + 1
    }

    /// Whether the rectangle holds every pixel of a surface of the given extent.
    pub open spec fn covers(self, width: int, height: int) -> bool {
        &&& self.top_left.x <= 0
        &&& self.top_left.y <= 0
        &&& self.right() >= width
        &&& self.bottom() >= height
    }

    /// Whether no place of the rectangle lies on a surface of the given extent.
    pub open spec fn misses(self, width: int, height: int) -> bool {
        ||| self.size.width == 0
        ||| self.size.height == 0
        ||| self.right() <= 0
        ||| self.bottom() <= 0
        ||| self.top_left.x >= width
        ||| self.top_left.y >= height
    }
}

} // verus!
