//! Geometric primitives: grid positions and rectangles measured in
//! terminal cells.

use vstd::prelude::*;

verus! {

/// A position on the terminal grid: column, then row.
#[derive(Debug, Clone, Copy, PartialEq, Eq, Structural)]
pub struct Point(pub u16, pub u16);

impl Point {
    /// Build a point from a column and a row.
    pub fn new(x: u16, y: u16) -> (p: Point)
        ensures
            p == Point(x, y),
    {
        Point(x, y)
    }

    /// The column of the point.
    pub fn x(self) -> (r: u16)
        ensures
            r == self.0,
    {
        self.0
    }

    /// The row of the point.
    pub fn y(self) -> (r: u16)
        ensures
            r == self.1,
    {
        self.1
    }

    /// Component-wise sum of two points.
    pub fn plus(self, other: Point) -> (p: Point)
        requires
            self.0 + other.0 <= u16::MAX,
            self.1 + other.1 <= u16::MAX,
        ensures
            p == (Point((self.0 + other.0) as u16, (self.1 + other.1) as u16)),
    {
        Point(self.0 + other.0, self.1 + other.1)
    }

    /// Component-wise difference, saturating at zero.
    pub fn minus(self, other: Point) -> (p: Point)
        ensures
            p.0 == if self.0 >= other.0 { (self.0 - other.0) as u16 } else { 0u16 },
            p.1 == if self.1 >= other.1 { (self.1 - other.1) as u16 } else { 0u16 },
    {
        Point(self.0.saturating_sub(other.0), self.1.saturating_sub(other.1))
    }

    /// Squared Euclidean distance between two points.  Comparing it with
    /// `d * d` decides whether the points lie within distance `d` without
    /// leaving the integers.
    pub fn dist_sq(self, other: Point) -> (r: u64)
        ensures
            r == self.spec_dist_sq(other),
    {
        let dx: u64 = if self.0 >= other.0 {
            (self.0 - other.0) as u64
        } else {
            (other.0 - self.0) as u64
        };
        let dy: u64 = if self.1 >= other.1 {
            (self.1 - other.1) as u64
        } else {
            (other.1 - self.1) as u64
        };
        proof {
            assert(dx * dx <= 0xffff * 0xffff && dy * dy <= 0xffff * 0xffff) by (nonlinear_arith)
                requires
                    dx <= 0xffff,
                    dy <= 0xffff,
            ;
        }
        dx * dx + dy * dy
    }

    /// Squared Euclidean distance, as a mathematical value.
    pub open spec fn spec_dist_sq(self, other: Point) -> int {
        let dx = if self.0 >= other.0 { self.0 - other.0 } else { other.0 - self.0 };
        let dy = if self.1 >= other.1 { self.1 - other.1 } else { other.1 - self.1 };
        dx * dx + dy * dy
    }
}

/// A rectangular region of the grid: position of the top-left corner
/// plus width and height in cells.
#[derive(Debug, Clone, Copy)]
pub struct Rect {
    /// X coordinate (column)
    pub x: u32,
    /// Y coordinate (row)
    pub y: u32,
    /// Width in cells
    pub w: u32,
    /// Height in cells
    pub h: u32,
}

impl Rect {
    /// Whether the given position lies within this rectangle.
    pub fn contains(&self, point: Point) -> (r: bool)
        ensures
            r == self.spec_contains(point),
    {
        let x = point.x() as u64;
        let y = point.y() as u64;
        x >= self.x as u64 && x < self.x as u64 + self.w as u64 && y >= self.y as u64 && y
            < self.y as u64 + self.h as u64
    }

    /// Whether the cell at column `x` and row `y` lies within this
    /// rectangle.
    pub fn contains_cell(&self, x: u16, y: u16) -> (r: bool)
        ensures
            r == self.spec_contains(Point(x, y)),
    {
        self.contains(Point::new(x, y))
    }

    /// Membership of a position in a rectangle, as a mathematical value.
    pub open spec fn spec_contains(self, point: Point) -> bool {
        &&& point.0 >= self.x
        &&& point.0 < self.x + self.w
        &&& point.1 >= self.y
        &&& point.1 < self.y + self.h
    }
}

/// Whether a rectangle covers the cell at integer coordinates.
pub open spec fn rect_covers(r: Rect, cx: int, cy: int) -> bool {
    &&& r.x <= cx < r.x + r.w
    &&& r.y <= cy < r.y + r.h
}

impl From<Rect> for Point {
    /// The top-left corner of the rectangle, truncated to the `u16` grid.
    fn from(rect: Rect) -> (p: Point) {
        Point::new(rect.x as u16, rect.y as u16)
    }
}

impl vstd::std_specs::convert::FromSpecImpl<Rect> for Point {
    open spec fn obeys_from_spec() -> bool {
        true
    }

    open spec fn from_spec(rect: Rect) -> Point {
        Point(rect.x as u16, rect.y as u16)
    }
}

} // verus!
