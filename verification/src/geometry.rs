//! Rectangles and points, in the signed 32-bit coordinate space the
//! platform reports window geometry in.

use vstd::prelude::*;

verus! {

/// An axis-aligned rectangle given by its edge coordinates.
#[derive(Clone, Copy, Debug, PartialEq, Eq, Structural)]
pub struct Rect {
    pub left: i32,
    pub top: i32,
    pub right: i32,
    pub bottom: i32,
}

/// A point on the desktop, as the platform reports the pointer position.
#[derive(Clone, Copy, Debug, PartialEq, Eq, Structural)]
pub struct Point {
    pub x: i32,
    pub y: i32,
}

/// A rectangle is well formed when its edges are ordered.
pub open spec fn rect_wf(r: Rect) -> bool {
    r.left <= r.right && r.top <= r.bottom
}

/// Whether `p` lies inside `r`, counting the left and top edges as inside
/// and the right and bottom edges as outside.
pub open spec fn rect_contains_point(r: Rect, p: Point) -> bool {
    r.left <= p.x < r.right && r.top <= p.y < r.bottom
}

impl Rect {
    /// Executable form of `rect_contains_point`.
    pub fn contains_point(&self, p: Point) -> (b: bool)
        ensures
            b == rect_contains_point(*self, p),
    {
        self.left <= p.x && p.x < self.right && self.top <= p.y && p.y < self.bottom
    }
}

} // verus!
