use vstd::prelude::*;

verus! {

/// The orientation along which the members of an axis container are arranged.
#[derive(Clone, Copy, Debug, PartialEq, Eq, Structural)]
pub enum Axis {
    Horizontal,
    Vertical,
}

/// A position in device pixels.
#[derive(Clone, Copy, Debug, PartialEq, Eq, Structural)]
pub struct Point {
    pub x: i64,
    pub y: i64,
}

/// A width and a height in device pixels.
#[derive(Clone, Copy, Debug, PartialEq, Eq, Structural)]
pub struct Size {
    pub width: i64,
    pub height: i64,
}

/// An axis-aligned rectangle: the points `p` with
/// `origin.x <= p.x < origin.x + width` and `origin.y <= p.y < origin.y + height`.
#[derive(Clone, Copy, Debug, PartialEq, Eq, Structural)]
pub struct Bounds {
    pub origin: Point,
    pub size: Size,
}

impl Bounds {
    /// Non-negative extents whose far edges are representable.
    pub open spec fn wf(self) -> bool {
        &&& 0 <= self.size.width
        &&& 0 <= self.size.height
        &&& self.origin.x + self.size.width <= i64::MAX
        &&& self.origin.y + self.size.height <= i64::MAX
    }

    /// The x coordinate just past the rectangle.
    pub fn right(&self) -> (r: i64)
        requires
            self.wf(),
        ensures
            r == self.origin.x + self.size.width,
    {
        self.origin.x + self.size.width
    }

    /// The y coordinate just past the rectangle.
    pub fn bottom(&self) -> (r: i64)
        requires
            self.wf(),
        ensures
            r == self.origin.y + self.size.height,
    {
        self.origin.y + self.size.height
    }

    /// The middle of the rectangle, rounded towards its origin.
    pub fn center(&self) -> (r: Point)
        requires
            self.wf(),
        ensures
            r.x == self.origin.x + self.size.width / 2,
            r.y == self.origin.y + self.size.height / 2,
    {
        Point { x: self.origin.x + self.size.width / 2, y: self.origin.y + self.size.height / 2 }
    }

    pub open spec fn contains_spec(self, p: Point) -> bool {
        &&& self.origin.x <= p.x < self.origin.x + self.size.width
        &&& self.origin.y <= p.y < self.origin.y + self.size.height
    }

    /// Whether `p` lies inside the rectangle (the trailing edges excluded).
    pub fn contains(&self, p: &Point) -> (r: bool)
        ensures
            r == self.contains_spec(*p),
    {
        let ox = self.origin.x as i128;
        let oy = self.origin.y as i128;
        let px = p.x as i128;
        let py = p.y as i128;
        ox <= px && px < ox + self.size.width as i128 && oy <= py && py < oy + self.size.height as i128
    }
}

} // verus!
