use vstd::prelude::*;

use crate::geometry::{Axis, Bounds, Point, Size};

verus! {

/// A direction in which a pane can be split, or in which a neighbour is sought.
#[derive(Clone, Copy, Debug, PartialEq, Eq, Structural)]
pub enum SplitDirection {
    Up,
    Down,
    Left,
    Right,
}

impl SplitDirection {
    pub open spec fn axis_spec(self) -> Axis {
        match self {
            SplitDirection::Up | SplitDirection::Down => Axis::Vertical,
            SplitDirection::Left | SplitDirection::Right => Axis::Horizontal,
        }
    }

    pub open spec fn increasing_spec(self) -> bool {
        match self {
            SplitDirection::Left | SplitDirection::Up => false,
            SplitDirection::Down | SplitDirection::Right => true,
        }
    }

    /// Every direction, in the order up, down, left, right.
    pub fn all() -> (r: [SplitDirection; 4])
        ensures
            r@ == seq![SplitDirection::Up, SplitDirection::Down, SplitDirection::Left, SplitDirection::Right],
    {
        [SplitDirection::Up, SplitDirection::Down, SplitDirection::Left, SplitDirection::Right]
    }

    /// The axis along which a split in this direction arranges the panes.
    pub fn axis(&self) -> (r: Axis)
        ensures
            r == self.axis_spec(),
    {
        match self {
            SplitDirection::Up | SplitDirection::Down => Axis::Vertical,
            SplitDirection::Left | SplitDirection::Right => Axis::Horizontal,
        }
    }

    /// Whether the new pane goes after the old one (down, right) rather than before it.
    pub fn increasing(&self) -> (r: bool)
        ensures
            r == self.increasing_spec(),
    {
        match self {
            SplitDirection::Left | SplitDirection::Up => false,
            SplitDirection::Down | SplitDirection::Right => true,
        }
    }

    /// The lower-case name of the direction.
    pub fn as_str(&self) -> (r: &'static str)
        ensures
            r@ == match *self {
                SplitDirection::Up => "up"@,
                SplitDirection::Down => "down"@,
                SplitDirection::Left => "left"@,
                SplitDirection::Right => "right"@,
            },
    {
        match self {
            SplitDirection::Up => "up",
            SplitDirection::Down => "down",
            SplitDirection::Left => "left",
            SplitDirection::Right => "right",
        }
    }

    pub open spec fn edge_spec(self, rect: Bounds) -> int {
        match self {
            SplitDirection::Up => rect.origin.y as int,
            SplitDirection::Down => rect.origin.y + rect.size.height,
            SplitDirection::Left => rect.origin.x as int,
            SplitDirection::Right => rect.origin.x + rect.size.width,
        }
    }

    /// The coordinate of the edge of `rect` that faces this direction.
    pub fn edge(&self, rect: Bounds) -> (r: i64)
        requires
            rect.wf(),
        ensures
            r == self.edge_spec(rect),
    {
        match self {
            SplitDirection::Up => rect.origin.y,
            SplitDirection::Down => rect.bottom(),
            SplitDirection::Left => rect.origin.x,
            SplitDirection::Right => rect.right(),
        }
    }

    /// A strip of thickness `length` along the edge of `bounds` that faces this direction.
    /// The strip for `Right` starts at the bottom of `bounds`.
    pub fn along_edge(&self, bounds: Bounds, length: i64) -> (r: Bounds)
        requires
            bounds.wf(),
            *self == SplitDirection::Down ==> i64::MIN <= bounds.origin.y + bounds.size.height - length <= i64::MAX,
            *self == SplitDirection::Right ==> i64::MIN <= bounds.origin.x + bounds.size.width - length <= i64::MAX,
        ensures
            r == match *self {
                SplitDirection::Up => Bounds {
                    origin: bounds.origin,
                    size: Size { width: bounds.size.width, height: length },
                },
                SplitDirection::Down => Bounds {
                    origin: Point { x: bounds.origin.x, y: (bounds.origin.y + bounds.size.height - length) as i64 },
                    size: Size { width: bounds.size.width, height: length },
                },
                SplitDirection::Left => Bounds {
                    origin: bounds.origin,
                    size: Size { width: length, height: bounds.size.height },
                },
                SplitDirection::Right => Bounds {
                    origin: Point {
                        x: (bounds.origin.x + bounds.size.width - length) as i64,
                        y: (bounds.origin.y + bounds.size.height) as i64,
                    },
                    size: Size { width: length, height: bounds.size.height },
                },
            },
    {
        match self {
            SplitDirection::Up => Bounds {
                origin: bounds.origin,
                size: Size { width: bounds.size.width, height: length },
            },
            SplitDirection::Down => Bounds {
                origin: Point { x: bounds.origin.x, y: bounds.bottom() - length },
                size: Size { width: bounds.size.width, height: length },
            },
            SplitDirection::Left => Bounds {
                origin: bounds.origin,
                size: Size { width: length, height: bounds.size.height },
            },
            SplitDirection::Right => Bounds {
                origin: Point { x: bounds.right() - length, y: bounds.bottom() },
                size: Size { width: length, height: bounds.size.height },
            },
        }
    }
}

} // verus!
