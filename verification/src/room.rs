use vstd::prelude::*;

use crate::cell::RoomType;

verus! {

/// A rectangle of cells. A *placed* room includes its one-cell wall
/// margin; its interior is the rectangle shrunk by one on every side.
#[derive(Clone, Copy, Debug, PartialEq, Eq, Structural)]
pub struct Room {
    pub height: usize,
    pub width: usize,
    pub x: usize,
    pub y: usize,
    pub room_type: RoomType,
}

impl Room {
    /// The whole rectangle, margin included, lies inside a `w` x `h` grid.
    pub open spec fn in_grid(self, w: int, h: int) -> bool {
        self.x + self.width <= w && self.y + self.height <= h
    }

    /// `(i, j)` lies strictly inside the placed rectangle, that is, in
    /// the interior once the one-cell margin is peeled off.
    pub open spec fn interior_contains(self, i: int, j: int) -> bool {
        &&& self.x + 1 <= i < self.x + self.width - 1
        &&& self.y + 1 <= j < self.y + self.height - 1
    }

    /// `(i, j)` lies anywhere in the placed rectangle, margin included.
    pub open spec fn rect_contains(self, i: int, j: int) -> bool {
        &&& self.x <= i < self.x + self.width
        &&& self.y <= j < self.y + self.height
    }
}

/// No cell lies in the interior of both rooms.
pub open spec fn interiors_disjoint(a: Room, b: Room) -> bool {
    forall|i: int, j: int| !(a.interior_contains(i, j) && b.interior_contains(i, j))
}

} // verus!
