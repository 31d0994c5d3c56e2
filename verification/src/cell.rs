use vstd::prelude::*;

verus! {

/// The category a grid cell can hold. `Empty` is transient generation
/// state: an accepted floor contains no `Empty` cell.
#[derive(Clone, Copy, Debug, PartialEq, Eq, Structural)]
pub enum RoomType {
    Empty,
    Wall,
    Hall,
    Start,
    End,
    Boss,
    Shop,
    Treasure,
    Secret,
    LockedDoor,
}

impl RoomType {
    /// Numeric code of a category, as exporters and renderers see it.
    pub open spec fn spec_to_int(self) -> u32 {
        match self {
            RoomType::Empty => 0,
            RoomType::Wall => 1,
            RoomType::Hall => 2,
            RoomType::Start => 3,
            RoomType::End => 4,
            RoomType::Boss => 5,
            RoomType::Shop => 6,
            RoomType::Treasure => 7,
            RoomType::Secret => 8,
            RoomType::LockedDoor => 9,
        }
    }

    pub fn to_int(&self) -> (r: u32)
        ensures
            r == self.spec_to_int(),
    {
        match self {
            RoomType::Empty => 0,
            RoomType::Wall => 1,
            RoomType::Hall => 2,
            RoomType::Start => 3,
            RoomType::End => 4,
            RoomType::Boss => 5,
            RoomType::Shop => 6,
            RoomType::Treasure => 7,
            RoomType::Secret => 8,
            RoomType::LockedDoor => 9,
        }
    }

    /// A cell one can walk through when checking reachability:
    /// anything but a wall or still-unassigned space.
    pub open spec fn passable(self) -> bool {
        self != RoomType::Wall && self != RoomType::Empty
    }
}

} // verus!
