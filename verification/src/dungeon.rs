use vstd::prelude::*;

use crate::cell::RoomType;
use crate::grid::Grid;
use crate::painter::Painter;
use crate::params::DungeonOptions;
use crate::room::{interiors_disjoint, Room};

verus! {

/// Failure that aborts a floor attempt outright.
#[derive(Clone, Copy, Debug, PartialEq, Eq, Structural)]
pub enum GenerationError {
    /// Start/end placement exhausted its retry budget.
    PlacementFailed,
}

/// Between `pre` and `post`, a cell grid changed only by assigning
/// categories to cells that were still unassigned: no cell reverts to
/// `Empty` and no already-assigned cell is rewritten.
pub open spec fn cells_only_assigned(pre: Grid<RoomType>, post: Grid<RoomType>) -> bool {
    &&& post.wf()
    &&& post.same_dims(pre)
    &&& forall|i: int, j: int|
        pre.in_bounds(i, j) && post.at(i, j) != pre.at(i, j) ==> pre.at(i, j) == RoomType::Empty
            && post.at(i, j) != RoomType::Empty
}

/// Between `pre` and `post`, a region-id grid changed only by assigning
/// fresh ids to cells that had none.
pub open spec fn regions_only_assigned(pre: Grid<u32>, post: Grid<u32>) -> bool {
    &&& post.wf()
    &&& post.same_dims(pre)
    &&& forall|i: int, j: int|
        pre.in_bounds(i, j) && post.at(i, j) != pre.at(i, j) ==> pre.at(i, j) == 0 && post.at(
            i,
            j,
        ) != 0
}

pub proof fn lemma_cells_only_assigned_trans(a: Grid<RoomType>, b: Grid<RoomType>, c: Grid<
    RoomType,
>)
    requires
        cells_only_assigned(a, b),
        cells_only_assigned(b, c),
    ensures
        cells_only_assigned(a, c),
{
    assert forall|i: int, j: int|
        a.in_bounds(i, j) && c.at(i, j) != a.at(i, j) implies a.at(i, j) == RoomType::Empty && c.at(
        i,
        j,
    ) != RoomType::Empty by {
        assert(b.in_bounds(i, j));
        if b.at(i, j) == a.at(i, j) {
            assert(c.at(i, j) != b.at(i, j));
        }
    }
}

pub proof fn lemma_regions_only_assigned_trans(a: Grid<u32>, b: Grid<u32>, c: Grid<u32>)
    requires
        regions_only_assigned(a, b),
        regions_only_assigned(b, c),
    ensures
        regions_only_assigned(a, c),
{
    assert forall|i: int, j: int|
        a.in_bounds(i, j) && c.at(i, j) != a.at(i, j) implies a.at(i, j) == 0 && c.at(i, j)
        != 0 by {
        assert(b.in_bounds(i, j));
        if b.at(i, j) == a.at(i, j) {
            assert(c.at(i, j) != b.at(i, j));
        }
    }
}

/// Writes that only ever put a category (never `Empty`) into a cell
/// keep the placed-room bookkeeping intact.
pub proof fn lemma_placed_ok_after_nonempty_writes(pre: Dungeon, post: Dungeon)
    requires
        pre.placed_rooms_ok(),
        post.placed_rooms == pre.placed_rooms,
        post.grid.wf(),
        post.grid.same_dims(pre.grid),
        forall|i: int, j: int|
            pre.grid.in_bounds(i, j) && post.grid.at(i, j) != pre.grid.at(i, j) ==> post.grid.at(
                i,
                j,
            ) != RoomType::Empty,
    ensures
        post.placed_rooms_ok(),
{
    assert forall|k: int| 0 <= k < post.placed_rooms@.len() implies post.placed_room_ok(
        #[trigger] post.placed_rooms@[k],
    ) by {
        let r = post.placed_rooms@[k];
        assert(pre.placed_room_ok(r));
        assert forall|i: int, j: int| r.interior_contains(i, j) implies post.grid.at(i, j)
            != RoomType::Empty by {
            assert(pre.grid.in_bounds(i, j));
            assert(pre.grid.at(i, j) != RoomType::Empty);
        }
    }
}

/// One floor attempt: the cell grid, the parallel region-id grid, the
/// requested and placed rooms, and the start/end anchor cells.
pub struct Dungeon {
    pub rooms: Vec<Room>,
    pub placed_rooms: Vec<Room>,
    pub grid: Grid<RoomType>,
    pub raycast_grid: Grid<RoomType>,
    pub regions: Grid<u32>,
    pub regions_count: u32,
    pub start_x: usize,
    pub start_y: usize,
    pub end_x: usize,
    pub end_y: usize,
    pub painter: Painter,
}

impl Dungeon {
    /// A placed room fits the grid and keeps its interior marked: every
    /// interior cell has been given a category, so a later placement
    /// (which demands unassigned cells) can never claim it again.
    pub open spec fn placed_room_ok(self, r: Room) -> bool {
        &&& r.in_grid(self.grid.spec_width() as int, self.grid.spec_height() as int)
        &&& r.width >= 2
        &&& r.height >= 2
        &&& forall|i: int, j: int| r.interior_contains(i, j) ==> self.grid.at(i, j)
            != RoomType::Empty
    }

    /// Every placed room is well-placed and no two interiors overlap.
    pub open spec fn placed_rooms_ok(self) -> bool {
        &&& forall|k: int|
            0 <= k < self.placed_rooms@.len() ==> self.placed_room_ok(#[trigger] self.placed_rooms@[k])
        &&& forall|k1: int, k2: int|
            0 <= k1 < k2 < self.placed_rooms@.len() ==> interiors_disjoint(
                #[trigger] self.placed_rooms@[k1],
                #[trigger] self.placed_rooms@[k2],
            )
    }

    /// The grids are consistent: one cell per coordinate, all three with
    /// the same dimensions; the placed-room bookkeeping holds.
    pub open spec fn wf(self) -> bool {
        &&& self.grid.wf()
        &&& self.raycast_grid.wf()
        &&& self.regions.wf()
        &&& self.grid.same_dims(self.raycast_grid)
        &&& self.grid.same_dims(self.regions)
        &&& self.placed_rooms_ok()
    }

    /// The start and end anchors are placed: both cells carry their
    /// category and belong to a region, so no later stage writes them.
    pub open spec fn anchors_placed(self) -> bool {
        &&& self.grid.in_bounds(self.start_x as int, self.start_y as int)
        &&& self.grid.in_bounds(self.end_x as int, self.end_y as int)
        &&& self.grid.at(self.start_x as int, self.start_y as int) == RoomType::Start
        &&& self.grid.at(self.end_x as int, self.end_y as int) == RoomType::End
        &&& self.regions.at(self.start_x as int, self.start_y as int) != 0
        &&& self.regions.at(self.end_x as int, self.end_y as int) != 0
    }

    /// No cell of the grid is still unassigned.
    pub open spec fn no_empty_cells(self) -> bool {
        forall|i: int, j: int| self.grid.in_bounds(i, j) ==> self.grid.at(i, j) != RoomType::Empty
    }

    /// Every region id on the grid was actually handed out: none
    /// exceeds the running region counter.
    pub open spec fn regions_in_range(self) -> bool {
        forall|i: int, j: int|
            self.regions.in_bounds(i, j) ==> #[trigger] self.regions.at(i, j)
                <= self.regions_count
    }

    /// A cell that still has no category belongs to no region either.
    pub open spec fn regions_zero_on_empty(self) -> bool {
        forall|i: int, j: int|
            self.grid.in_bounds(i, j) && self.grid.at(i, j) == RoomType::Empty
                ==> self.regions.at(i, j) == 0
    }

    /// A blank attempt over the configured dimensions, every cell
    /// unassigned; `None` when the grid cannot be addressed in memory.
    pub fn new(parameters: &DungeonOptions) -> (d: Option<Dungeon>)
        ensures
            parameters.width * parameters.height <= usize::MAX ==> d is Some,
            match d {
                Some(d) => {
                    &&& d.wf()
                    &&& d.grid.spec_width() == parameters.width
                    &&& d.grid.spec_height() == parameters.height
                    &&& forall|i: int, j: int|
                        d.grid.in_bounds(i, j) ==> d.grid.at(i, j) == RoomType::Empty
                    &&& forall|i: int, j: int| d.regions.in_bounds(i, j) ==> d.regions.at(i, j) == 0
                    &&& forall|i: int, j: int|
                        d.raycast_grid.in_bounds(i, j) ==> d.raycast_grid.at(i, j)
                            == RoomType::Empty
                    &&& d.regions_in_range()
                    &&& d.rooms@.len() == 0
                    &&& d.placed_rooms@.len() == 0
                    &&& d.regions_count == 0
                    &&& d.start_x == 0
                    &&& d.start_y == 0
                    &&& d.end_x == 0
                    &&& d.end_y == 0
                    &&& d.painter.disable
                },
                None => true,
            },
    {
        let width = parameters.width as usize;
        let height = parameters.height as usize;
        let grid_opt = Grid::<RoomType>::new(width, height, RoomType::Empty);
        let raycast_opt = Grid::<RoomType>::new(width, height, RoomType::Empty);
        let regions_opt = Grid::<u32>::new(width, height, 0u32);
        match (grid_opt, raycast_opt, regions_opt) {
            (Some(grid), Some(raycast_grid), Some(regions)) => Some(
                Dungeon {
                    rooms: Vec::new(),
                    placed_rooms: Vec::new(),
                    grid,
                    raycast_grid,
                    regions,
                    regions_count: 0,
                    start_x: 0,
                    start_y: 0,
                    end_x: 0,
                    end_y: 0,
                    painter: Painter::new(),
                },
            ),
            _ => None,
        }
    }

    /// Placed rooms of a well-formed floor are axis-aligned rectangles
    /// that lie fully in bounds, and the interiors of any two distinct
    /// placed rooms share no cell.
    pub proof fn lemma_placed_rooms_disjoint(self, k1: int, k2: int)
        requires
            self.wf(),
            0 <= k1 < self.placed_rooms@.len(),
            0 <= k2 < self.placed_rooms@.len(),
            k1 != k2,
        ensures
            self.placed_rooms@[k1].in_grid(self.grid.spec_width() as int, self.grid.spec_height() as int),
            interiors_disjoint(self.placed_rooms@[k1], self.placed_rooms@[k2]),
    {
        if k1 < k2 {
        } else {
            assert(interiors_disjoint(self.placed_rooms@[k2], self.placed_rooms@[k1]));
        }
    }

    /// Queue a room spec for placement.
    pub fn add_room(&mut self, room: Room)
        ensures
            final(self).rooms@ == old(self).rooms@.push(room),
            final(self).placed_rooms == old(self).placed_rooms,
            final(self).grid == old(self).grid,
            final(self).raycast_grid == old(self).raycast_grid,
            final(self).regions == old(self).regions,
            final(self).regions_count == old(self).regions_count,
            final(self).start_x == old(self).start_x,
            final(self).start_y == old(self).start_y,
            final(self).end_x == old(self).end_x,
            final(self).end_y == old(self).end_y,
            final(self).painter == old(self).painter,
    {
        self.rooms.push(room);
    }
}

} // verus!
