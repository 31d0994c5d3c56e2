use vstd::prelude::*;

use crate::cell::RoomType;
use crate::dungeon::Dungeon;
use crate::grid::Grid;
use crate::room::Room;

verus! {

/// How one placed room recolors a cell of its rectangle: walls take
/// the room's category (a solid block), cells already of that category
/// are drilled out to `Empty`, everything else is kept.
pub open spec fn project_cell(c: RoomType, room_type: RoomType) -> RoomType {
    if c == RoomType::Wall {
        room_type
    } else if c == room_type {
        RoomType::Empty
    } else {
        c
    }
}

/// The cell at `(i, j)` after all of `rooms` have been projected in
/// order onto the starting grid `g0`.
pub open spec fn project_rooms_at(g0: Grid<RoomType>, rooms: Seq<Room>, i: int, j: int) -> RoomType
    decreases rooms.len(),
{
    if rooms.len() == 0 {
        g0.at(i, j)
    } else {
        let prev = project_rooms_at(g0, rooms.drop_last(), i, j);
        let r = rooms.last();
        if r.rect_contains(i, j) {
            project_cell(prev, r.room_type)
        } else {
            prev
        }
    }
}

/// The closing sweep: corridors and doors become open space, walls
/// stay walls.
pub open spec fn final_pass(c: RoomType) -> RoomType {
    if c == RoomType::Hall || c == RoomType::LockedDoor {
        RoomType::Empty
    } else {
        c
    }
}

impl Dungeon {
    /// Derive the solid-block layout for ray-casting renderers: copy
    /// the grid, project every placed rectangle (margin included) onto
    /// it in order, then blank out the remaining corridors and doors.
    pub fn convert_rooms_to_raycast_format(&mut self)
        requires
            old(self).wf(),
        ensures
            final(self).wf(),
            final(self).raycast_grid.same_dims(old(self).grid),
            forall|i: int, j: int|
                old(self).grid.in_bounds(i, j) ==> final(self).raycast_grid.at(i, j) == final_pass(
                    project_rooms_at(old(self).grid, old(self).placed_rooms@, i, j),
                ),
            final(self).grid == old(self).grid,
            final(self).regions == old(self).regions,
            final(self).rooms == old(self).rooms,
            final(self).placed_rooms == old(self).placed_rooms,
            final(self).regions_count == old(self).regions_count,
            final(self).start_x == old(self).start_x,
            final(self).start_y == old(self).start_y,
            final(self).end_x == old(self).end_x,
            final(self).end_y == old(self).end_y,
            final(self).painter == old(self).painter,
    {
        let ghost g0 = self.grid;
        self.raycast_grid = self.grid.duplicate();
        let n_rooms = self.placed_rooms.len();
        let mut k: usize = 0;
        proof {
            assert(self.placed_rooms@.subrange(0, 0) =~= Seq::<Room>::empty());
        }
        while k < n_rooms
            invariant
                old(self).wf(),
                self.grid == old(self).grid,
                self.regions == old(self).regions,
                self.rooms == old(self).rooms,
                self.placed_rooms == old(self).placed_rooms,
                self.regions_count == old(self).regions_count,
                self.start_x == old(self).start_x,
                self.start_y == old(self).start_y,
                self.end_x == old(self).end_x,
                self.end_y == old(self).end_y,
                self.painter == old(self).painter,
                g0 == old(self).grid,
                n_rooms == self.placed_rooms@.len(),
                k <= n_rooms,
                self.raycast_grid.wf(),
                self.raycast_grid.same_dims(g0),
                forall|i: int, j: int|
                    g0.in_bounds(i, j) ==> self.raycast_grid.at(i, j) == project_rooms_at(
                        g0,
                        self.placed_rooms@.subrange(0, k as int),
                        i,
                        j,
                    ),
            decreases n_rooms - k,
        {
            let room = self.placed_rooms[k];
            let ghost room_pre = self.raycast_grid;
            let rx = room.x;
            let ry = room.y;
            let rw = room.width;
            let rh = room.height;
            proof {
                assert(old(self).placed_room_ok(room));
            }
            let mut i: usize = 0;
            while i < rh
                invariant
                    old(self).wf(),
                    self.grid == old(self).grid,
                    self.regions == old(self).regions,
                    self.rooms == old(self).rooms,
                    self.placed_rooms == old(self).placed_rooms,
                    self.regions_count == old(self).regions_count,
                    self.start_x == old(self).start_x,
                    self.start_y == old(self).start_y,
                    self.end_x == old(self).end_x,
                    self.end_y == old(self).end_y,
                    self.painter == old(self).painter,
                    g0 == old(self).grid,
                    n_rooms == self.placed_rooms@.len(),
                    k < n_rooms,
                    room == self.placed_rooms@[k as int],
                    rx == room.x,
                    ry == room.y,
                    rw == room.width,
                    rh == room.height,
                    room_pre.same_dims(g0),
                    forall|a: int, b: int|
                        g0.in_bounds(a, b) ==> room_pre.at(a, b) == project_rooms_at(
                            g0,
                            self.placed_rooms@.subrange(0, k as int),
                            a,
                            b,
                        ),
                    i <= rh,
                    rx + rw <= self.raycast_grid.spec_width(),
                    ry + rh <= self.raycast_grid.spec_height(),
                    self.raycast_grid.wf(),
                    self.raycast_grid.same_dims(room_pre),
                    room_pre.wf(),
                    forall|a: int, b: int|
                        rx <= a < rx + rw && ry <= b < ry + i ==> self.raycast_grid.at(a, b)
                            == project_cell(room_pre.at(a, b), room.room_type),
                    forall|a: int, b: int|
                        room_pre.in_bounds(a, b) && !(rx <= a < rx + rw && ry <= b < ry + i)
                            ==> self.raycast_grid.at(a, b) == room_pre.at(a, b),
                decreases rh - i,
            {
                let mut j: usize = 0;
                while j < rw
                    invariant
                        old(self).wf(),
                        self.grid == old(self).grid,
                        self.regions == old(self).regions,
                        self.rooms == old(self).rooms,
                        self.placed_rooms == old(self).placed_rooms,
                        self.regions_count == old(self).regions_count,
                        self.start_x == old(self).start_x,
                        self.start_y == old(self).start_y,
                        self.end_x == old(self).end_x,
                        self.end_y == old(self).end_y,
                        self.painter == old(self).painter,
                        g0 == old(self).grid,
                        n_rooms == self.placed_rooms@.len(),
                        k < n_rooms,
                        room == self.placed_rooms@[k as int],
                        rx == room.x,
                        ry == room.y,
                        rw == room.width,
                        rh == room.height,
                        room_pre.same_dims(g0),
                        forall|a: int, b: int|
                            g0.in_bounds(a, b) ==> room_pre.at(a, b) == project_rooms_at(
                                g0,
                                self.placed_rooms@.subrange(0, k as int),
                                a,
                                b,
                            ),
                        i < rh,
                        j <= rw,
                        rx + rw <= self.raycast_grid.spec_width(),
                        ry + rh <= self.raycast_grid.spec_height(),
                        self.raycast_grid.wf(),
                        self.raycast_grid.same_dims(room_pre),
                        room_pre.wf(),
                        forall|a: int, b: int|
                            rx <= a < rx + rw && ry <= b < ry + i ==> self.raycast_grid.at(a, b)
                                == project_cell(room_pre.at(a, b), room.room_type),
                        forall|a: int|
                            rx <= a < rx + j ==> #[trigger] self.raycast_grid.at(a, ry + i)
                                == project_cell(room_pre.at(a, ry + i), room.room_type),
                        forall|a: int, b: int|
                            room_pre.in_bounds(a, b) && !(rx <= a < rx + rw && ry <= b < ry + i)
                                && !(b == ry + i && rx <= a < rx + j) ==> self.raycast_grid.at(
                                a,
                                b,
                            ) == room_pre.at(a, b),
                    decreases rw - j,
                {
                    let c = self.raycast_grid.read(rx + j, ry + i);
                    if c == RoomType::Wall {
                        self.raycast_grid.write(rx + j, ry + i, room.room_type);
                    } else if c == room.room_type {
                        self.raycast_grid.write(rx + j, ry + i, RoomType::Empty);
                    }
                    j = j + 1;
                }
                i = i + 1;
            }
            proof {
                let rooms_now = self.placed_rooms@.subrange(0, k + 1);
                assert(rooms_now.drop_last() =~= self.placed_rooms@.subrange(0, k as int));
                assert(rooms_now.last() == room);
                assert forall|a: int, b: int| g0.in_bounds(a, b) implies self.raycast_grid.at(a, b)
                    == project_rooms_at(g0, rooms_now, a, b) by {
                    if room.rect_contains(a, b) {
                        assert(self.raycast_grid.at(a, b) == project_cell(
                            room_pre.at(a, b),
                            room.room_type,
                        ));
                    } else {
                        assert(self.raycast_grid.at(a, b) == room_pre.at(a, b));
                    }
                }
            }
            k = k + 1;
        }
        proof {
            assert(self.placed_rooms@.subrange(0, n_rooms as int) =~= self.placed_rooms@);
        }
        let w = self.raycast_grid.width();
        let h = self.raycast_grid.height();
        let ghost mid = self.raycast_grid;
        let mut y: usize = 0;
        while y < h
            invariant
                old(self).wf(),
                self.grid == old(self).grid,
                self.regions == old(self).regions,
                self.rooms == old(self).rooms,
                self.placed_rooms == old(self).placed_rooms,
                self.regions_count == old(self).regions_count,
                self.start_x == old(self).start_x,
                self.start_y == old(self).start_y,
                self.end_x == old(self).end_x,
                self.end_y == old(self).end_y,
                self.painter == old(self).painter,
                mid.same_dims(old(self).grid),
                forall|a: int, b: int|
                    old(self).grid.in_bounds(a, b) ==> mid.at(a, b) == project_rooms_at(
                        old(self).grid,
                        old(self).placed_rooms@,
                        a,
                        b,
                    ),
                y <= h,
                w == self.raycast_grid.spec_width(),
                h == self.raycast_grid.spec_height(),
                self.raycast_grid.wf(),
                self.raycast_grid.same_dims(mid),
                mid.wf(),
                forall|a: int, b: int|
                    mid.in_bounds(a, b) && b < y ==> self.raycast_grid.at(a, b) == final_pass(
                        mid.at(a, b),
                    ),
                forall|a: int, b: int|
                    mid.in_bounds(a, b) && b >= y ==> self.raycast_grid.at(a, b) == mid.at(a, b),
            decreases h - y,
        {
            let mut x: usize = 0;
            while x < w
                invariant
                    old(self).wf(),
                    self.grid == old(self).grid,
                    self.regions == old(self).regions,
                    self.rooms == old(self).rooms,
                    self.placed_rooms == old(self).placed_rooms,
                    self.regions_count == old(self).regions_count,
                    self.start_x == old(self).start_x,
                    self.start_y == old(self).start_y,
                    self.end_x == old(self).end_x,
                    self.end_y == old(self).end_y,
                    self.painter == old(self).painter,
                    mid.same_dims(old(self).grid),
                    forall|a: int, b: int|
                        old(self).grid.in_bounds(a, b) ==> mid.at(a, b) == project_rooms_at(
                            old(self).grid,
                            old(self).placed_rooms@,
                            a,
                            b,
                        ),
                    y < h,
                    x <= w,
                    w == self.raycast_grid.spec_width(),
                    h == self.raycast_grid.spec_height(),
                    self.raycast_grid.wf(),
                    self.raycast_grid.same_dims(mid),
                    mid.wf(),
                    forall|a: int, b: int|
                        mid.in_bounds(a, b) && b < y ==> self.raycast_grid.at(a, b) == final_pass(
                            mid.at(a, b),
                        ),
                    forall|a: int|
                        0 <= a < x ==> #[trigger] self.raycast_grid.at(a, y as int) == final_pass(
                            mid.at(a, y as int),
                        ),
                    forall|a: int, b: int|
                        mid.in_bounds(a, b) && (b > y || (b == y && a >= x))
                            ==> self.raycast_grid.at(a, b) == mid.at(a, b),
                decreases w - x,
            {
                let c = self.raycast_grid.read(x, y);
                if c == RoomType::Hall || c == RoomType::LockedDoor {
                    self.raycast_grid.write(x, y, RoomType::Empty);
                }
                x = x + 1;
            }
            y = y + 1;
        }
    }

    /// Mirror every row of the raycast grid, a coordinate adapter for
    /// renderers that count columns from the other side.
    pub fn reverse_grid_rows(&mut self)
        requires
            old(self).wf(),
        ensures
            final(self).wf(),
            final(self).raycast_grid.same_dims(old(self).raycast_grid),
            forall|i: int, j: int|
                old(self).raycast_grid.in_bounds(i, j) ==> final(self).raycast_grid.at(i, j)
                    == old(self).raycast_grid.at(old(self).raycast_grid.spec_width() - 1 - i, j),
            final(self).grid == old(self).grid,
            final(self).regions == old(self).regions,
            final(self).rooms == old(self).rooms,
            final(self).placed_rooms == old(self).placed_rooms,
            final(self).regions_count == old(self).regions_count,
            final(self).start_x == old(self).start_x,
            final(self).start_y == old(self).start_y,
            final(self).end_x == old(self).end_x,
            final(self).end_y == old(self).end_y,
            final(self).painter == old(self).painter,
    {
        self.raycast_grid = reverse_grid_rows(&self.raycast_grid);
    }
}

/// A copy of `map` with every row reversed.
pub fn reverse_grid_rows(map: &Grid<RoomType>) -> (r: Grid<RoomType>)
    requires
        map.wf(),
    ensures
        r.wf(),
        r.same_dims(*map),
        forall|i: int, j: int|
            map.in_bounds(i, j) ==> r.at(i, j) == map.at(map.spec_width() - 1 - i, j),
{
    let w = map.width();
    let h = map.height();
    proof {
        map.lemma_wf_area();
    }
    let out_opt = Grid::<RoomType>::new(w, h, RoomType::Empty);
    let mut out: Grid<RoomType>;
    match out_opt {
        Some(g) => {
            out = g;
        },
        None => {
            proof {
                assert(false);
            }
            return map.duplicate();
        },
    }
    let mut y: usize = 0;
    while y < h
        invariant
            map.wf(),
            w == map.spec_width(),
            h == map.spec_height(),
            y <= h,
            out.wf(),
            out.same_dims(*map),
            forall|i: int, j: int|
                map.in_bounds(i, j) && j < y ==> out.at(i, j) == map.at(w - 1 - i, j),
        decreases h - y,
    {
        let mut x: usize = 0;
        while x < w
            invariant
                map.wf(),
                w == map.spec_width(),
                h == map.spec_height(),
                y < h,
                x <= w,
                out.wf(),
                out.same_dims(*map),
                forall|i: int, j: int|
                    map.in_bounds(i, j) && j < y ==> out.at(i, j) == map.at(w - 1 - i, j),
                forall|i: int| 0 <= i < x ==> #[trigger] out.at(i, y as int) == map.at(
                    w - 1 - i,
                    y as int,
                ),
        decreases w - x,
        {
            let v = map.read(w - 1 - x, y);
            out.write(x, y, v);
            x = x + 1;
        }
        y = y + 1;
    }
    out
}

} // verus!
