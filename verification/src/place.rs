use vstd::prelude::*;

use crate::cell::RoomType;
use crate::dungeon::{
    cells_only_assigned, lemma_cells_only_assigned_trans, lemma_regions_only_assigned_trans,
    regions_only_assigned, Dungeon, GenerationError,
};
use crate::room::{interiors_disjoint, Room};
use crate::rng::RandomSource;

verus! {

/// The placement guard for one room spec: the grid is strictly larger
/// than the room plus a `buffer`-cell clearance on both axes, so a
/// position can be sampled without any wraparound.
pub open spec fn spec_room_fits(r: Room, buffer: int, w: int, h: int) -> bool {
    &&& buffer < w
    &&& buffer < w - buffer
    &&& r.width < w - buffer - buffer
    &&& buffer < h
    &&& buffer < h - buffer
    &&& r.height < h - buffer - buffer
}

/// A placed rectangle whose interior lies inside the sampling band
/// `[buffer, w - buffer) x [buffer, h - buffer)`.
pub open spec fn placed_in_band(r: Room, buffer: int, w: int, h: int) -> bool {
    &&& buffer <= r.x + 1
    &&& r.x + r.width <= w - buffer + 1
    &&& buffer <= r.y + 1
    &&& r.y + r.height <= h - buffer + 1
}

/// Manhattan distance between two cells.
pub open spec fn manhattan(ax: int, ay: int, bx: int, by: int) -> int {
    (if ax >= bx {
        ax - bx
    } else {
        bx - ax
    }) + (if ay >= by {
        ay - by
    } else {
        by - ay
    })
}

impl Dungeon {
    /// Sample two interior anchor cells whose Manhattan distance is at
    /// least `max(width, height) / 2`, retrying up to twenty times; mark
    /// them `Start` and `End`, give each its own singleton region, and
    /// record a 3x3 placed rectangle around each. Exhausting the retry
    /// budget aborts the whole floor attempt with `PlacementFailed` and
    /// leaves the floor untouched.
    pub fn place_start_and_end(&mut self, rng: &mut RandomSource) -> (r: Result<
        (),
        GenerationError,
    >)
        requires
            old(self).wf(),
            old(self).grid.spec_width() >= 9,
            old(self).grid.spec_height() >= 9,
            forall|i: int, j: int|
                old(self).grid.in_bounds(i, j) ==> old(self).grid.at(i, j) == RoomType::Empty,
            forall|i: int, j: int|
                old(self).regions.in_bounds(i, j) ==> old(self).regions.at(i, j) == 0,
            old(self).placed_rooms@.len() == 0,
            old(self).regions_count == 0,
    ensures
            final(self).wf(),
            final(self).grid.same_dims(old(self).grid),
            final(self).rooms == old(self).rooms,
            final(self).raycast_grid == old(self).raycast_grid,
            final(self).regions_zero_on_empty(),
            final(self).regions_in_range(),
            match r {
                Ok(()) => {
                    &&& final(self).anchors_placed()
                    &&& final(self).regions_count == 2
                    &&& final(self).placed_rooms@.len() == 2
                    &&& (final(self).placed_rooms@[0].room_type == RoomType::Start)
                    &&& (final(self).placed_rooms@[0].width == 3)
                    &&& (final(self).placed_rooms@[0].height == 3)
                    &&& (final(self).placed_rooms@[0].x + 1 == final(self).start_x)
                    &&& (final(self).placed_rooms@[0].y + 1 == final(self).start_y)
                    &&& (final(self).placed_rooms@[1].room_type == RoomType::End)
                    &&& (final(self).placed_rooms@[1].width == 3)
                    &&& (final(self).placed_rooms@[1].height == 3)
                    &&& (final(self).placed_rooms@[1].x + 1 == final(self).end_x)
                    &&& (final(self).placed_rooms@[1].y + 1 == final(self).end_y)
                    &&& 4 <= final(self).start_x && final(self).start_x + 4 < final(self).grid.spec_width()
                    &&& 4 <= final(self).start_y && final(self).start_y + 4 < final(self).grid.spec_height()
                    &&& 1 <= final(self).end_x && final(self).end_x + 1 < final(self).grid.spec_width()
                    &&& 1 <= final(self).end_y && final(self).end_y + 1 < final(self).grid.spec_height()
                    &&& !(final(self).start_x == final(self).end_x && final(self).start_y == final(self).end_y)
                    &&& manhattan(
                        final(self).start_x as int,
                        final(self).start_y as int,
                        final(self).end_x as int,
                        final(self).end_y as int,
                    ) >= (if final(self).grid.spec_height() > final(self).grid.spec_width() {
                        final(self).grid.spec_height() as int / 2
                    } else {
                        final(self).grid.spec_width() as int / 2
                    })
                    &&& forall|i: int, j: int|
                        final(self).grid.in_bounds(i, j) && !(i == final(self).start_x && j
                            == final(self).start_y) && !(i == final(self).end_x && j == final(self).end_y) ==> final(self).grid.at(i, j) == RoomType::Empty
                    &&& forall|i: int, j: int|
                        final(self).regions.in_bounds(i, j) && !(i == final(self).start_x && j
                            == final(self).start_y) && !(i == final(self).end_x && j == final(self).end_y) ==> final(self).regions.at(i, j) == 0
                    &&& final(self).regions.at(
                        final(self).start_x as int,
                        final(self).start_y as int,
                    ) == 1
                    &&& final(self).regions.at(final(self).end_x as int, final(self).end_y as int)
                        == 2
                },
                Err(e) => {
                    &&& e == GenerationError::PlacementFailed
                    &&& *final(self) == *old(self)
                },
            },
    {
        let w = self.grid.width();
        let h = self.grid.height();
        let max_distance = if h > w {
            h / 2
        } else {
            w / 2
        };
        let mut trys: usize = 0;
        while trys < 20
            invariant
                *self == *old(self),
                old(self).wf(),
                old(self).placed_rooms@.len() == 0,
                old(self).regions_count == 0,
                forall|i: int, j: int|
                    old(self).grid.in_bounds(i, j) ==> old(self).grid.at(i, j) == RoomType::Empty,
                forall|i: int, j: int|
                    old(self).regions.in_bounds(i, j) ==> old(self).regions.at(i, j) == 0,
                w == self.grid.spec_width(),
                h == self.grid.spec_height(),
                9 <= w,
                9 <= h,
                max_distance == (if h > w {
                    h as int / 2
                } else {
                    w as int / 2
                }),
            decreases 20 - trys,
        {
            trys = trys + 1;
            let start_x = rng.gen_range_usize(4, w - 4);
            let start_y = rng.gen_range_usize(4, h - 4);
            let end_x = rng.gen_range_usize(1, w - 1);
            let end_y = rng.gen_range_usize(1, h - 1);
            let dx = if start_x >= end_x {
                start_x - end_x
            } else {
                end_x - start_x
            };
            let dy = if start_y >= end_y {
                start_y - end_y
            } else {
                end_y - start_y
            };
            proof {
                self.grid.lemma_wf_area();
                assert(w + h <= w * h) by (nonlinear_arith)
                    requires
                        w >= 2,
                        h >= 2,
                ;
            }
            let distance = dx + dy;
            if distance >= max_distance {
                proof {
                    assert(max_distance >= 4);
                    assert(!(start_x == end_x && start_y == end_y));
                }
                self.grid.write(start_x, start_y, RoomType::Start);
                self.grid.write(end_x, end_y, RoomType::End);
                self.regions_count = 2;
                self.regions.write(start_x, start_y, 1);
                self.regions.write(end_x, end_y, 2);
                self.start_x = start_x;
                self.start_y = start_y;
                self.end_x = end_x;
                self.end_y = end_y;
                let placed_new = Room {
                    height: 3,
                    width: 3,
                    x: start_x - 1,
                    y: start_y - 1,
                    room_type: RoomType::Start,
                };
                let placed_end = Room {
                    height: 3,
                    width: 3,
                    x: end_x - 1,
                    y: end_y - 1,
                    room_type: RoomType::End,
                };
                self.placed_rooms.push(placed_new);
                self.placed_rooms.push(placed_end);
                let snap = self.grid.duplicate();
                self.painter.add_step(snap);
                proof {
                    assert forall|i: int, j: int| placed_new.interior_contains(i, j) implies i
                        == start_x && j == start_y by {}
                    assert forall|i: int, j: int| placed_end.interior_contains(i, j) implies i
                        == end_x && j == end_y by {}
                    assert(self.placed_room_ok(placed_new));
                    assert(self.placed_room_ok(placed_end));
                    assert(interiors_disjoint(placed_new, placed_end));
                    assert(self.placed_rooms@[0] == placed_new);
                    assert(self.placed_rooms@[1] == placed_end);
                }
                return Ok(());
            }
        }
        Err(GenerationError::PlacementFailed)
    }

    /// All cells of the rectangle `[x0, x0+w) x [y0, y0+h)` are still
    /// unassigned.
    fn rect_all_empty(&self, x0: usize, y0: usize, w: usize, h: usize) -> (r: bool)
        requires
            self.grid.wf(),
            x0 + w <= self.grid.spec_width(),
            y0 + h <= self.grid.spec_height(),
        ensures
            r <==> (forall|i: int, j: int|
                x0 <= i < x0 + w && y0 <= j < y0 + h ==> self.grid.at(i, j) == RoomType::Empty),
    {
        let mut row: usize = 0;
        while row < h
            invariant
                self.grid.wf(),
                x0 + w <= self.grid.spec_width(),
                y0 + h <= self.grid.spec_height(),
                row <= h,
                forall|i: int, j: int|
                    x0 <= i < x0 + w && y0 <= j < y0 + row ==> self.grid.at(i, j)
                        == RoomType::Empty,
            decreases h - row,
        {
            let mut col: usize = 0;
            while col < w
                invariant
                    self.grid.wf(),
                    x0 + w <= self.grid.spec_width(),
                    y0 + h <= self.grid.spec_height(),
                    row < h,
                    col <= w,
                    forall|i: int, j: int|
                        x0 <= i < x0 + w && y0 <= j < y0 + row ==> self.grid.at(i, j)
                            == RoomType::Empty,
                    forall|i: int|
                        x0 <= i < x0 + col ==> #[trigger] self.grid.at(i, y0 + row)
                            == RoomType::Empty,
                decreases w - col,
            {
                if self.grid.read(x0 + col, y0 + row) != RoomType::Empty {
                    return false;
                }
                col = col + 1;
            }
            row = row + 1;
        }
        true
    }

    /// Stamp `room`'s interior at `(x, y)`: interior cells get the
    /// room's category and a fresh region id, the four sides get a wall
    /// margin, and the placed rectangle (interior plus margin) is
    /// recorded. The caller has checked that the rectangle plus `buffer`
    /// lies entirely over unassigned cells.
    fn place_room_at(&mut self, room: Room, x: usize, y: usize, buffer: usize)
        requires
            old(self).wf(),
            old(self).regions_zero_on_empty(),
            old(self).regions_in_range(),
            room.room_type != RoomType::Empty,
            old(self).regions_count < u32::MAX,
            1 <= buffer <= x,
            buffer <= y,
            x + room.width + buffer <= old(self).grid.spec_width(),
            y + room.height + buffer <= old(self).grid.spec_height(),
            forall|i: int, j: int|
                x - buffer <= i < x + room.width + buffer && y - buffer <= j < y + room.height
                    + buffer ==> old(self).grid.at(i, j) == RoomType::Empty,
    ensures
            final(self).wf(),
            final(self).regions_zero_on_empty(),
            final(self).regions_in_range(),
            cells_only_assigned(old(self).grid, final(self).grid),
            regions_only_assigned(old(self).regions, final(self).regions),
            final(self).rooms == old(self).rooms,
            final(self).placed_rooms@.len() == old(self).placed_rooms@.len() + 1,
            old(self).placed_rooms@.is_prefix_of(final(self).placed_rooms@),
            final(self).placed_rooms@.last() == (Room {
                height: (room.height + 2) as usize,
                width: (room.width + 2) as usize,
                x: (x - 1) as usize,
                y: (y - 1) as usize,
                room_type: room.room_type,
            }),
            final(self).start_x == old(self).start_x,
            final(self).start_y == old(self).start_y,
            final(self).end_x == old(self).end_x,
            final(self).end_y == old(self).end_y,
            final(self).raycast_grid == old(self).raycast_grid,
            final(self).regions_count == old(self).regions_count + 1,
            forall|i: int, j: int|
                x <= i < x + room.width && y <= j < y + room.height ==> final(self).grid.at(i, j)
                    == room.room_type && final(self).regions.at(i, j) == final(self).regions_count,
            forall|j: int|
                y <= j < y + room.height ==> #[trigger] final(self).grid.at(x - 1, j)
                    == RoomType::Wall && final(self).grid.at(x + room.width, j) == RoomType::Wall,
            forall|i: int|
                x <= i < x + room.width ==> #[trigger] final(self).grid.at(i, y - 1)
                    == RoomType::Wall && final(self).grid.at(i, y + room.height) == RoomType::Wall,
            forall|i: int, j: int|
                old(self).grid.in_bounds(i, j) && !(x - 1 <= i < x + room.width + 1 && y - 1 <= j
                    < y + room.height + 1) ==> final(self).grid.at(i, j) == old(self).grid.at(
                    i,
                    j,
                ),
            forall|i: int, j: int|
                old(self).regions.in_bounds(i, j) && !(x <= i < x + room.width && y <= j < y
                    + room.height) ==> final(self).regions.at(i, j) == old(self).regions.at(i, j),
    {
        self.regions_count = self.regions_count + 1;
        let region_id = self.regions_count;
        let rw = room.width;
        let rh = room.height;
        self.grid.fill_rect(x, y, rw, rh, room.room_type);
        self.regions.fill_rect(x, y, rw, rh, region_id);
        self.grid.fill_rect(x - 1, y, 1, rh, RoomType::Wall);
        self.grid.fill_rect(x + rw, y, 1, rh, RoomType::Wall);
        self.grid.fill_rect(x, y - 1, rw, 1, RoomType::Wall);
        self.grid.fill_rect(x, y + rh, rw, 1, RoomType::Wall);
        let placed_room = Room {
            height: rh + 2,
            width: rw + 2,
            x: x - 1,
            y: y - 1,
            room_type: room.room_type,
        };
        self.placed_rooms.push(placed_room);
        let snap = self.grid.duplicate();
        self.painter.add_step(snap);
        proof {
            let pre = *old(self);
            let post = *self;
            assert forall|i: int, j: int|
                pre.grid.in_bounds(i, j) && post.grid.at(i, j) != pre.grid.at(i, j) implies pre.grid.at(
                i,
                j,
            ) == RoomType::Empty && post.grid.at(i, j) != RoomType::Empty by {
                if x <= i < x + rw && y <= j < y + rh {
                    assert(post.grid.at(i, j) == room.room_type);
                } else if i == x - 1 && y <= j < y + rh {
                    assert(post.grid.at(i, j) == RoomType::Wall);
                } else if i == x + rw && y <= j < y + rh {
                    assert(post.grid.at(i, j) == RoomType::Wall);
                } else if x <= i < x + rw && j == y - 1 {
                    assert(post.grid.at(i, j) == RoomType::Wall);
                } else if x <= i < x + rw && j == y + rh {
                    assert(post.grid.at(i, j) == RoomType::Wall);
                } else {
                    assert(post.grid.at(i, j) == pre.grid.at(i, j));
                }
            }
            assert(cells_only_assigned(pre.grid, post.grid));
            assert forall|i: int, j: int|
                pre.regions.in_bounds(i, j) && post.regions.at(i, j) != pre.regions.at(
                    i,
                    j,
                ) implies pre.regions.at(i, j) == 0 && post.regions.at(i, j) != 0 by {
                assert(x <= i < x + rw && y <= j < y + rh);
                assert(pre.grid.at(i, j) == RoomType::Empty);
                assert(pre.grid.in_bounds(i, j));
                assert(post.regions.at(i, j) == region_id);
            }
            assert(regions_only_assigned(pre.regions, post.regions));
            assert forall|i: int, j: int|
                post.grid.in_bounds(i, j) && post.grid.at(i, j) == RoomType::Empty implies post.regions.at(
                i,
                j,
            ) == 0 by {
                assert(pre.grid.in_bounds(i, j));
                assert(post.grid.at(i, j) == pre.grid.at(i, j));
                assert(pre.regions.at(i, j) == 0);
                assert(!(x <= i < x + rw && y <= j < y + rh));
            }
            assert(post.regions_zero_on_empty());
            assert forall|i: int, j: int| placed_room.interior_contains(i, j) implies post.grid.at(
                i,
                j,
            ) != RoomType::Empty by {
                assert(x <= i < x + rw && y <= j < y + rh);
                assert(post.grid.at(i, j) == room.room_type);
            }
            assert(post.placed_room_ok(placed_room));
            assert forall|k: int| 0 <= k < pre.placed_rooms@.len() implies post.placed_room_ok(
                #[trigger] post.placed_rooms@[k],
            ) by {
                let r = pre.placed_rooms@[k];
                assert(pre.placed_room_ok(r));
                assert(post.placed_rooms@[k] == r);
                assert forall|i: int, j: int| r.interior_contains(i, j) implies post.grid.at(i, j)
                    != RoomType::Empty by {
                    assert(pre.grid.in_bounds(i, j));
                    assert(pre.grid.at(i, j) != RoomType::Empty);
                }
            }
            assert forall|k: int| 0 <= k < pre.placed_rooms@.len() implies interiors_disjoint(
                #[trigger] post.placed_rooms@[k],
                placed_room,
            ) by {
                let r = pre.placed_rooms@[k];
                assert(post.placed_rooms@[k] == r);
                assert forall|i: int, j: int|
                    !(r.interior_contains(i, j) && placed_room.interior_contains(i, j)) by {
                    if r.interior_contains(i, j) && placed_room.interior_contains(i, j) {
                        assert(pre.grid.at(i, j) != RoomType::Empty);
                        assert(x <= i < x + rw && y <= j < y + rh);
                        assert(pre.grid.at(i, j) == RoomType::Empty);
                    }
                }
            }
            assert forall|k1: int, k2: int|
                0 <= k1 < k2 < post.placed_rooms@.len() implies interiors_disjoint(
                #[trigger] post.placed_rooms@[k1],
                #[trigger] post.placed_rooms@[k2],
            ) by {
                if k2 == pre.placed_rooms@.len() {
                } else {
                    assert(post.placed_rooms@[k1] == pre.placed_rooms@[k1]);
                    assert(post.placed_rooms@[k2] == pre.placed_rooms@[k2]);
                }
            }
        }
    }

    /// Place every queued room spec in turn, trying up to twenty random
    /// positions each, with a `buffer`-cell clearance requirement; a
    /// room that exhausts its attempts is skipped, so fewer rooms than
    /// requested is accepted rather than an error. Every room placed by
    /// this call got a fresh region id, its interior — previously all
    /// unassigned — holds its category inside the sampling band, and
    /// nothing outside the new placed rectangles changed; when every
    /// queued spec is oversized or categoryless, the floor is returned
    /// untouched.
    pub fn generate(&mut self, buffer: usize, rng: &mut RandomSource)
        requires
            old(self).wf(),
            old(self).regions_zero_on_empty(),
            old(self).regions_in_range(),
            1 <= buffer,
        ensures
            final(self).wf(),
            final(self).regions_zero_on_empty(),
            final(self).regions_in_range(),
            cells_only_assigned(old(self).grid, final(self).grid),
            regions_only_assigned(old(self).regions, final(self).regions),
            final(self).rooms == old(self).rooms,
            old(self).placed_rooms@.is_prefix_of(final(self).placed_rooms@),
            final(self).start_x == old(self).start_x,
            final(self).start_y == old(self).start_y,
            final(self).end_x == old(self).end_x,
            final(self).end_y == old(self).end_y,
            final(self).raycast_grid == old(self).raycast_grid,
            final(self).regions_count >= old(self).regions_count,
            final(self).placed_rooms@.len() <= old(self).placed_rooms@.len()
                + old(self).rooms@.len(),
            (forall|t: int|
                0 <= t < old(self).rooms@.len() ==> (#[trigger] old(self).rooms@[t]).room_type
                    == RoomType::Empty || !spec_room_fits(
                    old(self).rooms@[t],
                    buffer as int,
                    old(self).grid.spec_width() as int,
                    old(self).grid.spec_height() as int,
                )) ==> *final(self) == *old(self),
            forall|k: int|
                old(self).placed_rooms@.len() <= k < final(self).placed_rooms@.len() ==> (
                #[trigger] final(self).placed_rooms@[k]).room_type != RoomType::Empty,
            forall|k: int|
                old(self).placed_rooms@.len() <= k < final(self).placed_rooms@.len()
                    ==> placed_in_band(
                    #[trigger] final(self).placed_rooms@[k],
                    buffer as int,
                    old(self).grid.spec_width() as int,
                    old(self).grid.spec_height() as int,
                ),
            forall|k: int, i: int, j: int|
                old(self).placed_rooms@.len() <= k < final(self).placed_rooms@.len()
                    && #[trigger] final(self).placed_rooms@[k].interior_contains(i, j) ==> final(self).grid.at(i, j) == final(self).placed_rooms@[k].room_type && old(self).grid.at(
                    i,
                    j,
                ) == RoomType::Empty,
            forall|i: int, j: int|
                old(self).grid.in_bounds(i, j) && final(self).grid.at(i, j) != old(self).grid.at(
                    i,
                    j,
                ) ==> exists|k: int|
                    old(self).placed_rooms@.len() <= k < final(self).placed_rooms@.len() && (
                    #[trigger] final(self).placed_rooms@[k]).rect_contains(i, j),
            forall|i: int, j: int|
                old(self).regions.in_bounds(i, j) && final(self).regions.at(i, j) != old(self).regions.at(i, j) ==> exists|k: int|
                    old(self).placed_rooms@.len() <= k < final(self).placed_rooms@.len() && (
                    #[trigger] final(self).placed_rooms@[k]).interior_contains(i, j),
    {
        let n_rooms = self.rooms.len();
        let mut r_idx: usize = 0;
        while r_idx < n_rooms
            invariant
                old(self).wf(),
                self.wf(),
                self.regions_zero_on_empty(),
                self.regions_in_range(),
                1 <= buffer,
                n_rooms == self.rooms@.len(),
                r_idx <= n_rooms,
                cells_only_assigned(old(self).grid, self.grid),
                regions_only_assigned(old(self).regions, self.regions),
                self.rooms == old(self).rooms,
                old(self).placed_rooms@.is_prefix_of(self.placed_rooms@),
                self.start_x == old(self).start_x,
                self.start_y == old(self).start_y,
                self.end_x == old(self).end_x,
                self.end_y == old(self).end_y,
                self.raycast_grid == old(self).raycast_grid,
                self.regions_count >= old(self).regions_count,
                self.placed_rooms@.len() <= old(self).placed_rooms@.len() + r_idx,
                (forall|t: int|
                    0 <= t < old(self).rooms@.len() ==> (#[trigger] old(self).rooms@[t]).room_type
                        == RoomType::Empty || !spec_room_fits(
                        old(self).rooms@[t],
                        buffer as int,
                        old(self).grid.spec_width() as int,
                        old(self).grid.spec_height() as int,
                    )) ==> *self == *old(self),
                forall|k: int|
                    old(self).placed_rooms@.len() <= k < self.placed_rooms@.len() ==> (
                    #[trigger] self.placed_rooms@[k]).room_type != RoomType::Empty,
                forall|k: int|
                    old(self).placed_rooms@.len() <= k < self.placed_rooms@.len()
                        ==> placed_in_band(
                        #[trigger] self.placed_rooms@[k],
                        buffer as int,
                        old(self).grid.spec_width() as int,
                        old(self).grid.spec_height() as int,
                    ),
                forall|k: int, i: int, j: int|
                    old(self).placed_rooms@.len() <= k < self.placed_rooms@.len()
                        && #[trigger] self.placed_rooms@[k].interior_contains(i, j)
                        ==> self.grid.at(i, j) == self.placed_rooms@[k].room_type && old(self).grid.at(i, j) == RoomType::Empty,
                forall|i: int, j: int|
                    old(self).grid.in_bounds(i, j) && self.grid.at(i, j) != old(self).grid.at(i, j)
                        ==> exists|k: int|
                        old(self).placed_rooms@.len() <= k < self.placed_rooms@.len() && (
                        #[trigger] self.placed_rooms@[k]).rect_contains(i, j),
                forall|i: int, j: int|
                    old(self).regions.in_bounds(i, j) && self.regions.at(i, j) != old(self).regions.at(i, j) ==> exists|k: int|
                        old(self).placed_rooms@.len() <= k < self.placed_rooms@.len() && (
                        #[trigger] self.placed_rooms@[k]).interior_contains(i, j),
            decreases n_rooms - r_idx,
        {
            let room = self.rooms[r_idx];
            if room.room_type != RoomType::Empty {
                let w_total = self.grid.width();
                let h_total = self.grid.height();
                let fits_w = buffer < w_total && buffer < w_total - buffer && room.width < w_total
                    - buffer - buffer;
                let fits_h = buffer < h_total && buffer < h_total - buffer && room.height < h_total
                    - buffer - buffer;
                if fits_w && fits_h {
                    let gen_w = w_total - room.width - buffer;
                    let gen_h = h_total - room.height - buffer;
                    let mut valid_placement = false;
                    let mut trys: usize = 0;
                    while !valid_placement && trys < 20
                        invariant
                            old(self).wf(),
                            self.wf(),
                            self.regions_zero_on_empty(),
                            self.regions_in_range(),
                            1 <= buffer,
                            room.room_type != RoomType::Empty,
                            r_idx < old(self).rooms@.len(),
                            room == old(self).rooms@[r_idx as int],
                            spec_room_fits(
                                room,
                                buffer as int,
                                old(self).grid.spec_width() as int,
                                old(self).grid.spec_height() as int,
                            ),
                            trys <= 20,
                            w_total == self.grid.spec_width(),
                            h_total == self.grid.spec_height(),
                            w_total == old(self).grid.spec_width(),
                            h_total == old(self).grid.spec_height(),
                            buffer < gen_w,
                            buffer < gen_h,
                            gen_w == w_total - room.width - buffer,
                            gen_h == h_total - room.height - buffer,
                            cells_only_assigned(old(self).grid, self.grid),
                            regions_only_assigned(old(self).regions, self.regions),
                            self.rooms == old(self).rooms,
                            old(self).placed_rooms@.is_prefix_of(self.placed_rooms@),
                            self.start_x == old(self).start_x,
                            self.start_y == old(self).start_y,
                            self.end_x == old(self).end_x,
                            self.end_y == old(self).end_y,
                            self.raycast_grid == old(self).raycast_grid,
                            self.regions_count >= old(self).regions_count,
                            self.placed_rooms@.len() <= old(self).placed_rooms@.len() + r_idx + (
                            if valid_placement {
                                1int
                            } else {
                                0int
                            }),
                            forall|k: int|
                                old(self).placed_rooms@.len() <= k < self.placed_rooms@.len() ==> (
                                #[trigger] self.placed_rooms@[k]).room_type != RoomType::Empty,
                            forall|k: int|
                                old(self).placed_rooms@.len() <= k < self.placed_rooms@.len()
                                    ==> placed_in_band(
                                    #[trigger] self.placed_rooms@[k],
                                    buffer as int,
                                    old(self).grid.spec_width() as int,
                                    old(self).grid.spec_height() as int,
                                ),
                            forall|k: int, i: int, j: int|
                                old(self).placed_rooms@.len() <= k < self.placed_rooms@.len()
                                    && #[trigger] self.placed_rooms@[k].interior_contains(i, j)
                                    ==> self.grid.at(i, j) == self.placed_rooms@[k].room_type
                                    && old(self).grid.at(i, j) == RoomType::Empty,
                            forall|i: int, j: int|
                                old(self).grid.in_bounds(i, j) && self.grid.at(i, j) != old(self).grid.at(i, j) ==> exists|k: int|
                                    old(self).placed_rooms@.len() <= k < self.placed_rooms@.len()
                                        && (#[trigger] self.placed_rooms@[k]).rect_contains(i, j),
                            forall|i: int, j: int|
                                old(self).regions.in_bounds(i, j) && self.regions.at(i, j) != old(self).regions.at(i, j) ==> exists|k: int|
                                    old(self).placed_rooms@.len() <= k < self.placed_rooms@.len()
                                        && (#[trigger] self.placed_rooms@[k]).interior_contains(
                                        i,
                                        j,
                                    ),
                        decreases 20 - trys,
                    {
                        trys = trys + 1;
                        let x = rng.gen_range_usize(buffer, gen_w);
                        let y = rng.gen_range_usize(buffer, gen_h);
                        let free = self.rect_all_empty(
                            x - buffer,
                            y - buffer,
                            room.width + buffer + buffer,
                            room.height + buffer + buffer,
                        );
                        if free && self.regions_count < u32::MAX {
                            let ghost before = *self;
                            self.place_room_at(room, x, y, buffer);
                            valid_placement = true;
                            proof {
                                lemma_cells_only_assigned_trans(
                                    old(self).grid,
                                    before.grid,
                                    self.grid,
                                );
                                lemma_regions_only_assigned_trans(
                                    old(self).regions,
                                    before.regions,
                                    self.regions,
                                );
                                let oldlen = old(self).placed_rooms@.len() as int;
                                let newlen = self.placed_rooms@.len() as int;
                                let pr = self.placed_rooms@[newlen - 1];
                                assert forall|k: int|
                                    oldlen <= k < newlen - 1 implies #[trigger] self.placed_rooms@[k]
                                    == before.placed_rooms@[k] by {}
                                assert forall|k: int, i: int, j: int|
                                    oldlen <= k < newlen
                                        && #[trigger] self.placed_rooms@[k].interior_contains(
                                        i,
                                        j,
                                    ) implies self.grid.at(i, j) == self.placed_rooms@[k].room_type
                                    && old(self).grid.at(i, j) == RoomType::Empty by {
                                    if k < newlen - 1 {
                                        assert(self.placed_rooms@[k] == before.placed_rooms@[k]);
                                        assert(before.grid.at(i, j) == before.placed_rooms@[k].room_type);
                                        assert(before.grid.at(i, j) != RoomType::Empty);
                                        assert(before.grid.in_bounds(i, j));
                                        assert(self.grid.at(i, j) == before.grid.at(i, j));
                                    } else {
                                        assert(x <= i < x + room.width && y <= j < y + room.height);
                                        assert(self.grid.at(i, j) == room.room_type);
                                        assert(before.grid.at(i, j) == RoomType::Empty);
                                        assert(before.grid.in_bounds(i, j));
                                    }
                                }
                                assert(placed_in_band(
                                    pr,
                                    buffer as int,
                                    old(self).grid.spec_width() as int,
                                    old(self).grid.spec_height() as int,
                                ));
                                assert forall|i: int, j: int|
                                    old(self).grid.in_bounds(i, j) && self.grid.at(i, j) != old(self).grid.at(i, j) implies exists|k: int|
                                        oldlen <= k < newlen && (
                                        #[trigger] self.placed_rooms@[k]).rect_contains(i, j) by {
                                    if before.grid.at(i, j) != old(self).grid.at(i, j) {
                                        let k0 = choose|k: int|
                                            oldlen <= k < before.placed_rooms@.len() && (
                                            #[trigger] before.placed_rooms@[k]).rect_contains(
                                                i,
                                                j,
                                            );
                                        assert(self.placed_rooms@[k0] == before.placed_rooms@[k0]);
                                        assert((#[trigger] self.placed_rooms@[k0]).rect_contains(
                                            i,
                                            j,
                                        ));
                                    } else {
                                        assert(self.grid.at(i, j) != before.grid.at(i, j));
                                        assert(x - 1 <= i < x + room.width + 1 && y - 1 <= j < y
                                            + room.height + 1);
                                        assert((#[trigger] self.placed_rooms@[newlen
                                            - 1]).rect_contains(i, j));
                                    }
                                }
                                assert forall|i: int, j: int|
                                    old(self).regions.in_bounds(i, j) && self.regions.at(i, j)
                                        != old(self).regions.at(i, j) implies exists|k: int|
                                        oldlen <= k < newlen && (
                                        #[trigger] self.placed_rooms@[k]).interior_contains(
                                            i,
                                            j,
                                        ) by {
                                    if before.regions.at(i, j) != old(self).regions.at(i, j) {
                                        let k0 = choose|k: int|
                                            oldlen <= k < before.placed_rooms@.len() && (
                                            #[trigger] before.placed_rooms@[k]).interior_contains(
                                                i,
                                                j,
                                            );
                                        assert(self.placed_rooms@[k0] == before.placed_rooms@[k0]);
                                        assert((
                                        #[trigger] self.placed_rooms@[k0]).interior_contains(
                                            i,
                                            j,
                                        ));
                                    } else {
                                        assert(self.regions.at(i, j) != before.regions.at(i, j));
                                        assert(x <= i < x + room.width && y <= j < y
                                            + room.height);
                                        assert((#[trigger] self.placed_rooms@[newlen
                                            - 1]).interior_contains(i, j));
                                    }
                                }
                            }
                        }
                    }
                }
            }
            r_idx = r_idx + 1;
        }
    }
}

} // verus!
