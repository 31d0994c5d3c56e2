use vstd::prelude::*;

use crate::cell::RoomType;
use crate::dungeon::{lemma_placed_ok_after_nonempty_writes, Dungeon};
use crate::grid::{adjacent, Grid};
use crate::reach::{is_path, spec_connected};

verus! {

/// `(i, j)` counts as an exit of a neighboring cell: in bounds and not
/// a wall.
pub open spec fn grid_exit_at(g: Grid<RoomType>, i: int, j: int) -> bool {
    g.in_bounds(i, j) && g.at(i, j) != RoomType::Wall
}

/// How many of the four neighbors of `(x, y)` are exits.
pub open spec fn grid_exits(g: Grid<RoomType>, x: int, y: int) -> int {
    (if grid_exit_at(g, x + 1, y) {
        1int
    } else {
        0int
    }) + (if grid_exit_at(g, x - 1, y) {
        1int
    } else {
        0int
    }) + (if grid_exit_at(g, x, y + 1) {
        1int
    } else {
        0int
    }) + (if grid_exit_at(g, x, y - 1) {
        1int
    } else {
        0int
    })
}

/// One of the four doorway positions opened in a placed room's margin:
/// the side midpoints of the 3x3 block at its top-left corner.
pub open spec fn doorway_cell(r: crate::room::Room, i: int, j: int) -> bool {
    ||| (i == r.x + 1 && j == r.y)
    ||| (i == r.x && j == r.y + 1)
    ||| (i == r.x + 2 && j == r.y + 1)
    ||| (i == r.x + 1 && j == r.y + 2)
}

/// A route that never doubles straight back on itself.
pub open spec fn no_backtrack(p: Seq<(int, int)>) -> bool {
    forall|i: int| 1 <= i < p.len() - 1 ==> (#[trigger] p[i - 1]) != p[i + 1]
}

/// Any route can be straightened into one that never doubles back.
proof fn lemma_path_without_backtrack(
    g: Grid<RoomType>,
    p: Seq<(int, int)>,
    sx: int,
    sy: int,
    tx: int,
    ty: int,
)
    requires
        is_path(g, p, sx, sy, tx, ty),
    ensures
        exists|q: Seq<(int, int)>| is_path(g, q, sx, sy, tx, ty) && no_backtrack(q),
    decreases p.len(),
{
    if exists|i: int| 1 <= i < p.len() - 1 && (#[trigger] p[i - 1]) == p[i + 1] {
        let i = choose|i: int| 1 <= i < p.len() - 1 && (#[trigger] p[i - 1]) == p[i + 1];
        let q = p.subrange(0, i) + p.subrange(i + 2, p.len() as int);
        assert(q.len() == p.len() - 2);
        assert(q[0] == p[0]);
        assert forall|k: int| 0 <= k < q.len() implies q[k] == (if k < i {
            p[k]
        } else {
            p[k + 2]
        }) by {}
        assert(q[q.len() - 1] == p[p.len() - 1]);
        assert forall|k: int| 0 <= k < q.len() implies g.in_bounds((#[trigger] q[k]).0, q[k].1)
            && g.at(q[k].0, q[k].1).passable() by {
            if k < i {
                assert(q[k] == p[k]);
            } else {
                assert(q[k] == p[k + 2]);
            }
        }
        assert forall|k: int| 0 <= k < q.len() - 1 implies adjacent(
            (#[trigger] q[k]).0,
            q[k].1,
            q[k + 1].0,
            q[k + 1].1,
        ) by {
            if k + 1 < i {
                assert(q[k] == p[k]);
                assert(q[k + 1] == p[k + 1]);
                assert(adjacent(p[k].0, p[k].1, p[k + 1].0, p[k + 1].1));
            } else if k + 1 == i {
                assert(q[k] == p[k]);
                assert(q[k + 1] == p[i + 2]);
                assert(p[k] == p[i - 1]);
                assert(p[i - 1] == p[i + 1]);
                assert(adjacent(p[i + 1].0, p[i + 1].1, p[i + 2].0, p[i + 2].1));
            } else {
                assert(q[k] == p[k + 2]);
                assert(q[k + 1] == p[k + 3]);
                assert(adjacent(p[k + 2].0, p[k + 2].1, p[k + 3].0, p[k + 3].1));
            }
        }
        assert(is_path(g, q, sx, sy, tx, ty));
        lemma_path_without_backtrack(g, q, sx, sy, tx, ty);
    } else {
        assert(no_backtrack(p));
        assert(is_path(g, p, sx, sy, tx, ty) && no_backtrack(p));
    }
}

/// Turning one dead-end hall cell into a wall cannot separate two
/// other cells: a straightened route cannot pass through a cell with
/// at most one exit, so it survives the write untouched.
proof fn lemma_dead_end_removal_keeps_route(
    g0: Grid<RoomType>,
    g1: Grid<RoomType>,
    cx: int,
    cy: int,
    sx: int,
    sy: int,
    tx: int,
    ty: int,
)
    requires
        g0.wf(),
        g1.wf(),
        g1.same_dims(g0),
        g0.in_bounds(cx, cy),
        g0.at(cx, cy) == RoomType::Hall,
        grid_exits(g0, cx, cy) <= 1,
        g1.at(cx, cy) == RoomType::Wall,
        forall|i: int, j: int|
            g0.in_bounds(i, j) && !(i == cx && j == cy) ==> g1.at(i, j) == g0.at(i, j),
        spec_connected(g0, sx, sy, tx, ty),
        !(sx == cx && sy == cy),
        !(tx == cx && ty == cy),
    ensures
        spec_connected(g1, sx, sy, tx, ty),
{
    let p0 = choose|p: Seq<(int, int)>| is_path(g0, p, sx, sy, tx, ty);
    lemma_path_without_backtrack(g0, p0, sx, sy, tx, ty);
    let q = choose|q: Seq<(int, int)>| is_path(g0, q, sx, sy, tx, ty) && no_backtrack(q);
    assert forall|k: int| 0 <= k < q.len() implies (#[trigger] q[k]) != (cx, cy) by {
        if q[k] == (cx, cy) {
            assert(k != 0);
            assert(k != q.len() - 1);
            let before = q[k - 1];
            let after = q[k + 1];
            assert(adjacent(before.0, before.1, q[k].0, q[k].1));
            assert(adjacent(q[k].0, q[k].1, after.0, after.1));
            assert(before != after);
            assert(grid_exit_at(g0, before.0, before.1));
            assert(grid_exit_at(g0, after.0, after.1));
            assert(grid_exits(g0, cx, cy) >= 2);
        }
    }
    assert forall|k: int| 0 <= k < q.len() implies g1.in_bounds((#[trigger] q[k]).0, q[k].1)
        && g1.at(q[k].0, q[k].1).passable() by {
        assert(q[k] != (cx, cy));
        assert(!(q[k].0 == cx && q[k].1 == cy));
        assert(g1.at(q[k].0, q[k].1) == g0.at(q[k].0, q[k].1));
    }
    assert(is_path(g1, q, sx, sy, tx, ty));
}

impl Dungeon {
    /// `(i, j)` counts as an exit: in bounds and not a wall.
    pub open spec fn exit_at(self, i: int, j: int) -> bool {
        grid_exit_at(self.grid, i, j)
    }

    /// How many of the four neighbors of `(x, y)` are exits.
    pub open spec fn spec_exits(self, x: int, y: int) -> int {
        grid_exits(self.grid, x, y)
    }

    /// A dead end: a hall cell with at most one exit.
    pub open spec fn is_dead_end(self, x: int, y: int) -> bool {
        self.grid.at(x, y) == RoomType::Hall && self.spec_exits(x, y) <= 1
    }

    /// No dead end remains anywhere on the grid.
    pub open spec fn pruned(self) -> bool {
        forall|x: int, y: int| self.grid.in_bounds(x, y) ==> !self.is_dead_end(x, y)
    }

    fn count_exits(&self, x: usize, y: usize) -> (r: usize)
        requires
            self.grid.wf(),
            self.grid.in_bounds(x as int, y as int),
        ensures
            r == self.spec_exits(x as int, y as int),
    {
        let mut exits: usize = 0;
        if x + 1 < self.grid.width() {
            if self.grid.read(x + 1, y) != RoomType::Wall {
                exits = exits + 1;
            }
        }
        if x > 0 {
            if self.grid.read(x - 1, y) != RoomType::Wall {
                exits = exits + 1;
            }
        }
        if y + 1 < self.grid.height() {
            if self.grid.read(x, y + 1) != RoomType::Wall {
                exits = exits + 1;
            }
        }
        if y > 0 {
            if self.grid.read(x, y - 1) != RoomType::Wall {
                exits = exits + 1;
            }
        }
        exits
    }

    /// Sparse-mode dead-end pruning: repeatedly turn every hall cell
    /// with at most one non-wall neighbor into a wall, until a full
    /// pass changes nothing. The result has no dead end left, pruning
    /// an already-pruned grid changes nothing at all, and a connected
    /// pair of start and end anchors stays connected: a pruned cell
    /// never lies on a straightened route between them.
    pub fn remove_dead_ends(&mut self)
        requires
            old(self).wf(),
        ensures
            final(self).wf(),
            final(self).grid.same_dims(old(self).grid),
            final(self).pruned(),
            old(self).pruned() ==> final(self).grid == old(self).grid,
            old(self).anchors_placed() && spec_connected(
                old(self).grid,
                old(self).start_x as int,
                old(self).start_y as int,
                old(self).end_x as int,
                old(self).end_y as int,
            ) ==> spec_connected(
                final(self).grid,
                old(self).start_x as int,
                old(self).start_y as int,
                old(self).end_x as int,
                old(self).end_y as int,
            ),
            forall|i: int, j: int|
                old(self).grid.in_bounds(i, j) && final(self).grid.at(i, j) != old(self).grid.at(
                    i,
                    j,
                ) ==> old(self).grid.at(i, j) == RoomType::Hall && final(self).grid.at(i, j)
                    == RoomType::Wall,
            final(self).regions == old(self).regions,
            final(self).rooms == old(self).rooms,
            final(self).placed_rooms == old(self).placed_rooms,
            final(self).raycast_grid == old(self).raycast_grid,
            final(self).regions_count == old(self).regions_count,
            final(self).start_x == old(self).start_x,
            final(self).start_y == old(self).start_y,
            final(self).end_x == old(self).end_x,
            final(self).end_y == old(self).end_y,
            final(self).painter == old(self).painter,
    {
        let w = self.grid.width();
        let h = self.grid.height();
        let mut done = false;
        while !done
            invariant
                old(self).wf(),
                self.wf(),
                self.grid.same_dims(old(self).grid),
                w == self.grid.spec_width(),
                h == self.grid.spec_height(),
                forall|i: int, j: int|
                    old(self).grid.in_bounds(i, j) && self.grid.at(i, j) != old(self).grid.at(i, j)
                        ==> old(self).grid.at(i, j) == RoomType::Hall && self.grid.at(i, j)
                        == RoomType::Wall,
                done ==> self.pruned(),
                old(self).pruned() ==> self.grid == old(self).grid,
                old(self).anchors_placed() && spec_connected(
                    old(self).grid,
                    old(self).start_x as int,
                    old(self).start_y as int,
                    old(self).end_x as int,
                    old(self).end_y as int,
                ) ==> spec_connected(
                    self.grid,
                    old(self).start_x as int,
                    old(self).start_y as int,
                    old(self).end_x as int,
                    old(self).end_y as int,
                ),
                self.regions == old(self).regions,
                self.rooms == old(self).rooms,
                self.placed_rooms == old(self).placed_rooms,
                self.raycast_grid == old(self).raycast_grid,
                self.regions_count == old(self).regions_count,
                self.start_x == old(self).start_x,
                self.start_y == old(self).start_y,
                self.end_x == old(self).end_x,
                self.end_y == old(self).end_y,
                self.painter == old(self).painter,
            decreases (if done {
                0int
            } else {
                1int
            }), self.grid.count_matching(RoomType::Hall),
        {
            done = true;
            let ghost pass0 = *self;
            let mut y: usize = 0;
            while y < h
                invariant
                    old(self).wf(),
                    self.wf(),
                    self.grid.same_dims(old(self).grid),
                    w == self.grid.spec_width(),
                    h == self.grid.spec_height(),
                    y <= h,
                    pass0.grid.same_dims(self.grid),
                    pass0.wf(),
                    forall|i: int, j: int|
                        old(self).grid.in_bounds(i, j) && self.grid.at(i, j) != old(
                            self,
                        ).grid.at(i, j) ==> old(self).grid.at(i, j) == RoomType::Hall
                            && self.grid.at(i, j) == RoomType::Wall,
                    forall|i: int, j: int|
                        pass0.grid.in_bounds(i, j) && self.grid.at(i, j) != pass0.grid.at(i, j)
                            ==> pass0.grid.at(i, j) == RoomType::Hall && self.grid.at(i, j)
                            == RoomType::Wall,
                    done ==> self.grid == pass0.grid,
                    done ==> forall|i: int, j: int|
                        self.grid.in_bounds(i, j) && j < y ==> !self.is_dead_end(i, j),
                    self.grid.count_matching(RoomType::Hall) <= pass0.grid.count_matching(
                        RoomType::Hall,
                    ),
                    !done ==> self.grid.count_matching(RoomType::Hall) < pass0.grid.count_matching(
                        RoomType::Hall,
                    ),
                    old(self).pruned() ==> self.grid == old(self).grid,
                    old(self).anchors_placed() && spec_connected(
                        old(self).grid,
                        old(self).start_x as int,
                        old(self).start_y as int,
                        old(self).end_x as int,
                        old(self).end_y as int,
                    ) ==> spec_connected(
                        self.grid,
                        old(self).start_x as int,
                        old(self).start_y as int,
                        old(self).end_x as int,
                        old(self).end_y as int,
                    ),
                    self.regions == old(self).regions,
                    self.rooms == old(self).rooms,
                    self.placed_rooms == old(self).placed_rooms,
                    self.raycast_grid == old(self).raycast_grid,
                    self.regions_count == old(self).regions_count,
                    self.start_x == old(self).start_x,
                    self.start_y == old(self).start_y,
                    self.end_x == old(self).end_x,
                    self.end_y == old(self).end_y,
                    self.painter == old(self).painter,
                decreases h - y,
            {
                let mut x: usize = 0;
                while x < w
                    invariant
                        old(self).wf(),
                        self.wf(),
                        self.grid.same_dims(old(self).grid),
                        w == self.grid.spec_width(),
                        h == self.grid.spec_height(),
                        y < h,
                        x <= w,
                        pass0.grid.same_dims(self.grid),
                        pass0.wf(),
                        forall|i: int, j: int|
                            old(self).grid.in_bounds(i, j) && self.grid.at(i, j) != old(
                                self,
                            ).grid.at(i, j) ==> old(self).grid.at(i, j) == RoomType::Hall
                                && self.grid.at(i, j) == RoomType::Wall,
                        forall|i: int, j: int|
                            pass0.grid.in_bounds(i, j) && self.grid.at(i, j) != pass0.grid.at(i, j)
                                ==> pass0.grid.at(i, j) == RoomType::Hall && self.grid.at(i, j)
                                == RoomType::Wall,
                        done ==> self.grid == pass0.grid,
                        done ==> forall|i: int, j: int|
                            self.grid.in_bounds(i, j) && j < y ==> !self.is_dead_end(i, j),
                        done ==> forall|i: int|
                            0 <= i < x ==> !self.is_dead_end(i, y as int),
                        self.grid.count_matching(RoomType::Hall) <= pass0.grid.count_matching(
                            RoomType::Hall,
                        ),
                        !done ==> self.grid.count_matching(RoomType::Hall)
                            < pass0.grid.count_matching(RoomType::Hall),
                        old(self).pruned() ==> self.grid == old(self).grid,
                        old(self).anchors_placed() && spec_connected(
                            old(self).grid,
                            old(self).start_x as int,
                            old(self).start_y as int,
                            old(self).end_x as int,
                            old(self).end_y as int,
                        ) ==> spec_connected(
                            self.grid,
                            old(self).start_x as int,
                            old(self).start_y as int,
                            old(self).end_x as int,
                            old(self).end_y as int,
                        ),
                        self.regions == old(self).regions,
                        self.rooms == old(self).rooms,
                        self.placed_rooms == old(self).placed_rooms,
                        self.raycast_grid == old(self).raycast_grid,
                        self.regions_count == old(self).regions_count,
                        self.start_x == old(self).start_x,
                        self.start_y == old(self).start_y,
                        self.end_x == old(self).end_x,
                        self.end_y == old(self).end_y,
                        self.painter == old(self).painter,
                    decreases w - x,
                {
                    if self.grid.read(x, y) == RoomType::Hall {
                        let exits = self.count_exits(x, y);
                        if exits <= 1 {
                            proof {
                                assert(self.is_dead_end(x as int, y as int));
                                if old(self).pruned() {
                                    assert(!old(self).is_dead_end(x as int, y as int));
                                    assert(false);
                                }
                            }
                            let ghost pre = *self;
                            done = false;
                            self.grid.write(x, y, RoomType::Wall);
                            proof {
                                pre.grid.lemma_count_after_write(
                                    self.grid,
                                    x as int,
                                    y as int,
                                    RoomType::Wall,
                                    RoomType::Hall,
                                );
                                lemma_placed_ok_after_nonempty_writes(pre, *self);
                                if old(self).anchors_placed() && spec_connected(
                                    old(self).grid,
                                    old(self).start_x as int,
                                    old(self).start_y as int,
                                    old(self).end_x as int,
                                    old(self).end_y as int,
                                ) {
                                    assert(pre.grid.at(
                                        old(self).start_x as int,
                                        old(self).start_y as int,
                                    ) == RoomType::Start);
                                    assert(pre.grid.at(
                                        old(self).end_x as int,
                                        old(self).end_y as int,
                                    ) == RoomType::End);
                                    lemma_dead_end_removal_keeps_route(
                                        pre.grid,
                                        self.grid,
                                        x as int,
                                        y as int,
                                        old(self).start_x as int,
                                        old(self).start_y as int,
                                        old(self).end_x as int,
                                        old(self).end_y as int,
                                    );
                                }
                            }
                        }
                    }
                    x = x + 1;
                }
                y = y + 1;
            }
        }
    }

    /// Open the four margin cells around each of the start and end
    /// rooms as halls, so both anchors have doorways on every side.
    pub fn add_start_and_end_halls(&mut self)
        requires
            old(self).wf(),
            old(self).placed_rooms@.len() >= 2,
            old(self).placed_rooms@[0].width >= 3,
            old(self).placed_rooms@[0].height >= 3,
            old(self).placed_rooms@[1].width >= 3,
            old(self).placed_rooms@[1].height >= 3,
        ensures
            final(self).wf(),
            final(self).grid.same_dims(old(self).grid),
            forall|i: int, j: int|
                old(self).grid.in_bounds(i, j) && !doorway_cell(old(self).placed_rooms@[0], i, j)
                    && !doorway_cell(old(self).placed_rooms@[1], i, j) ==> final(self).grid.at(
                    i,
                    j,
                ) == old(self).grid.at(i, j),
            forall|i: int, j: int|
                doorway_cell(old(self).placed_rooms@[0], i, j) || doorway_cell(
                    old(self).placed_rooms@[1],
                    i,
                    j,
                ) ==> final(self).grid.at(i, j) == RoomType::Hall,
            final(self).regions == old(self).regions,
            final(self).rooms == old(self).rooms,
            final(self).placed_rooms == old(self).placed_rooms,
            final(self).raycast_grid == old(self).raycast_grid,
            final(self).regions_count == old(self).regions_count,
            final(self).start_x == old(self).start_x,
            final(self).start_y == old(self).start_y,
            final(self).end_x == old(self).end_x,
            final(self).end_y == old(self).end_y,
    {
        let start_room = self.placed_rooms[0];
        let end_room = self.placed_rooms[1];
        self.grid.write(start_room.x + 1, start_room.y, RoomType::Hall);
        self.grid.write(start_room.x, start_room.y + 1, RoomType::Hall);
        self.grid.write(start_room.x + 2, start_room.y + 1, RoomType::Hall);
        self.grid.write(start_room.x + 1, start_room.y + 2, RoomType::Hall);
        self.grid.write(end_room.x + 1, end_room.y, RoomType::Hall);
        self.grid.write(end_room.x, end_room.y + 1, RoomType::Hall);
        self.grid.write(end_room.x + 2, end_room.y + 1, RoomType::Hall);
        self.grid.write(end_room.x + 1, end_room.y + 2, RoomType::Hall);
        proof {
            lemma_placed_ok_after_nonempty_writes(*old(self), *self);
        }
    }
}

} // verus!
