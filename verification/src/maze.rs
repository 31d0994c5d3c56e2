use vstd::prelude::*;

use crate::cell::RoomType;
use crate::dungeon::{
    cells_only_assigned, lemma_cells_only_assigned_trans, lemma_regions_only_assigned_trans,
    regions_only_assigned, Dungeon,
};
use crate::grid::{adjacent, Grid};
use crate::rng::RandomSource;

verus! {

/// Horizontal offset of direction `k` (east, west, south, north).
pub open spec fn dir_dx(k: int) -> int {
    if k == 0 {
        1
    } else if k == 1 {
        -1
    } else {
        0
    }
}

/// Vertical offset of direction `k`.
pub open spec fn dir_dy(k: int) -> int {
    if k == 2 {
        1
    } else if k == 3 {
        -1
    } else {
        0
    }
}

/// `(i, j)` was carved between the two grid states: its category
/// changed.
pub open spec fn in_carved(pre: Grid<RoomType>, post: Grid<RoomType>, i: int, j: int) -> bool {
    pre.in_bounds(i, j) && post.at(i, j) != pre.at(i, j)
}

/// A route across carved cells only, consecutive cells 4-neighbors.
pub open spec fn is_carved_path(
    pre: Grid<RoomType>,
    post: Grid<RoomType>,
    p: Seq<(int, int)>,
    sx: int,
    sy: int,
    tx: int,
    ty: int,
) -> bool {
    &&& p.len() >= 1
    &&& p[0] == (sx, sy)
    &&& p[p.len() - 1] == (tx, ty)
    &&& forall|i: int| 0 <= i < p.len() ==> in_carved(pre, post, (#[trigger] p[i]).0, p[i].1)
    &&& forall|i: int|
        0 <= i < p.len() - 1 ==> adjacent((#[trigger] p[i]).0, p[i].1, p[i + 1].0, p[i + 1].1)
}

/// `(tx, ty)` is reachable from `(sx, sy)` through carved cells alone.
pub open spec fn carved_connected(
    pre: Grid<RoomType>,
    post: Grid<RoomType>,
    sx: int,
    sy: int,
    tx: int,
    ty: int,
) -> bool {
    exists|p: Seq<(int, int)>| is_carved_path(pre, post, p, sx, sy, tx, ty)
}

/// A write that leaves every carved cell alone keeps carved routes
/// intact.
proof fn lemma_carved_reach_after_write(
    pre: Grid<RoomType>,
    mid: Grid<RoomType>,
    post: Grid<RoomType>,
    sx: int,
    sy: int,
    tx: int,
    ty: int,
)
    requires
        carved_connected(pre, mid, sx, sy, tx, ty),
        forall|i: int, j: int| in_carved(pre, mid, i, j) ==> post.at(i, j) == mid.at(i, j),
    ensures
        carved_connected(pre, post, sx, sy, tx, ty),
{
    let p = choose|p: Seq<(int, int)>| is_carved_path(pre, mid, p, sx, sy, tx, ty);
    assert forall|i: int| 0 <= i < p.len() implies in_carved(
        pre,
        post,
        (#[trigger] p[i]).0,
        p[i].1,
    ) by {
        assert(in_carved(pre, mid, p[i].0, p[i].1));
        assert(post.at(p[i].0, p[i].1) == mid.at(p[i].0, p[i].1));
    }
    assert(is_carved_path(pre, post, p, sx, sy, tx, ty));
}

/// Append one freshly carved neighbor to a carved route.
proof fn lemma_carved_path_step(
    pre: Grid<RoomType>,
    post: Grid<RoomType>,
    sx: int,
    sy: int,
    cx: int,
    cy: int,
    a: int,
    b: int,
)
    requires
        carved_connected(pre, post, sx, sy, cx, cy),
        in_carved(pre, post, a, b),
        adjacent(a, b, cx, cy),
    ensures
        carved_connected(pre, post, sx, sy, a, b),
{
    let p = choose|p: Seq<(int, int)>| is_carved_path(pre, post, p, sx, sy, cx, cy);
    let q = p.push((a, b));
    assert(q[q.len() - 1] == (a, b));
    assert forall|i: int| 0 <= i < q.len() - 1 implies adjacent(
        (#[trigger] q[i]).0,
        q[i].1,
        q[i + 1].0,
        q[i + 1].1,
    ) by {
        if i < p.len() - 1 {
            assert(q[i] == p[i]);
            assert(q[i + 1] == p[i + 1]);
            assert(adjacent(p[i].0, p[i].1, p[i + 1].0, p[i + 1].1));
        } else {
            assert(q[i] == p[p.len() - 1]);
            assert(q[i + 1] == (a, b));
        }
    }
    assert forall|i: int| 0 <= i < q.len() implies in_carved(
        pre,
        post,
        (#[trigger] q[i]).0,
        q[i].1,
    ) by {
        if i < p.len() {
            assert(q[i] == p[i]);
            assert(in_carved(pre, post, p[i].0, p[i].1));
        }
    }
    assert(is_carved_path(pre, post, q, sx, sy, a, b));
}

impl Dungeon {
    /// A neighbor of `(i, j)` that the carver may step onto: in bounds
    /// and either still unassigned or a wall.
    pub open spec fn side_open(self, i: int, j: int) -> bool {
        self.grid.in_bounds(i, j) && (self.grid.at(i, j) == RoomType::Empty || self.grid.at(i, j)
            == RoomType::Wall)
    }

    /// How many of the four sides of `(x, y)` are open in that sense.
    pub open spec fn spec_valid_sides(self, x: int, y: int) -> int {
        (if self.side_open(x + 1, y) {
            1int
        } else {
            0int
        }) + (if self.side_open(x - 1, y) {
            1int
        } else {
            0int
        }) + (if self.side_open(x, y + 1) {
            1int
        } else {
            0int
        }) + (if self.side_open(x, y - 1) {
            1int
        } else {
            0int
        })
    }

    /// The carver may claim `(x, y)`: an unassigned in-bounds cell at
    /// least three of whose own four neighbors are unassigned-or-wall.
    /// The asymmetric test keeps corridors one cell wide and stops them
    /// from running parallel to existing structure.
    pub open spec fn spec_valid_hall(self, x: int, y: int) -> bool {
        &&& self.grid.in_bounds(x, y)
        &&& self.grid.at(x, y) == RoomType::Empty
        &&& self.spec_valid_sides(x, y) >= 3
    }

    /// The seed gate of a corridor walk: all four neighbors of the
    /// seed are claimable hall cells, so the walk cannot immediately
    /// merge with neighboring structure.
    pub open spec fn walk_can_start(self, x: int, y: int) -> bool {
        &&& self.spec_valid_hall(x + 1, y)
        &&& self.spec_valid_hall(x - 1, y)
        &&& self.spec_valid_hall(x, y + 1)
        &&& self.spec_valid_hall(x, y - 1)
    }

    /// Executable test for `spec_valid_hall`; the coordinate order
    /// matches the grid convention of row `y`, column `x`.
    pub fn is_valid_hall(&self, y: usize, x: usize) -> (r: bool)
        requires
            self.grid.wf(),
        ensures
            r == self.spec_valid_hall(x as int, y as int),
    {
        if y >= self.grid.height() || x >= self.grid.width() {
            return false;
        }
        if self.grid.read(x, y) != RoomType::Empty {
            return false;
        }
        let mut valid_sides: usize = 0;
        if x + 1 < self.grid.width() {
            let c = self.grid.read(x + 1, y);
            if c == RoomType::Empty || c == RoomType::Wall {
                valid_sides = valid_sides + 1;
            }
        }
        if x > 0 {
            let c = self.grid.read(x - 1, y);
            if c == RoomType::Empty || c == RoomType::Wall {
                valid_sides = valid_sides + 1;
            }
        }
        if y + 1 < self.grid.height() {
            let c = self.grid.read(x, y + 1);
            if c == RoomType::Empty || c == RoomType::Wall {
                valid_sides = valid_sides + 1;
            }
        }
        if y > 0 {
            let c = self.grid.read(x, y - 1);
            if c == RoomType::Empty || c == RoomType::Wall {
                valid_sides = valid_sides + 1;
            }
        }
        valid_sides >= 3
    }

    /// Step from `(x, y)` one cell in direction `k`, if that stays on
    /// the grid.
    pub(crate) fn step(&self, x: usize, y: usize, k: usize) -> (r: Option<(usize, usize)>)
        requires
            self.grid.wf(),
            self.grid.in_bounds(x as int, y as int),
            k < 4,
        ensures
            match r {
                Some(p) => {
                    &&& self.grid.in_bounds(p.0 as int, p.1 as int)
                    &&& p.0 as int == x + dir_dx(k as int)
                    &&& p.1 as int == y + dir_dy(k as int)
                },
                None => !self.grid.in_bounds(x + dir_dx(k as int), y + dir_dy(k as int)),
            },
    {
        if k == 0 {
            if x + 1 < self.grid.width() {
                Some((x + 1, y))
            } else {
                None
            }
        } else if k == 1 {
            if x > 0 {
                Some((x - 1, y))
            } else {
                None
            }
        } else if k == 2 {
            if y + 1 < self.grid.height() {
                Some((x, y + 1))
            } else {
                None
            }
        } else {
            if y > 0 {
                Some((x, y - 1))
            } else {
                None
            }
        }
    }

    /// The directions the walk may take from `cell`, as `(direction,
    /// target x, target y)` triples, plus the position of the previous
    /// direction in that list (or the list length when absent).
    fn valid_steps(&self, cell: (usize, usize), last_dir: usize) -> (r: (
        Vec<(usize, usize, usize)>,
        usize,
    ))
        requires
            self.grid.wf(),
            self.grid.in_bounds(cell.0 as int, cell.1 as int),
        ensures
            forall|t: int|
                0 <= t < r.0@.len() ==> self.spec_valid_hall(
                    #[trigger] r.0@[t].1 as int,
                    r.0@[t].2 as int,
                ),
            forall|t: int|
                0 <= t < r.0@.len() ==> adjacent(
                    #[trigger] r.0@[t].1 as int,
                    r.0@[t].2 as int,
                    cell.0 as int,
                    cell.1 as int,
                ),
            r.0@.len() <= 4,
            r.0@.len() == 4 <==> self.walk_can_start(cell.0 as int, cell.1 as int),
    {
        let mut entries: Vec<(usize, usize, usize)> = Vec::new();
        let mut last_entry: usize = 4;
        let mut k: usize = 0;
        while k < 4
            invariant
                self.grid.wf(),
                self.grid.in_bounds(cell.0 as int, cell.1 as int),
                k <= 4,
                entries@.len() <= k,
                forall|t: int|
                    0 <= t < entries@.len() ==> self.spec_valid_hall(
                        #[trigger] entries@[t].1 as int,
                        entries@[t].2 as int,
                    ),
                forall|t: int|
                    0 <= t < entries@.len() ==> adjacent(
                        #[trigger] entries@[t].1 as int,
                        entries@[t].2 as int,
                        cell.0 as int,
                        cell.1 as int,
                    ),
                (entries@.len() == k) <==> (forall|kk: int|
                    0 <= kk < k ==> self.spec_valid_hall(
                        cell.0 + dir_dx(kk),
                        cell.1 + #[trigger] dir_dy(kk),
                    )),
            decreases 4 - k,
        {
            match self.step(cell.0, cell.1, k) {
                Some(p) => {
                    proof {
                        assert(adjacent(p.0 as int, p.1 as int, cell.0 as int, cell.1 as int)) by {
                            if k == 0 {
                            } else if k == 1 {
                            } else if k == 2 {
                            } else {
                                assert(k == 3);
                            }
                        }
                    }
                    if self.is_valid_hall(p.1, p.0) {
                        if k == last_dir {
                            last_entry = entries.len();
                        }
                        entries.push((k, p.0, p.1));
                    }
                },
                None => {},
            }
            k = k + 1;
        }
        proof {
            assert(dir_dx(0) == 1 && dir_dy(0) == 0);
            assert(dir_dx(1) == -1 && dir_dy(1) == 0);
            assert(dir_dx(2) == 0 && dir_dy(2) == 1);
            assert(dir_dx(3) == 0 && dir_dy(3) == -1);
            if self.walk_can_start(cell.0 as int, cell.1 as int) {
                assert forall|kk: int| 0 <= kk < 4 implies self.spec_valid_hall(
                    cell.0 + dir_dx(kk),
                    cell.1 + #[trigger] dir_dy(kk),
                ) by {
                    if kk == 0 {
                    } else if kk == 1 {
                    } else if kk == 2 {
                    } else {
                        assert(kk == 3);
                    }
                }
            }
        }
        (entries, last_entry)
    }

    /// Claim one cell for the current walk: mark it `Hall` and stamp it
    /// with the walk's region id. Out-of-bounds positions are ignored.
    pub fn make_hall(&mut self, position: (usize, usize))
        requires
            old(self).wf(),
            old(self).regions_in_range(),
        ensures
            final(self).wf(),
            final(self).regions_in_range(),
            final(self).grid.same_dims(old(self).grid),
            final(self).rooms == old(self).rooms,
            final(self).placed_rooms == old(self).placed_rooms,
            final(self).raycast_grid == old(self).raycast_grid,
            final(self).regions_count == old(self).regions_count,
            final(self).start_x == old(self).start_x,
            final(self).start_y == old(self).start_y,
            final(self).end_x == old(self).end_x,
            final(self).end_y == old(self).end_y,
            old(self).grid.in_bounds(position.0 as int, position.1 as int) ==> {
                &&& final(self).grid.at(position.0 as int, position.1 as int) == RoomType::Hall
                &&& final(self).regions.at(position.0 as int, position.1 as int) == old(self).regions_count
                &&& forall|i: int, j: int|
                    old(self).grid.in_bounds(i, j) && !(i == position.0 && j == position.1)
                        ==> final(self).grid.at(i, j) == old(self).grid.at(i, j)
                &&& forall|i: int, j: int|
                    old(self).regions.in_bounds(i, j) && !(i == position.0 && j == position.1)
                        ==> final(self).regions.at(i, j) == old(self).regions.at(i, j)
            },
            !old(self).grid.in_bounds(position.0 as int, position.1 as int) ==> final(self).grid
                == old(self).grid && final(self).regions == old(self).regions,
    {
        let (x, y) = position;
        if y < self.grid.height() && x < self.grid.width() {
            self.grid.write(x, y, RoomType::Hall);
            let id = self.regions_count;
            self.regions.write(x, y, id);
            let snap = self.grid.duplicate();
            self.painter.add_step(snap);
            proof {
                let pre = *old(self);
                let post = *self;
                assert forall|k: int| 0 <= k < post.placed_rooms@.len() implies post.placed_room_ok(
                    #[trigger] post.placed_rooms@[k],
                ) by {
                    let r = post.placed_rooms@[k];
                    assert(pre.placed_room_ok(r));
                    assert forall|i: int, j: int| r.interior_contains(i, j) implies post.grid.at(
                        i,
                        j,
                    ) != RoomType::Empty by {
                        assert(pre.grid.in_bounds(i, j));
                        if i == x && j == y {
                        } else {
                            assert(post.grid.at(i, j) == pre.grid.at(i, j));
                        }
                    }
                }
            }
        }
    }

    /// Run one randomized corridor walk seeded at `start`: claim cells
    /// while a valid direction remains, preferring the previous
    /// direction half of the time, opportunistically carving a second
    /// cell per step, and backtracking when stuck. The walk starts
    /// exactly when all four directions are open (and a region id is
    /// still available); a started walk claims one fresh region id,
    /// carves the seed, and every cell it carves becomes `Hall`
    /// stamped with that id. A walk that cannot start leaves the floor
    /// untouched.
    pub fn make_halls(&mut self, start: (usize, usize), rng: &mut RandomSource)
        requires
            old(self).wf(),
            old(self).regions_zero_on_empty(),
            old(self).regions_in_range(),
            old(self).grid.in_bounds(start.0 as int, start.1 as int),
            old(self).grid.at(start.0 as int, start.1 as int) == RoomType::Empty,
        ensures
            final(self).wf(),
            final(self).regions_zero_on_empty(),
            final(self).regions_in_range(),
            cells_only_assigned(old(self).grid, final(self).grid),
            regions_only_assigned(old(self).regions, final(self).regions),
            final(self).rooms == old(self).rooms,
            final(self).placed_rooms == old(self).placed_rooms,
            final(self).raycast_grid == old(self).raycast_grid,
            final(self).start_x == old(self).start_x,
            final(self).start_y == old(self).start_y,
            final(self).end_x == old(self).end_x,
            final(self).end_y == old(self).end_y,
            final(self).regions_count >= old(self).regions_count,
            !old(self).walk_can_start(start.0 as int, start.1 as int) ==> *final(self) == *old(self),
            old(self).regions_count == u32::MAX ==> *final(self) == *old(self),
            old(self).walk_can_start(start.0 as int, start.1 as int) && old(self).regions_count
                < u32::MAX ==> {
                &&& final(self).regions_count == old(self).regions_count + 1
                &&& final(self).grid.at(start.0 as int, start.1 as int) == RoomType::Hall
                &&& final(self).regions.at(start.0 as int, start.1 as int) == final(self).regions_count
            },
            forall|i: int, j: int|
                old(self).grid.in_bounds(i, j) && final(self).grid.at(i, j) != old(self).grid.at(
                    i,
                    j,
                ) ==> final(self).grid.at(i, j) == RoomType::Hall && final(self).regions.at(i, j)
                    == final(self).regions_count,
            forall|i: int, j: int|
                old(self).regions.in_bounds(i, j) && final(self).regions.at(i, j) != old(self).regions.at(i, j) ==> final(self).grid.at(i, j) == RoomType::Hall && final(self).regions.at(i, j) == final(self).regions_count,
            forall|i: int, j: int|
                #![trigger in_carved(old(self).grid, final(self).grid, i, j)]
                in_carved(old(self).grid, final(self).grid, i, j) ==> carved_connected(
                    old(self).grid,
                    final(self).grid,
                    start.0 as int,
                    start.1 as int,
                    i,
                    j,
                ),
    {
        let (seed_entries, _seed_last) = self.valid_steps(start, 4);
        if seed_entries.len() < 4 {
            return ;
        }
        if self.regions_count == u32::MAX {
            return ;
        }
        self.regions_count = self.regions_count + 1;
        let mut cells: Vec<(usize, usize)> = Vec::new();
        cells.push(start);
        let ghost pre_seed = *self;
        self.make_hall(start);
        proof {
            assert(cells_only_assigned(pre_seed.grid, self.grid));
            assert(regions_only_assigned(pre_seed.regions, self.regions));
            assert(self.regions_zero_on_empty());
            let sx = start.0 as int;
            let sy = start.1 as int;
            let seed_path = seq![(sx, sy)];
            assert(in_carved(old(self).grid, self.grid, sx, sy));
            assert(is_carved_path(old(self).grid, self.grid, seed_path, sx, sy, sx, sy));
            assert forall|i2: int, j2: int|
                in_carved(old(self).grid, self.grid, i2, j2) implies carved_connected(
                old(self).grid,
                self.grid,
                sx,
                sy,
                i2,
                j2,
            ) by {
                assert(i2 == sx && j2 == sy);
            }
        }
        let mut last_dir: usize = 4;
        while cells.len() > 0
            invariant
                old(self).grid.in_bounds(start.0 as int, start.1 as int),
                old(self).walk_can_start(start.0 as int, start.1 as int),
                old(self).regions_count < u32::MAX,
                self.wf(),
                self.regions_zero_on_empty(),
                self.regions_in_range(),
                cells_only_assigned(old(self).grid, self.grid),
                regions_only_assigned(old(self).regions, self.regions),
                self.rooms == old(self).rooms,
                self.placed_rooms == old(self).placed_rooms,
                self.raycast_grid == old(self).raycast_grid,
                self.start_x == old(self).start_x,
                self.start_y == old(self).start_y,
                self.end_x == old(self).end_x,
                self.end_y == old(self).end_y,
                self.regions_count == old(self).regions_count + 1,
                self.grid.at(start.0 as int, start.1 as int) == RoomType::Hall,
                self.regions.at(start.0 as int, start.1 as int) == self.regions_count,
                forall|i: int, j: int|
                    old(self).grid.in_bounds(i, j) && self.grid.at(i, j) != old(self).grid.at(i, j)
                        ==> self.grid.at(i, j) == RoomType::Hall && self.regions.at(i, j)
                        == self.regions_count,
                forall|i: int, j: int|
                    old(self).regions.in_bounds(i, j) && self.regions.at(i, j) != old(self).regions.at(i, j) ==> self.grid.at(i, j) == RoomType::Hall && self.regions.at(
                        i,
                        j,
                    ) == self.regions_count,
                forall|t: int|
                    0 <= t < cells@.len() ==> self.grid.in_bounds(
                        #[trigger] cells@[t].0 as int,
                        cells@[t].1 as int,
                    ) && in_carved(old(self).grid, self.grid, cells@[t].0 as int, cells@[t].1 as int),
                forall|i2: int, j2: int|
                    #![trigger in_carved(old(self).grid, self.grid, i2, j2)]
                    in_carved(old(self).grid, self.grid, i2, j2) ==> carved_connected(
                        old(self).grid,
                        self.grid,
                        start.0 as int,
                        start.1 as int,
                        i2,
                        j2,
                    ),
            decreases self.grid.count_matching(RoomType::Empty), cells@.len(),
        {
            let cell = cells[cells.len() - 1];
            let (entries, last_entry) = self.valid_steps(cell, last_dir);
            if entries.len() > 0 {
                let chosen: usize;
                if last_entry < entries.len() && rng.gen_ratio(2, 4) {
                    chosen = last_entry;
                } else {
                    chosen = rng.gen_range_usize(0, entries.len());
                }
                let entry = entries[chosen];
                let k_dir = entry.0;
                let nx = entry.1;
                let ny = entry.2;
                let ghost pre_carve = *self;
                self.make_hall((nx, ny));
                proof {
                    pre_carve.grid.lemma_count_after_write(
                        self.grid,
                        nx as int,
                        ny as int,
                        RoomType::Hall,
                        RoomType::Empty,
                    );
                    assert(cells_only_assigned(pre_carve.grid, self.grid));
                    assert(regions_only_assigned(pre_carve.regions, self.regions));
                    lemma_cells_only_assigned_trans(old(self).grid, pre_carve.grid, self.grid);
                    lemma_regions_only_assigned_trans(
                        old(self).regions,
                        pre_carve.regions,
                        self.regions,
                    );
                    let sx = start.0 as int;
                    let sy = start.1 as int;
                    assert(!in_carved(old(self).grid, pre_carve.grid, nx as int, ny as int));
                    assert forall|a: int, b: int|
                        in_carved(old(self).grid, pre_carve.grid, a, b) implies self.grid.at(a, b)
                        == pre_carve.grid.at(a, b) by {
                        assert(!(a == nx && b == ny));
                    }
                    assert(adjacent(nx as int, ny as int, cell.0 as int, cell.1 as int));
                    assert(in_carved(old(self).grid, pre_carve.grid, cell.0 as int, cell.1 as int));
                    assert forall|i2: int, j2: int|
                        in_carved(old(self).grid, self.grid, i2, j2) implies carved_connected(
                        old(self).grid,
                        self.grid,
                        sx,
                        sy,
                        i2,
                        j2,
                    ) by {
                        if i2 == nx && j2 == ny {
                            lemma_carved_reach_after_write(
                                old(self).grid,
                                pre_carve.grid,
                                self.grid,
                                sx,
                                sy,
                                cell.0 as int,
                                cell.1 as int,
                            );
                            lemma_carved_path_step(
                                old(self).grid,
                                self.grid,
                                sx,
                                sy,
                                cell.0 as int,
                                cell.1 as int,
                                nx as int,
                                ny as int,
                            );
                        } else {
                            assert(self.grid.at(i2, j2) == pre_carve.grid.at(i2, j2));
                            assert(in_carved(old(self).grid, pre_carve.grid, i2, j2));
                            lemma_carved_reach_after_write(
                                old(self).grid,
                                pre_carve.grid,
                                self.grid,
                                sx,
                                sy,
                                i2,
                                j2,
                            );
                        }
                    }
                }
                let mut next_cell = (nx, ny);
                if k_dir < 4 {
                    match self.step(nx, ny, k_dir) {
                        Some(p2) => {
                            if self.is_valid_hall(p2.1, p2.0) {
                                let ghost pre_two = *self;
                                self.make_hall(p2);
                                proof {
                                    pre_two.grid.lemma_count_after_write(
                                        self.grid,
                                        p2.0 as int,
                                        p2.1 as int,
                                        RoomType::Hall,
                                        RoomType::Empty,
                                    );
                                    assert(cells_only_assigned(pre_two.grid, self.grid));
                                    assert(regions_only_assigned(pre_two.regions, self.regions));
                                    lemma_cells_only_assigned_trans(
                                        old(self).grid,
                                        pre_two.grid,
                                        self.grid,
                                    );
                                    lemma_regions_only_assigned_trans(
                                        old(self).regions,
                                        pre_two.regions,
                                        self.regions,
                                    );
                                    assert(self.grid.count_matching(RoomType::Empty)
                                        < pre_carve.grid.count_matching(RoomType::Empty));
                                    let sx = start.0 as int;
                                    let sy = start.1 as int;
                                    assert(!in_carved(
                                        old(self).grid,
                                        pre_two.grid,
                                        p2.0 as int,
                                        p2.1 as int,
                                    ));
                                    assert forall|a: int, b: int|
                                        in_carved(old(self).grid, pre_two.grid, a, b) implies self.grid.at(
                                        a,
                                        b,
                                    ) == pre_two.grid.at(a, b) by {
                                        assert(!(a == p2.0 && b == p2.1));
                                    }
                                    assert(adjacent(
                                        p2.0 as int,
                                        p2.1 as int,
                                        nx as int,
                                        ny as int,
                                    )) by {
                                        if k_dir == 0 {
                                        } else if k_dir == 1 {
                                        } else if k_dir == 2 {
                                        } else {
                                            assert(k_dir == 3);
                                        }
                                    }
                                    assert(in_carved(
                                        old(self).grid,
                                        pre_two.grid,
                                        nx as int,
                                        ny as int,
                                    ));
                                    assert forall|i2: int, j2: int|
                                        in_carved(old(self).grid, self.grid, i2, j2) implies carved_connected(
                                        old(self).grid,
                                        self.grid,
                                        sx,
                                        sy,
                                        i2,
                                        j2,
                                    ) by {
                                        if i2 == p2.0 && j2 == p2.1 {
                                            lemma_carved_reach_after_write(
                                                old(self).grid,
                                                pre_two.grid,
                                                self.grid,
                                                sx,
                                                sy,
                                                nx as int,
                                                ny as int,
                                            );
                                            lemma_carved_path_step(
                                                old(self).grid,
                                                self.grid,
                                                sx,
                                                sy,
                                                nx as int,
                                                ny as int,
                                                p2.0 as int,
                                                p2.1 as int,
                                            );
                                        } else {
                                            assert(self.grid.at(i2, j2) == pre_two.grid.at(
                                                i2,
                                                j2,
                                            ));
                                            assert(in_carved(
                                                old(self).grid,
                                                pre_two.grid,
                                                i2,
                                                j2,
                                            ));
                                            lemma_carved_reach_after_write(
                                                old(self).grid,
                                                pre_two.grid,
                                                self.grid,
                                                sx,
                                                sy,
                                                i2,
                                                j2,
                                            );
                                        }
                                    }
                                }
                                next_cell = p2;
                            }
                        },
                        None => {},
                    }
                }
                last_dir = k_dir;
                cells.push(next_cell);
                let snap = self.grid.duplicate();
                self.painter.add_step(snap);
            } else {
                let _popped = cells.pop();
            }
        }
    }
}

} // verus!
