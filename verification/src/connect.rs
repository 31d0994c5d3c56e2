use vstd::prelude::*;

use crate::cell::RoomType;
use crate::dungeon::{lemma_placed_ok_after_nonempty_writes, Dungeon};
use crate::grid::{count_eq_seq, lemma_count_eq_seq_update};
use crate::maze::{dir_dx, dir_dy};
use crate::rng::RandomSource;

verus! {

/// A candidate merge cell: itself unassigned, its 4-neighborhood
/// touching at least two distinct region ids. It carries the touched
/// region ids and the touched cell categories.
pub struct Connector {
    pub x: usize,
    pub y: usize,
    pub regions: Vec<u32>,
    pub types: Vec<RoomType>,
}

/// The union-find state over region ids `1..len`: every id maps to an
/// in-range representative, representatives map to themselves, and the
/// `open` vector marks exactly the representatives.
pub open spec fn merge_map_wf(m: Seq<u32>, open: Seq<bool>) -> bool {
    &&& m.len() == open.len()
    &&& m.len() >= 1
    &&& forall|t: int| 1 <= t < m.len() ==> 1 <= #[trigger] m[t] < m.len() && m[m[t] as int] == m[t]
    &&& forall|t: int| 0 <= t < open.len() ==> ((#[trigger] open[t]) <==> (1 <= t && m[t] == t))
}

/// All region ids share one representative: exactly one open region is
/// left among all the ids ever assigned.
pub open spec fn fully_merged(m: Seq<u32>) -> bool {
    forall|i: int, j: int| 1 <= i < m.len() && 1 <= j < m.len() ==> m[i] == m[j]
}

/// What the region-connection pass hands back: the final union-find
/// map over region ids and whether one open region remained.
pub struct ConnectOutcome {
    pub merged: Vec<u32>,
    pub single: bool,
}

proof fn lemma_count_ge1<T>(s: Seq<T>, i: int, v: T)
    requires
        0 <= i < s.len(),
        s[i] == v,
    ensures
        count_eq_seq(s, v) >= 1,
    decreases s.len(),
{
    if i == s.len() - 1 {
    } else {
        lemma_count_ge1(s.drop_last(), i, v);
    }
}

proof fn lemma_count_ge2<T>(s: Seq<T>, i: int, j: int, v: T)
    requires
        0 <= i < j < s.len(),
        s[i] == v,
        s[j] == v,
    ensures
        count_eq_seq(s, v) >= 2,
    decreases s.len(),
{
    if j == s.len() - 1 {
        lemma_count_ge1(s.drop_last(), i, v);
    } else {
        lemma_count_ge2(s.drop_last(), i, j, v);
    }
}

/// `x` occurs in `v`.
fn vec_contains_u32(v: &Vec<u32>, x: u32) -> (r: bool)
    ensures
        r <==> (exists|t: int| 0 <= t < v@.len() && v@[t] == x),
{
    let mut k: usize = 0;
    while k < v.len()
        invariant
            k <= v@.len(),
            forall|t: int| 0 <= t < k ==> v@[t] != x,
        decreases v@.len() - k,
    {
        if v[k] == x {
            return true;
        }
        k = k + 1;
    }
    false
}

/// Some touched category demands a locked door: `End` or `Treasure`.
fn types_demand_lock(types: &Vec<RoomType>) -> (r: bool)
    ensures
        r <==> (exists|t: int|
            0 <= t < types@.len() && (types@[t] == RoomType::End || types@[t]
                == RoomType::Treasure)),
{
    let mut k: usize = 0;
    while k < types.len()
        invariant
            k <= types@.len(),
            forall|t: int|
                0 <= t < k ==> types@[t] != RoomType::End && types@[t] != RoomType::Treasure,
        decreases types@.len() - k,
    {
        let c = types[k];
        if c == RoomType::End || c == RoomType::Treasure {
            return true;
        }
        k = k + 1;
    }
    false
}

/// The distinct representatives that `ids` currently map to.
fn effective_roots(merged: &Vec<u32>, open: &Vec<bool>, ids: &Vec<u32>) -> (r: Vec<u32>)
    requires
        merge_map_wf(merged@, open@),
        forall|u: int| 0 <= u < ids@.len() ==> 1 <= #[trigger] ids@[u] < merged@.len(),
    ensures
        ids@.len() >= 1 ==> r@.len() >= 1,
        forall|t: int|
            0 <= t < r@.len() ==> 1 <= #[trigger] r@[t] < merged@.len() && merged@[r@[t] as int]
                == r@[t],
        forall|t1: int, t2: int| 0 <= t1 < t2 < r@.len() ==> r@[t1] != r@[t2],
{
    let mut eff: Vec<u32> = Vec::new();
    let mut k: usize = 0;
    while k < ids.len()
        invariant
            merge_map_wf(merged@, open@),
            forall|u: int| 0 <= u < ids@.len() ==> 1 <= #[trigger] ids@[u] < merged@.len(),
            k <= ids@.len(),
            k >= 1 ==> eff@.len() >= 1,
            forall|t: int|
                0 <= t < eff@.len() ==> 1 <= #[trigger] eff@[t] < merged@.len()
                    && merged@[eff@[t] as int] == eff@[t],
            forall|t1: int, t2: int| 0 <= t1 < t2 < eff@.len() ==> eff@[t1] != eff@[t2],
        decreases ids@.len() - k,
    {
        let id = ids[k];
        let root = merged[id as usize];
        if !vec_contains_u32(&eff, root) {
            eff.push(root);
        }
        k = k + 1;
    }
    eff
}

/// Union one representative `s` into `dest`: every id that mapped to
/// `s` now maps to `dest`, `s` stops being open, and the open count
/// drops by one.
fn merge_into(merged: &mut Vec<u32>, open: &mut Vec<bool>, open_count: &mut usize, s: u32, dest: u32)
    requires
        merge_map_wf(old(merged)@, old(open)@),
        1 <= s < old(merged)@.len(),
        1 <= dest < old(merged)@.len(),
        s != dest,
        old(merged)@[s as int] == s,
        old(merged)@[dest as int] == dest,
        *old(open_count) == count_eq_seq(old(open)@, true),
    ensures
        merge_map_wf(final(merged)@, final(open)@),
        final(merged)@.len() == old(merged)@.len(),
        forall|t: int|
            1 <= t < old(merged)@.len() ==> final(merged)@[t] == (if old(merged)@[t] == s {
                dest
            } else {
                old(merged)@[t]
            }),
        final(merged)@[0] == old(merged)@[0],
        *final(open_count) == count_eq_seq(final(open)@, true),
        *final(open_count) + 1 == *old(open_count),
{
    let n = merged.len();
    let mut i: usize = 1;
    while i < n
        invariant
            merged@.len() == n,
            n == old(merged)@.len(),
            open@ == old(open)@,
            i <= n,
            1 <= i,
            forall|t: int|
                1 <= t < i ==> merged@[t] == (if old(merged)@[t] == s {
                    dest
                } else {
                    old(merged)@[t]
                }),
            forall|t: int| i <= t < n ==> merged@[t] == old(merged)@[t],
            merged@[0] == old(merged)@[0],
        decreases n - i,
    {
        if merged[i] == s {
            merged[i] = dest;
        }
        i = i + 1;
    }
    proof {
        assert(open@[s as int]);
        lemma_count_ge1(open@, s as int, true);
        lemma_count_eq_seq_update(open@, s as int, false, true);
    }
    open[s as usize] = false;
    *open_count = *open_count - 1;
    proof {
        let m0 = old(merged)@;
        let m1 = merged@;
        let o1 = open@;
        assert forall|t: int| 1 <= t < m1.len() implies 1 <= #[trigger] m1[t] < m1.len()
            && m1[m1[t] as int] == m1[t] by {
            if m0[t] == s {
                assert(m1[t] == dest);
                assert(m0[dest as int] == dest);
                assert(m1[dest as int] == dest);
            } else {
                assert(m1[t] == m0[t]);
                assert(m0[m0[t] as int] == m0[t]);
                assert(m1[m0[t] as int] == m0[t]);
            }
        }
        assert forall|t: int| 0 <= t < o1.len() implies ((#[trigger] o1[t]) <==> (1 <= t && m1[t]
            == t)) by {
            if t == s {
                assert(!o1[t]);
                assert(m1[t] == dest);
            } else {
                assert(o1[t] == old(open)@[t]);
                if 1 <= t {
                    if m0[t] == s {
                        assert(m1[t] == dest);
                        if dest == t {
                            assert(m0[t] == t);
                        }
                        assert(m1[t] != t);
                        assert(m0[t] != t);
                    } else {
                        assert(m1[t] == m0[t]);
                    }
                }
            }
        }
        assert(merge_map_wf(merged@, open@));
    }
}

impl Dungeon {
    /// Any cell still unassigned after carving becomes `Wall`: an
    /// unreachable pocket. Afterwards no `Empty` cell remains.
    pub fn fill_with_walls(&mut self)
        requires
            old(self).wf(),
        ensures
            final(self).wf(),
            final(self).no_empty_cells(),
            final(self).regions_zero_on_empty(),
            final(self).grid.same_dims(old(self).grid),
            forall|i: int, j: int|
                old(self).grid.in_bounds(i, j) && old(self).grid.at(i, j) != RoomType::Empty
                    ==> final(self).grid.at(i, j) == old(self).grid.at(i, j),
            forall|i: int, j: int|
                old(self).grid.in_bounds(i, j) && old(self).grid.at(i, j) == RoomType::Empty
                    ==> final(self).grid.at(i, j) == RoomType::Wall,
            final(self).regions == old(self).regions,
            final(self).rooms == old(self).rooms,
            final(self).placed_rooms == old(self).placed_rooms,
            final(self).raycast_grid == old(self).raycast_grid,
            final(self).regions_count == old(self).regions_count,
            final(self).start_x == old(self).start_x,
            final(self).start_y == old(self).start_y,
            final(self).end_x == old(self).end_x,
            final(self).end_y == old(self).end_y,
            final(self).painter == old(self).painter,
    {
        let w = self.grid.width();
        let h = self.grid.height();
        let mut y: usize = 0;
        while y < h
            invariant
                self.grid.wf(),
                self.grid.same_dims(old(self).grid),
                w == self.grid.spec_width(),
                h == self.grid.spec_height(),
                y <= h,
                forall|i: int, j: int|
                    self.grid.in_bounds(i, j) && j < y ==> (if old(self).grid.at(i, j)
                        == RoomType::Empty {
                        self.grid.at(i, j) == RoomType::Wall
                    } else {
                        self.grid.at(i, j) == old(self).grid.at(i, j)
                    }),
                forall|i: int, j: int|
                    self.grid.in_bounds(i, j) && j >= y ==> self.grid.at(i, j) == old(self).grid.at(
                        i,
                        j,
                    ),
                self.regions == old(self).regions,
                self.rooms == old(self).rooms,
                self.placed_rooms == old(self).placed_rooms,
                self.raycast_grid == old(self).raycast_grid,
                self.regions_count == old(self).regions_count,
                self.start_x == old(self).start_x,
                self.start_y == old(self).start_y,
                self.end_x == old(self).end_x,
                self.end_y == old(self).end_y,
                self.painter == old(self).painter,
            decreases h - y,
        {
            let mut x: usize = 0;
            while x < w
                invariant
                    self.grid.wf(),
                    self.grid.same_dims(old(self).grid),
                    w == self.grid.spec_width(),
                    h == self.grid.spec_height(),
                    y < h,
                    x <= w,
                    forall|i: int, j: int|
                        self.grid.in_bounds(i, j) && j < y ==> (if old(self).grid.at(i, j)
                            == RoomType::Empty {
                            self.grid.at(i, j) == RoomType::Wall
                        } else {
                            self.grid.at(i, j) == old(self).grid.at(i, j)
                        }),
                    forall|i: int|
                        0 <= i < x ==> (if old(self).grid.at(i, y as int) == RoomType::Empty {
                            #[trigger] self.grid.at(i, y as int) == RoomType::Wall
                        } else {
                            self.grid.at(i, y as int) == old(self).grid.at(i, y as int)
                        }),
                    forall|i: int, j: int|
                        self.grid.in_bounds(i, j) && (j > y || (j == y && i >= x))
                            ==> self.grid.at(i, j) == old(self).grid.at(i, j),
                    self.regions == old(self).regions,
                    self.rooms == old(self).rooms,
                    self.placed_rooms == old(self).placed_rooms,
                    self.raycast_grid == old(self).raycast_grid,
                    self.regions_count == old(self).regions_count,
                    self.start_x == old(self).start_x,
                    self.start_y == old(self).start_y,
                    self.end_x == old(self).end_x,
                    self.end_y == old(self).end_y,
                    self.painter == old(self).painter,
                decreases w - x,
            {
                if self.grid.read(x, y) == RoomType::Empty {
                    self.grid.write(x, y, RoomType::Wall);
                }
                x = x + 1;
            }
            y = y + 1;
        }
        proof {
            let pre = *old(self);
            let post = *self;
            assert forall|k: int| 0 <= k < post.placed_rooms@.len() implies post.placed_room_ok(
                #[trigger] post.placed_rooms@[k],
            ) by {
                let r = post.placed_rooms@[k];
                assert(pre.placed_room_ok(r));
                assert forall|i: int, j: int| r.interior_contains(i, j) implies post.grid.at(i, j)
                    != RoomType::Empty by {
                    assert(pre.grid.in_bounds(i, j));
                    assert(pre.grid.at(i, j) != RoomType::Empty);
                }
            }
        }
    }

    /// The region id one step in direction `k` from `(x, y)`; zero
    /// when that neighbor is off the grid or unassigned.
    pub open spec fn region_at_dir(self, x: int, y: int, k: int) -> u32 {
        if self.regions.in_bounds(x + dir_dx(k), y + dir_dy(k)) {
            self.regions.at(x + dir_dx(k), y + dir_dy(k))
        } else {
            0
        }
    }

    /// The category one step in direction `k` from `(x, y)`.
    pub open spec fn category_at_dir(self, x: int, y: int, k: int) -> RoomType {
        self.grid.at(x + dir_dx(k), y + dir_dy(k))
    }

    /// Some neighbor of `(x, y)` belongs to region `v`.
    pub open spec fn region_witnessed(self, x: int, y: int, v: u32) -> bool {
        exists|kk: int| 0 <= kk < 4 && #[trigger] self.region_at_dir(x, y, kk) == v
    }

    /// Some region-bearing neighbor of `(x, y)` holds category `t`.
    pub open spec fn category_witnessed(self, x: int, y: int, t: RoomType) -> bool {
        exists|kk: int|
            0 <= kk < 4 && #[trigger] self.region_at_dir(x, y, kk) != 0 && self.category_at_dir(
                x,
                y,
                kk,
            ) == t
    }

    /// The connector condition of `(x, y)`: its 4-neighborhood touches
    /// at least two distinct region ids.
    pub open spec fn spec_connector_cell(self, x: int, y: int) -> bool {
        exists|v1: u32, v2: u32|
            #![trigger self.region_witnessed(x, y, v1), self.region_witnessed(x, y, v2)]
            v1 != 0 && v2 != 0 && v1 != v2 && self.region_witnessed(x, y, v1)
                && self.region_witnessed(x, y, v2)
    }

    /// Some region-bearing neighbor of `(x, y)` holds a category that
    /// demands a locked door: `End` or `Treasure`.
    pub open spec fn touches_lock_category(self, x: int, y: int) -> bool {
        self.category_witnessed(x, y, RoomType::End) || self.category_witnessed(
            x,
            y,
            RoomType::Treasure,
        )
    }

    /// A connector candidate is consistent with this floor: an
    /// unassigned in-bounds cell satisfying the connector condition,
    /// whose recorded region ids were all really handed out and whose
    /// recorded categories each sit on some region-bearing neighbor.
    pub open spec fn connector_ok(self, c: Connector) -> bool {
        &&& self.grid.in_bounds(c.x as int, c.y as int)
        &&& self.regions.at(c.x as int, c.y as int) == 0
        &&& c.regions@.len() >= 1
        &&& forall|u: int|
            0 <= u < c.regions@.len() ==> 1 <= #[trigger] c.regions@[u] <= self.regions_count
        &&& self.spec_connector_cell(c.x as int, c.y as int)
        &&& forall|u: int|
            0 <= u < c.types@.len() ==> self.category_witnessed(
                c.x as int,
                c.y as int,
                #[trigger] c.types@[u],
            )
    }

    /// Scan the whole grid for connector candidates: unassigned cells
    /// whose 4-neighborhood touches at least two distinct region ids.
    fn find_connectors(&self) -> (r: Vec<Connector>)
        requires
            self.wf(),
            self.regions_in_range(),
        ensures
            forall|t: int| 0 <= t < r@.len() ==> self.connector_ok(#[trigger] r@[t]),
            forall|t1: int, t2: int|
                0 <= t1 < t2 < r@.len() ==> !(r@[t1].x == r@[t2].x && r@[t1].y == r@[t2].y),
    {
        let w = self.grid.width();
        let h = self.grid.height();
        let mut connectors: Vec<Connector> = Vec::new();
        let mut x: usize = 0;
        while x < w
            invariant
                self.wf(),
                self.regions_in_range(),
                w == self.grid.spec_width(),
                h == self.grid.spec_height(),
                x <= w,
                forall|t: int|
                    0 <= t < connectors@.len() ==> self.connector_ok(#[trigger] connectors@[t]),
                forall|t: int| 0 <= t < connectors@.len() ==> (#[trigger] connectors@[t]).x < x,
                forall|t1: int, t2: int|
                    0 <= t1 < t2 < connectors@.len() ==> !(connectors@[t1].x == connectors@[t2].x
                        && connectors@[t1].y == connectors@[t2].y),
            decreases w - x,
        {
            let mut y: usize = 0;
            while y < h
                invariant
                    self.wf(),
                    self.regions_in_range(),
                    w == self.grid.spec_width(),
                    h == self.grid.spec_height(),
                    x < w,
                    y <= h,
                    forall|t: int|
                        0 <= t < connectors@.len() ==> self.connector_ok(
                            #[trigger] connectors@[t],
                        ),
                    forall|t: int|
                        0 <= t < connectors@.len() ==> (#[trigger] connectors@[t]).x < x || (
                        connectors@[t].x == x && connectors@[t].y < y),
                    forall|t1: int, t2: int|
                        0 <= t1 < t2 < connectors@.len() ==> !(connectors@[t1].x
                            == connectors@[t2].x && connectors@[t1].y == connectors@[t2].y),
                decreases h - y,
            {
                if self.regions.read(x, y) == 0 {
                    let mut rs: Vec<u32> = Vec::new();
                    let mut ts: Vec<RoomType> = Vec::new();
                    let mut k: usize = 0;
                    while k < 4
                        invariant
                            self.wf(),
                            self.regions_in_range(),
                            self.grid.in_bounds(x as int, y as int),
                            k <= 4,
                            forall|u: int|
                                0 <= u < rs@.len() ==> 1 <= #[trigger] rs@[u]
                                    <= self.regions_count,
                            forall|u1: int, u2: int|
                                0 <= u1 < u2 < rs@.len() ==> rs@[u1] != rs@[u2],
                            forall|u: int|
                                0 <= u < rs@.len() ==> self.region_witnessed(
                                    x as int,
                                    y as int,
                                    #[trigger] rs@[u],
                                ),
                            forall|u: int|
                                0 <= u < ts@.len() ==> self.category_witnessed(
                                    x as int,
                                    y as int,
                                    #[trigger] ts@[u],
                                ),
                        decreases 4 - k,
                    {
                        match self.step(x, y, k) {
                            Some(p) => {
                                let region = self.regions.read(p.0, p.1);
                                if region != 0 {
                                    proof {
                                        assert(self.region_at_dir(x as int, y as int, k as int)
                                            == region);
                                    }
                                    let cat = self.grid.read(p.0, p.1);
                                    proof {
                                        assert(self.category_at_dir(x as int, y as int, k as int)
                                            == cat);
                                        assert(self.region_witnessed(x as int, y as int, region));
                                        assert(self.category_witnessed(x as int, y as int, cat));
                                    }
                                    if !vec_contains_u32(&rs, region) {
                                        rs.push(region);
                                    }
                                    ts.push(cat);
                                }
                            },
                            None => {},
                        }
                        k = k + 1;
                    }
                    if rs.len() >= 2 {
                        let c = Connector { x, y, regions: rs, types: ts };
                        proof {
                            assert(c.regions@[0] != c.regions@[1]);
                            assert(self.region_witnessed(x as int, y as int, c.regions@[0]));
                            assert(self.region_witnessed(x as int, y as int, c.regions@[1]));
                            assert(self.spec_connector_cell(x as int, y as int));
                            assert(self.connector_ok(c));
                        }
                        connectors.push(c);
                    }
                }
                y = y + 1;
            }
            x = x + 1;
        }
        connectors
    }

    /// Merge the floor's regions into one component: repeatedly pick a
    /// random connector, carve it as a hall — or a locked door when it
    /// borders an `End` or `Treasure` region — union the regions it
    /// touches, and drop remaining candidates that are within distance
    /// two of it or that no longer span two regions; a dropped stale
    /// candidate has a one-in-five chance of being carved anyway as a
    /// redundant link, though never around a locked door. The pass ends
    /// when one open region remains, candidates run out, or a full step
    /// makes no progress; `single` reports the first case, and then the
    /// returned map sends every region id to one representative.
    #[verifier::rlimit(100)]
    pub fn connect_regions(&mut self, rng: &mut RandomSource) -> (r: ConnectOutcome)
        requires
            old(self).wf(),
            old(self).regions_in_range(),
        ensures
            final(self).wf(),
            final(self).grid.same_dims(old(self).grid),
            forall|i: int, j: int|
                #![trigger final(self).grid.at(i, j)]
                old(self).grid.in_bounds(i, j) && final(self).grid.at(i, j) != old(self).grid.at(
                    i,
                    j,
                ) ==> old(self).regions.at(i, j) == 0 && old(self).spec_connector_cell(i, j) && (
                final(self).grid.at(i, j) == RoomType::Hall || final(self).grid.at(i, j)
                    == RoomType::LockedDoor) && (final(self).grid.at(i, j) == RoomType::LockedDoor
                    ==> old(self).touches_lock_category(i, j)),
            forall|i: int, j: int|
                #![trigger final(self).regions.at(i, j)]
                old(self).regions.in_bounds(i, j) && final(self).regions.at(i, j) != old(
                    self,
                ).regions.at(i, j) ==> old(self).regions.at(i, j) == 0 && old(
                    self,
                ).spec_connector_cell(i, j) && (final(self).regions.at(i, j)
                    == old(self).regions_count || final(self).regions.at(i, j) == old(
                    self,
                ).regions_count + 1),
            final(self).rooms == old(self).rooms,
            final(self).placed_rooms == old(self).placed_rooms,
            final(self).raycast_grid == old(self).raycast_grid,
            final(self).regions_count == old(self).regions_count,
            final(self).start_x == old(self).start_x,
            final(self).start_y == old(self).start_y,
            final(self).end_x == old(self).end_x,
            final(self).end_y == old(self).end_y,
            final(self).painter == old(self).painter,
            r.single ==> r.merged@.len() == old(self).regions_count + 1 && fully_merged(r.merged@),
            old(self).regions_count == 1 ==> r.single,
            old(self).regions_count == 0 ==> !r.single,
    {
        if self.regions_count == u32::MAX {
            return ConnectOutcome { merged: Vec::new(), single: false };
        }
        let mut connectors = self.find_connectors();
        let n = self.regions_count;
        let n_usize = n as usize;
        let mut merged: Vec<u32> = Vec::new();
        let mut open: Vec<bool> = Vec::new();
        merged.push(0);
        open.push(false);
        let mut i: usize = 1;
        proof {
            assert(count_eq_seq(open@, true) == 0) by {
                reveal_with_fuel(count_eq_seq, 3);
            }
        }
        while i <= n_usize
            invariant
                n_usize < usize::MAX,
                n_usize < u32::MAX,
                1 <= i <= n_usize + 1,
                merged@.len() == i,
                open@.len() == i,
                merged@[0] == 0,
                open@[0] == false,
                forall|t: int| 1 <= t < i ==> #[trigger] merged@[t] == t,
                forall|t: int| 1 <= t < i ==> #[trigger] open@[t] == true,
                count_eq_seq(open@, true) == i - 1,
            decreases n_usize + 1 - i,
        {
            let ghost open_pre = open@;
            merged.push(i as u32);
            open.push(true);
            proof {
                assert(open@.drop_last() =~= open_pre);
            }
            i = i + 1;
        }
        let mut open_count: usize = n_usize;
        proof {
            assert(merge_map_wf(merged@, open@));
        }
        let mut stalled = false;
        while open_count > 1 && connectors.len() > 0 && !stalled
            invariant
                old(self).wf(),
                self.wf(),
                self.grid.same_dims(old(self).grid),
                forall|i2: int, j2: int|
                    #![trigger self.grid.at(i2, j2)]
                    old(self).grid.in_bounds(i2, j2) && self.grid.at(i2, j2) != old(self).grid.at(
                        i2,
                        j2,
                    ) ==> old(self).regions.at(i2, j2) == 0 && old(self).spec_connector_cell(
                        i2,
                        j2,
                    ) && (self.grid.at(i2, j2) == RoomType::Hall || self.grid.at(i2, j2)
                        == RoomType::LockedDoor) && (self.grid.at(i2, j2) == RoomType::LockedDoor
                        ==> old(self).touches_lock_category(i2, j2)),
                forall|i2: int, j2: int|
                    #![trigger self.regions.at(i2, j2)]
                    old(self).regions.in_bounds(i2, j2) && self.regions.at(i2, j2) != old(
                        self,
                    ).regions.at(i2, j2) ==> old(self).regions.at(i2, j2) == 0 && old(
                        self,
                    ).spec_connector_cell(i2, j2) && (self.regions.at(i2, j2) == old(
                        self,
                    ).regions_count || self.regions.at(i2, j2) == old(self).regions_count + 1),
                self.rooms == old(self).rooms,
                self.placed_rooms == old(self).placed_rooms,
                self.raycast_grid == old(self).raycast_grid,
                self.regions_count == old(self).regions_count,
                self.start_x == old(self).start_x,
                self.start_y == old(self).start_y,
                self.end_x == old(self).end_x,
                self.end_y == old(self).end_y,
                self.painter == old(self).painter,
                n == self.regions_count,
                n_usize == n,
                n < u32::MAX,
                merged@.len() == n_usize + 1,
                open@.len() == n_usize + 1,
                merge_map_wf(merged@, open@),
                open_count == count_eq_seq(open@, true),
                n_usize == 1 ==> open_count == 1,
                n_usize == 0 ==> open_count == 0,
                forall|t: int|
                    0 <= t < connectors@.len() ==> old(self).connector_ok(
                        #[trigger] connectors@[t],
                    ),
            decreases connectors@.len(),
        {
            let start_count = open_count;
            let ci = rng.gen_range_usize(0, connectors.len());
            let chosen = connectors.remove(ci);
            let locked_door = types_demand_lock(&chosen.types);
            let cx = chosen.x;
            let cy = chosen.y;
            let ghost pre_door = *self;
            if locked_door {
                self.grid.write(cx, cy, RoomType::LockedDoor);
            } else {
                self.grid.write(cx, cy, RoomType::Hall);
            }
            let synth = n + 1;
            self.regions.write(cx, cy, synth);
            proof {
                lemma_placed_ok_after_nonempty_writes(pre_door, *self);
                assert(old(self).connector_ok(chosen));
                if locked_door {
                    let u = choose|u: int|
                        0 <= u < chosen.types@.len() && (chosen.types@[u] == RoomType::End
                            || chosen.types@[u] == RoomType::Treasure);
                    assert(old(self).category_witnessed(cx as int, cy as int, chosen.types@[u]));
                    assert(old(self).touches_lock_category(cx as int, cy as int));
                }
                assert forall|i2: int, j2: int|
                    old(self).grid.in_bounds(i2, j2) && self.grid.at(i2, j2) != old(self).grid.at(
                        i2,
                        j2,
                    ) implies old(self).regions.at(i2, j2) == 0 && old(self).spec_connector_cell(
                    i2,
                    j2,
                ) && (self.grid.at(i2, j2) == RoomType::Hall || self.grid.at(i2, j2)
                    == RoomType::LockedDoor) && (self.grid.at(i2, j2) == RoomType::LockedDoor
                    ==> old(self).touches_lock_category(i2, j2)) by {
                    if i2 == cx && j2 == cy {
                        assert(old(self).regions.at(i2, j2) == 0);
                        assert(old(self).spec_connector_cell(i2, j2));
                        assert(self.grid.at(i2, j2) == RoomType::Hall || self.grid.at(i2, j2)
                            == RoomType::LockedDoor);
                        if self.grid.at(i2, j2) == RoomType::LockedDoor {
                            assert(locked_door);
                            assert(old(self).touches_lock_category(i2, j2));
                        }
                    } else {
                        assert(pre_door.grid.in_bounds(i2, j2));
                        assert(self.grid.at(i2, j2) == pre_door.grid.at(i2, j2));
                        assert(old(self).regions.at(i2, j2) == 0);
                        assert(old(self).spec_connector_cell(i2, j2));
                    }
                }
                assert forall|i2: int, j2: int|
                    old(self).regions.in_bounds(i2, j2) && self.regions.at(i2, j2) != old(
                        self,
                    ).regions.at(i2, j2) implies old(self).regions.at(i2, j2) == 0 && old(
                    self,
                ).spec_connector_cell(i2, j2) && (self.regions.at(i2, j2) == old(
                    self,
                ).regions_count || self.regions.at(i2, j2) == old(self).regions_count + 1) by {
                    if i2 == cx && j2 == cy {
                        assert(old(self).spec_connector_cell(i2, j2));
                        assert(self.regions.at(i2, j2) == synth);
                    } else {
                        assert(pre_door.regions.in_bounds(i2, j2));
                        assert(self.regions.at(i2, j2) == pre_door.regions.at(i2, j2));
                    }
                }
            }
            let eff = effective_roots(&merged, &open, &chosen.regions);
            let dest = eff[0];
            let mut si: usize = 1;
            while si < eff.len()
                invariant
                    merged@.len() == n_usize + 1,
                    open@.len() == n_usize + 1,
                    merge_map_wf(merged@, open@),
                    open_count == count_eq_seq(open@, true),
                    1 <= si,
                    eff@.len() >= 1,
                    dest == eff@[0],
                    1 <= dest < merged@.len(),
                    merged@[dest as int] == dest,
                    forall|t: int|
                        si <= t < eff@.len() ==> 1 <= #[trigger] eff@[t] < merged@.len()
                            && merged@[eff@[t] as int] == eff@[t],
                    forall|t1: int, t2: int| 0 <= t1 < t2 < eff@.len() ==> eff@[t1] != eff@[t2],
                decreases eff@.len() - si,
            {
                let s = eff[si];
                let ghost m_pre = merged@;
                merge_into(&mut merged, &mut open, &mut open_count, s, dest);
                proof {
                    assert forall|t: int| si + 1 <= t < eff@.len() implies 1 <= #[trigger] eff@[t]
                        < merged@.len() && merged@[eff@[t] as int] == eff@[t] by {
                        assert(eff@[t] != s);
                        assert(m_pre[eff@[t] as int] == eff@[t]);
                    }
                }
                si = si + 1;
            }
            let mut kept: Vec<Connector> = Vec::new();
            let ghost drain0 = connectors@.len();
            while connectors.len() > 0
                invariant
                    old(self).wf(),
                    self.wf(),
                    self.grid.same_dims(old(self).grid),
                    forall|i2: int, j2: int|
                        #![trigger self.grid.at(i2, j2)]
                        old(self).grid.in_bounds(i2, j2) && self.grid.at(i2, j2) != old(
                            self,
                        ).grid.at(i2, j2) ==> old(self).regions.at(i2, j2) == 0 && old(
                            self,
                        ).spec_connector_cell(i2, j2) && (self.grid.at(i2, j2) == RoomType::Hall
                            || self.grid.at(i2, j2) == RoomType::LockedDoor) && (self.grid.at(
                            i2,
                            j2,
                        ) == RoomType::LockedDoor ==> old(self).touches_lock_category(i2, j2)),
                    forall|i2: int, j2: int|
                        #![trigger self.regions.at(i2, j2)]
                        old(self).regions.in_bounds(i2, j2) && self.regions.at(i2, j2) != old(
                            self,
                        ).regions.at(i2, j2) ==> old(self).regions.at(i2, j2) == 0 && old(
                            self,
                        ).spec_connector_cell(i2, j2) && (self.regions.at(i2, j2) == old(
                            self,
                        ).regions_count || self.regions.at(i2, j2) == old(self).regions_count
                            + 1),
                    self.rooms == old(self).rooms,
                    self.placed_rooms == old(self).placed_rooms,
                    self.raycast_grid == old(self).raycast_grid,
                    self.regions_count == old(self).regions_count,
                    self.start_x == old(self).start_x,
                    self.start_y == old(self).start_y,
                    self.end_x == old(self).end_x,
                    self.end_y == old(self).end_y,
                    self.painter == old(self).painter,
                    n == self.regions_count,
                    n_usize == n,
                    merged@.len() == n_usize + 1,
                    open@.len() == n_usize + 1,
                    merge_map_wf(merged@, open@),
                    open_count == count_eq_seq(open@, true),
                    kept@.len() + connectors@.len() <= drain0,
                    forall|t: int|
                        0 <= t < connectors@.len() ==> old(self).connector_ok(
                            #[trigger] connectors@[t],
                        ),
                    forall|t: int|
                        0 <= t < kept@.len() ==> old(self).connector_ok(#[trigger] kept@[t]),
                decreases connectors@.len(),
            {
                let v = connectors.remove(0);
                let dxv = if cx >= v.x {
                    cx - v.x
                } else {
                    v.x - cx
                };
                let dyv = if cy >= v.y {
                    cy - v.y
                } else {
                    v.y - cy
                };
                if dxv <= 1 && dyv <= 1 {
                } else {
                    let vroots = effective_roots(&merged, &open, &v.regions);
                    if vroots.len() > 1 {
                        kept.push(v);
                    } else {
                        if !locked_door && rng.gen_ratio(1, 5) {
                            let ghost pre_link = *self;
                            self.grid.write(v.x, v.y, RoomType::Hall);
                            let id = self.regions_count;
                            self.regions.write(v.x, v.y, id);
                            proof {
                                lemma_placed_ok_after_nonempty_writes(pre_link, *self);
                                assert(old(self).connector_ok(v));
                                assert forall|i2: int, j2: int|
                                    old(self).grid.in_bounds(i2, j2) && self.grid.at(i2, j2)
                                        != old(self).grid.at(i2, j2) implies old(self).regions.at(
                                    i2,
                                    j2,
                                ) == 0 && old(self).spec_connector_cell(i2, j2) && (self.grid.at(
                                    i2,
                                    j2,
                                ) == RoomType::Hall || self.grid.at(i2, j2)
                                    == RoomType::LockedDoor) && (self.grid.at(i2, j2)
                                    == RoomType::LockedDoor ==> old(self).touches_lock_category(
                                    i2,
                                    j2,
                                )) by {
                                    if i2 == v.x && j2 == v.y {
                                        assert(old(self).spec_connector_cell(i2, j2));
                                        assert(self.grid.at(i2, j2) == RoomType::Hall);
                                    } else {
                                        assert(self.grid.at(i2, j2) == pre_link.grid.at(i2, j2));
                                    }
                                }
                                assert forall|i2: int, j2: int|
                                    old(self).regions.in_bounds(i2, j2) && self.regions.at(i2, j2)
                                        != old(self).regions.at(i2, j2) implies old(
                                    self,
                                ).regions.at(i2, j2) == 0 && old(self).spec_connector_cell(
                                    i2,
                                    j2,
                                ) && (self.regions.at(i2, j2) == old(self).regions_count
                                    || self.regions.at(i2, j2) == old(self).regions_count + 1) by {
                                    if i2 == v.x && j2 == v.y {
                                        assert(old(self).spec_connector_cell(i2, j2));
                                        assert(self.regions.at(i2, j2) == id);
                                    } else {
                                        assert(pre_link.regions.in_bounds(i2, j2));
                                        assert(self.regions.at(i2, j2) == pre_link.regions.at(
                                            i2,
                                            j2,
                                        ));
                                    }
                                }
                            }
                        }
                    }
                }
            }
            connectors = kept;
            if open_count == start_count {
                stalled = true;
            }
        }
        let single = open_count == 1;
        proof {
            if single {
                assert forall|a: int, b: int|
                    1 <= a < merged@.len() && 1 <= b < merged@.len() implies merged@[a]
                    == merged@[b] by {
                    let ra = merged@[a];
                    let rb = merged@[b];
                    assert(merged@[ra as int] == ra);
                    assert(merged@[rb as int] == rb);
                    assert(open@[ra as int]);
                    assert(open@[rb as int]);
                    if ra != rb {
                        if ra < rb {
                            lemma_count_ge2(open@, ra as int, rb as int, true);
                        } else {
                            lemma_count_ge2(open@, rb as int, ra as int, true);
                        }
                    }
                }
                assert(fully_merged(merged@));
            }
        }
        ConnectOutcome { merged, single }
    }
}

} // verus!
