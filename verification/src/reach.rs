use vstd::prelude::*;

use crate::cell::RoomType;
use crate::dungeon::Dungeon;
use crate::grid::{adjacent, Grid};
use crate::maze::{dir_dx, dir_dy};

verus! {

/// A walk across the grid: it starts at `(sx, sy)`, ends at `(tx, ty)`,
/// consecutive cells are 4-neighbors, and every cell on it is in
/// bounds and passable.
pub open spec fn is_path(
    g: Grid<RoomType>,
    p: Seq<(int, int)>,
    sx: int,
    sy: int,
    tx: int,
    ty: int,
) -> bool {
    &&& p.len() >= 1
    &&& p[0] == (sx, sy)
    &&& p[p.len() - 1] == (tx, ty)
    &&& forall|i: int|
        0 <= i < p.len() ==> g.in_bounds((#[trigger] p[i]).0, p[i].1) && g.at(
            p[i].0,
            p[i].1,
        ).passable()
    &&& forall|i: int|
        0 <= i < p.len() - 1 ==> adjacent(
            (#[trigger] p[i]).0,
            p[i].1,
            p[i + 1].0,
            p[i + 1].1,
        )
}

/// `(tx, ty)` is reachable from `(sx, sy)` over 4-connected passable
/// cells.
pub open spec fn spec_connected(g: Grid<RoomType>, sx: int, sy: int, tx: int, ty: int) -> bool {
    exists|p: Seq<(int, int)>| is_path(g, p, sx, sy, tx, ty)
}

/// Reachability over 4-connected cells is symmetric: a path read
/// backwards is again a path.
pub proof fn lemma_connected_symmetric(g: Grid<RoomType>, sx: int, sy: int, tx: int, ty: int)
    requires
        spec_connected(g, sx, sy, tx, ty),
    ensures
        spec_connected(g, tx, ty, sx, sy),
{
    let p = choose|p: Seq<(int, int)>| is_path(g, p, sx, sy, tx, ty);
    let n = p.len() as int;
    let q = Seq::new(p.len(), |i: int| p[n - 1 - i]);
    assert forall|i: int| 0 <= i < q.len() - 1 implies adjacent(
        (#[trigger] q[i]).0,
        q[i].1,
        q[i + 1].0,
        q[i + 1].1,
    ) by {
        let k = n - 2 - i;
        assert(adjacent(p[k].0, p[k].1, p[k + 1].0, p[k + 1].1));
    }
    assert(is_path(g, q, tx, ty, sx, sy));
}

/// Append one passable neighbor to a path.
proof fn lemma_path_extend(g: Grid<RoomType>, sx: int, sy: int, cx: int, cy: int, a: int, b: int)
    requires
        spec_connected(g, sx, sy, cx, cy),
        g.in_bounds(a, b),
        adjacent(a, b, cx, cy),
        g.at(a, b).passable(),
    ensures
        spec_connected(g, sx, sy, a, b),
{
    let p = choose|p: Seq<(int, int)>| is_path(g, p, sx, sy, cx, cy);
    let q = p.push((a, b));
    assert(q[q.len() - 1] == (a, b));
    assert forall|i: int| 0 <= i < q.len() - 1 implies adjacent(
        (#[trigger] q[i]).0,
        q[i].1,
        q[i + 1].0,
        q[i + 1].1,
    ) by {
        if i < p.len() - 1 {
            assert(q[i] == p[i]);
            assert(q[i + 1] == p[i + 1]);
            assert(adjacent(p[i].0, p[i].1, p[i + 1].0, p[i + 1].1));
        } else {
            assert(q[i] == p[p.len() - 1]);
            assert(q[i + 1] == (a, b));
        }
    }
    assert(is_path(g, q, sx, sy, a, b));
}

/// `(i, j)` occurs among the queued coordinates.
pub open spec fn in_seq(q: Seq<(usize, usize)>, i: int, j: int) -> bool {
    exists|t: int| 0 <= t < q.len() && (#[trigger] q[t]).0 == i && q[t].1 == j
}

/// The visited set is closed under stepping to passable neighbors.
pub open spec fn visited_closed(g: Grid<RoomType>, vis: Grid<bool>) -> bool {
    forall|i: int, j: int, a: int, b: int|
        #![trigger vis.at(i, j), adjacent(a, b, i, j)]
        g.in_bounds(i, j) && vis.at(i, j) && g.in_bounds(a, b) && adjacent(a, b, i, j) && g.at(
            a,
            b,
        ).passable() ==> vis.at(a, b)
}

/// Once the visited set is closed and holds the path's start, it holds
/// the path's end.
proof fn lemma_path_stays_visited(
    g: Grid<RoomType>,
    vis: Grid<bool>,
    p: Seq<(int, int)>,
    sx: int,
    sy: int,
    tx: int,
    ty: int,
)
    requires
        is_path(g, p, sx, sy, tx, ty),
        visited_closed(g, vis),
        g.in_bounds(sx, sy),
        vis.at(sx, sy),
    ensures
        vis.at(tx, ty),
    decreases p.len(),
{
    if p.len() == 1 {
    } else {
        let nx = p[1].0;
        let ny = p[1].1;
        assert(adjacent(sx, sy, nx, ny)) by {
            assert(adjacent(p[0].0, p[0].1, p[1].0, p[1].1));
        }
        assert(adjacent(nx, ny, sx, sy));
        assert(vis.at(nx, ny));
        let q = p.subrange(1, p.len() as int);
        assert(q[0] == (nx, ny));
        assert(q[q.len() - 1] == (tx, ty));
        assert forall|i: int| 0 <= i < q.len() - 1 implies adjacent(
            (#[trigger] q[i]).0,
            q[i].1,
            q[i + 1].0,
            q[i + 1].1,
        ) by {
            assert(q[i] == p[i + 1]);
            assert(q[i + 1] == p[i + 2]);
            assert(adjacent(p[i + 1].0, p[i + 1].1, p[i + 2].0, p[i + 2].1));
        }
        assert(is_path(g, q, nx, ny, tx, ty));
        lemma_path_stays_visited(g, vis, q, nx, ny, tx, ty);
    }
}

proof fn lemma_in_seq_push(q: Seq<(usize, usize)>, e: (usize, usize), i: int, j: int)
    requires
        in_seq(q, i, j),
    ensures
        in_seq(q.push(e), i, j),
{
    let t = choose|t: int| 0 <= t < q.len() && (#[trigger] q[t]).0 == i && q[t].1 == j;
    assert(q.push(e)[t] == q[t]);
}

proof fn lemma_in_seq_tail(q: Seq<(usize, usize)>, i: int, j: int)
    requires
        in_seq(q, i, j),
        q.len() >= 1,
        !(q[0].0 == i && q[0].1 == j),
    ensures
        in_seq(q.subrange(1, q.len() as int), i, j),
{
    let t = choose|t: int| 0 <= t < q.len() && (#[trigger] q[t]).0 == i && q[t].1 == j;
    assert(t >= 1);
    assert(q.subrange(1, q.len() as int)[t - 1] == q[t]);
}

impl Dungeon {
    /// Breadth-first search over 4-neighbors from the start anchor to
    /// the end anchor, treating `Wall` and unassigned cells as
    /// impassable and everything else as passable: returns exactly
    /// whether the two anchors are connected.
    pub fn are_start_and_end_connected(&self) -> (r: bool)
        requires
            self.wf(),
            self.anchors_placed(),
        ensures
            r == spec_connected(
                self.grid,
                self.start_x as int,
                self.start_y as int,
                self.end_x as int,
                self.end_y as int,
            ),
    {
        let sx = self.start_x;
        let sy = self.start_y;
        let ex = self.end_x;
        let ey = self.end_y;
        let w = self.grid.width();
        let h = self.grid.height();
        proof {
            self.grid.lemma_wf_area();
        }
        let visited_opt = Grid::<bool>::new(w, h, false);
        let mut visited: Grid<bool>;
        match visited_opt {
            Some(v) => {
                visited = v;
            },
            None => {
                proof {
                    assert(false);
                }
                return false;
            },
        }
        let mut queue: Vec<(usize, usize)> = Vec::new();
        queue.push((sx, sy));
        visited.write(sx, sy, true);
        proof {
            let pstart = seq![(sx as int, sy as int)];
            assert(is_path(self.grid, pstart, sx as int, sy as int, sx as int, sy as int));
            assert(!(ex == sx && ey == sy));
            assert(in_seq(queue@, sx as int, sy as int)) by {
                assert(queue@[0] == (sx, sy));
            }
        }
        while queue.len() > 0
            invariant
                self.wf(),
                self.anchors_placed(),
                sx == self.start_x,
                sy == self.start_y,
                ex == self.end_x,
                ey == self.end_y,
                visited.wf(),
                visited.same_dims(self.grid),
                visited.at(sx as int, sy as int),
                self.grid.at(sx as int, sy as int).passable(),
                forall|i: int, j: int|
                    self.grid.in_bounds(i, j) && #[trigger] visited.at(i, j) ==> spec_connected(
                        self.grid,
                        sx as int,
                        sy as int,
                        i,
                        j,
                    ),
                forall|t: int|
                    0 <= t < queue@.len() ==> self.grid.in_bounds(
                        (#[trigger] queue@[t]).0 as int,
                        queue@[t].1 as int,
                    ) && visited.at(queue@[t].0 as int, queue@[t].1 as int),
                forall|i: int, j: int, a: int, b: int|
                    #![trigger visited.at(i, j), adjacent(a, b, i, j)]
                    self.grid.in_bounds(i, j) && visited.at(i, j) && !in_seq(queue@, i, j)
                        && self.grid.in_bounds(a, b) && adjacent(a, b, i, j) && self.grid.at(
                        a,
                        b,
                    ).passable() ==> visited.at(a, b),
                visited.at(ex as int, ey as int) ==> in_seq(queue@, ex as int, ey as int),
            decreases visited.count_matching(false) + queue@.len(),
        {
            let ghost measure0 = visited.count_matching(false) + queue@.len();
            let ghost q_pre = queue@;
            let cur = queue.remove(0);
            let cx = cur.0;
            let cy = cur.1;
            if cx == ex && cy == ey {
                return true;
            }
            proof {
                assert(queue@ =~= q_pre.subrange(1, q_pre.len() as int));
                if visited.at(ex as int, ey as int) {
                    lemma_in_seq_tail(q_pre, ex as int, ey as int);
                }
                assert forall|i: int, j: int, a: int, b: int|
                    #![trigger visited.at(i, j), adjacent(a, b, i, j)]
                    self.grid.in_bounds(i, j) && visited.at(i, j) && !in_seq(queue@, i, j) && !(i
                        == cx && j == cy) && self.grid.in_bounds(a, b) && adjacent(a, b, i, j)
                        && self.grid.at(a, b).passable() implies visited.at(a, b) by {
                    if in_seq(q_pre, i, j) {
                        let t = choose|t: int|
                            0 <= t < q_pre.len() && (#[trigger] q_pre[t]).0 == i && q_pre[t].1
                                == j;
                        assert(t >= 1);
                        assert(queue@[t - 1] == q_pre[t]);
                        assert(in_seq(queue@, i, j));
                    }
                }
            }
            let mut k: usize = 0;
            let ghost c_budget = visited.count_matching(false) + queue@.len();
            while k < 4
                invariant
                    self.wf(),
                    self.anchors_placed(),
                    sx == self.start_x,
                    sy == self.start_y,
                    ex == self.end_x,
                    ey == self.end_y,
                    k <= 4,
                    visited.wf(),
                    visited.same_dims(self.grid),
                    visited.at(sx as int, sy as int),
                    self.grid.at(sx as int, sy as int).passable(),
                    self.grid.in_bounds(cx as int, cy as int),
                    visited.at(cx as int, cy as int),
                    !(cx == ex && cy == ey),
                    forall|i: int, j: int|
                        self.grid.in_bounds(i, j) && #[trigger] visited.at(i, j)
                            ==> spec_connected(self.grid, sx as int, sy as int, i, j),
                    forall|t: int|
                        0 <= t < queue@.len() ==> self.grid.in_bounds(
                            (#[trigger] queue@[t]).0 as int,
                            queue@[t].1 as int,
                        ) && visited.at(queue@[t].0 as int, queue@[t].1 as int),
                    forall|i: int, j: int, a: int, b: int|
                        #![trigger visited.at(i, j), adjacent(a, b, i, j)]
                        self.grid.in_bounds(i, j) && visited.at(i, j) && !in_seq(queue@, i, j) && !(
                        i == cx && j == cy) && self.grid.in_bounds(a, b) && adjacent(a, b, i, j)
                            && self.grid.at(a, b).passable() ==> visited.at(a, b),
                    forall|kk: int|
                        0 <= kk < k ==> (self.grid.in_bounds(
                            cx + dir_dx(kk),
                            cy + #[trigger] dir_dy(kk),
                        ) && self.grid.at(cx + dir_dx(kk), cy + dir_dy(kk)).passable()
                            ==> visited.at(cx + dir_dx(kk), cy + dir_dy(kk))),
                    visited.at(ex as int, ey as int) ==> in_seq(queue@, ex as int, ey as int),
                    visited.count_matching(false) + queue@.len() == c_budget,
                decreases 4 - k,
            {
                match self.step(cx, cy, k) {
                    Some(p) => {
                        let nx = p.0;
                        let ny = p.1;
                        let c = self.grid.read(nx, ny);
                        if c != RoomType::Wall && c != RoomType::Empty && !visited.read(nx, ny) {
                            let ghost vis_pre = visited;
                            let ghost q_before = queue@;
                            visited.write(nx, ny, true);
                            queue.push((nx, ny));
                            proof {
                                vis_pre.lemma_count_after_write(
                                    visited,
                                    nx as int,
                                    ny as int,
                                    true,
                                    false,
                                );
                                assert(adjacent(nx as int, ny as int, cx as int, cy as int));
                                lemma_path_extend(
                                    self.grid,
                                    sx as int,
                                    sy as int,
                                    cx as int,
                                    cy as int,
                                    nx as int,
                                    ny as int,
                                );
                                assert(in_seq(queue@, nx as int, ny as int)) by {
                                    assert(queue@[queue@.len() - 1] == (nx, ny));
                                }
                                assert forall|i: int, j: int|
                                    in_seq(q_before, i, j) implies in_seq(queue@, i, j) by {
                                    lemma_in_seq_push(q_before, (nx, ny), i, j);
                                    assert(queue@ == q_before.push((nx, ny)));
                                }
                                assert forall|i: int, j: int, a: int, b: int|
                                    #![trigger visited.at(i, j), adjacent(a, b, i, j)]
                                    self.grid.in_bounds(i, j) && visited.at(i, j) && !in_seq(
                                        queue@,
                                        i,
                                        j,
                                    ) && !(i == cx && j == cy) && self.grid.in_bounds(a, b)
                                        && adjacent(a, b, i, j) && self.grid.at(
                                        a,
                                        b,
                                    ).passable() implies visited.at(a, b) by {
                                    assert(!(i == nx && j == ny));
                                    assert(vis_pre.at(i, j));
                                    assert(!in_seq(q_before, i, j));
                                    if !(a == nx && b == ny) {
                                        assert(vis_pre.at(a, b));
                                    }
                                }
                                if visited.at(ex as int, ey as int) {
                                    if ex == nx && ey == ny {
                                    } else {
                                        assert(vis_pre.at(ex as int, ey as int));
                                        assert(in_seq(q_before, ex as int, ey as int));
                                    }
                                }
                            }
                        }
                    },
                    None => {},
                }
                k = k + 1;
            }
            proof {
                assert forall|i: int, j: int, a: int, b: int|
                    #![trigger visited.at(i, j), adjacent(a, b, i, j)]
                    self.grid.in_bounds(i, j) && visited.at(i, j) && !in_seq(queue@, i, j)
                        && self.grid.in_bounds(a, b) && adjacent(a, b, i, j) && self.grid.at(
                        a,
                        b,
                    ).passable() implies visited.at(a, b) by {
                    if i == cx && j == cy {
                        if a == i + 1 && b == j {
                            assert(dir_dx(0) == 1 && dir_dy(0) == 0);
                        } else if a == i - 1 && b == j {
                            assert(dir_dx(1) == -1 && dir_dy(1) == 0);
                        } else if a == i && b == j + 1 {
                            assert(dir_dx(2) == 0 && dir_dy(2) == 1);
                        } else {
                            assert(a == i && b == j - 1);
                            assert(dir_dx(3) == 0 && dir_dy(3) == -1);
                        }
                    }
                }
                assert(visited.count_matching(false) + queue@.len() < measure0);
            }
        }
        proof {
            assert(visited_closed(self.grid, visited));
            assert(!visited.at(ex as int, ey as int));
            if spec_connected(self.grid, sx as int, sy as int, ex as int, ey as int) {
                let p = choose|p: Seq<(int, int)>|
                    is_path(self.grid, p, sx as int, sy as int, ex as int, ey as int);
                lemma_path_stays_visited(
                    self.grid,
                    visited,
                    p,
                    sx as int,
                    sy as int,
                    ex as int,
                    ey as int,
                );
            }
        }
        false
    }
}

} // verus!
