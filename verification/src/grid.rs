use vstd::prelude::*;

verus! {

/// Error returned by the bounds-checked accessors: the coordinate lies
/// outside `[0, width) x [0, height)`.
#[derive(Clone, Copy, Debug, PartialEq, Eq, Structural)]
pub enum GridError {
    OutOfBounds,
}

/// A bounds-checked rectangular matrix stored row-major, addressed as
/// `(x, y)` with `x` running along a row.
pub struct Grid<T> {
    width: usize,
    height: usize,
    cells: Vec<T>,
}

/// Row-major position of `(x, y)` in a grid `w` cells wide.
pub open spec fn row_major(w: int, x: int, y: int) -> int {
    y * w + x
}

pub proof fn lemma_row_major_in_range(w: int, h: int, x: int, y: int)
    by (nonlinear_arith)
    requires
        0 <= x < w,
        0 <= y < h,
    ensures
        0 <= row_major(w, x, y) < w * h,
{
}

pub proof fn lemma_row_major_injective(w: int, x1: int, y1: int, x2: int, y2: int)
    by (nonlinear_arith)
    requires
        0 <= x1 < w,
        0 <= x2 < w,
        0 <= y1,
        0 <= y2,
        row_major(w, x1, y1) == row_major(w, x2, y2),
    ensures
        x1 == x2,
        y1 == y2,
{
}

pub proof fn lemma_row_major_distinct(w: int, x1: int, y1: int, x2: int, y2: int)
    by (nonlinear_arith)
    requires
        0 <= x1 < w,
        0 <= x2 < w,
        0 <= y1,
        0 <= y2,
        !(x1 == x2 && y1 == y2),
    ensures
        row_major(w, x1, y1) != row_major(w, x2, y2),
{
}

impl<T: Copy> Grid<T> {
    pub closed spec fn spec_width(self) -> usize {
        self.width
    }

    pub closed spec fn spec_height(self) -> usize {
        self.height
    }

    /// The backing vector holds exactly one cell per coordinate.
    pub closed spec fn wf(self) -> bool {
        &&& self.cells@.len() == self.width * self.height
        &&& self.width * self.height <= usize::MAX
    }

    /// The whole area fits in a `usize`, so index arithmetic cannot
    /// overflow.
    pub proof fn lemma_wf_area(self)
        requires
            self.wf(),
        ensures
            self.spec_width() * self.spec_height() <= usize::MAX,
    {
    }

    /// The cell at `(x, y)`; meaningful only in bounds.
    pub closed spec fn at(self, x: int, y: int) -> T {
        self.cells@[row_major(self.width as int, x, y)]
    }

    pub open spec fn in_bounds(self, x: int, y: int) -> bool {
        0 <= x < self.spec_width() && 0 <= y < self.spec_height()
    }

    /// Two grids have the same dimensions.
    pub open spec fn same_dims<U: Copy>(self, other: Grid<U>) -> bool {
        self.spec_width() == other.spec_width() && self.spec_height() == other.spec_height()
    }

    pub fn width(&self) -> (r: usize)
        ensures
            r == self.spec_width(),
    {
        self.width
    }

    pub fn height(&self) -> (r: usize)
        ensures
            r == self.spec_height(),
    {
        self.height
    }

    /// A fresh grid with every cell set to `fill`; `None` when one cell
    /// per coordinate cannot be addressed in memory.
    pub fn new(width: usize, height: usize, fill: T) -> (g: Option<Grid<T>>)
        ensures
            width * height <= usize::MAX ==> g is Some,
            match g {
                Some(g) => {
                    &&& g.wf()
                    &&& g.spec_width() == width
                    &&& g.spec_height() == height
                    &&& forall|x: int, y: int| g.in_bounds(x, y) ==> g.at(x, y) == fill
                },
                None => width * height > usize::MAX,
            },
    {
        match width.checked_mul(height) {
            Some(n) => {
                let mut cells: Vec<T> = Vec::new();
                let mut k: usize = 0;
                while k < n
                    invariant
                        k <= n,
                        cells@.len() == k,
                        forall|i: int| 0 <= i < k ==> cells@[i] == fill,
                    decreases n - k,
                {
                    cells.push(fill);
                    k = k + 1;
                }
                let g = Grid { width, height, cells };
                proof {
                    assert forall|x: int, y: int| g.in_bounds(x, y) implies g.at(x, y) == fill by {
                        lemma_row_major_in_range(width as int, height as int, x, y);
                    }
                }
                Some(g)
            },
            None => None,
        }
    }

    /// Unchecked read; the caller shows the coordinate is in bounds.
    pub fn read(&self, x: usize, y: usize) -> (r: T)
        requires
            self.wf(),
            self.in_bounds(x as int, y as int),
        ensures
            r == self.at(x as int, y as int),
    {
        proof {
            lemma_row_major_in_range(self.width as int, self.height as int, x as int, y as int);
        }
        let n = self.cells.len();
        self.cells[y * self.width + x]
    }

    /// Unchecked write; every other cell and the dimensions are kept.
    pub fn write(&mut self, x: usize, y: usize, v: T)
        requires
            old(self).wf(),
            old(self).in_bounds(x as int, y as int),
        ensures
            final(self).wf(),
            final(self).same_dims(*old(self)),
            final(self).at(x as int, y as int) == v,
            forall|i: int, j: int|
                old(self).in_bounds(i, j) && !(i == x && j == y) ==> final(self).at(i, j) == old(
                    self,
                ).at(i, j),
    {
        proof {
            lemma_row_major_in_range(self.width as int, self.height as int, x as int, y as int);
        }
        let n = self.cells.len();
        let idx = y * self.width + x;
        self.cells[idx] = v;
        proof {
            assert forall|i: int, j: int|
                old(self).in_bounds(i, j) && !(i == x && j == y) implies self.at(i, j) == old(
                self,
            ).at(i, j) by {
                lemma_row_major_in_range(self.width as int, self.height as int, i, j);
                lemma_row_major_distinct(self.width as int, i, j, x as int, y as int);
            }
        }
    }

    /// Bounds-checked read: `OutOfBounds` outside the rectangle, never a
    /// silent wraparound.
    pub fn get(&self, x: usize, y: usize) -> (r: Result<T, GridError>)
        requires
            self.wf(),
        ensures
            match r {
                Ok(v) => self.in_bounds(x as int, y as int) && v == self.at(x as int, y as int),
                Err(e) => !self.in_bounds(x as int, y as int) && e == GridError::OutOfBounds,
            },
    {
        if x < self.width && y < self.height {
            Ok(self.read(x, y))
        } else {
            Err(GridError::OutOfBounds)
        }
    }

    /// Bounds-checked write.
    pub fn set(&mut self, x: usize, y: usize, v: T) -> (r: Result<(), GridError>)
        requires
            old(self).wf(),
        ensures
            final(self).wf(),
            final(self).same_dims(*old(self)),
            match r {
                Ok(()) => {
                    &&& old(self).in_bounds(x as int, y as int)
                    &&& final(self).at(x as int, y as int) == v
                    &&& forall|i: int, j: int|
                        old(self).in_bounds(i, j) && !(i == x && j == y) ==> final(self).at(i, j)
                            == old(self).at(i, j)
                },
                Err(e) => {
                    &&& !old(self).in_bounds(x as int, y as int)
                    &&& e == GridError::OutOfBounds
                    &&& *final(self) == *old(self)
                },
            },
    {
        if x < self.width && y < self.height {
            self.write(x, y, v);
            Ok(())
        } else {
            Err(GridError::OutOfBounds)
        }
    }

    /// Set every cell of the rectangle `[x, x+w) x [y, y+h)` to `v`,
    /// leaving all other cells and the dimensions unchanged.
    pub fn fill_rect(&mut self, x: usize, y: usize, w: usize, h: usize, v: T)
        requires
            old(self).wf(),
            x + w <= old(self).spec_width(),
            y + h <= old(self).spec_height(),
        ensures
            final(self).wf(),
            final(self).same_dims(*old(self)),
            forall|i: int, j: int|
                x <= i < x + w && y <= j < y + h ==> final(self).at(i, j) == v,
            forall|i: int, j: int|
                old(self).in_bounds(i, j) && !(x <= i < x + w && y <= j < y + h) ==> final(self).at(
                    i,
                    j,
                ) == old(self).at(i, j),
    {
        let mut row: usize = 0;
        while row < h
            invariant
                old(self).wf(),
                self.wf(),
                self.same_dims(*old(self)),
                x + w <= old(self).spec_width(),
                y + h <= old(self).spec_height(),
                row <= h,
                forall|i: int, j: int|
                    x <= i < x + w && y <= j < y + row ==> self.at(i, j) == v,
                forall|i: int, j: int|
                    old(self).in_bounds(i, j) && !(x <= i < x + w && y <= j < y + row) ==> self.at(
                        i,
                        j,
                    ) == old(self).at(i, j),
            decreases h - row,
        {
            let mut col: usize = 0;
            while col < w
                invariant
                    old(self).wf(),
                    self.wf(),
                    self.same_dims(*old(self)),
                    x + w <= old(self).spec_width(),
                    y + h <= old(self).spec_height(),
                    row < h,
                    col <= w,
                    forall|i: int, j: int|
                        x <= i < x + w && y <= j < y + row ==> self.at(i, j) == v,
                    forall|i: int| x <= i < x + col ==> #[trigger] self.at(i, y + row) == v,
                    forall|i: int, j: int|
                        old(self).in_bounds(i, j) && !(x <= i < x + w && y <= j < y + row) && !(j
                            == y + row && x <= i < x + col) ==> self.at(i, j) == old(self).at(i, j),
                decreases w - col,
            {
                self.write(x + col, y + row, v);
                col = col + 1;
            }
            row = row + 1;
        }
    }

    /// The in-bounds 4-neighborhood of `(x, y)`, with coordinates.
    pub fn neighbors4(&self, x: usize, y: usize) -> (r: Vec<(usize, usize)>)
        requires
            self.wf(),
            self.in_bounds(x as int, y as int),
        ensures
            forall|i: int|
                0 <= i < r@.len() ==> self.in_bounds(r@[i].0 as int, r@[i].1 as int) && adjacent(
                    r@[i].0 as int,
                    r@[i].1 as int,
                    x as int,
                    y as int,
                ),
            forall|nx: int, ny: int|
                self.in_bounds(nx, ny) && adjacent(nx, ny, x as int, y as int) ==> r@.contains(
                    ((nx as usize), (ny as usize)),
                ),
    {
        let mut r: Vec<(usize, usize)> = Vec::new();
        if x + 1 < self.width {
            r.push((x + 1, y));
        }
        if x > 0 {
            r.push((x - 1, y));
        }
        if y + 1 < self.height {
            r.push((x, y + 1));
        }
        if y > 0 {
            r.push((x, y - 1));
        }
        proof {
            assert forall|nx: int, ny: int|
                self.in_bounds(nx, ny) && adjacent(nx, ny, x as int, y as int) implies r@.contains(
                ((nx as usize), (ny as usize)),
            ) by {
                if nx == x + 1 && ny == y {
                    assert(r@[0] == ((nx as usize), (ny as usize)));
                } else if nx == x - 1 && ny == y {
                    let k = if x + 1 < self.width {
                        1int
                    } else {
                        0int
                    };
                    assert(r@[k] == ((nx as usize), (ny as usize)));
                } else if nx == x && ny == y + 1 {
                    let k = r@.len() - (if y > 0 {
                        2int
                    } else {
                        1int
                    });
                    assert(r@[k] == ((nx as usize), (ny as usize)));
                } else {
                    assert(nx == x && ny == y - 1);
                    assert(r@[r@.len() - 1] == ((nx as usize), (ny as usize)));
                }
            }
        }
        r
    }

    /// An owned copy with the same dimensions and cells.
    pub fn duplicate(&self) -> (g: Grid<T>)
        requires
            self.wf(),
        ensures
            g.wf(),
            g.same_dims(*self),
            forall|i: int, j: int| self.in_bounds(i, j) ==> g.at(i, j) == self.at(i, j),
    {
        let mut cells: Vec<T> = Vec::new();
        let n = self.cells.len();
        let mut k: usize = 0;
        while k < n
            invariant
                n == self.cells@.len(),
                k <= n,
                cells@ == self.cells@.subrange(0, k as int),
            decreases n - k,
        {
            cells.push(self.cells[k]);
            proof {
                assert(cells@ =~= self.cells@.subrange(0, k + 1 as int));
            }
            k = k + 1;
        }
        proof {
            assert(cells@ =~= self.cells@);
        }
        let g = Grid { width: self.width, height: self.height, cells };
        proof {
            assert forall|i: int, j: int| self.in_bounds(i, j) implies g.at(i, j) == self.at(
                i,
                j,
            ) by {
                lemma_row_major_in_range(self.width as int, self.height as int, i, j);
            }
        }
        g
    }
}

/// How many entries of `s` equal `v`.
pub open spec fn count_eq_seq<T>(s: Seq<T>, v: T) -> nat
    decreases s.len(),
{
    if s.len() == 0 {
        0
    } else {
        count_eq_seq(s.drop_last(), v) + (if s.last() == v {
            1nat
        } else {
            0nat
        })
    }
}

pub proof fn lemma_count_eq_seq_update<T>(s: Seq<T>, k: int, v: T, tgt: T)
    requires
        0 <= k < s.len(),
    ensures
        count_eq_seq(s.update(k, v), tgt) as int == count_eq_seq(s, tgt) as int - (if s[k] == tgt {
            1int
        } else {
            0int
        }) + (if v == tgt {
            1int
        } else {
            0int
        }),
    decreases s.len(),
{
    let t = s.update(k, v);
    if k == s.len() - 1 {
        assert(t.drop_last() =~= s.drop_last());
        assert(t.last() == v);
        assert(s.last() == s[k]);
    } else {
        lemma_count_eq_seq_update(s.drop_last(), k, v, tgt);
        assert(t.drop_last() =~= s.drop_last().update(k, v));
        assert(t.last() == s.last());
    }
}

pub proof fn lemma_row_major_inverse(w: int, h: int, k: int)
    by (nonlinear_arith)
    requires
        w > 0,
        0 <= k < w * h,
    ensures
        0 <= k % w < w,
        0 <= k / w < h,
        row_major(w, k % w, k / w) == k,
{
}

impl<T: Copy> Grid<T> {
    /// How many cells currently hold `v`.
    pub closed spec fn count_matching(self, v: T) -> nat {
        count_eq_seq(self.cells@, v)
    }

    /// After one cell is overwritten, the number of cells matching any
    /// target changes exactly by the two indicator terms.
    pub proof fn lemma_count_after_write(self, post: Grid<T>, x: int, y: int, v: T, tgt: T)
        requires
            self.wf(),
            post.wf(),
            post.same_dims(self),
            self.in_bounds(x, y),
            post.at(x, y) == v,
            forall|i: int, j: int|
                self.in_bounds(i, j) && !(i == x && j == y) ==> post.at(i, j) == self.at(i, j),
        ensures
            post.count_matching(tgt) as int == self.count_matching(tgt) as int - (if self.at(x, y)
                == tgt {
                1int
            } else {
                0int
            }) + (if v == tgt {
                1int
            } else {
                0int
            }),
    {
        let w = self.width as int;
        let h = self.height as int;
        let idx = row_major(w, x, y);
        lemma_row_major_in_range(w, h, x, y);
        let u = self.cells@.update(idx, v);
        assert forall|k: int| 0 <= k < post.cells@.len() implies post.cells@[k] == u[k] by {
            lemma_row_major_inverse(w, h, k);
            let i = k % w;
            let j = k / w;
            if k == idx {
                assert(post.at(x, y) == v);
                lemma_row_major_injective(w, i, j, x, y);
                assert(post.cells@[k] == post.at(i, j));
            } else {
                assert(!(i == x && j == y));
                assert(post.at(i, j) == self.at(i, j));
                assert(post.cells@[k] == post.at(i, j));
                assert(self.cells@[k] == self.at(i, j));
            }
        }
        assert(post.cells@ =~= u);
        lemma_count_eq_seq_update(self.cells@, idx, v, tgt);
    }
}

/// `(ax, ay)` and `(bx, by)` are 4-connected neighbors.
pub open spec fn adjacent(ax: int, ay: int, bx: int, by: int) -> bool {
    ||| (ax == bx + 1 && ay == by)
    ||| (ax == bx - 1 && ay == by)
    ||| (ax == bx && ay == by + 1)
    ||| (ax == bx && ay == by - 1)
}

} // verus!
