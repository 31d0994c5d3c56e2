use vstd::prelude::*;

use crate::cell::RoomType;
use crate::grid::Grid;

verus! {

/// The RGB color a numeric cell code is rendered with; codes past the
/// named palette fade through a computed gray-cyan ramp.
pub open spec fn spec_to_color(v: nat) -> (u8, u8, u8) {
    if v == 0 {
        (120, 120, 120)
    } else if v == 1 {
        (0, 0, 0)
    } else if v == 2 {
        (128, 128, 128)
    } else if v == 3 {
        (0, 255, 0)
    } else if v == 4 {
        (255, 0, 0)
    } else if v == 5 {
        (255, 165, 0)
    } else if v == 6 {
        (128, 0, 128)
    } else if v == 7 {
        (255, 255, 0)
    } else if v == 8 {
        (0, 255, 255)
    } else if v == 9 {
        (255, 0, 255)
    } else if v == 10 {
        (255, 192, 203)
    } else if v == 11 {
        (0, 128, 0)
    } else {
        ((((v * 3) % 256) as u8), (((v * 12) % 256) as u8), (((v * 12) % 256) as u8))
    }
}

/// Map one cell code to its RGB color.
pub fn to_color(value: u32) -> (r: (u8, u8, u8))
    ensures
        r == spec_to_color(value as nat),
{
    if value == 0 {
        (120, 120, 120)
    } else if value == 1 {
        (0, 0, 0)
    } else if value == 2 {
        (128, 128, 128)
    } else if value == 3 {
        (0, 255, 0)
    } else if value == 4 {
        (255, 0, 0)
    } else if value == 5 {
        (255, 165, 0)
    } else if value == 6 {
        (128, 0, 128)
    } else if value == 7 {
        (255, 255, 0)
    } else if value == 8 {
        (0, 255, 255)
    } else if value == 9 {
        (255, 0, 255)
    } else if value == 10 {
        (255, 192, 203)
    } else if value == 11 {
        (0, 128, 0)
    } else {
        let v = value as u64;
        let red = ((v * 3) % 256) as u8;
        let cyan = ((v * 12) % 256) as u8;
        (red, cyan, cyan)
    }
}

proof fn lemma_block_div(px: int, cx: int)
    by (nonlinear_arith)
    requires
        0 <= cx,
        cx * 5 <= px < cx * 5 + 5,
    ensures
        px / 5 == cx,
{
}

proof fn lemma_div_block(px: int, cx: int)
    by (nonlinear_arith)
    requires
        0 <= px,
        px / 5 == cx,
    ensures
        cx * 5 <= px < cx * 5 + 5,
{
}

/// `img` renders `g` at five-by-five pixels per cell: every pixel
/// carries the color of the cell it lies over.
pub open spec fn frame_of(img: Grid<(u8, u8, u8)>, g: Grid<RoomType>) -> bool {
    &&& img.wf()
    &&& img.spec_width() == g.spec_width() * 5
    &&& img.spec_height() == g.spec_height() * 5
    &&& forall|px: int, py: int|
        img.in_bounds(px, py) ==> img.at(px, py) == spec_to_color(
            g.at(px / 5, py / 5).spec_to_int() as nat,
        )
}

/// A snapshot is small enough to render: five-by-five pixels per cell
/// still fit in memory.
pub open spec fn renderable(g: Grid<RoomType>) -> bool {
    &&& g.wf()
    &&& g.spec_width() * 5 <= usize::MAX
    &&& g.spec_height() * 5 <= usize::MAX
    &&& (g.spec_width() * 5) * (g.spec_height() * 5) <= usize::MAX
}

/// Render a grid of raw numeric codes to an RGB pixel grid, five
/// pixels per cell in each direction.
pub fn create_image_from_values_u(values: &Grid<u32>) -> (img: Grid<(u8, u8, u8)>)
    requires
        values.wf(),
        values.spec_width() * 5 <= usize::MAX,
        values.spec_height() * 5 <= usize::MAX,
        (values.spec_width() * 5) * (values.spec_height() * 5) <= usize::MAX,
    ensures
        img.wf(),
        img.spec_width() == values.spec_width() * 5,
        img.spec_height() == values.spec_height() * 5,
        forall|px: int, py: int|
            img.in_bounds(px, py) ==> img.at(px, py) == spec_to_color(
                values.at(px / 5, py / 5) as nat,
            ),
{
    let w = values.width();
    let h = values.height();
    let img_opt = Grid::<(u8, u8, u8)>::new(w * 5, h * 5, (0u8, 0u8, 0u8));
    let mut img: Grid<(u8, u8, u8)>;
    match img_opt {
        Some(g) => {
            img = g;
        },
        None => {
            proof {
                assert(false);
            }
            return Grid::<(u8, u8, u8)>::new(0, 0, (0u8, 0u8, 0u8)).unwrap();
        },
    }
    let mut cy: usize = 0;
    while cy < h
        invariant
            values.wf(),
            w == values.spec_width(),
            h == values.spec_height(),
            w * 5 <= usize::MAX,
            h * 5 <= usize::MAX,
            (w * 5) * (h * 5) <= usize::MAX,
            cy <= h,
            img.wf(),
            img.spec_width() == w * 5,
            img.spec_height() == h * 5,
            forall|px: int, py: int|
                img.in_bounds(px, py) && py / 5 < cy ==> img.at(px, py) == spec_to_color(
                    values.at(px / 5, py / 5) as nat,
                ),
        decreases h - cy,
    {
        let mut cx: usize = 0;
        while cx < w
            invariant
                values.wf(),
                w == values.spec_width(),
                h == values.spec_height(),
                w * 5 <= usize::MAX,
                h * 5 <= usize::MAX,
                (w * 5) * (h * 5) <= usize::MAX,
                cy < h,
                cx <= w,
                img.wf(),
                img.spec_width() == w * 5,
                img.spec_height() == h * 5,
                forall|px: int, py: int|
                    img.in_bounds(px, py) && py / 5 < cy ==> img.at(px, py) == spec_to_color(
                        values.at(px / 5, py / 5) as nat,
                    ),
                forall|px: int, py: int|
                    img.in_bounds(px, py) && py / 5 == cy && px / 5 < cx ==> img.at(px, py)
                        == spec_to_color(values.at(px / 5, py / 5) as nat),
            decreases w - cx,
        {
            let code = values.read(cx, cy);
            let color = to_color(code);
            proof {
                assert(cx * 5 + 5 <= w * 5 && cy * 5 + 5 <= h * 5) by (nonlinear_arith)
                    requires
                        cx < w,
                        cy < h,
                ;
            }
            let ghost img_pre = img;
            img.fill_rect(cx * 5, cy * 5, 5, 5, color);
            proof {
                assert forall|px: int, py: int|
                    img.in_bounds(px, py) && ((py / 5 < cy) || (py / 5 == cy && px / 5 < cx + 1))
                        implies img.at(px, py) == spec_to_color(
                    values.at(px / 5, py / 5) as nat,
                ) by {
                    if py / 5 == cy && px / 5 == cx {
                        lemma_div_block(px, cx as int);
                        lemma_div_block(py, cy as int);
                        assert(img.at(px, py) == color);
                    } else {
                        if cx * 5 <= px < cx * 5 + 5 && cy * 5 <= py < cy * 5 + 5 {
                            lemma_block_div(px, cx as int);
                            lemma_block_div(py, cy as int);
                        }
                        assert(img.at(px, py) == img_pre.at(px, py));
                    }
                }
            }
            cx = cx + 1;
        }
        proof {
            assert forall|px: int, py: int|
                img.in_bounds(px, py) && py / 5 < cy + 1 implies img.at(px, py) == spec_to_color(
                values.at(px / 5, py / 5) as nat,
            ) by {
                if py / 5 == cy {
                    assert(0 <= px < w * 5);
                    assert(px / 5 < w) by (nonlinear_arith)
                        requires
                            0 <= px < w * 5,
                    ;
                }
            }
        }
        cy = cy + 1;
    }
    proof {
        assert forall|px: int, py: int| img.in_bounds(px, py) implies img.at(px, py)
            == spec_to_color(values.at(px / 5, py / 5) as nat) by {
            assert(0 <= py < h * 5);
            assert(py / 5 < h) by (nonlinear_arith)
                requires
                    0 <= py < h * 5,
            ;
        }
    }
    img
}

/// Render one cell-category snapshot to an RGB pixel grid.
pub fn create_image_from_values(values: &Grid<RoomType>) -> (img: Grid<(u8, u8, u8)>)
    requires
        renderable(*values),
    ensures
        frame_of(img, *values),
{
    let w = values.width();
    let h = values.height();
    proof {
        values.lemma_wf_area();
    }
    let codes_opt = Grid::<u32>::new(w, h, 0u32);
    let mut codes: Grid<u32>;
    match codes_opt {
        Some(g) => {
            codes = g;
        },
        None => {
            proof {
                assert(false);
            }
            return Grid::<(u8, u8, u8)>::new(0, 0, (0u8, 0u8, 0u8)).unwrap();
        },
    }
    let mut y: usize = 0;
    while y < h
        invariant
            values.wf(),
            w == values.spec_width(),
            h == values.spec_height(),
            y <= h,
            codes.wf(),
            codes.same_dims(*values),
            forall|i: int, j: int|
                codes.in_bounds(i, j) && j < y ==> codes.at(i, j) == values.at(i, j).spec_to_int(),
        decreases h - y,
    {
        let mut x: usize = 0;
        while x < w
            invariant
                values.wf(),
                w == values.spec_width(),
                h == values.spec_height(),
                y < h,
                x <= w,
                codes.wf(),
                codes.same_dims(*values),
                forall|i: int, j: int|
                    codes.in_bounds(i, j) && j < y ==> codes.at(i, j) == values.at(
                        i,
                        j,
                    ).spec_to_int(),
                forall|i: int|
                    0 <= i < x ==> #[trigger] codes.at(i, y as int) == values.at(
                        i,
                        y as int,
                    ).spec_to_int(),
            decreases w - x,
        {
            let code = values.read(x, y).to_int();
            codes.write(x, y, code);
            x = x + 1;
        }
        y = y + 1;
    }
    let img = create_image_from_values_u(&codes);
    proof {
        assert forall|px: int, py: int| img.in_bounds(px, py) implies img.at(px, py)
            == spec_to_color(values.at(px / 5, py / 5).spec_to_int() as nat) by {
            assert(px / 5 < w) by (nonlinear_arith)
                requires
                    0 <= px < w * 5,
            ;
            assert(py / 5 < h) by (nonlinear_arith)
                requires
                    0 <= py < h * 5,
            ;
            assert(px / 5 >= 0 && py / 5 >= 0);
            assert(codes.at(px / 5, py / 5) == values.at(px / 5, py / 5).spec_to_int());
        }
    }
    img
}

/// Records grid snapshots taken during generation so a visualizer can
/// replay them. Disabled by default: then recording is a no-op.
pub struct Painter {
    pub disable: bool,
    pub steps: Vec<Grid<RoomType>>,
}

impl Painter {
    pub fn new() -> (p: Painter)
        ensures
            p.disable,
            p.steps@.len() == 0,
    {
        Painter { steps: Vec::new(), disable: true }
    }

    pub fn enable(&mut self)
        ensures
            !final(self).disable,
            final(self).steps == old(self).steps,
    {
        self.disable = false;
    }

    /// Render every recorded snapshot, oldest first, to an RGB pixel
    /// frame, five pixels per cell; with recording disabled there is
    /// nothing to render.
    pub fn paint(&self) -> (r: Vec<Grid<(u8, u8, u8)>>)
        requires
            forall|k: int| 0 <= k < self.steps@.len() ==> renderable(#[trigger] self.steps@[k]),
        ensures
            self.disable ==> r@.len() == 0,
            !self.disable ==> r@.len() == self.steps@.len() && (forall|k: int|
                0 <= k < r@.len() ==> frame_of(#[trigger] r@[k], self.steps@[k])),
    {
        let mut frames: Vec<Grid<(u8, u8, u8)>> = Vec::new();
        if self.disable {
            return frames;
        }
        let n = self.steps.len();
        let mut k: usize = 0;
        while k < n
            invariant
                n == self.steps@.len(),
                k <= n,
                forall|t: int| 0 <= t < self.steps@.len() ==> renderable(#[trigger] self.steps@[t]),
                frames@.len() == k,
                forall|t: int| 0 <= t < k ==> frame_of(#[trigger] frames@[t], self.steps@[t]),
            decreases n - k,
        {
            let img = create_image_from_values(&self.steps[k]);
            frames.push(img);
            k = k + 1;
        }
        frames
    }

    /// Keep one snapshot, unless recording is disabled.
    pub fn add_step(&mut self, step: Grid<RoomType>)
        ensures
            old(self).disable ==> *final(self) == *old(self),
            !old(self).disable ==> final(self).steps@ == old(self).steps@.push(step)
                && final(self).disable == old(self).disable,
    {
        if self.disable {
            return ;
        }
        self.steps.push(step);
    }
}

} // verus!
