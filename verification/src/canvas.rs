//! The off-screen canvas and the stroke compositor.
//!
//! `DrawingCanvas` owns a persistent grayscale pixel buffer. Strokes are
//! composited into the buffer with `stroke`, the buffer is reset with
//! `clear`, re-dimensioned with `resize` (keeping the overlapping content),
//! and turned into a scaled frame, grid overlay included, with `draw`.
//! Every operation's effect is stated pixel by pixel.

use vstd::arithmetic::div_mod::{
    lemma_div_by_multiple, lemma_div_pos_is_pos, lemma_multiply_divide_lt,
};
use vstd::prelude::*;

use crate::geom::{
    blend, blend_px, coord_ok, covers, dist_sq, last_coord_ok, sq, stroke_covers, Point,
    BACKGROUND, DIM_LIMIT, INK, RADIUS_LIMIT,
};

verus! {

/// The persistent off-screen drawing surface: a grid of 8-bit luminance
/// pixels (`BACKGROUND` white when untouched), the active brush radius, and
/// the grid-overlay flag read by `draw`.
pub struct DrawingCanvas {
    width: usize,
    height: usize,
    rows: Vec<Vec<u8>>,
    brush_radius: usize,
    grid: bool,
}

/// The luminance a pixel has after one stroke sample over the canvas `pre`:
/// pixels the sample covers take ink of opacity `pressure`, all others keep
/// their value.
pub open spec fn stroked_pix(
    pre: DrawingCanvas,
    last: Option<Point>,
    p: Point,
    pressure: u8,
    x: int,
    y: int,
) -> u8 {
    if stroke_covers(last, p, pre.radius(), x, y) {
        blend(pre.pix(x, y), pressure)
    } else {
        pre.pix(x, y)
    }
}

/// The luminance of the device pixel `(dx, dy)` when the canvas `c` is
/// presented at the given scale: a black grid line on every `scale`-th
/// device row and column (when the grid flag is set), the correspondingly
/// magnified canvas pixel everywhere else.
pub open spec fn presented_pix(c: DrawingCanvas, scale: int, dx: int, dy: int) -> u8 {
    if c.grid_on() && ((dx % scale == 0 && dx != 0) || (dy % scale == 0 && dy != 0)) {
        INK
    } else {
        c.pix(dx / scale, dy / scale)
    }
}

impl DrawingCanvas {
    /// Canvas width in pixels.
    pub closed spec fn w(&self) -> int {
        self.width as int
    }

    /// Canvas height in pixels.
    pub closed spec fn h(&self) -> int {
        self.height as int
    }

    /// The active brush radius.
    pub closed spec fn radius(&self) -> int {
        self.brush_radius as int
    }

    /// Whether `draw` overlays the pixel grid.
    pub closed spec fn grid_on(&self) -> bool {
        self.grid
    }

    /// Luminance of the pixel at `(x, y)`.
    pub closed spec fn pix(&self, x: int, y: int) -> u8 {
        self.rows@[y]@[x]
    }

    /// The buffer matches the stated dimensions and the brush radius is in
    /// its working range.
    pub closed spec fn wf(&self) -> bool {
        &&& self.width <= DIM_LIMIT
        &&& self.height <= DIM_LIMIT
        &&& 1 <= self.brush_radius <= RADIUS_LIMIT
        &&& self.rows@.len() == self.height
        &&& forall|y: int|
            0 <= y < self.height ==> (#[trigger] self.rows@[y])@.len() == self.width
    }

    /// `(x, y)` lies on the canvas.
    pub open spec fn in_bounds(&self, x: int, y: int) -> bool {
        0 <= x < self.w() && 0 <= y < self.h()
    }

    /// Every pixel has the background color.
    pub open spec fn all_background(&self) -> bool {
        forall|x: int, y: int| self.in_bounds(x, y) ==> #[trigger] self.pix(x, y) == BACKGROUND
    }

    /// Creates a canvas of the given pixel dimensions, pre-filled with the
    /// white background, with the default brush radius and no grid overlay.
    pub fn new(width: u16, height: u16) -> (c: Self)
        ensures
            c.wf(),
            c.w() == width as int,
            c.h() == height as int,
            c.radius() == 3,
            !c.grid_on(),
            c.all_background(),
    {
        DrawingCanvas {
            width: width as usize,
            height: height as usize,
            rows: background_rows(width as usize, height as usize),
            brush_radius: 3,
            grid: false,
        }
    }

    pub fn width(&self) -> (w: usize)
        ensures
            w as int == self.w(),
    {
        self.width
    }

    pub fn height(&self) -> (h: usize)
        ensures
            h as int == self.h(),
    {
        self.height
    }

    pub fn brush_radius(&self) -> (r: usize)
        ensures
            r as int == self.radius(),
    {
        self.brush_radius
    }

    /// Sets the brush radius used by subsequent strokes.
    pub fn set_brush_radius(&mut self, r: usize)
        requires
            old(self).wf(),
            1 <= r <= RADIUS_LIMIT,
        ensures
            final(self).wf(),
            final(self).radius() == r as int,
            final(self).w() == old(self).w(),
            final(self).h() == old(self).h(),
            final(self).grid_on() == old(self).grid_on(),
            forall|x: int, y: int|
                old(self).in_bounds(x, y) ==> #[trigger] final(self).pix(x, y) == old(self).pix(
                    x,
                    y,
                ),
    {
        self.brush_radius = r;
    }

    pub fn grid_enabled(&self) -> (on: bool)
        ensures
            on == self.grid_on(),
    {
        self.grid
    }

    /// Turns the grid overlay of `draw` on or off.
    pub fn set_grid(&mut self, on: bool)
        requires
            old(self).wf(),
        ensures
            final(self).wf(),
            final(self).grid_on() == on,
            final(self).w() == old(self).w(),
            final(self).h() == old(self).h(),
            final(self).radius() == old(self).radius(),
            forall|x: int, y: int|
                old(self).in_bounds(x, y) ==> #[trigger] final(self).pix(x, y) == old(self).pix(
                    x,
                    y,
                ),
    {
        self.grid = on;
    }

    /// Reads the pixel at `(x, y)`.
    pub fn pixel(&self, x: usize, y: usize) -> (v: u8)
        requires
            self.wf(),
            x < self.w(),
            y < self.h(),
        ensures
            v == self.pix(x as int, y as int),
    {
        self.rows[y][x]
    }

    /// Resets every pixel to the background color; dimensions, brush and
    /// grid flag stay as they are.
    pub fn clear(&mut self)
        requires
            old(self).wf(),
        ensures
            final(self).wf(),
            final(self).w() == old(self).w(),
            final(self).h() == old(self).h(),
            final(self).radius() == old(self).radius(),
            final(self).grid_on() == old(self).grid_on(),
            final(self).all_background(),
    {
        self.rows = background_rows(self.width, self.height);
    }

    /// Replaces the buffer with one of the new dimensions: content in the
    /// overlapping region is kept, pixels outside it are dropped, and any
    /// newly added area is background.
    pub fn resize(&mut self, width: u16, height: u16)
        requires
            old(self).wf(),
        ensures
            final(self).wf(),
            final(self).w() == width as int,
            final(self).h() == height as int,
            final(self).radius() == old(self).radius(),
            final(self).grid_on() == old(self).grid_on(),
            forall|x: int, y: int|
                final(self).in_bounds(x, y) ==> #[trigger] final(self).pix(x, y) == (
                if old(self).in_bounds(x, y) {
                    old(self).pix(x, y)
                } else {
                    BACKGROUND
                }),
    {
        let ghost orig: DrawingCanvas = *self;
        let w: usize = width as usize;
        let h: usize = height as usize;
        let mut rows: Vec<Vec<u8>> = Vec::new();
        let mut y: usize = 0;
        while y < h
            invariant
                orig.wf(),
                *self == orig,
                w <= DIM_LIMIT,
                h <= DIM_LIMIT,
                y <= h,
                rows@.len() == y,
                forall|yy: int| 0 <= yy < y ==> (#[trigger] rows@[yy])@.len() == w,
                forall|xx: int, yy: int|
                    0 <= yy < y && 0 <= xx < w ==> #[trigger] rows@[yy]@[xx] == (
                    if orig.in_bounds(xx, yy) {
                        orig.pix(xx, yy)
                    } else {
                        BACKGROUND
                    }),
            decreases h - y,
        {
            let mut row: Vec<u8> = Vec::new();
            let mut x: usize = 0;
            while x < w
                invariant
                    orig.wf(),
                    *self == orig,
                    w <= DIM_LIMIT,
                    y < h,
                    x <= w,
                    row@.len() == x,
                    forall|xx: int|
                        0 <= xx < x ==> #[trigger] row@[xx] == (
                        if orig.in_bounds(xx, y as int) {
                            orig.pix(xx, y as int)
                        } else {
                            BACKGROUND
                        }),
                decreases w - x,
            {
                let v: u8 = if x < self.width && y < self.height {
                    self.rows[y][x]
                } else {
                    BACKGROUND
                };
                row.push(v);
                x += 1;
            }
            rows.push(row);
            y += 1;
        }
        self.rows = rows;
        self.width = w;
        self.height = h;
    }

    /// Composites one stroke sample into the buffer: every covered pixel
    /// takes black ink of opacity `pressure`, every other pixel is left
    /// alone. With no previous point the sample paints a filled disc of the
    /// brush radius; with one it paints the thick segment between the two
    /// points (`stroke_covers` says exactly which pixels that is).
    pub fn stroke(&mut self, last_point: Option<Point>, point: Point, pressure: u8)
        requires
            old(self).wf(),
            coord_ok(point),
            last_coord_ok(last_point),
        ensures
            final(self).wf(),
            final(self).w() == old(self).w(),
            final(self).h() == old(self).h(),
            final(self).radius() == old(self).radius(),
            final(self).grid_on() == old(self).grid_on(),
            forall|x: int, y: int|
                final(self).in_bounds(x, y) ==> #[trigger] final(self).pix(x, y) == stroked_pix(
                    *old(self),
                    last_point,
                    point,
                    pressure,
                    x,
                    y,
                ),
    {
        let ghost orig: DrawingCanvas = *self;
        let mut y: usize = 0;
        while y < self.height
            invariant
                orig.wf(),
                self.wf(),
                self.width == orig.width,
                self.height == orig.height,
                self.brush_radius == orig.brush_radius,
                self.grid == orig.grid,
                coord_ok(point),
                last_coord_ok(last_point),
                y <= self.height,
                forall|xx: int, yy: int|
                    0 <= yy < y && 0 <= xx < self.w() ==> #[trigger] self.pix(xx, yy)
                        == stroked_pix(orig, last_point, point, pressure, xx, yy),
                forall|xx: int, yy: int|
                    y <= yy < self.h() && 0 <= xx < self.w() ==> #[trigger] self.pix(xx, yy)
                        == orig.pix(xx, yy),
            decreases self.height - y,
        {
            let mut x: usize = 0;
            while x < self.width
                invariant
                    orig.wf(),
                    self.wf(),
                    self.width == orig.width,
                    self.height == orig.height,
                    self.brush_radius == orig.brush_radius,
                    self.grid == orig.grid,
                    coord_ok(point),
                    last_coord_ok(last_point),
                    y < self.height,
                    x <= self.width,
                    forall|xx: int, yy: int|
                        0 <= yy < y && 0 <= xx < self.w() ==> #[trigger] self.pix(xx, yy)
                            == stroked_pix(orig, last_point, point, pressure, xx, yy),
                    forall|xx: int|
                        0 <= xx < x ==> #[trigger] self.pix(xx, y as int) == stroked_pix(
                            orig,
                            last_point,
                            point,
                            pressure,
                            xx,
                            y as int,
                        ),
                    forall|xx: int|
                        x <= xx < self.w() ==> #[trigger] self.pix(xx, y as int) == orig.pix(
                            xx,
                            y as int,
                        ),
                    forall|xx: int, yy: int|
                        y < yy < self.h() && 0 <= xx < self.w() ==> #[trigger] self.pix(xx, yy)
                            == orig.pix(xx, yy),
                decreases self.width - x,
            {
                let ghost before: DrawingCanvas = *self;
                proof {
                    assert(before.pix(x as int, y as int) == orig.pix(x as int, y as int));
                }
                if covers(&last_point, &point, self.brush_radius, x, y) {
                    let p: u8 = self.rows[y][x];
                    self.rows[y][x] = blend_px(p, pressure);
                }
                proof {
                    assert forall|xx: int, yy: int|
                        0 <= xx < self.w() && 0 <= yy < self.h() && !(xx == x as int && yy
                            == y as int) implies #[trigger] self.pix(xx, yy) == before.pix(
                        xx,
                        yy,
                    ) by {};
                    assert(self.pix(x as int, y as int) == stroked_pix(
                        orig,
                        last_point,
                        point,
                        pressure,
                        x as int,
                        y as int,
                    ));
                }
                x += 1;
            }
            y += 1;
        }
    }

    /// Presents the canvas as a frame of device pixels, each canvas pixel
    /// magnified `scale` times, with a one-pixel black grid line on every
    /// `scale`-th device row and column when the grid flag is set (the
    /// overlay itself is never scaled). The buffer is not changed: drawing
    /// targets the internal buffer until a frame is asked for.
    pub fn draw(&self, scale: u16) -> (frame: Vec<Vec<u8>>)
        requires
            self.wf(),
            1 <= scale,
            self.w() * scale as int <= DIM_LIMIT as int,
            self.h() * scale as int <= DIM_LIMIT as int,
        ensures
            frame@.len() == self.h() * scale as int,
            forall|dy: int|
                0 <= dy < self.h() * scale as int ==> (#[trigger] frame@[dy])@.len() == self.w()
                    * scale as int,
            forall|dx: int, dy: int|
                0 <= dx < self.w() * scale as int && 0 <= dy < self.h() * scale as int
                    ==> #[trigger] frame@[dy]@[dx] == presented_pix(*self, scale as int, dx, dy),
    {
        let s: usize = scale as usize;
        let wdev: usize = self.width * s;
        let hdev: usize = self.height * s;
        let mut frame: Vec<Vec<u8>> = Vec::new();
        let mut dy: usize = 0;
        while dy < hdev
            invariant
                self.wf(),
                1 <= s,
                wdev == self.w() * s,
                hdev == self.h() * s,
                wdev <= DIM_LIMIT,
                hdev <= DIM_LIMIT,
                dy <= hdev,
                frame@.len() == dy,
                forall|yy: int| 0 <= yy < dy ==> (#[trigger] frame@[yy])@.len() == wdev,
                forall|xx: int, yy: int|
                    0 <= yy < dy && 0 <= xx < wdev ==> #[trigger] frame@[yy]@[xx] == presented_pix(
                        *self,
                        s as int,
                        xx,
                        yy,
                    ),
            decreases hdev - dy,
        {
            let sy: usize = dy / s;
            proof {
                assert(s as int * self.h() == self.h() * s as int) by (nonlinear_arith);
                lemma_multiply_divide_lt(dy as int, s as int, self.h());
                lemma_div_pos_is_pos(dy as int, s as int);
            }
            let mut row: Vec<u8> = Vec::new();
            let mut dx: usize = 0;
            while dx < wdev
                invariant
                    self.wf(),
                    1 <= s,
                    wdev == self.w() * s,
                    wdev <= DIM_LIMIT,
                    dy < hdev,
                    sy == dy as int / s as int,
                    0 <= sy < self.h(),
                    dx <= wdev,
                    row@.len() == dx,
                    forall|xx: int|
                        0 <= xx < dx ==> #[trigger] row@[xx] == presented_pix(
                            *self,
                            s as int,
                            xx,
                            dy as int,
                        ),
                decreases wdev - dx,
            {
                let sx: usize = dx / s;
                proof {
                    assert(s as int * self.w() == self.w() * s as int) by (nonlinear_arith);
                    lemma_multiply_divide_lt(dx as int, s as int, self.w());
                    lemma_div_pos_is_pos(dx as int, s as int);
                }
                let on_grid: bool = self.grid && ((dx % s == 0 && dx != 0) || (dy % s == 0 && dy
                    != 0));
                let v: u8 = if on_grid {
                    INK
                } else {
                    self.rows[sy][sx]
                };
                row.push(v);
                dx += 1;
            }
            frame.push(row);
            dy += 1;
        }
        frame
    }
}

/// One all-background row of the given width.
fn background_row(width: usize) -> (row: Vec<u8>)
    ensures
        row@.len() == width,
        forall|x: int| 0 <= x < width ==> #[trigger] row@[x] == BACKGROUND,
{
    let mut row: Vec<u8> = Vec::new();
    let mut x: usize = 0;
    while x < width
        invariant
            x <= width,
            row@.len() == x,
            forall|j: int| 0 <= j < x ==> #[trigger] row@[j] == BACKGROUND,
        decreases width - x,
    {
        row.push(BACKGROUND);
        x += 1;
    }
    row
}

/// An all-background buffer of the given dimensions.
fn background_rows(width: usize, height: usize) -> (rows: Vec<Vec<u8>>)
    ensures
        rows@.len() == height,
        forall|y: int| 0 <= y < height ==> (#[trigger] rows@[y])@.len() == width,
        forall|x: int, y: int|
            0 <= y < height && 0 <= x < width ==> #[trigger] rows@[y]@[x] == BACKGROUND,
{
    let mut rows: Vec<Vec<u8>> = Vec::new();
    let mut y: usize = 0;
    while y < height
        invariant
            y <= height,
            rows@.len() == y,
            forall|yy: int| 0 <= yy < y ==> (#[trigger] rows@[yy])@.len() == width,
            forall|xx: int, yy: int|
                0 <= yy < y && 0 <= xx < width ==> #[trigger] rows@[yy]@[xx] == BACKGROUND,
        decreases height - y,
    {
        rows.push(background_row(width));
        y += 1;
    }
    rows
}

/// Law: a cleared canvas looks like a freshly created one. Two canvases of
/// the same dimensions and grid setting whose pixels are all background —
/// however many strokes went before a `clear`, and none on a new canvas —
/// present the very same frame at every scale.
pub proof fn lemma_reset_presents_as_new(a: DrawingCanvas, b: DrawingCanvas, scale: int)
    requires
        a.wf(),
        b.wf(),
        a.w() == b.w(),
        a.h() == b.h(),
        a.grid_on() == b.grid_on(),
        a.all_background(),
        b.all_background(),
        1 <= scale,
    ensures
        forall|x: int, y: int|
            a.in_bounds(x, y) ==> #[trigger] a.pix(x, y) == b.pix(x, y),
        forall|dx: int, dy: int|
            0 <= dx < a.w() * scale && 0 <= dy < a.h() * scale ==> presented_pix(a, scale, dx, dy)
                == presented_pix(b, scale, dx, dy),
{
    assert forall|dx: int, dy: int|
        0 <= dx < a.w() * scale && 0 <= dy < a.h() * scale implies presented_pix(a, scale, dx, dy)
        == presented_pix(b, scale, dx, dy) by {
        assert(scale * a.w() == a.w() * scale) by (nonlinear_arith);
        assert(scale * a.h() == a.h() * scale) by (nonlinear_arith);
        lemma_multiply_divide_lt(dx, scale, a.w());
        lemma_multiply_divide_lt(dy, scale, a.h());
        lemma_div_pos_is_pos(dx, scale);
        lemma_div_pos_is_pos(dy, scale);
        assert(a.in_bounds(dx / scale, dy / scale));
        assert(b.in_bounds(dx / scale, dy / scale));
    }
}

/// Law: a transparent stroke is invisible. A stroke sample of pressure `0`
/// leaves every pixel of the canvas exactly as it was, whatever its points.
pub proof fn lemma_transparent_stroke_invisible(
    pre: DrawingCanvas,
    last: Option<Point>,
    p: Point,
)
    requires
        pre.wf(),
    ensures
        forall|x: int, y: int|
            pre.in_bounds(x, y) ==> stroked_pix(pre, last, p, 0, x, y) == pre.pix(x, y),
{
    assert forall|x: int, y: int|
        pre.in_bounds(x, y) implies stroked_pix(pre, last, p, 0, x, y) == pre.pix(x, y) by {
        lemma_blend_transparent(pre.pix(x, y));
    }
}

/// Blending ink of opacity `0` over a pixel returns the pixel.
pub proof fn lemma_blend_transparent(v: u8)
    ensures
        blend(v, 0) == v,
{
    lemma_div_by_multiple(v as int, 255);
}

/// Law: a stroke start marks its point. A sample with no previous point and
/// full pressure turns the pixel at its point ink black — a non-background
/// mark — and every pixel farther from the point than the brush radius
/// keeps its old value.
pub proof fn lemma_stroke_start_marks(pre: DrawingCanvas, p: Point)
    requires
        pre.wf(),
        pre.in_bounds(p.x as int, p.y as int),
    ensures
        stroked_pix(pre, Option::None, p, 255, p.x as int, p.y as int) == INK,
        forall|x: int, y: int|
            pre.in_bounds(x, y) && dist_sq(x, y, p.x as int, p.y as int) > sq(pre.radius())
                ==> stroked_pix(pre, Option::None, p, 255, x, y) == pre.pix(x, y),
{
    assert(0 <= pre.radius() * pre.radius()) by (nonlinear_arith)
        requires
            1 <= pre.radius(),
    ;
    assert(dist_sq(p.x as int, p.y as int, p.x as int, p.y as int) == 0);
    assert(blend(pre.pix(p.x as int, p.y as int), 255) == 0);
}

} // verus!
