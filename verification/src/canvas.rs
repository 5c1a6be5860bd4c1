//! The RGBA pixel canvas a waveform is drawn on, and the shapes drawn on it.
//!
//! Every drawing operation is specified as painting a [`Shape`]: the pixels
//! of the canvas that lie inside the shape take the drawing color, the others
//! keep theirs. Points of a shape that fall outside the canvas are ignored.
use vstd::prelude::*;

use crate::color::Color;
use crate::pixels::{
    buffer_filled, buffer_get, buffer_height, buffer_height_of, buffer_into_raw, buffer_pixels, buffer_put, buffer_width,
    buffer_width_of, PixelBuffer,
};
use crate::waveform::{max_int, min_int};

verus! {

/// A set of points of the plane, as a predicate on `(x, y)`.
pub type Shape = spec_fn(int, int) -> bool;

/// `img` (a `w`-wide row-major pixel grid) with every pixel inside `shape` set to `c`.
pub open spec fn paint(img: Seq<Color>, w: int, shape: Shape, c: Color) -> Seq<Color> {
    Seq::new(img.len(), |i: int| if shape(i % w, i / w) { c } else { img[i] })
}

/// The single point `(x, y)`.
pub open spec fn dot(x: int, y: int) -> Shape {
    |a: int, b: int| a == x && b == y
}

/// The points of `s` and of `t`.
pub open spec fn union(s: Shape, t: Shape) -> Shape {
    |a: int, b: int| s(a, b) || t(a, b)
}

/// The points of a filled rectangle with inclusive corners; empty when the
/// corners are reversed.
pub open spec fn rect(left: int, top: int, right: int, bottom: int) -> Shape {
    |a: int, b: int| left <= a <= right && top <= b <= bottom
}

/// The points of a vertical segment from `(x, y1)` to `(x, y2)`, inclusive.
pub open spec fn vline(x: int, y1: int, y2: int) -> Shape {
    rect(x, min_int(y1, y2), x, max_int(y1, y2))
}

/// The points of a horizontal segment from `(x1, y)` to `(x2, y)`, inclusive.
pub open spec fn hline(x1: int, x2: int, y: int) -> Shape {
    rect(min_int(x1, x2), y, max_int(x1, x2), y)
}

/// A quarter of the plane around a circle center.
#[derive(Clone, Copy, Debug, PartialEq, Eq, Structural)]
pub enum Quadrant {
    /// Up and to the left of the center.
    TopLeft,
    /// Up and to the right of the center.
    TopRight,
    /// Down and to the left of the center.
    BottomLeft,
    /// Down and to the right of the center.
    BottomRight,
}

/// The offset `(dx, dy)` from a center lies in quadrant `q` (axes included).
pub open spec fn in_quadrant(q: Quadrant, dx: int, dy: int) -> bool {
    match q {
        Quadrant::TopLeft => dx <= 0 && dy <= 0,
        Quadrant::TopRight => dx >= 0 && dy <= 0,
        Quadrant::BottomLeft => dx <= 0 && dy >= 0,
        Quadrant::BottomRight => dx >= 0 && dy >= 0,
    }
}

/// The integer points of the closed disc of radius `r` around `(cx, cy)` that
/// lie in quadrant `q`.
pub open spec fn quarter_circle(cx: int, cy: int, r: int, q: Quadrant) -> Shape {
    |a: int, b: int|
        -r <= a - cx <= r && -r <= b - cy <= r && (a - cx) * (a - cx) + (b - cy) * (b - cy) <= r
            * r && in_quadrant(q, a - cx, b - cy)
}

/// The points of `quarter_circle(cx, cy, r, q)` whose row offset is below
/// `row`, or equal to `row` with a column offset below `col`.
pub open spec fn quarter_upto(cx: int, cy: int, r: int, q: Quadrant, row: int, col: int) -> Shape {
    |a: int, b: int|
        quarter_circle(cx, cy, r, q)(a, b) && (b - cy < row || (b - cy == row && a - cx < col))
}

/// A filled rectangle with inclusive corners whose corners are rounded with
/// quarter circles of radius `radius`.
pub open spec fn rounded_rect(left: int, top: int, right: int, bottom: int, radius: int) -> Shape {
    let lx = left + radius;
    let ty = top + radius;
    let rx = right - radius;
    let by = bottom - radius;
    let sides = union(union(rect(left, ty, right, by), rect(lx, top, rx, ty)), rect(lx, by, rx, bottom));
    let top_corners = union(
        union(sides, quarter_circle(lx, ty, radius, Quadrant::TopLeft)),
        quarter_circle(rx, ty, radius, Quadrant::TopRight),
    );
    union(top_corners, quarter_circle(lx, by, radius, Quadrant::BottomLeft))
}

/// The rounded rectangle including its bottom-right corner.
pub open spec fn rounded_rect_shape(left: int, top: int, right: int, bottom: int, radius: int) -> Shape {
    union(
        rounded_rect(left, top, right, bottom, radius),
        quarter_circle(right - radius, bottom - radius, radius, Quadrant::BottomRight),
    )
}

/// A pixel canvas of `width` by `height` RGBA colors, stored row by row.
#[derive(Debug)]
pub struct Canvas {
    pixels: PixelBuffer,
}

/// The mathematical content of a [`Canvas`].
pub struct CanvasView {
    pub width: u32,
    pub height: u32,
    /// Pixel `(x, y)` is at index `y * width + x`.
    pub pixels: Seq<Color>,
}

impl CanvasView {
    /// Pixels fill the grid exactly.
    pub open spec fn well_formed(self) -> bool {
        self.pixels.len() == self.width as int * self.height as int
    }

    /// The color of pixel `(x, y)`.
    pub open spec fn at(self, x: int, y: int) -> Color {
        self.pixels[y * self.width + x]
    }

    /// The canvas with every pixel of `shape` that lies on it set to `c`.
    pub open spec fn painted(self, shape: Shape, c: Color) -> CanvasView {
        CanvasView { pixels: paint(self.pixels, self.width as int, shape, c), ..self }
    }
}

/// Component `k` (red, green, blue, alpha) of a color.
pub open spec fn channel_byte(c: Color, k: int) -> u8 {
    if k == 0 {
        c.red
    } else if k == 1 {
        c.green
    } else if k == 2 {
        c.blue
    } else {
        c.alpha
    }
}

/// Pixels as RGBA bytes, four per pixel.
pub open spec fn rgba_bytes(pixels: Seq<Color>) -> Seq<u8> {
    Seq::new(4 * pixels.len(), |i: int| channel_byte(pixels[i / 4], i % 4))
}

/// A `width` by `height` canvas with every pixel set to `c`.
pub open spec fn blank(width: u32, height: u32, c: Color) -> CanvasView {
    CanvasView {
        width,
        height,
        pixels: Seq::new((width as int * height as int) as nat, |i: int| c),
    }
}

impl View for Canvas {
    type V = CanvasView;

    closed spec fn view(&self) -> CanvasView {
        CanvasView {
            width: buffer_width(self.pixels),
            height: buffer_height(self.pixels),
            pixels: buffer_pixels(self.pixels),
        }
    }
}

/// Index arithmetic of a row-major grid.
pub proof fn lemma_grid_index(w: int, x: int, y: int)
    requires
        0 <= x < w,
        0 <= y,
    ensures
        (y * w + x) % w == x,
        (y * w + x) / w == y,
{
    vstd::arithmetic::div_mod::lemma_fundamental_div_mod_converse(y * w + x, w, y, x);
}

/// Every index of a grid lies on the grid.
pub proof fn lemma_grid_bounds(w: int, h: int, i: int)
    requires
        0 <= i < w * h,
        w > 0,
    ensures
        0 <= i % w < w,
        0 <= i / w < h,
        i == (i / w) * w + i % w,
{
    vstd::arithmetic::div_mod::lemma_fundamental_div_mod(i, w);
    assert(w * (i / w) == (i / w) * w) by (nonlinear_arith);
    assert(i / w < h) by (nonlinear_arith)
        requires
            0 <= i < w * h,
            w > 0,
            i == (i / w) * w + i % w,
            0 <= i % w < w,
    ;
    assert(0 <= i / w) by (nonlinear_arith)
        requires
            0 <= i,
            w > 0,
    ;
}

/// Shapes that agree on every pixel of the canvas paint it alike.
pub proof fn lemma_painted_agree(v: CanvasView, s: Shape, t: Shape, c: Color)
    requires
        v.well_formed(),
        forall|a: int, b: int| 0 <= a < v.width && 0 <= b < v.height ==> #[trigger] s(a, b) == t(a, b),
    ensures
        v.painted(s, c) == v.painted(t, c),
{
    let w = v.width as int;
    let h = v.height as int;
    let l = paint(v.pixels, w, s, c);
    let r = paint(v.pixels, w, t, c);
    assert forall|i: int| 0 <= i < v.pixels.len() implies l[i] == r[i] by {
        lemma_grid_bounds(w, h, i);
        assert(s(i % w, i / w) == t(i % w, i / w));
    }
    assert(l =~= r);
}

/// Painting a shape with no pixel on the canvas changes nothing.
pub proof fn lemma_painted_none(v: CanvasView, s: Shape, c: Color)
    requires
        v.well_formed(),
        forall|a: int, b: int| 0 <= a < v.width && 0 <= b < v.height ==> !#[trigger] s(a, b),
    ensures
        v.painted(s, c) == v,
{
    let w = v.width as int;
    let h = v.height as int;
    let l = paint(v.pixels, w, s, c);
    assert forall|i: int| 0 <= i < v.pixels.len() implies l[i] == v.pixels[i] by {
        lemma_grid_bounds(w, h, i);
        assert(!s(i % w, i / w));
    }
    assert(l =~= v.pixels);
}

/// Painting two shapes in one color is painting their union.
pub proof fn lemma_painted_twice(v: CanvasView, s: Shape, t: Shape, c: Color)
    ensures
        v.painted(s, c).painted(t, c) == v.painted(union(s, t), c),
{
    let w = v.width as int;
    assert(paint(paint(v.pixels, w, s, c), w, t, c) =~= paint(v.pixels, w, union(s, t), c));
}

impl Canvas {
    /// The canvas invariant.
    pub open spec fn wf(&self) -> bool {
        self@.well_formed()
    }

    /// A `width` by `height` canvas with every pixel set to `color`.
    pub fn filled(width: u32, height: u32, color: Color) -> (r: Canvas)
        requires
            4 * (width as int * height as int) <= usize::MAX,
        ensures
            r.wf(),
            r@ == blank(width, height, color),
    {
        let c = Canvas { pixels: buffer_filled(width, height, color) };
        assert(c@.pixels =~= blank(width, height, color).pixels);
        c
    }

    /// Canvas width in pixels.
    pub fn width(&self) -> (r: u32)
        ensures
            r == self@.width,
    {
        buffer_width_of(&self.pixels)
    }

    /// Canvas height in pixels.
    pub fn height(&self) -> (r: u32)
        ensures
            r == self@.height,
    {
        buffer_height_of(&self.pixels)
    }

    /// The color of the pixel at `(x, y)`.
    pub fn pixel(&self, x: u32, y: u32) -> (r: Color)
        requires
            self.wf(),
            x < self@.width,
            y < self@.height,
        ensures
            r == self@.at(x as int, y as int),
    {
        buffer_get(&self.pixels, x, y)
    }

    /// The pixels as RGBA bytes, row by row.
    pub fn into_raw(self) -> (r: Vec<u8>)
        requires
            self.wf(),
        ensures
            r@ == rgba_bytes(self@.pixels),
    {
        buffer_into_raw(self.pixels)
    }

    /// Sets the pixel at `(x, y)` when it lies on the canvas.
    pub fn put_pixel(&mut self, x: i64, y: i64, color: Color)
        requires
            old(self).wf(),
        ensures
            final(self).wf(),
            final(self)@ == old(self)@.painted(dot(x as int, y as int), color),
    {
        let ghost img = self@.pixels;
        let width = self.width();
        let height = self.height();
        let ghost w = width as int;
        let ghost h = height as int;
        if x >= 0 && y >= 0 && x < width as i64 && y < height as i64 {
            proof {
                assert(y * w + x < w * h) by (nonlinear_arith)
                    requires
                        0 <= x < w,
                        0 <= y < h,
                ;
                assert(y * w <= y * w + x);
            }
            buffer_put(&mut self.pixels, x as u32, y as u32, color);
            proof {
                let target = paint(img, w, dot(x as int, y as int), color);
                assert forall|i: int| 0 <= i < img.len() implies self@.pixels[i] == target[i] by {
                    lemma_grid_bounds(w, h, i);
                    lemma_grid_index(w, x as int, y as int);
                    if i % w == x && i / w == y {
                        assert(i == y * w + x);
                    }
                }
                assert(self@.pixels =~= target);
            }
        } else {
            proof {
                lemma_painted_none(old(self)@, dot(x as int, y as int), color);
            }
        }
    }

    /// Fills the rectangle with inclusive corners `(left, top)` and
    /// `(right, bottom)`, clipped to the canvas.
    pub fn fill_rect(&mut self, left: i64, top: i64, right: i64, bottom: i64, color: Color)
        requires
            old(self).wf(),
        ensures
            final(self).wf(),
            final(self)@ == old(self)@.painted(
                rect(left as int, top as int, right as int, bottom as int),
                color,
            ),
    {
        let ghost v0 = self@;
        let w = self.width() as i64;
        let h = self.height() as i64;
        let x0 = if left > 0 { left } else { 0 };
        let x1 = if right < w - 1 { right } else { w - 1 };
        let y0 = if top > 0 { top } else { 0 };
        let y1 = if bottom < h - 1 { bottom } else { h - 1 };
        proof {
            lemma_painted_none(v0, rect(x0 as int, y0 as int, x1 as int, y0 - 1), color);
        }
        let mut y = y0;
        while y <= y1
            invariant
                self.wf(),
                self@.width == v0.width,
                self@.height == v0.height,
                v0.well_formed(),
                0 <= x0,
                x1 < w,
                w == v0.width,
                h == v0.height,
                y0 >= 0,
                y1 < h,
                y0 <= y,
                y <= y1 + 1 || y == y0,
                self@ == v0.painted(rect(x0 as int, y0 as int, x1 as int, y - 1), color),
            decreases h - y,
        {
            proof {
                lemma_painted_none(v0.painted(rect(x0 as int, y0 as int, x1 as int, y - 1), color), rect(x0 as int, y as int, x0 - 1, y as int), color);
                lemma_painted_twice(v0, rect(x0 as int, y0 as int, x1 as int, y - 1), rect(x0 as int, y as int, x0 - 1, y as int), color);
            }
            let mut x = x0;
            while x <= x1
                invariant
                    self.wf(),
                    self@.width == v0.width,
                    self@.height == v0.height,
                    v0.well_formed(),
                    0 <= x0 <= x,
                    x <= x1 + 1 || x == x0,
                    x1 < w,
                    w == v0.width,
                    0 <= y < h,
                    h == v0.height,
                    self@ == v0.painted(
                        union(rect(x0 as int, y0 as int, x1 as int, y - 1), rect(x0 as int, y as int, x - 1, y as int)),
                        color,
                    ),
                decreases w - x,
            {
                self.put_pixel(x, y, color);
                proof {
                    let u = union(rect(x0 as int, y0 as int, x1 as int, y - 1), rect(x0 as int, y as int, x - 1, y as int));
                    let u2 = union(rect(x0 as int, y0 as int, x1 as int, y - 1), rect(x0 as int, y as int, x as int, y as int));
                    lemma_painted_twice(v0, u, dot(x as int, y as int), color);
                    lemma_painted_agree(v0, union(u, dot(x as int, y as int)), u2, color);
                }
                x = x + 1;
            }
            proof {
                let u = union(rect(x0 as int, y0 as int, x1 as int, y - 1), rect(x0 as int, y as int, x - 1, y as int));
                lemma_painted_agree(v0, u, rect(x0 as int, y0 as int, x1 as int, y as int), color);
            }
            y = y + 1;
        }
        proof {
            lemma_painted_agree(
                v0,
                rect(x0 as int, y0 as int, x1 as int, y - 1),
                rect(left as int, top as int, right as int, bottom as int),
                color,
            );
        }
    }

    /// Draws the vertical segment from `(x, y1)` to `(x, y2)`.
    pub fn draw_vertical_line(&mut self, x: i64, y1: i64, y2: i64, color: Color)
        requires
            old(self).wf(),
        ensures
            final(self).wf(),
            final(self)@ == old(self)@.painted(vline(x as int, y1 as int, y2 as int), color),
    {
        let start = if y1 < y2 { y1 } else { y2 };
        let end = if y1 < y2 { y2 } else { y1 };
        self.fill_rect(x, start, x, end, color);
        proof {
            lemma_painted_agree(
                old(self)@,
                rect(x as int, start as int, x as int, end as int),
                vline(x as int, y1 as int, y2 as int),
                color,
            );
        }
    }

    /// Draws the horizontal segment from `(x1, y)` to `(x2, y)`.
    pub fn draw_horizontal_line(&mut self, x1: i64, x2: i64, y: i64, color: Color)
        requires
            old(self).wf(),
        ensures
            final(self).wf(),
            final(self)@ == old(self)@.painted(hline(x1 as int, x2 as int, y as int), color),
    {
        let start = if x1 < x2 { x1 } else { x2 };
        let end = if x1 < x2 { x2 } else { x1 };
        self.fill_rect(start, y, end, y, color);
        proof {
            lemma_painted_agree(
                old(self)@,
                rect(start as int, y as int, end as int, y as int),
                hline(x1 as int, x2 as int, y as int),
                color,
            );
        }
    }

    /// Fills the points of the disc of radius `radius` around
    /// `(center_x, center_y)` that lie in `quadrant`.
    pub fn fill_quarter_circle(
        &mut self,
        center_x: i64,
        center_y: i64,
        radius: i64,
        quadrant: Quadrant,
        color: Color,
    )
        requires
            old(self).wf(),
            0 <= radius <= 0x4000_0000,
            -0x4000_0000_0000_0000 <= center_x <= 0x4000_0000_0000_0000,
            -0x4000_0000_0000_0000 <= center_y <= 0x4000_0000_0000_0000,
        ensures
            final(self).wf(),
            final(self)@ == old(self)@.painted(
                quarter_circle(center_x as int, center_y as int, radius as int, quadrant),
                color,
            ),
    {
        let ghost v0 = self@;
        let ghost cx = center_x as int;
        let ghost cy = center_y as int;
        let ghost r = radius as int;
        proof {
            assert(radius * radius <= 0x1000_0000_0000_0000) by (nonlinear_arith)
                requires
                    0 <= radius <= 0x4000_0000,
            ;
        }
        let radius_sq = radius * radius;
        proof {
            lemma_painted_none(v0, quarter_upto(cx, cy, r, quadrant, -r, -r), color);
        }
        let mut dy = -radius;
        while dy <= radius
            invariant
                self.wf(),
                self@.width == v0.width,
                self@.height == v0.height,
                v0.well_formed(),
                0 <= radius <= 0x4000_0000,
                r == radius,
                cx == center_x,
                cy == center_y,
                -0x4000_0000_0000_0000 <= center_x <= 0x4000_0000_0000_0000,
                -0x4000_0000_0000_0000 <= center_y <= 0x4000_0000_0000_0000,
                radius_sq == radius * radius,
                -radius <= dy <= radius + 1,
                self@ == v0.painted(quarter_upto(cx, cy, r, quadrant, dy as int, -r), color),
            decreases radius + 1 - dy,
        {
            let mut dx = -radius;
            while dx <= radius
                invariant
                    self.wf(),
                    self@.width == v0.width,
                    self@.height == v0.height,
                    v0.well_formed(),
                    0 <= radius <= 0x4000_0000,
                    r == radius,
                    cx == center_x,
                    cy == center_y,
                    -0x4000_0000_0000_0000 <= center_x <= 0x4000_0000_0000_0000,
                    -0x4000_0000_0000_0000 <= center_y <= 0x4000_0000_0000_0000,
                    radius_sq == radius * radius,
                    -radius <= dy <= radius,
                    -radius <= dx <= radius + 1,
                    self@ == v0.painted(quarter_upto(cx, cy, r, quadrant, dy as int, dx as int), color),
                decreases radius + 1 - dx,
            {
                proof {
                    assert(0 <= dx * dx <= 0x1000_0000_0000_0000) by (nonlinear_arith)
                        requires
                            -0x4000_0000 <= dx <= 0x4000_0000,
                    ;
                    assert(0 <= dy * dy <= 0x1000_0000_0000_0000) by (nonlinear_arith)
                        requires
                            -0x4000_0000 <= dy <= 0x4000_0000,
                    ;
                }
                let dx_sq = dx * dx;
                let dy_sq = dy * dy;
                let inside = dx_sq + dy_sq <= radius_sq;
                let allowed = match quadrant {
                    Quadrant::TopLeft => dx <= 0 && dy <= 0,
                    Quadrant::TopRight => dx >= 0 && dy <= 0,
                    Quadrant::BottomLeft => dx <= 0 && dy >= 0,
                    Quadrant::BottomRight => dx >= 0 && dy >= 0,
                };
                let ghost before = quarter_upto(cx, cy, r, quadrant, dy as int, dx as int);
                let ghost after = quarter_upto(cx, cy, r, quadrant, dy as int, dx + 1);
                if inside && allowed {
                    self.put_pixel(center_x + dx, center_y + dy, color);
                    proof {
                        lemma_painted_twice(v0, before, dot(cx + dx, cy + dy), color);
                        assert forall|a: int, b: int| #[trigger] union(before, dot(cx + dx, cy + dy))(a, b) == after(a, b) by {
                            if a == cx + dx && b == cy + dy {
                                assert(a - cx == dx && b - cy == dy);
                            }
                        }
                        lemma_painted_agree(v0, union(before, dot(cx + dx, cy + dy)), after, color);
                    }
                } else {
                    proof {
                        assert forall|a: int, b: int| #[trigger] before(a, b) == after(a, b) by {
                            if a == cx + dx && b == cy + dy {
                                assert(a - cx == dx && b - cy == dy);
                            }
                        }
                        lemma_painted_agree(v0, before, after, color);
                    }
                }
                dx = dx + 1;
            }
            proof {
                let done = quarter_upto(cx, cy, r, quadrant, dy as int, dx as int);
                let next = quarter_upto(cx, cy, r, quadrant, dy + 1, -r);
                assert forall|a: int, b: int| #[trigger] done(a, b) == next(a, b) by {}
                lemma_painted_agree(v0, done, next, color);
            }
            dy = dy + 1;
        }
        proof {
            let done = quarter_upto(cx, cy, r, quadrant, dy as int, -r);
            assert forall|a: int, b: int| #[trigger] done(a, b) == quarter_circle(cx, cy, r, quadrant)(a, b) by {}
            lemma_painted_agree(v0, done, quarter_circle(cx, cy, r, quadrant), color);
        }
    }

    /// Fills the rectangle with inclusive corners `(left, top)` and
    /// `(right, bottom)`, its corners rounded with radius `radius`.
    pub fn draw_rounded_rect(
        &mut self,
        left: i64,
        top: i64,
        right: i64,
        bottom: i64,
        radius: i64,
        color: Color,
    )
        requires
            old(self).wf(),
            0 <= radius <= 0x4000_0000,
            -0x1_0000_0000_0000 <= left <= 0x1_0000_0000_0000,
            -0x1_0000_0000_0000 <= top <= 0x1_0000_0000_0000,
            -0x1_0000_0000_0000 <= right <= 0x1_0000_0000_0000,
            -0x1_0000_0000_0000 <= bottom <= 0x1_0000_0000_0000,
        ensures
            final(self).wf(),
            final(self)@ == old(self)@.painted(
                rounded_rect_shape(left as int, top as int, right as int, bottom as int, radius as int),
                color,
            ),
    {
        let ghost v0 = self@;
        let ghost (l, t, r, b, rad) = (left as int, top as int, right as int, bottom as int, radius as int);
        let left_arc_x = left + radius;
        let top_arc_y = top + radius;
        let right_arc_x = right - radius;
        let bottom_arc_y = bottom - radius;
        let ghost (lx, ty, rx, by) = (l + rad, t + rad, r - rad, b - rad);
        self.fill_rect(left, top_arc_y, right, bottom_arc_y, color);
        self.fill_rect(left_arc_x, top, right_arc_x, top_arc_y, color);
        proof {
            lemma_painted_twice(v0, rect(l, ty, r, by), rect(lx, t, rx, ty), color);
        }
        self.fill_rect(left_arc_x, bottom_arc_y, right_arc_x, bottom, color);
        let ghost sides = union(union(rect(l, ty, r, by), rect(lx, t, rx, ty)), rect(lx, by, rx, b));
        proof {
            lemma_painted_twice(v0, union(rect(l, ty, r, by), rect(lx, t, rx, ty)), rect(lx, by, rx, b), color);
        }
        self.fill_quarter_circle(left_arc_x, top_arc_y, radius, Quadrant::TopLeft, color);
        proof {
            lemma_painted_twice(v0, sides, quarter_circle(lx, ty, rad, Quadrant::TopLeft), color);
        }
        self.fill_quarter_circle(right_arc_x, top_arc_y, radius, Quadrant::TopRight, color);
        let ghost s5 = union(sides, quarter_circle(lx, ty, rad, Quadrant::TopLeft));
        proof {
            lemma_painted_twice(v0, s5, quarter_circle(rx, ty, rad, Quadrant::TopRight), color);
        }
        self.fill_quarter_circle(left_arc_x, bottom_arc_y, radius, Quadrant::BottomLeft, color);
        let ghost s6 = union(s5, quarter_circle(rx, ty, rad, Quadrant::TopRight));
        proof {
            lemma_painted_twice(v0, s6, quarter_circle(lx, by, rad, Quadrant::BottomLeft), color);
            assert(union(s6, quarter_circle(lx, by, rad, Quadrant::BottomLeft)) == rounded_rect(l, t, r, b, rad));
        }
        self.fill_quarter_circle(right_arc_x, bottom_arc_y, radius, Quadrant::BottomRight, color);
        proof {
            lemma_painted_twice(v0, rounded_rect(l, t, r, b, rad), quarter_circle(rx, by, rad, Quadrant::BottomRight), color);
        }
    }
}

} // verus!
