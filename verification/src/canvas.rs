//! The software canvas that the UI scenes are drawn on.

use vstd::prelude::*;
use crate::glyphs::{
    glyph_for, glyph_rows, glyph_bit, glyph_fits, glyph_lit_before, cell_start, cell_shape, lemma_glyph_cell,
    lemma_glyph_ends, text_lit_before, text_fits, lemma_text_char, lemma_text_ends,
};
use crate::pixels::{Rgba, paint_region, lemma_byte_in_pixel, lemma_pixel_bytes, lemma_paint_nothing};
use crate::shapes::{
    Shape, in_shape, op, apply_op, scanned, within, point_at, lemma_scan_visit, lemma_scan_next_row,
    lemma_scan_ends, sq, corner_keep, corner_safe, rounded_rect_ok, border_keep, border_safe,
    rounded_border_ok, inner_radius, lemma_disc_within, text_advance_x, region_of, DrawOp,
};

verus! {

/// A width x height pixel buffer, each pixel four bytes in B, G, R, A order.
pub struct NothingCanvas {
    pub width: usize,
    pub height: usize,
    pub pixels: Vec<u8>,
}

/// A circle's centre coordinate `c` with radius `r` can be drawn: either
/// the circle stays within `isize`, or it lies wholly beyond `isize::MAX`
/// and within `usize`, where nothing of it is on the canvas.
pub open spec fn centre_ok(c: int, r: int) -> bool {
    c + r <= isize::MAX || (isize::MAX + 1 + r <= c && c + r <= usize::MAX)
}

/// A shape within distance `r` of a centre with a coordinate beyond
/// `isize::MAX + r` has no pixel on the canvas, so painting it changes
/// nothing.
proof fn lemma_far_shape_paints_nothing(canvas: NothingCanvas, shape: Shape, cx: int, cy: int, r: int, c: Rgba)
    requires
        canvas.wf(),
        0 <= r,
        cx > isize::MAX + r || cy > isize::MAX + r,
        within(shape, cx - r, cy - r, 2 * r + 1, 2 * r + 1),
    ensures
        apply_op(canvas.pixels@, canvas.width as nat, DrawOp { shape, color: c }) == canvas.pixels@,
{
    let w = canvas.width as int;
    let h = canvas.height as int;
    if w > 0 && h > 0 {
        assert(w <= w * h * 4 && h <= w * h * 4) by (nonlinear_arith)
            requires w > 0, h > 0;
        assert(usize::MAX == 2 * isize::MAX + 1);
        assert(w * h * 4 >= 4 * w && w * h * 4 >= 4 * h) by (nonlinear_arith)
            requires w > 0, h > 0;
    }
    assert forall|x: int, y: int| 0 <= x < w && 0 <= y < h implies !#[trigger] region_of(shape)(x, y) by {
        if in_shape(shape, x, y) {
            assert(cx - r <= x && cy - r <= y);
        }
    }
    lemma_paint_nothing(canvas.pixels@, canvas.width as nat, canvas.height as nat, region_of(shape), c);
}

impl NothingCanvas {
    /// The buffer holds exactly four bytes per pixel.
    pub open spec fn wf(&self) -> bool {
        &&& self.pixels@.len() == self.width * self.height * 4
        &&& self.width * self.height * 4 <= usize::MAX
    }

    /// A canvas of the given size with every byte zero.
    pub fn new(width: usize, height: usize) -> (canvas: Self)
        requires
            width * height * 4 <= usize::MAX,
        ensures
            canvas.wf(),
            canvas.width == width,
            canvas.height == height,
            canvas.pixels@ == Seq::new((width * height * 4) as nat, |i: int| 0u8),
    {
        let n = width * height * 4;
        let pixels = vec![0u8; n];
        assert(pixels@ =~= Seq::new((width * height * 4) as nat, |i: int| 0u8));
        Self { width, height, pixels }
    }

    /// Sets pixel (x, y) to the colour (r, g, b, a); a position outside the
    /// canvas changes nothing.
    pub fn set_pixel(&mut self, x: usize, y: usize, r: u8, g: u8, b: u8, a: u8)
        requires
            old(self).wf(),
        ensures
            final(self).wf(),
            final(self).width == old(self).width,
            final(self).height == old(self).height,
            final(self).pixels@ == paint_region(
                old(self).pixels@,
                old(self).width as nat,
                point_at(x as int, y as int),
                Rgba { r, g, b, a },
            ),
    {
        let ghost old_px = self.pixels@;
        let ghost w = self.width as int;
        let ghost h = self.height as int;
        let ghost c = Rgba { r, g, b, a };
        if x < self.width && y < self.height {
            proof {
                assert(y * w + x < w * h) by (nonlinear_arith)
                    requires 0 <= x < w, 0 <= y < h;
                assert(y * w + x >= 0) by (nonlinear_arith)
                    requires 0 <= x < w, 0 <= y;
                assert((y * w + x) * 4 < w * h * 4) by (nonlinear_arith)
                    requires y * w + x < w * h;
                assert(y * w <= y * w + x);
                assert(w * h * 4 <= usize::MAX);
            }
            let idx = (y * self.width + x) * 4;
            self.pixels.set(idx, b);
            self.pixels.set(idx + 1, g);
            self.pixels.set(idx + 2, r);
            self.pixels.set(idx + 3, a);
            proof {
                let target = paint_region(old_px, w as nat, point_at(x as int, y as int), c);
                assert forall|i: int| 0 <= i < old_px.len() implies self.pixels@[i] == target[i] by {
                    lemma_byte_in_pixel(i, x as int, y as int, w, h);
                    if idx <= i < idx + 4 {
                        lemma_pixel_bytes(x as int, y as int, w, i - idx);
                    }
                }
                assert(self.pixels@ =~= target);
            }
        } else {
            proof {
                lemma_paint_nothing(old_px, w as nat, h as nat, point_at(x as int, y as int), c);
            }
        }
    }

    /// Sets every pixel of the canvas to the colour (r, g, b, a).
    pub fn clear(&mut self, r: u8, g: u8, b: u8, a: u8)
        requires
            old(self).wf(),
        ensures
            final(self).wf(),
            final(self).width == old(self).width,
            final(self).height == old(self).height,
            final(self).pixels@ == apply_op(old(self).pixels@, old(self).width as nat, op(Shape::All, r, g, b, a)),
    {
        let ghost p0 = self.pixels@;
        let ghost w = self.width as nat;
        let ghost h = self.height as nat;
        let ghost shape = Shape::All;
        let ghost c = Rgba { r, g, b, a };
        let ghost box_shape = Shape::Rect { x: 0, y: 0, w: w as int, h: h as int };
        proof {
            assert(within(box_shape, 0, 0, w as int, h as int));
            lemma_scan_ends(p0, w, h, box_shape, c, 0, 0, w as int, h as int);
        }
        let mut y: usize = 0;
        while y < self.height
            invariant
                self.wf(),
                self.width == w,
                self.height == h,
                p0.len() == w * h * 4,
                c == (Rgba { r, g, b, a }),
                box_shape == (Shape::Rect { x: 0, y: 0, w: w as int, h: h as int }),
                y <= h,
                self.pixels@ == paint_region(p0, w, scanned(box_shape, 0, 0, y as int, 0), c),
            decreases h - y,
        {
            let mut x: usize = 0;
            while x < self.width
                invariant
                    self.wf(),
                    self.width == w,
                    self.height == h,
                    p0.len() == w * h * 4,
                    c == (Rgba { r, g, b, a }),
                    box_shape == (Shape::Rect { x: 0, y: 0, w: w as int, h: h as int }),
                    y < h,
                    x <= w,
                    self.pixels@ == paint_region(p0, w, scanned(box_shape, 0, 0, y as int, x as int), c),
                decreases w - x,
            {
                proof {
                    lemma_scan_visit(p0, w, h, box_shape, c, 0, 0, y as int, x as int);
                }
                self.set_pixel(x, y, r, g, b, a);
                x = x + 1;
            }
            proof {
                assert(within(box_shape, 0, 0, w as int, h as int));
                lemma_scan_next_row(p0, w, h, box_shape, c, 0, 0, w as int, h as int, y as int);
            }
            y = y + 1;
        }
        proof {
            crate::pixels::lemma_paint_same_region(
                p0,
                w,
                h,
                crate::shapes::region_of(box_shape),
                crate::shapes::region_of(shape),
                c,
            );
        }
    }

    /// Fills the `w` x `h` box whose top-left pixel is (x, y); the parts
    /// outside the canvas are left out.
    pub fn draw_rect(&mut self, x: usize, y: usize, w: usize, h: usize, r: u8, g: u8, b: u8, a: u8)
        requires
            old(self).wf(),
            w == 0 || h == 0 || (x + w - 1 <= usize::MAX && y + h - 1 <= usize::MAX),
        ensures
            final(self).wf(),
            final(self).width == old(self).width,
            final(self).height == old(self).height,
            final(self).pixels@ == apply_op(
                old(self).pixels@,
                old(self).width as nat,
                op(Shape::Rect { x: x as int, y: y as int, w: w as int, h: h as int }, r, g, b, a),
            ),
    {
        let ghost p0 = self.pixels@;
        let ghost cw = self.width as nat;
        let ghost ch = self.height as nat;
        let ghost shape = Shape::Rect { x: x as int, y: y as int, w: w as int, h: h as int };
        let ghost c = Rgba { r, g, b, a };
        proof {
            assert(within(shape, x as int, y as int, w as int, h as int));
            lemma_scan_ends(p0, cw, ch, shape, c, x as int, y as int, w as int, h as int);
        }
        let mut dy: usize = 0;
        while dy < h
            invariant
                self.wf(),
                self.width == cw,
                self.height == ch,
                p0.len() == cw * ch * 4,
                c == (Rgba { r, g, b, a }),
                shape == (Shape::Rect { x: x as int, y: y as int, w: w as int, h: h as int }),
                dy <= h,
                w == 0 || h == 0 || (x + w - 1 <= usize::MAX && y + h - 1 <= usize::MAX),
                self.pixels@ == paint_region(p0, cw, scanned(shape, x as int, y as int, dy as int, 0), c),
            decreases h - dy,
        {
            let mut dx: usize = 0;
            while dx < w
                invariant
                    self.wf(),
                    self.width == cw,
                    self.height == ch,
                    p0.len() == cw * ch * 4,
                    c == (Rgba { r, g, b, a }),
                    shape == (Shape::Rect { x: x as int, y: y as int, w: w as int, h: h as int }),
                    dy < h,
                    dx <= w,
                    w == 0 || h == 0 || (x + w - 1 <= usize::MAX && y + h - 1 <= usize::MAX),
                    self.pixels@ == paint_region(p0, cw, scanned(shape, x as int, y as int, dy as int, dx as int), c),
                decreases w - dx,
            {
                proof {
                    lemma_scan_visit(p0, cw, ch, shape, c, x as int, y as int, dy as int, dx as int);
                }
                self.set_pixel(x + dx, y + dy, r, g, b, a);
                dx = dx + 1;
            }
            proof {
                assert(within(shape, x as int, y as int, w as int, h as int));
                lemma_scan_next_row(p0, cw, ch, shape, c, x as int, y as int, w as int, h as int, dy as int);
            }
            dy = dy + 1;
        }
    }

    /// Whether offset (dx, dy) of a `w` x `h` box stays once its corners are
    /// rounded with `radius`: outside the four corner squares every offset
    /// stays; inside one, an offset stays when its squared distance from the
    /// corner's centre of curvature is at most `radius * radius`.
    fn corner_test(dx: usize, dy: usize, w: usize, h: usize, radius: usize) -> (keep: bool)
        requires
            dx < w,
            dy < h,
            2 * radius * radius <= usize::MAX,
            corner_safe(dx as int, dy as int, w as int, h as int, radius as int),
        ensures
            keep == corner_keep(dx as int, dy as int, w as int, h as int, radius as int),
    {
        proof {
            assert(2 * radius * radius == radius * radius + radius * radius) by (nonlinear_arith);
            assert(radius * radius >= 0) by (nonlinear_arith);
        }
        let mut keep = true;
        if dx < radius && dy < radius {
            proof {
                assert((radius - dx) * (radius - dx) <= radius * radius) by (nonlinear_arith)
                    requires 0 <= radius - dx <= radius;
                assert((radius - dy) * (radius - dy) <= radius * radius) by (nonlinear_arith)
                    requires 0 <= radius - dy <= radius;
            }
            let dist_sq = (radius - dx) * (radius - dx) + (radius - dy) * (radius - dy);
            if dist_sq > radius * radius {
                keep = false;
            }
        } else if dx >= w - radius && dy < radius {
            let r_dx = dx - (w - radius);
            proof {
                assert(r_dx * r_dx <= radius * radius) by (nonlinear_arith)
                    requires 0 <= r_dx <= radius;
                assert((radius - dy) * (radius - dy) <= radius * radius) by (nonlinear_arith)
                    requires 0 <= radius - dy <= radius;
            }
            let dist_sq = r_dx * r_dx + (radius - dy) * (radius - dy);
            if dist_sq > radius * radius {
                keep = false;
            }
        } else if dx < radius && dy >= h - radius {
            let r_dy = dy - (h - radius);
            proof {
                assert((radius - dx) * (radius - dx) <= radius * radius) by (nonlinear_arith)
                    requires 0 <= radius - dx <= radius;
                assert(r_dy * r_dy <= radius * radius) by (nonlinear_arith)
                    requires 0 <= r_dy <= radius;
            }
            let dist_sq = (radius - dx) * (radius - dx) + r_dy * r_dy;
            if dist_sq > radius * radius {
                keep = false;
            }
        } else if dx >= w - radius && dy >= h - radius {
            let r_dx = dx - (w - radius);
            let r_dy = dy - (h - radius);
            proof {
                assert(r_dx * r_dx <= radius * radius) by (nonlinear_arith)
                    requires 0 <= r_dx <= radius;
                assert(r_dy * r_dy <= radius * radius) by (nonlinear_arith)
                    requires 0 <= r_dy <= radius;
            }
            let dist_sq = r_dx * r_dx + r_dy * r_dy;
            if dist_sq > radius * radius {
                keep = false;
            }
        }
        keep
    }

    /// Fills the `w` x `h` box at (x, y) with its four corners rounded with
    /// `radius`; the parts outside the canvas are left out.
    pub fn draw_rounded_rect(
        &mut self,
        x: usize,
        y: usize,
        w: usize,
        h: usize,
        radius: usize,
        r: u8,
        g: u8,
        b: u8,
        a: u8,
    )
        requires
            old(self).wf(),
            rounded_rect_ok(x as int, y as int, w as int, h as int, radius as int),
        ensures
            final(self).wf(),
            final(self).width == old(self).width,
            final(self).height == old(self).height,
            final(self).pixels@ == apply_op(
                old(self).pixels@,
                old(self).width as nat,
                op(
                    Shape::RoundedRect { x: x as int, y: y as int, w: w as int, h: h as int, radius: radius as int },
                    r,
                    g,
                    b,
                    a,
                ),
            ),
    {
        let ghost p0 = self.pixels@;
        let ghost cw = self.width as nat;
        let ghost ch = self.height as nat;
        let ghost shape = Shape::RoundedRect {
            x: x as int,
            y: y as int,
            w: w as int,
            h: h as int,
            radius: radius as int,
        };
        let ghost c = Rgba { r, g, b, a };
        proof {
            assert(within(shape, x as int, y as int, w as int, h as int));
            lemma_scan_ends(p0, cw, ch, shape, c, x as int, y as int, w as int, h as int);
        }
        let mut dy: usize = 0;
        while dy < h
            invariant
                self.wf(),
                self.width == cw,
                self.height == ch,
                p0.len() == cw * ch * 4,
                c == (Rgba { r, g, b, a }),
                shape == (Shape::RoundedRect {
                x: x as int,
                y: y as int,
                w: w as int,
                h: h as int,
                radius: radius as int,
                }),
                dy <= h,
                rounded_rect_ok(x as int, y as int, w as int, h as int, radius as int),
                self.pixels@ == paint_region(p0, cw, scanned(shape, x as int, y as int, dy as int, 0), c),
            decreases h - dy,
        {
            let mut dx: usize = 0;
            while dx < w
                invariant
                    self.wf(),
                    self.width == cw,
                    self.height == ch,
                    p0.len() == cw * ch * 4,
                    c == (Rgba { r, g, b, a }),
                    shape == (Shape::RoundedRect {
                    x: x as int,
                    y: y as int,
                    w: w as int,
                    h: h as int,
                    radius: radius as int,
                    }),
                    dy < h,
                    dx <= w,
                    rounded_rect_ok(x as int, y as int, w as int, h as int, radius as int),
                    self.pixels@ == paint_region(p0, cw, scanned(shape, x as int, y as int, dy as int, dx as int), c),
                decreases w - dx,
            {
                proof {
                    assert(corner_safe(dx as int, dy as int, w as int, h as int, radius as int));
                    lemma_scan_visit(p0, cw, ch, shape, c, x as int, y as int, dy as int, dx as int);
                }
                let draw = Self::corner_test(dx, dy, w, h, radius);
                if draw {
                    proof {
                        assert(corner_keep(dx as int, dy as int, w as int, h as int, radius as int));
                    }
                    self.set_pixel(x + dx, y + dy, r, g, b, a);
                }
                dx = dx + 1;
            }
            proof {
                assert(within(shape, x as int, y as int, w as int, h as int));
                lemma_scan_next_row(p0, cw, ch, shape, c, x as int, y as int, w as int, h as int, dy as int);
            }
            dy = dy + 1;
        }
    }

    /// Whether offset (dx, dy) lies on the border of thickness `thickness` of
    /// the rounded `w` x `h` box: inside the rounded box but not inside the
    /// rounded box inset by the thickness, whose corner radius shrinks by the
    /// thickness (down to zero).
    fn border_test(dx: usize, dy: usize, w: usize, h: usize, radius: usize, thickness: usize) -> (on_border: bool)
        requires
            dx < w,
            dy < h,
            2 * radius * radius <= usize::MAX,
            border_safe(dx as int, dy as int, w as int, h as int, radius as int, thickness as int),
        ensures
            on_border == border_keep(dx as int, dy as int, w as int, h as int, radius as int, thickness as int),
    {
        let mut is_border = false;
        let inside_outer = Self::corner_test(dx, dy, w, h, radius);
        if inside_outer {
            let mut inside_inner = false;
            let border = thickness;
            if dx >= border && dx < w - border && dy >= border && dy < h - border {
                let inner_r = if radius > border { radius - border } else { 0 };
                let idx = dx - border;
                let idy = dy - border;
                let iw = w - border * 2;
                let ih = h - border * 2;
                proof {
                    assert(inner_r == inner_radius(radius as int, thickness as int));
                    assert(2 * inner_r * inner_r <= 2 * radius * radius) by (nonlinear_arith)
                        requires 0 <= inner_r <= radius;
                }
                inside_inner = Self::corner_test(idx, idy, iw, ih, inner_r);
            }
            if !inside_inner {
                is_border = true;
            }
        }
        is_border
    }

    /// Draws the border, `thickness` pixels wide, of the `w` x `h` box at
    /// (x, y) with its corners rounded with `radius`; the parts outside the
    /// canvas are left out.
    pub fn draw_rounded_rect_border(
        &mut self,
        x: usize,
        y: usize,
        w: usize,
        h: usize,
        radius: usize,
        thickness: usize,
        r: u8,
        g: u8,
        b: u8,
        a: u8,
    )
        requires
            old(self).wf(),
            rounded_border_ok(x as int, y as int, w as int, h as int, radius as int, thickness as int),
        ensures
            final(self).wf(),
            final(self).width == old(self).width,
            final(self).height == old(self).height,
            final(self).pixels@ == apply_op(
                old(self).pixels@,
                old(self).width as nat,
                op(
                    Shape::RoundedBorder {
                        x: x as int,
                        y: y as int,
                        w: w as int,
                        h: h as int,
                        radius: radius as int,
                        thickness: thickness as int,
                    },
                    r,
                    g,
                    b,
                    a,
                ),
            ),
    {
        let ghost p0 = self.pixels@;
        let ghost cw = self.width as nat;
        let ghost ch = self.height as nat;
        let ghost shape = Shape::RoundedBorder {
            x: x as int,
            y: y as int,
            w: w as int,
            h: h as int,
            radius: radius as int,
            thickness: thickness as int,
        };
        let ghost c = Rgba { r, g, b, a };
        proof {
            assert(within(shape, x as int, y as int, w as int, h as int));
            lemma_scan_ends(p0, cw, ch, shape, c, x as int, y as int, w as int, h as int);
        }
        let mut dy: usize = 0;
        while dy < h
            invariant
                self.wf(),
                self.width == cw,
                self.height == ch,
                p0.len() == cw * ch * 4,
                c == (Rgba { r, g, b, a }),
                shape == (Shape::RoundedBorder {
                x: x as int,
                y: y as int,
                w: w as int,
                h: h as int,
                radius: radius as int,
                thickness: thickness as int,
                }),
                dy <= h,
                rounded_border_ok(x as int, y as int, w as int, h as int, radius as int, thickness as int),
                self.pixels@ == paint_region(p0, cw, scanned(shape, x as int, y as int, dy as int, 0), c),
            decreases h - dy,
        {
            let mut dx: usize = 0;
            while dx < w
                invariant
                    self.wf(),
                    self.width == cw,
                    self.height == ch,
                    p0.len() == cw * ch * 4,
                    c == (Rgba { r, g, b, a }),
                    shape == (Shape::RoundedBorder {
                    x: x as int,
                    y: y as int,
                    w: w as int,
                    h: h as int,
                    radius: radius as int,
                    thickness: thickness as int,
                    }),
                    dy < h,
                    dx <= w,
                    rounded_border_ok(x as int, y as int, w as int, h as int, radius as int, thickness as int),
                    self.pixels@ == paint_region(p0, cw, scanned(shape, x as int, y as int, dy as int, dx as int), c),
                decreases w - dx,
            {
                proof {
                    assert(border_safe(dx as int, dy as int, w as int, h as int, radius as int, thickness as int));
                    lemma_scan_visit(p0, cw, ch, shape, c, x as int, y as int, dy as int, dx as int);
                }
                let is_border = Self::border_test(dx, dy, w, h, radius, thickness);
                if is_border {
                    proof {
                        assert(border_keep(dx as int, dy as int, w as int, h as int, radius as int, thickness as int));
                    }
                    self.set_pixel(x + dx, y + dy, r, g, b, a);
                }
                dx = dx + 1;
            }
            proof {
                assert(within(shape, x as int, y as int, w as int, h as int));
                lemma_scan_next_row(p0, cw, ch, shape, c, x as int, y as int, w as int, h as int, dy as int);
            }
            dy = dy + 1;
        }
    }

    /// Fills the disc of radius `radius` centred on (cx, cy): every pixel
    /// whose squared distance from the centre is at most `radius * radius`.
    /// The parts outside the canvas are left out; a centre beyond
    /// `isize::MAX` draws nothing.
    pub fn draw_circle(&mut self, cx: usize, cy: usize, radius: usize, r: u8, g: u8, b: u8, a: u8)
        requires
            old(self).wf(),
            2 * radius * radius <= isize::MAX,
            centre_ok(cx as int, radius as int),
            centre_ok(cy as int, radius as int),
        ensures
            final(self).wf(),
            final(self).width == old(self).width,
            final(self).height == old(self).height,
            final(self).pixels@ == apply_op(
                old(self).pixels@,
                old(self).width as nat,
                op(Shape::Disc { cx: cx as int, cy: cy as int, radius: radius as int }, r, g, b, a),
            ),
    {
        if cx > isize::MAX as usize || cy > isize::MAX as usize {
            proof {
                let shape = Shape::Disc { cx: cx as int, cy: cy as int, radius: radius as int };
                lemma_disc_within(cx as int, cy as int, radius as int, 0);
                lemma_far_shape_paints_nothing(*self, shape, cx as int, cy as int, radius as int, Rgba { r, g, b, a });
            }
            return;
        }
        self.draw_disc(cx, cy, radius, r, g, b, a);
    }

    /// Draws the ring of pixels centred on (cx, cy) whose squared distance
    /// from the centre lies between `(radius - thickness)^2` and
    /// `radius * radius`. The parts outside the canvas are left out; a centre
    /// beyond `isize::MAX` draws nothing.
    pub fn draw_circle_border(
        &mut self,
        cx: usize,
        cy: usize,
        radius: usize,
        thickness: usize,
        r: u8,
        g: u8,
        b: u8,
        a: u8,
    )
        requires
            old(self).wf(),
            2 * radius * radius <= isize::MAX,
            thickness <= isize::MAX,
            sq(radius - thickness) <= isize::MAX,
            centre_ok(cx as int, radius as int),
            centre_ok(cy as int, radius as int),
        ensures
            final(self).wf(),
            final(self).width == old(self).width,
            final(self).height == old(self).height,
            final(self).pixels@ == apply_op(
                old(self).pixels@,
                old(self).width as nat,
                op(
                    Shape::Ring {
                        cx: cx as int,
                        cy: cy as int,
                        radius: radius as int,
                        thickness: thickness as int,
                    },
                    r,
                    g,
                    b,
                    a,
                ),
            ),
    {
        if cx > isize::MAX as usize || cy > isize::MAX as usize {
            proof {
                let shape = Shape::Ring {
                    cx: cx as int,
                    cy: cy as int,
                    radius: radius as int,
                    thickness: thickness as int,
                };
                lemma_disc_within(cx as int, cy as int, radius as int, thickness as int);
                lemma_far_shape_paints_nothing(*self, shape, cx as int, cy as int, radius as int, Rgba { r, g, b, a });
            }
            return;
        }
        self.draw_ring(cx, cy, radius, thickness, r, g, b, a);
    }

    /// Fills the disc of a centre whose coordinates plus the radius stay
    /// within `isize` (see `draw_circle`).
    fn draw_disc(&mut self, cx: usize, cy: usize, radius: usize, r: u8, g: u8, b: u8, a: u8)
        requires
            old(self).wf(),
            2 * radius * radius <= isize::MAX,
            cx + radius <= isize::MAX,
            cy + radius <= isize::MAX,
        ensures
            final(self).wf(),
            final(self).width == old(self).width,
            final(self).height == old(self).height,
            final(self).pixels@ == apply_op(
                old(self).pixels@,
                old(self).width as nat,
                op(Shape::Disc { cx: cx as int, cy: cy as int, radius: radius as int }, r, g, b, a),
            ),
    {
        let ghost shape = Shape::Disc { cx: cx as int, cy: cy as int, radius: radius as int };
        let ghost p0 = self.pixels@;
        let ghost cw = self.width as nat;
        let ghost ch = self.height as nat;
        let ghost c = Rgba { r, g, b, a };
        let ghost ox = cx - radius;
        let ghost oy = cy - radius;
        let ghost n = 2 * radius + 1;
        proof {
            lemma_disc_within(cx as int, cy as int, radius as int, 0);
            lemma_scan_ends(p0, cw, ch, shape, c, ox, oy, n, n);
            assert(radius * radius >= 0) by (nonlinear_arith);
            assert(2 * radius <= isize::MAX) by (nonlinear_arith)
                requires 2 * radius * radius <= isize::MAX, radius >= 0;
        }
        let r_i = radius as isize;
        let cx_i = cx as isize;
        let cy_i = cy as isize;
        let span = radius * 2;
        let mut dy: usize = 0;
        while dy <= span
            invariant
                self.wf(),
                self.width == cw,
                self.height == ch,
                p0.len() == cw * ch * 4,
                c == (Rgba { r, g, b, a }),
                shape == (Shape::Disc { cx: cx as int, cy: cy as int, radius: radius as int }),
                2 * radius * radius <= isize::MAX,
                r_i == radius,
                2 * radius <= isize::MAX,
                cx_i == cx,
                cx + radius <= isize::MAX,
                cy + radius <= isize::MAX,
                cy_i == cy,
                span == 2 * radius,
                ox == cx - radius,
                oy == cy - radius,
                n == 2 * radius + 1,
                dy <= span + 1,
                self.pixels@ == paint_region(p0, cw, scanned(shape, ox, oy, dy as int, 0), c),
            decreases span + 1 - dy,
        {
            let mut dx: usize = 0;
            while dx <= span
                invariant
                    self.wf(),
                    self.width == cw,
                    self.height == ch,
                    p0.len() == cw * ch * 4,
                    c == (Rgba { r, g, b, a }),
                    shape == (Shape::Disc { cx: cx as int, cy: cy as int, radius: radius as int }),
                    2 * radius * radius <= isize::MAX,
                    r_i == radius,
                    2 * radius <= isize::MAX,
                    cx_i == cx,
                    cx + radius <= isize::MAX,
                    cy + radius <= isize::MAX,
                    cy_i == cy,
                    span == 2 * radius,
                    ox == cx - radius,
                    oy == cy - radius,
                    n == 2 * radius + 1,
                    dy <= span,
                    dx <= span + 1,
                    self.pixels@ == paint_region(p0, cw, scanned(shape, ox, oy, dy as int, dx as int), c),
                decreases span + 1 - dx,
            {
                proof {
                    lemma_scan_visit(p0, cw, ch, shape, c, ox, oy, dy as int, dx as int);
                }
                let xd = dx as isize - r_i;
                let yd = dy as isize - r_i;
                let x_dist = if xd < 0 { -xd } else { xd };
                let y_dist = if yd < 0 { -yd } else { yd };
                proof {
                    assert(x_dist * x_dist <= radius * radius) by (nonlinear_arith)
                        requires 0 <= x_dist <= radius;
                    assert(y_dist * y_dist <= radius * radius) by (nonlinear_arith)
                        requires 0 <= y_dist <= radius;
                    assert(x_dist * x_dist == sq(dx - radius)) by (nonlinear_arith)
                        requires x_dist == dx - radius || x_dist == radius - dx;
                    assert(y_dist * y_dist == sq(dy - radius)) by (nonlinear_arith)
                        requires y_dist == dy - radius || y_dist == radius - dy;
                    assert(x_dist * x_dist >= 0 && y_dist * y_dist >= 0) by (nonlinear_arith);
                    assert(2 * radius * radius == radius * radius + radius * radius) by (nonlinear_arith);
                    assert(sq(dx - radius) + sq(dy - radius) <= radius * radius ==> dx <= 2 * radius && dy <= 2 * radius);
                }
                let inside = x_dist * x_dist + y_dist * y_dist <= (radius * radius) as isize;
                if inside {
                    let px = cx_i - r_i + dx as isize;
                    let py = cy_i - r_i + dy as isize;
                    if px >= 0 && py >= 0 {
                        self.set_pixel(px as usize, py as usize, r, g, b, a);
                    } else {
                        proof {
                            crate::pixels::lemma_paint_nothing(
                                self.pixels@,
                                cw,
                                ch,
                                point_at(ox + dx, oy + dy),
                                c,
                            );
                        }
                    }
                }
                dx = dx + 1;
            }
            proof {
                lemma_disc_within(cx as int, cy as int, radius as int, 0);
                lemma_scan_next_row(p0, cw, ch, shape, c, ox, oy, n, n, dy as int);
            }
            dy = dy + 1;
        }
    }

    /// Draws the ring of a centre whose coordinates plus the radius stay
    /// within `isize` (see `draw_circle_border`).
    fn draw_ring(
        &mut self,
        cx: usize,
        cy: usize,
        radius: usize,
        thickness: usize,
        r: u8,
        g: u8,
        b: u8,
        a: u8,
    )
        requires
            old(self).wf(),
            2 * radius * radius <= isize::MAX,
            thickness <= isize::MAX,
            sq(radius - thickness) <= isize::MAX,
            cx + radius <= isize::MAX,
            cy + radius <= isize::MAX,
        ensures
            final(self).wf(),
            final(self).width == old(self).width,
            final(self).height == old(self).height,
            final(self).pixels@ == apply_op(
                old(self).pixels@,
                old(self).width as nat,
                op(
                    Shape::Ring {
                        cx: cx as int,
                        cy: cy as int,
                        radius: radius as int,
                        thickness: thickness as int,
                    },
                    r,
                    g,
                    b,
                    a,
                ),
            ),
    {
        let ghost shape = Shape::Ring {
            cx: cx as int,
            cy: cy as int,
            radius: radius as int,
            thickness: thickness as int,
        };
        let ghost p0 = self.pixels@;
        let ghost cw = self.width as nat;
        let ghost ch = self.height as nat;
        let ghost c = Rgba { r, g, b, a };
        let ghost ox = cx - radius;
        let ghost oy = cy - radius;
        let ghost n = 2 * radius + 1;
        proof {
            lemma_disc_within(cx as int, cy as int, radius as int, thickness as int);
            lemma_scan_ends(p0, cw, ch, shape, c, ox, oy, n, n);
            assert(radius * radius >= 0) by (nonlinear_arith);
            assert(2 * radius <= isize::MAX) by (nonlinear_arith)
                requires 2 * radius * radius <= isize::MAX, radius >= 0;
        }
        let r_i = radius as isize;
        let cx_i = cx as isize;
        let cy_i = cy as isize;
        let span = radius * 2;
        let inner_r = radius as isize - thickness as isize;
        let mut dy: usize = 0;
        while dy <= span
            invariant
                self.wf(),
                self.width == cw,
                self.height == ch,
                p0.len() == cw * ch * 4,
                c == (Rgba { r, g, b, a }),
                shape == (Shape::Ring { cx: cx as int, cy: cy as int, radius: radius as int, thickness: thickness as int }),
                2 * radius * radius <= isize::MAX,
                thickness <= isize::MAX,
                sq(radius - thickness) <= isize::MAX,
                inner_r == radius - thickness,
                r_i == radius,
                2 * radius <= isize::MAX,
                cx_i == cx,
                cx + radius <= isize::MAX,
                cy + radius <= isize::MAX,
                cy_i == cy,
                span == 2 * radius,
                ox == cx - radius,
                oy == cy - radius,
                n == 2 * radius + 1,
                dy <= span + 1,
                self.pixels@ == paint_region(p0, cw, scanned(shape, ox, oy, dy as int, 0), c),
            decreases span + 1 - dy,
        {
            let mut dx: usize = 0;
            while dx <= span
                invariant
                    self.wf(),
                    self.width == cw,
                    self.height == ch,
                    p0.len() == cw * ch * 4,
                    c == (Rgba { r, g, b, a }),
                    shape == (Shape::Ring { cx: cx as int, cy: cy as int, radius: radius as int, thickness: thickness as int }),
                    2 * radius * radius <= isize::MAX,
                    thickness <= isize::MAX,
                    sq(radius - thickness) <= isize::MAX,
                    inner_r == radius - thickness,
                    r_i == radius,
                    2 * radius <= isize::MAX,
                    cx_i == cx,
                    cx + radius <= isize::MAX,
                    cy + radius <= isize::MAX,
                    cy_i == cy,
                    span == 2 * radius,
                    ox == cx - radius,
                    oy == cy - radius,
                    n == 2 * radius + 1,
                    dy <= span,
                    dx <= span + 1,
                    self.pixels@ == paint_region(p0, cw, scanned(shape, ox, oy, dy as int, dx as int), c),
                decreases span + 1 - dx,
            {
                proof {
                    lemma_scan_visit(p0, cw, ch, shape, c, ox, oy, dy as int, dx as int);
                }
                let xd = dx as isize - r_i;
                let yd = dy as isize - r_i;
                let x_dist = if xd < 0 { -xd } else { xd };
                let y_dist = if yd < 0 { -yd } else { yd };
                proof {
                    assert(x_dist * x_dist <= radius * radius) by (nonlinear_arith)
                        requires 0 <= x_dist <= radius;
                    assert(y_dist * y_dist <= radius * radius) by (nonlinear_arith)
                        requires 0 <= y_dist <= radius;
                    assert(x_dist * x_dist == sq(dx - radius)) by (nonlinear_arith)
                        requires x_dist == dx - radius || x_dist == radius - dx;
                    assert(y_dist * y_dist == sq(dy - radius)) by (nonlinear_arith)
                        requires y_dist == dy - radius || y_dist == radius - dy;
                    assert(x_dist * x_dist >= 0 && y_dist * y_dist >= 0) by (nonlinear_arith);
                    assert(2 * radius * radius == radius * radius + radius * radius) by (nonlinear_arith);
                    assert(sq(dx - radius) + sq(dy - radius) <= radius * radius ==> dx <= 2 * radius && dy <= 2 * radius);
                }
                let dist_sq = x_dist * x_dist + y_dist * y_dist;
                proof {
                    assert(inner_r * inner_r == sq(radius - thickness));
                    assert(inner_r * inner_r >= 0) by (nonlinear_arith);
                }
                let inside = dist_sq <= (radius * radius) as isize && dist_sq >= inner_r * inner_r;
                if inside {
                    let px = cx_i - r_i + dx as isize;
                    let py = cy_i - r_i + dy as isize;
                    if px >= 0 && py >= 0 {
                        self.set_pixel(px as usize, py as usize, r, g, b, a);
                    } else {
                        proof {
                            crate::pixels::lemma_paint_nothing(
                                self.pixels@,
                                cw,
                                ch,
                                point_at(ox + dx, oy + dy),
                                c,
                            );
                        }
                    }
                }
                dx = dx + 1;
            }
            proof {
                lemma_disc_within(cx as int, cy as int, radius as int, thickness as int);
                lemma_scan_next_row(p0, cw, ch, shape, c, ox, oy, n, n, dy as int);
            }
            dy = dy + 1;
        }
    }

    /// Draws the glyph of `ch` with its top-left dot cell at (x, y): every lit
    /// dot becomes a `dot_size` x `dot_size` square, and neighbouring dot
    /// cells lie `dot_size + spacing` pixels apart. Lower-case letters are
    /// drawn with the glyph of their upper-case letter; a character without a
    /// glyph draws nothing.
    pub fn draw_char_dots(
        &mut self,
        ch: char,
        x: usize,
        y: usize,
        dot_size: usize,
        spacing: usize,
        r: u8,
        g: u8,
        b: u8,
        a: u8,
    )
        requires
            old(self).wf(),
            glyph_fits(ch, x as int, y as int, dot_size as int, spacing as int),
        ensures
            final(self).wf(),
            final(self).width == old(self).width,
            final(self).height == old(self).height,
            final(self).pixels@ == apply_op(
                old(self).pixels@,
                old(self).width as nat,
                op(
                    Shape::Glyph { ch, x: x as int, y: y as int, dot: dot_size as int, spacing: spacing as int },
                    r,
                    g,
                    b,
                    a,
                ),
            ),
    {
        let ghost p0 = self.pixels@;
        let ghost cw = self.width as nat;
        let ghost chh = self.height as nat;
        let ghost c = Rgba { r, g, b, a };
        let ghost (gx, gy, gd, gs) = (x as int, y as int, dot_size as int, spacing as int);
        proof {
            lemma_glyph_ends(p0, cw, chh, ch, gx, gy, gd, gs, c);
        }
        let glyph = glyph_for(ch);
        if let Some(data) = glyph {
            let mut row: usize = 0;
            while row < 7
                invariant
                    self.wf(),
                    self.width == cw,
                    self.height == chh,
                    p0.len() == cw * chh * 4,
                    c == (Rgba { r, g, b, a }),
                    gx == x && gy == y && gd == dot_size && gs == spacing,
                    glyph_rows(ch) is Some,
                    data@ == glyph_rows(ch)->0,
                    row <= 7,
                    glyph_fits(ch, x as int, y as int, dot_size as int, spacing as int),
                    self.pixels@ == paint_region(p0, cw, glyph_lit_before(ch, gx, gy, gd, gs, row * 5), c),
                decreases 7 - row,
            {
                let row_val = data[row];
                let mut col: usize = 0;
                while col < 5
                    invariant
                        self.wf(),
                        self.width == cw,
                        self.height == chh,
                        p0.len() == cw * chh * 4,
                        c == (Rgba { r, g, b, a }),
                        gx == x && gy == y && gd == dot_size && gs == spacing,
                        glyph_rows(ch) is Some,
                        data@ == glyph_rows(ch)->0,
                        row < 7,
                        row_val == data@[row as int],
                        col <= 5,
                        glyph_fits(ch, x as int, y as int, dot_size as int, spacing as int),
                        self.pixels@ == paint_region(p0, cw, glyph_lit_before(ch, gx, gy, gd, gs, row * 5 + col), c),
                    decreases 5 - col,
                {
                    proof {
                        lemma_glyph_cell(p0, cw, chh, ch, gx, gy, gd, gs, c, row as int, col as int);
                    }
                    if (row_val >> ((4 - col) as u8)) & 1u8 == 1u8 {
                        proof {
                            assert(glyph_bit(ch, row as int, col as int));
                        }
                        let cx = x + col * (dot_size + spacing);
                        let cy = y + row * (dot_size + spacing);
                        self.draw_rect(cx, cy, dot_size, dot_size, r, g, b, a);
                    } else {
                        proof {
                            assert(!glyph_bit(ch, row as int, col as int));
                        }
                    }
                    col = col + 1;
                }
                row = row + 1;
            }
        } else {
            proof {
                assert forall|px: int, py: int| 0 <= px < cw && 0 <= py < chh implies
                    !#[trigger] crate::shapes::region_of(
                        Shape::Glyph { ch, x: gx, y: gy, dot: gd, spacing: gs },
                    )(px, py) by {
                    assert(forall|row: int, col: int| !#[trigger] glyph_bit(ch, row, col));
                }
                lemma_paint_nothing(
                    p0,
                    cw,
                    chh,
                    crate::shapes::region_of(Shape::Glyph { ch, x: gx, y: gy, dot: gd, spacing: gs }),
                    c,
                );
            }
        }
    }

    /// Draws a text in the dot-matrix font from (x, y) rightwards: each
    /// character with a glyph at the cursor, the cursor advancing four dot
    /// cells for a space and five dot cells plus `char_spacing` for any other
    /// character.
    pub fn draw_chars_dots(
        &mut self,
        text: &Vec<char>,
        x: usize,
        y: usize,
        dot_size: usize,
        spacing: usize,
        char_spacing: usize,
        r: u8,
        g: u8,
        b: u8,
        a: u8,
    )
        requires
            old(self).wf(),
            text_fits(text@, x as int, y as int, dot_size as int, spacing as int, char_spacing as int),
        ensures
            final(self).wf(),
            final(self).width == old(self).width,
            final(self).height == old(self).height,
            final(self).pixels@ == apply_op(
                old(self).pixels@,
                old(self).width as nat,
                op(
                    Shape::Text {
                        text: text@,
                        x: x as int,
                        y: y as int,
                        dot: dot_size as int,
                        spacing: spacing as int,
                        char_spacing: char_spacing as int,
                    },
                    r,
                    g,
                    b,
                    a,
                ),
            ),
    {
        let ghost p0 = self.pixels@;
        let ghost cw = self.width as nat;
        let ghost chh = self.height as nat;
        let ghost c = Rgba { r, g, b, a };
        let ghost t = text@;
        let ghost (gx, gy, gd, gs, gcs) = (x as int, y as int, dot_size as int, spacing as int, char_spacing as int);
        proof {
            lemma_text_ends(p0, cw, chh, t, gx, gy, gd, gs, gcs, c);
        }
        let mut cur_x = x;
        let mut i: usize = 0;
        while i < text.len()
            invariant
                self.wf(),
                self.width == cw,
                self.height == chh,
                p0.len() == cw * chh * 4,
                c == (Rgba { r, g, b, a }),
                t == text@,
                gx == x && gy == y && gd == dot_size && gs == spacing && gcs == char_spacing,
                i <= text.len(),
                cur_x == text_advance_x(t, i as int, gx, gd, gs, gcs),
                text_fits(t, gx, gy, gd, gs, gcs),
                self.pixels@ == paint_region(p0, cw, text_lit_before(t, gx, gy, gd, gs, gcs, i as int), c),
            decreases text.len() - i,
        {
            let ch = text[i];
            proof {
                lemma_text_char(p0, cw, chh, t, gx, gy, gd, gs, gcs, c, i as int);
                assert(t[i as int] == ch);
                assert(text_advance_x(t, i + 1, gx, gd, gs, gcs) <= usize::MAX);
            }
            if ch == ' ' {
                cur_x += 4 * (dot_size + spacing);
            } else {
                self.draw_char_dots(ch, cur_x, y, dot_size, spacing, r, g, b, a);
                cur_x += 5 * (dot_size + spacing) + char_spacing;
            }
            i = i + 1;
        }
    }

    /// Draws `text` in the dot-matrix font, as `draw_chars_dots` does.
    pub fn draw_text_dots(
        &mut self,
        text: &str,
        x: usize,
        y: usize,
        dot_size: usize,
        spacing: usize,
        char_spacing: usize,
        r: u8,
        g: u8,
        b: u8,
        a: u8,
    )
        requires
            old(self).wf(),
            text_fits(text@, x as int, y as int, dot_size as int, spacing as int, char_spacing as int),
        ensures
            final(self).wf(),
            final(self).width == old(self).width,
            final(self).height == old(self).height,
            final(self).pixels@ == apply_op(
                old(self).pixels@,
                old(self).width as nat,
                op(
                    Shape::Text {
                        text: text@,
                        x: x as int,
                        y: y as int,
                        dot: dot_size as int,
                        spacing: spacing as int,
                        char_spacing: char_spacing as int,
                    },
                    r,
                    g,
                    b,
                    a,
                ),
            ),
    {
        let chars = crate::text::str_chars(text);
        self.draw_chars_dots(&chars, x, y, dot_size, spacing, char_spacing, r, g, b, a);
    }
}

} // verus!
