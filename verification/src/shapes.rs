//! The shapes that the canvas primitives paint, the draw operations built from
//! them, and the scan order in which a primitive visits its bounding box.

use vstd::prelude::*;
use crate::pixels::{Rgba, paint_region, lemma_paint_union, lemma_paint_same_region, byte_px, byte_py};
use crate::glyphs::{glyph_lit, text_lit};

verus! {

/// The square of an integer.
pub open spec fn sq(v: int) -> int {
    v * v
}

/// Whether offset (dx, dy) of a `w` x `h` box stays after its four corners
/// are rounded with radius `r`: a point in a corner square is kept when it
/// lies within distance `r` of the corner's centre of curvature.
pub open spec fn corner_keep(dx: int, dy: int, w: int, h: int, r: int) -> bool {
    if dx < r && dy < r {
        sq(r - dx) + sq(r - dy) <= r * r
    } else if dx >= w - r && dy < r {
        sq(dx - (w - r)) + sq(r - dy) <= r * r
    } else if dx < r && dy >= h - r {
        sq(r - dx) + sq(dy - (h - r)) <= r * r
    } else if dx >= w - r && dy >= h - r {
        sq(dx - (w - r)) + sq(dy - (h - r)) <= r * r
    } else {
        true
    }
}

/// The corner radius of the box that a border of thickness `t` leaves inside.
pub open spec fn inner_radius(r: int, t: int) -> int {
    if r > t {
        r - t
    } else {
        0
    }
}

/// Whether offset (dx, dy) belongs to the border of thickness `t` of a
/// rounded `w` x `h` box: inside the rounded box, and not inside the rounded
/// box inset by `t` on every side.
pub open spec fn border_keep(dx: int, dy: int, w: int, h: int, r: int, t: int) -> bool {
    &&& corner_keep(dx, dy, w, h, r)
    &&& !(t <= dx && dx < w - t && t <= dy && dy < h - t && corner_keep(
        dx - t,
        dy - t,
        w - 2 * t,
        h - 2 * t,
        inner_radius(r, t),
    ))
}

/// The cursor position after the first `n` characters of a dot-matrix text
/// that starts at `x`: a space advances four dot cells, any other character
/// five dot cells and the character spacing.
pub open spec fn text_advance_x(text: Seq<char>, n: int, x: int, dot: int, spacing: int, char_spacing: int) -> int
    decreases n,
{
    if n <= 0 {
        x
    } else {
        let prev = text_advance_x(text, n - 1, x, dot, spacing, char_spacing);
        if text[n - 1] == ' ' {
            prev + 4 * (dot + spacing)
        } else {
            prev + 5 * (dot + spacing) + char_spacing
        }
    }
}

/// A region of the plane that a drawing primitive paints.
pub enum Shape {
    /// Every pixel.
    All,
    /// A single pixel.
    Point { x: int, y: int },
    /// The `w` x `h` box with its top-left pixel at (x, y).
    Rect { x: int, y: int, w: int, h: int },
    /// The box with rounded corners.
    RoundedRect { x: int, y: int, w: int, h: int, radius: int },
    /// The border of the box with rounded corners.
    RoundedBorder { x: int, y: int, w: int, h: int, radius: int, thickness: int },
    /// The pixels within distance `radius` of (cx, cy).
    Disc { cx: int, cy: int, radius: int },
    /// The pixels whose distance from (cx, cy) lies between
    /// `radius - thickness` and `radius`.
    Ring { cx: int, cy: int, radius: int, thickness: int },
    /// The lit dots of a character's glyph.
    Glyph { ch: char, x: int, y: int, dot: int, spacing: int },
    /// The lit dots of every character of a text.
    Text { text: Seq<char>, x: int, y: int, dot: int, spacing: int, char_spacing: int },
}

/// Whether pixel (px, py) belongs to `shape`.
pub open spec fn in_shape(shape: Shape, px: int, py: int) -> bool {
    match shape {
        Shape::All => true,
        Shape::Point { x, y } => px == x && py == y,
        Shape::Rect { x, y, w, h } => x <= px < x + w && y <= py < y + h,
        Shape::RoundedRect { x, y, w, h, radius } => {
            &&& x <= px < x + w
            &&& y <= py < y + h
            &&& corner_keep(px - x, py - y, w, h, radius)
        },
        Shape::RoundedBorder { x, y, w, h, radius, thickness } => {
            &&& x <= px < x + w
            &&& y <= py < y + h
            &&& border_keep(px - x, py - y, w, h, radius, thickness)
        },
        Shape::Disc { cx, cy, radius } => sq(px - cx) + sq(py - cy) <= radius * radius,
        Shape::Ring { cx, cy, radius, thickness } => {
            &&& sq(px - cx) + sq(py - cy) <= radius * radius
            &&& sq(px - cx) + sq(py - cy) >= sq(radius - thickness)
        },
        Shape::Glyph { ch, x, y, dot, spacing } => glyph_lit(ch, x, y, dot, spacing, px, py),
        Shape::Text { text, x, y, dot, spacing, char_spacing } => text_lit(text, x, y, dot, spacing, char_spacing, px, py),
    }
}

/// The region of a shape as a predicate on pixel positions.
pub open spec fn region_of(shape: Shape) -> spec_fn(int, int) -> bool {
    |px: int, py: int| in_shape(shape, px, py)
}

/// One drawing operation: a shape painted in a colour.
pub struct DrawOp {
    pub shape: Shape,
    pub color: Rgba,
}

/// The buffer after the operation `op`.
pub open spec fn apply_op(pixels: Seq<u8>, w: nat, op: DrawOp) -> Seq<u8> {
    paint_region(pixels, w, region_of(op.shape), op.color)
}

/// The buffer after the operations of `ops`, first to last.
pub open spec fn apply_ops(pixels: Seq<u8>, w: nat, ops: Seq<DrawOp>) -> Seq<u8>
    decreases ops.len(),
{
    if ops.len() == 0 {
        pixels
    } else {
        apply_op(apply_ops(pixels, w, ops.drop_last()), w, ops.last())
    }
}

/// The operation painting `shape` in colour (r, g, b, a).
pub open spec fn op(shape: Shape, r: u8, g: u8, b: u8, a: u8) -> DrawOp {
    DrawOp { shape, color: Rgba { r, g, b, a } }
}

/// Drawing two lists of operations one after the other is drawing their
/// concatenation.
pub proof fn lemma_apply_ops_concat(pixels: Seq<u8>, w: nat, a: Seq<DrawOp>, b: Seq<DrawOp>)
    ensures
        apply_ops(pixels, w, a + b) == apply_ops(apply_ops(pixels, w, a), w, b),
    decreases b.len(),
{
    if b.len() == 0 {
        assert(a + b =~= a);
    } else {
        lemma_apply_ops_concat(pixels, w, a, b.drop_last());
        assert((a + b).drop_last() =~= a + b.drop_last());
        assert((a + b).last() == b.last());
    }
}

/// The part of `shape` that a primitive has painted once it has visited, row
/// by row from (ox, oy), every row above `oy + dy` and the pixels of row
/// `oy + dy` left of `ox + dx`.
pub open spec fn scanned(shape: Shape, ox: int, oy: int, dy: int, dx: int) -> spec_fn(int, int) -> bool {
    |px: int, py: int| in_shape(shape, px, py) && (py < oy + dy || (py == oy + dy && px < ox + dx))
}

/// `shape` lies within the box of `ncols` x `nrows` pixels at (ox, oy).
pub open spec fn within(shape: Shape, ox: int, oy: int, ncols: int, nrows: int) -> bool {
    forall|px: int, py: int| #[trigger] in_shape(shape, px, py) ==> ox <= px < ox + ncols && oy <= py < oy + nrows
}

/// The single pixel (x, y) as a region.
pub open spec fn point_at(x: int, y: int) -> spec_fn(int, int) -> bool {
    |px: int, py: int| px == x && py == y
}

/// Visiting one more pixel, and painting it exactly when it belongs to the
/// shape, extends the painted part by that pixel.
pub proof fn lemma_scan_visit(p0: Seq<u8>, w: nat, h: nat, shape: Shape, c: Rgba, ox: int, oy: int, dy: int, dx: int)
    requires
        p0.len() == w * h * 4,
    ensures
        in_shape(shape, ox + dx, oy + dy) ==> paint_region(
            paint_region(p0, w, scanned(shape, ox, oy, dy, dx), c),
            w,
            point_at(ox + dx, oy + dy),
            c,
        ) == paint_region(p0, w, scanned(shape, ox, oy, dy, dx + 1), c),
        !in_shape(shape, ox + dx, oy + dy) ==> paint_region(p0, w, scanned(shape, ox, oy, dy, dx), c)
            == paint_region(p0, w, scanned(shape, ox, oy, dy, dx + 1), c),
{
    let a = scanned(shape, ox, oy, dy, dx);
    let b = point_at(ox + dx, oy + dy);
    let n = scanned(shape, ox, oy, dy, dx + 1);
    lemma_paint_union(p0, w, a, b, c);
    if in_shape(shape, ox + dx, oy + dy) {
        lemma_paint_same_region(p0, w, h, |x: int, y: int| a(x, y) || b(x, y), n, c);
    } else {
        lemma_paint_same_region(p0, w, h, a, n, c);
    }
}

/// Past the last column of a row, the scan goes on at the start of the next row.
pub proof fn lemma_scan_next_row(p0: Seq<u8>, w: nat, h: nat, shape: Shape, c: Rgba, ox: int, oy: int, ncols: int, nrows: int, dy: int)
    requires
        p0.len() == w * h * 4,
        within(shape, ox, oy, ncols, nrows),
    ensures
        paint_region(p0, w, scanned(shape, ox, oy, dy, ncols), c)
            == paint_region(p0, w, scanned(shape, ox, oy, dy + 1, 0), c),
{
    lemma_paint_same_region(p0, w, h, scanned(shape, ox, oy, dy, ncols), scanned(shape, ox, oy, dy + 1, 0), c);
}

/// Before the first row nothing of the shape is painted, and after the last
/// row all of it.
pub proof fn lemma_scan_ends(p0: Seq<u8>, w: nat, h: nat, shape: Shape, c: Rgba, ox: int, oy: int, ncols: int, nrows: int)
    requires
        p0.len() == w * h * 4,
        within(shape, ox, oy, ncols, nrows),
    ensures
        paint_region(p0, w, scanned(shape, ox, oy, 0, 0), c) == p0,
        paint_region(p0, w, scanned(shape, ox, oy, nrows, 0), c) == paint_region(p0, w, region_of(shape), c),
{
    crate::pixels::lemma_paint_nothing(p0, w, h, scanned(shape, ox, oy, 0, 0), c);
    lemma_paint_same_region(p0, w, h, scanned(shape, ox, oy, nrows, 0), region_of(shape), c);
}

/// Whether the corner test of a `w` x `h` box with corner radius `r` can be
/// carried out at offset (dx, dy) in unsigned arithmetic: it computes
/// `w - r` once the offset is outside the top-left corner square, and `h - r`
/// once the offset is in the left or right band of corner columns.
pub open spec fn corner_safe(dx: int, dy: int, w: int, h: int, r: int) -> bool {
    if dx < r && dy < r {
        true
    } else if r > w {
        false
    } else if dx >= w - r && dy < r {
        true
    } else if dx < r || dx >= w - r {
        r <= h
    } else {
        true
    }
}

/// The inputs on which filling a rounded box stays within unsigned arithmetic.
pub open spec fn rounded_rect_ok(x: int, y: int, w: int, h: int, r: int) -> bool {
    &&& (w > 0 && h > 0 ==> 2 * r * r <= usize::MAX)
    &&& forall|dx: int, dy: int| 0 <= dx < w && 0 <= dy < h ==> #[trigger] corner_safe(dx, dy, w, h, r)
    &&& forall|dx: int, dy: int|
        0 <= dx < w && 0 <= dy < h && #[trigger] corner_keep(dx, dy, w, h, r) ==> x + dx <= usize::MAX && y + dy
            <= usize::MAX
}

/// Whether both the outer and, where it is reached, the inner corner test of
/// a rounded border can be carried out at offset (dx, dy).
pub open spec fn border_safe(dx: int, dy: int, w: int, h: int, r: int, t: int) -> bool {
    &&& corner_safe(dx, dy, w, h, r)
    &&& (corner_keep(dx, dy, w, h, r) && t <= dx && dx < w - t && t <= dy && dy < h - t) ==> corner_safe(
        dx - t,
        dy - t,
        w - 2 * t,
        h - 2 * t,
        inner_radius(r, t),
    )
}

/// The inputs on which drawing a rounded border stays within unsigned arithmetic.
pub open spec fn rounded_border_ok(x: int, y: int, w: int, h: int, r: int, t: int) -> bool {
    &&& (w > 0 && h > 0 ==> 2 * r * r <= usize::MAX)
    &&& forall|dx: int, dy: int| 0 <= dx < w && 0 <= dy < h ==> #[trigger] border_safe(dx, dy, w, h, r, t)
    &&& forall|dx: int, dy: int|
        0 <= dx < w && 0 <= dy < h && #[trigger] border_keep(dx, dy, w, h, r, t) ==> x + dx <= usize::MAX && y + dy
            <= usize::MAX
}

/// A corner radius no larger than either side keeps the corner test safe.
pub proof fn lemma_corner_safe(w: int, h: int, r: int)
    requires
        0 <= r <= w,
        r <= h,
    ensures
        forall|dx: int, dy: int| 0 <= dx < w && 0 <= dy < h ==> #[trigger] corner_safe(dx, dy, w, h, r),
{
}

/// A rounded box whose radius fits both sides, and which fits the coordinate
/// range, can be filled.
pub proof fn lemma_rounded_rect_ok(x: int, y: int, w: int, h: int, r: int)
    requires
        0 <= x,
        0 <= y,
        0 <= r <= w,
        r <= h,
        w > 0 && h > 0 ==> 2 * r * r <= usize::MAX,
        w > 0 && h > 0 ==> x + w - 1 <= usize::MAX && y + h - 1 <= usize::MAX,
    ensures
        rounded_rect_ok(x, y, w, h, r),
{
    lemma_corner_safe(w, h, r);
}

/// A rounded border whose radius fits both sides of the box and of the box
/// inside it, and which fits the coordinate range, can be drawn.
pub proof fn lemma_rounded_border_ok(x: int, y: int, w: int, h: int, r: int, t: int)
    requires
        0 <= x,
        0 <= y,
        0 <= t,
        0 <= r <= w,
        r <= h,
        r <= t || (r + t <= w && r + t <= h),
        w > 0 && h > 0 ==> 2 * r * r <= usize::MAX,
        w > 0 && h > 0 ==> x + w - 1 <= usize::MAX && y + h - 1 <= usize::MAX,
    ensures
        rounded_border_ok(x, y, w, h, r, t),
{
    lemma_corner_safe(w, h, r);
    assert forall|dx: int, dy: int| 0 <= dx < w && 0 <= dy < h implies #[trigger] border_safe(dx, dy, w, h, r, t) by {
        assert(corner_safe(dx, dy, w, h, r));
        if corner_keep(dx, dy, w, h, r) && t <= dx && dx < w - t && t <= dy && dy < h - t {
            lemma_corner_safe(w - 2 * t, h - 2 * t, inner_radius(r, t));
            assert(corner_safe(dx - t, dy - t, w - 2 * t, h - 2 * t, inner_radius(r, t)));
        }
    }
}

/// A square larger than `r * r` comes from a value farther than `r` from zero.
pub proof fn lemma_sq_within(a: int, r: int)
    requires
        0 <= r,
        sq(a) <= r * r,
    ensures
        -r <= a <= r,
{
    if a > r {
        assert(a * a > r * r) by (nonlinear_arith)
            requires a > r, r >= 0;
    }
    if a < -r {
        assert(a * a > r * r) by (nonlinear_arith)
            requires a < -r, r >= 0;
    }
}

/// A disc, and a ring, lie within the square of side `2 * radius + 1`
/// centred on their centre.
pub proof fn lemma_disc_within(cx: int, cy: int, radius: int, thickness: int)
    requires
        0 <= radius,
    ensures
        within(Shape::Disc { cx, cy, radius }, cx - radius, cy - radius, 2 * radius + 1, 2 * radius + 1),
        within(
            Shape::Ring { cx, cy, radius, thickness },
            cx - radius,
            cy - radius,
            2 * radius + 1,
            2 * radius + 1,
        ),
{
    assert forall|px: int, py: int| #[trigger] in_shape(Shape::Disc { cx, cy, radius }, px, py) implies cx - radius
        <= px < cx - radius + 2 * radius + 1 && cy - radius <= py < cy - radius + 2 * radius + 1 by {
        assert(sq(px - cx) >= 0 && sq(py - cy) >= 0) by (nonlinear_arith);
        lemma_sq_within(px - cx, radius);
        lemma_sq_within(py - cy, radius);
    }
    assert forall|px: int, py: int| #[trigger] in_shape(Shape::Ring { cx, cy, radius, thickness }, px, py) implies cx
        - radius <= px < cx - radius + 2 * radius + 1 && cy - radius <= py < cy - radius + 2 * radius + 1 by {
        assert(sq(px - cx) >= 0 && sq(py - cy) >= 0) by (nonlinear_arith);
        lemma_sq_within(px - cx, radius);
        lemma_sq_within(py - cy, radius);
    }
}

/// After the first `k + 1` operations of a list, the buffer is the buffer
/// after the first `k` with operation `k` applied.
pub proof fn lemma_apply_take(pixels: Seq<u8>, w: nat, ops: Seq<DrawOp>, k: int)
    requires
        0 <= k < ops.len(),
    ensures
        apply_ops(pixels, w, ops.take(k + 1)) == apply_op(apply_ops(pixels, w, ops.take(k)), w, ops[k]),
{
    assert(ops.take(k + 1).drop_last() =~= ops.take(k));
}

/// The whole list is its longest prefix, and the empty prefix does nothing.
pub proof fn lemma_apply_take_ends(pixels: Seq<u8>, w: nat, ops: Seq<DrawOp>)
    ensures
        apply_ops(pixels, w, ops.take(ops.len() as int)) == apply_ops(pixels, w, ops),
        apply_ops(pixels, w, ops.take(0)) == pixels,
{
    assert(ops.take(ops.len() as int) =~= ops);
    assert(ops.take(0) =~= Seq::<DrawOp>::empty());
}

/// Before the end of its first part, a joined text advances as that part.
proof fn lemma_advance_prefix(
    a: Seq<char>,
    b: Seq<char>,
    i: int,
    x: int,
    dot: int,
    spacing: int,
    char_spacing: int,
)
    requires
        0 <= i <= a.len(),
    ensures
        text_advance_x(a + b, i, x, dot, spacing, char_spacing) == text_advance_x(a, i, x, dot, spacing, char_spacing),
    decreases i,
{
    if i > 0 {
        lemma_advance_prefix(a, b, i - 1, x, dot, spacing, char_spacing);
        assert((a + b)[i - 1] == a[i - 1]);
    }
}

/// In its second part, a joined text advances as that part drawn from the
/// cursor where the first part ends.
proof fn lemma_advance_suffix(
    a: Seq<char>,
    b: Seq<char>,
    j: int,
    x: int,
    dot: int,
    spacing: int,
    char_spacing: int,
)
    requires
        0 <= j <= b.len(),
    ensures
        text_advance_x(a + b, a.len() + j, x, dot, spacing, char_spacing) == text_advance_x(
            b,
            j,
            text_advance_x(a, a.len() as int, x, dot, spacing, char_spacing),
            dot,
            spacing,
            char_spacing,
        ),
    decreases j,
{
    if j == 0 {
        lemma_advance_prefix(a, b, a.len() as int, x, dot, spacing, char_spacing);
    } else {
        lemma_advance_suffix(a, b, j - 1, x, dot, spacing, char_spacing);
        assert((a + b)[a.len() + j - 1] == b[j - 1]);
    }
}

/// A pixel is lit by a joined text exactly when it is lit by its first part,
/// or by its second part drawn from where the first part ends.
proof fn lemma_text_lit_split(
    a: Seq<char>,
    b: Seq<char>,
    x: int,
    y: int,
    dot: int,
    spacing: int,
    cs: int,
    px: int,
    py: int,
)
    ensures
        text_lit(a + b, x, y, dot, spacing, cs, px, py) <==> (text_lit(a, x, y, dot, spacing, cs, px, py) || text_lit(
            b,
            text_advance_x(a, a.len() as int, x, dot, spacing, cs),
            y,
            dot,
            spacing,
            cs,
            px,
            py,
        )),
{
    let ab = a + b;
    let x2 = text_advance_x(a, a.len() as int, x, dot, spacing, cs);
    if text_lit(ab, x, y, dot, spacing, cs, px, py) {
        let i = choose|i: int|
            0 <= i < ab.len() && #[trigger] ab[i] != ' ' && glyph_lit(
                ab[i],
                text_advance_x(ab, i, x, dot, spacing, cs),
                y,
                dot,
                spacing,
                px,
                py,
            );
        if i < a.len() {
            lemma_advance_prefix(a, b, i, x, dot, spacing, cs);
            assert(a[i] == ab[i]);
        } else {
            let j = i - a.len();
            lemma_advance_suffix(a, b, j, x, dot, spacing, cs);
            assert(b[j] == ab[i]);
        }
    }
    if text_lit(a, x, y, dot, spacing, cs, px, py) {
        let i = choose|i: int|
            0 <= i < a.len() && #[trigger] a[i] != ' ' && glyph_lit(
                a[i],
                text_advance_x(a, i, x, dot, spacing, cs),
                y,
                dot,
                spacing,
                px,
                py,
            );
        lemma_advance_prefix(a, b, i, x, dot, spacing, cs);
        assert(ab[i] == a[i]);
    }
    if text_lit(b, x2, y, dot, spacing, cs, px, py) {
        let j = choose|j: int|
            0 <= j < b.len() && #[trigger] b[j] != ' ' && glyph_lit(
                b[j],
                text_advance_x(b, j, x2, dot, spacing, cs),
                y,
                dot,
                spacing,
                px,
                py,
            );
        lemma_advance_suffix(a, b, j, x, dot, spacing, cs);
        assert(ab[a.len() + j] == b[j]);
    }
}

/// Drawing a joined text paints what drawing its first part and then its
/// second part, from the cursor where the first part ends, paints; drawing
/// the empty text paints nothing. (A character without a glyph draws nothing
/// but still moves the cursor, see `text_advance_x`.)
pub proof fn lemma_joined_text_draws_in_parts(
    pixels: Seq<u8>,
    w: nat,
    a: Seq<char>,
    b: Seq<char>,
    x: int,
    y: int,
    dot: int,
    spacing: int,
    char_spacing: int,
    c: Rgba,
)
    ensures
        apply_op(
            pixels,
            w,
            DrawOp { shape: Shape::Text { text: a + b, x, y, dot, spacing, char_spacing }, color: c },
        ) == apply_op(
            apply_op(pixels, w, DrawOp { shape: Shape::Text { text: a, x, y, dot, spacing, char_spacing }, color: c }),
            w,
            DrawOp {
                shape: Shape::Text {
                    text: b,
                    x: text_advance_x(a, a.len() as int, x, dot, spacing, char_spacing),
                    y,
                    dot,
                    spacing,
                    char_spacing,
                },
                color: c,
            },
        ),
        apply_op(
            pixels,
            w,
            DrawOp { shape: Shape::Text { text: Seq::<char>::empty(), x, y, dot, spacing, char_spacing }, color: c },
        ) == pixels,
{
    let x2 = text_advance_x(a, a.len() as int, x, dot, spacing, char_spacing);
    let ra = region_of(Shape::Text { text: a, x, y, dot, spacing, char_spacing });
    let rb = region_of(Shape::Text { text: b, x: x2, y, dot, spacing, char_spacing });
    let rab = region_of(Shape::Text { text: a + b, x, y, dot, spacing, char_spacing });
    lemma_paint_union(pixels, w, ra, rb, c);
    assert forall|px: int, py: int| #[trigger] rab(px, py) == (ra(px, py) || rb(px, py)) by {
        lemma_text_lit_split(a, b, x, y, dot, spacing, char_spacing, px, py);
    }
    assert(rab =~= (|px: int, py: int| ra(px, py) || rb(px, py)));
    let re = region_of(Shape::Text { text: Seq::<char>::empty(), x, y, dot, spacing, char_spacing });
    assert forall|px: int, py: int| !#[trigger] re(px, py) by {}
    assert(paint_region(pixels, w, re, c) =~= pixels);
}

/// Every operation of `ops` paints only inside the box of `bw` x `bh`
/// pixels at (bx, by).
pub open spec fn all_within(ops: Seq<DrawOp>, bx: int, by: int, bw: int, bh: int) -> bool {
    forall|k: int| 0 <= k < ops.len() ==> within(#[trigger] ops[k].shape, bx, by, bw, bh)
}

/// A shape within a box is within every box around it.
pub proof fn lemma_within_grow(
    shape: Shape,
    ax: int,
    ay: int,
    aw: int,
    ah: int,
    bx: int,
    by: int,
    bw: int,
    bh: int,
)
    requires
        within(shape, ax, ay, aw, ah),
        bx <= ax,
        by <= ay,
        ax + aw <= bx + bw,
        ay + ah <= by + bh,
    ensures
        within(shape, bx, by, bw, bh),
{
    assert forall|px: int, py: int| #[trigger] in_shape(shape, px, py) implies bx <= px < bx + bw && by <= py < by
        + bh by {}
}

/// A box, its rounded version and its rounded border lie within the box.
pub proof fn lemma_box_within(x: int, y: int, w: int, h: int, r: int, t: int)
    ensures
        within(Shape::Rect { x, y, w, h }, x, y, w, h),
        within(Shape::RoundedRect { x, y, w, h, radius: r }, x, y, w, h),
        within(Shape::RoundedBorder { x, y, w, h, radius: r, thickness: t }, x, y, w, h),
{
    assert forall|px: int, py: int| #[trigger] in_shape(Shape::Rect { x, y, w, h }, px, py) implies x <= px < x + w
        && y <= py < y + h by {}
    assert forall|px: int, py: int| #[trigger] in_shape(Shape::RoundedRect { x, y, w, h, radius: r }, px, py)
        implies x <= px < x + w && y <= py < y + h by {}
    assert forall|px: int, py: int| #[trigger] in_shape(
        Shape::RoundedBorder { x, y, w, h, radius: r, thickness: t },
        px,
        py,
    ) implies x <= px < x + w && y <= py < y + h by {}
}

/// Two lists of operations that paint inside a box still do so one after
/// the other.
pub proof fn lemma_all_within_concat(a: Seq<DrawOp>, b: Seq<DrawOp>, bx: int, by: int, bw: int, bh: int)
    requires
        all_within(a, bx, by, bw, bh),
        all_within(b, bx, by, bw, bh),
    ensures
        all_within(a + b, bx, by, bw, bh),
{
    assert forall|k: int| 0 <= k < (a + b).len() implies within(#[trigger] (a + b)[k].shape, bx, by, bw, bh) by {
        if k < a.len() {
            assert((a + b)[k] == a[k]);
        } else {
            assert((a + b)[k] == b[k - a.len()]);
        }
    }
}

/// Operations that paint only inside a box leave every byte of a pixel
/// outside the box as it was, and the buffer's length too.
pub proof fn lemma_ops_keep_outside(pixels: Seq<u8>, w: nat, ops: Seq<DrawOp>, bx: int, by: int, bw: int, bh: int)
    requires
        all_within(ops, bx, by, bw, bh),
    ensures
        apply_ops(pixels, w, ops).len() == pixels.len(),
        forall|i: int|
            0 <= i < pixels.len() && !(bx <= byte_px(i, w as int) < bx + bw && by <= byte_py(i, w as int) < by + bh)
                ==> #[trigger] apply_ops(pixels, w, ops)[i] == pixels[i],
    decreases ops.len(),
{
    if ops.len() > 0 {
        let prev = ops.drop_last();
        assert forall|k: int| 0 <= k < prev.len() implies within(#[trigger] prev[k].shape, bx, by, bw, bh) by {
            assert(prev[k] == ops[k]);
        }
        lemma_ops_keep_outside(pixels, w, prev, bx, by, bw, bh);
        let last = ops.last();
        assert(within(ops[ops.len() - 1].shape, bx, by, bw, bh));
        assert forall|i: int|
            0 <= i < pixels.len() && !(bx <= byte_px(i, w as int) < bx + bw && by <= byte_py(i, w as int) < by
                + bh) implies #[trigger] apply_ops(pixels, w, ops)[i] == pixels[i] by {
            assert(!in_shape(last.shape, byte_px(i, w as int), byte_py(i, w as int)));
        }
    }
}

} // verus!
