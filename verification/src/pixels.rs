//! The mathematical model of a BGRA pixel buffer and of painting a region of it.

use vstd::prelude::*;
use vstd::arithmetic::div_mod::{
    lemma_fundamental_div_mod, lemma_fundamental_div_mod_converse,
};
use vstd::arithmetic::mul::{lemma_mul_inequality, lemma_mul_strict_inequality};

verus! {

/// A colour given by its red, green, blue and alpha channels.
#[derive(Clone, Copy, PartialEq, Eq, Debug)]
pub struct Rgba {
    pub r: u8,
    pub g: u8,
    pub b: u8,
    pub a: u8,
}

/// The byte that a pixel of colour `c` holds at offset `k` (0..4): the buffer
/// stores each pixel as B, G, R, A.
pub open spec fn channel(c: Rgba, k: int) -> u8 {
    if k == 0 {
        c.b
    } else if k == 1 {
        c.g
    } else if k == 2 {
        c.r
    } else {
        c.a
    }
}

/// Column of the pixel that byte `i` belongs to, in a buffer `w` pixels wide.
pub open spec fn byte_px(i: int, w: int) -> int {
    (i / 4) % w
}

/// Row of the pixel that byte `i` belongs to, in a buffer `w` pixels wide.
pub open spec fn byte_py(i: int, w: int) -> int {
    (i / 4) / w
}

/// The buffer `pixels` (rows of `w` pixels) with every pixel whose position
/// satisfies `region` set to colour `c`, and every other byte unchanged.
pub open spec fn paint_region(
    pixels: Seq<u8>,
    w: nat,
    region: spec_fn(int, int) -> bool,
    c: Rgba,
) -> Seq<u8> {
    Seq::new(
        pixels.len(),
        |i: int|
            if region(byte_px(i, w as int), byte_py(i, w as int)) {
                channel(c, i % 4)
            } else {
                pixels[i]
            },
    )
}

/// The colour of pixel (x, y) of a buffer `w` pixels wide.
pub open spec fn color_at(pixels: Seq<u8>, w: nat, x: int, y: int) -> Rgba {
    let i = (y * w + x) * 4;
    Rgba { b: pixels[i], g: pixels[i + 1], r: pixels[i + 2], a: pixels[i + 3] }
}

/// Byte `i` of a buffer `w` pixels wide and `h` rows high lies in a pixel
/// inside the buffer, and is byte `i % 4` of that pixel.
pub proof fn lemma_byte_coords(i: int, w: int, h: int)
    requires
        w > 0,
        0 <= i < w * h * 4,
    ensures
        0 <= byte_px(i, w) < w,
        0 <= byte_py(i, w) < h,
        i / 4 == byte_py(i, w) * w + byte_px(i, w),
        i == (byte_py(i, w) * w + byte_px(i, w)) * 4 + i % 4,
        0 <= i % 4 < 4,
{
    lemma_fundamental_div_mod(i, 4);
    lemma_fundamental_div_mod(i / 4, w);
    assert(i / 4 < w * h) by {
        assert(w * h * 4 == (w * h) * 4) by (nonlinear_arith);
        if i / 4 >= w * h {
            lemma_mul_inequality(w * h, i / 4, 4);
        }
    }
    if byte_py(i, w) >= h {
        lemma_mul_inequality(h, byte_py(i, w), w);
        assert(h * w == w * h) by (nonlinear_arith);
    }
    assert(i / 4 >= 0);
}

/// The bytes of pixel (x, y) are those at `(y * w + x) * 4 + k` for `k < 4`.
pub proof fn lemma_pixel_bytes(x: int, y: int, w: int, k: int)
    requires
        0 <= x < w,
        0 <= y,
        0 <= k < 4,
    ensures
        byte_px((y * w + x) * 4 + k, w) == x,
        byte_py((y * w + x) * 4 + k, w) == y,
        ((y * w + x) * 4 + k) % 4 == k,
{
    let p = y * w + x;
    assert(y * w + x >= 0) by (nonlinear_arith) requires 0 <= x, 0 <= y, w > 0;
    lemma_fundamental_div_mod_converse(p * 4 + k, 4, p, k);
    assert(p * 4 + k == p * 4 + k);
    lemma_fundamental_div_mod_converse(p, w, y, x);
}

/// A byte belongs to pixel (x, y) exactly when its index is one of that
/// pixel's four byte indices.
pub proof fn lemma_byte_in_pixel(i: int, x: int, y: int, w: int, h: int)
    requires
        0 <= x < w,
        0 <= y < h,
        0 <= i < w * h * 4,
    ensures
        (byte_px(i, w) == x && byte_py(i, w) == y) <==> ((y * w + x) * 4 <= i < (y * w + x) * 4 + 4),
{
    lemma_byte_coords(i, w, h);
    if (y * w + x) * 4 <= i < (y * w + x) * 4 + 4 {
        lemma_pixel_bytes(x, y, w, i - (y * w + x) * 4);
    }
}

/// Reading a pixel back after painting gives the painted colour inside the
/// region and the old colour outside it, for every pixel of the buffer.
pub proof fn lemma_paint_reads_back(
    pixels: Seq<u8>,
    w: nat,
    h: nat,
    region: spec_fn(int, int) -> bool,
    c: Rgba,
    x: int,
    y: int,
)
    requires
        pixels.len() == w * h * 4,
        0 <= x < w,
        0 <= y < h,
    ensures
        color_at(paint_region(pixels, w, region, c), w, x, y) == (if region(x, y) {
            c
        } else {
            color_at(pixels, w, x, y)
        }),
{
    let base = (y * w + x) * 4;
    assert(y * w + x < w * h) by (nonlinear_arith)
        requires 0 <= x < w, 0 <= y < h;
    assert(0 <= y * w + x) by (nonlinear_arith)
        requires 0 <= x, 0 <= y, w >= 0;
    assert(base + 3 < w * h * 4) by (nonlinear_arith)
        requires base == (y * w + x) * 4, y * w + x < w * h;
    lemma_pixel_bytes(x, y, w as int, 0);
    lemma_pixel_bytes(x, y, w as int, 1);
    lemma_pixel_bytes(x, y, w as int, 2);
    lemma_pixel_bytes(x, y, w as int, 3);
}

/// Painting a region and then another region with the same colour paints
/// their union.
pub proof fn lemma_paint_union(
    pixels: Seq<u8>,
    w: nat,
    a: spec_fn(int, int) -> bool,
    b: spec_fn(int, int) -> bool,
    c: Rgba,
)
    ensures
        paint_region(paint_region(pixels, w, a, c), w, b, c)
            == paint_region(pixels, w, |x: int, y: int| a(x, y) || b(x, y), c),
{
    assert(paint_region(paint_region(pixels, w, a, c), w, b, c)
        =~= paint_region(pixels, w, |x: int, y: int| a(x, y) || b(x, y), c));
}

/// Painting depends on the region only through the pixels of the buffer.
pub proof fn lemma_paint_same_region(
    pixels: Seq<u8>,
    w: nat,
    h: nat,
    a: spec_fn(int, int) -> bool,
    b: spec_fn(int, int) -> bool,
    c: Rgba,
)
    requires
        pixels.len() == w * h * 4,
        forall|x: int, y: int| 0 <= x < w && 0 <= y < h ==> #[trigger] a(x, y) == b(x, y),
    ensures
        paint_region(pixels, w, a, c) == paint_region(pixels, w, b, c),
{
    if w == 0 {
        assert(pixels.len() == 0);
        assert(paint_region(pixels, w, a, c) =~= paint_region(pixels, w, b, c));
        return;
    }
    assert forall|i: int| 0 <= i < pixels.len() implies
        a(byte_px(i, w as int), byte_py(i, w as int)) == b(byte_px(i, w as int), byte_py(i, w as int))
    by {
        lemma_byte_coords(i, w as int, h as int);
    }
    assert(paint_region(pixels, w, a, c) =~= paint_region(pixels, w, b, c));
}

/// Painting an empty region leaves the buffer as it is.
pub proof fn lemma_paint_nothing(pixels: Seq<u8>, w: nat, h: nat, a: spec_fn(int, int) -> bool, c: Rgba)
    requires
        pixels.len() == w * h * 4,
        forall|x: int, y: int| 0 <= x < w && 0 <= y < h ==> !#[trigger] a(x, y),
    ensures
        paint_region(pixels, w, a, c) == pixels,
{
    if w == 0 {
        assert(pixels.len() == 0);
        assert(paint_region(pixels, w, a, c) =~= pixels);
        return;
    }
    assert forall|i: int| 0 <= i < pixels.len() implies !a(byte_px(i, w as int), byte_py(i, w as int)) by {
        lemma_byte_coords(i, w as int, h as int);
    }
    assert(paint_region(pixels, w, a, c) =~= pixels);
}

} // verus!
