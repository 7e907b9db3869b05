//! Window layouts: where each tracked window goes on the output, floating
//! (a cascade from the top-left corner) or tiled (master and stack).

use vstd::prelude::*;

verus! {

/// How windows are arranged:
/// - Floating: a cascade from the top-left corner, clients pick their size;
/// - MasterStack: the first window fills the left 60% of the output, the
///   others share the right 40% in equal rows.
#[derive(Clone, Copy, PartialEq, Eq, Debug, Structural)]
pub enum LayoutMode {
    Floating,
    MasterStack,
}

/// The other layout mode.
pub open spec fn toggled_mode(mode: LayoutMode) -> LayoutMode {
    match mode {
        LayoutMode::Floating => LayoutMode::MasterStack,
        LayoutMode::MasterStack => LayoutMode::Floating,
    }
}

/// Switches between the floating and the tiled layout.
pub fn toggle_layout_mode(mode: LayoutMode) -> (next: LayoutMode)
    ensures
        next == toggled_mode(mode),
{
    match mode {
        LayoutMode::Floating => LayoutMode::MasterStack,
        LayoutMode::MasterStack => LayoutMode::Floating,
    }
}

/// Toggling the layout mode twice gives back the mode one started from.
pub proof fn lemma_toggle_layout_twice(mode: LayoutMode)
    ensures
        toggled_mode(toggled_mode(mode)) == mode,
{
}

/// The position and size of an output in the global coordinate space.
#[derive(Clone, Copy, PartialEq, Eq, Debug, Structural)]
pub struct OutputGeometry {
    pub x: i32,
    pub y: i32,
    pub w: i32,
    pub h: i32,
}

/// Where a window goes: its top-left corner, the size the compositor asks
/// for (`None`: the client picks its own) and whether it is tiled on all
/// four edges.
#[derive(Clone, Copy, PartialEq, Eq, Debug)]
pub struct Placement {
    pub x: i32,
    pub y: i32,
    pub size: Option<(i32, i32)>,
    pub tiled: bool,
}

/// Offset, in pixels, between consecutive windows of the floating cascade.
pub const FLOAT_STAGGER: i32 = 40;

/// `a / b` rounded toward zero, for `b > 0`.
pub open spec fn div_toward_zero(a: int, b: int) -> int {
    if a >= 0 {
        a / b
    } else {
        -((-a) / b)
    }
}

/// Width of the master column: 60% of the output width, rounded toward
/// zero. For every `i32` width this is also the value obtained by
/// multiplying the width by the `f64` nearest to three fifths and truncating.
pub open spec fn master_width(w: int) -> int {
    div_toward_zero(3 * w, 5)
}

/// Height of each stack row when `stack_count` windows share the stack.
pub open spec fn stack_row_height(h: int, stack_count: int) -> int {
    div_toward_zero(h, stack_count)
}

/// Where window `i` of `count` tracked windows goes; `placed` is where the
/// window already is when it has been placed before (laid out earlier, or
/// dragged by the user), `None` for a new window. Floating windows that are
/// already placed stay where they are, and each new one goes to its spot in
/// the cascade from the output's top-left corner; the client picks the
/// size. The tiled layout places every window, whatever `placed` holds.
pub open spec fn placement_of(
    mode: LayoutMode,
    out: OutputGeometry,
    count: int,
    i: int,
    placed: Option<(i32, i32)>,
) -> Placement {
    match mode {
        LayoutMode::Floating => match placed {
            Some((px, py)) => Placement { x: px, y: py, size: None, tiled: false },
            None => Placement {
                x: (out.x + 80 + i * 40) as i32,
                y: (out.y + 40 + i * 40) as i32,
                size: None,
                tiled: false,
            },
        },
        LayoutMode::MasterStack => if count == 1 {
            Placement { x: out.x, y: out.y, size: Some((out.w, out.h)), tiled: true }
        } else if i == 0 {
            Placement { x: out.x, y: out.y, size: Some((master_width(out.w as int) as i32, out.h)), tiled: true }
        } else {
            let sc = count - 1;
            let sh = stack_row_height(out.h as int, sc);
            let k = i - 1;
            Placement {
                x: (out.x + master_width(out.w as int)) as i32,
                y: (out.y + k * sh) as i32,
                size: Some(
                    (
                        (out.w - master_width(out.w as int)) as i32,
                        (if k == sc - 1 {
                            out.h - k * sh
                        } else {
                            sh
                        }) as i32,
                    ),
                ),
                tiled: true,
            }
        },
    }
}

/// The inputs on which the layout arithmetic stays within `i32`.
pub open spec fn layout_fits(mode: LayoutMode, out: OutputGeometry, count: int) -> bool {
    &&& count <= i32::MAX
    &&& count >= 1 ==> match mode {
        LayoutMode::Floating => {
            &&& (count - 1) * 40 <= i32::MAX
            &&& out.x + 80 + (count - 1) * 40 <= i32::MAX
            &&& out.y + 40 + (count - 1) * 40 <= i32::MAX
        },
        LayoutMode::MasterStack => count >= 2 ==> {
            &&& out.x + master_width(out.w as int) <= i32::MAX
            &&& out.x + master_width(out.w as int) >= i32::MIN
            &&& forall|k: int|
                0 <= k < count - 1 ==> i32::MIN <= #[trigger] (out.y + k * stack_row_height(out.h as int, count - 1))
                    <= i32::MAX
        },
    }
}

fn div_toward_zero_i32(a: i32, b: i32) -> (q: i32)
    requires
        b > 0,
    ensures
        q == div_toward_zero(a as int, b as int),
{
    if a >= 0 {
        a / b
    } else {
        let m: i64 = -(a as i64);
        let d: i64 = b as i64;
        let q: i64 = -(m / d);
        proof {
            lemma_div_toward_zero_bounds(a as int, b as int);
        }
        q as i32
    }
}

proof fn lemma_div_toward_zero_bounds(a: int, b: int)
    requires
        b > 0,
    ensures
        a >= 0 ==> 0 <= div_toward_zero(a, b) <= a,
        a < 0 ==> a <= div_toward_zero(a, b) <= 0,
        b * div_toward_zero(a, b) <= a || a < 0,
        a >= 0 ==> a - b * div_toward_zero(a, b) < b,
        a < 0 ==> a <= b * div_toward_zero(a, b) <= 0,
{
    if a >= 0 {
        vstd::arithmetic::div_mod::lemma_fundamental_div_mod(a, b);
        vstd::arithmetic::div_mod::lemma_mod_pos_bound(a, b);
        assert(a / b <= a) by (nonlinear_arith)
            requires a >= 0, b >= 1, a % b >= 0, a == b * (a / b) + a % b;
        assert(a / b >= 0) by (nonlinear_arith)
            requires a >= 0, b >= 1, a == b * (a / b) + a % b, a % b < b;
    } else {
        let m = -a;
        vstd::arithmetic::div_mod::lemma_fundamental_div_mod(m, b);
        vstd::arithmetic::div_mod::lemma_mod_pos_bound(m, b);
        assert(0 <= m / b <= m) by (nonlinear_arith)
            requires m > 0, b >= 1, m == b * (m / b) + m % b, 0 <= m % b < b;
        assert(b * (m / b) <= m);
        assert(b * (-(m / b)) == -(b * (m / b))) by (nonlinear_arith);
    }
}

/// Where each tracked window goes on the output `out` in layout `mode`,
/// window 0 first; `placed[i]` is where window `i` already is, if it has
/// been placed before (see `placement_of`).
pub fn compute_layout(mode: LayoutMode, out: OutputGeometry, placed: &Vec<Option<(i32, i32)>>) -> (placements: Vec<
    Placement,
>)
    requires
        layout_fits(mode, out, placed.len() as int),
    ensures
        placements.len() == placed.len(),
        forall|i: int|
            0 <= i < placed.len() ==> #[trigger] placements@[i] == placement_of(
                mode,
                out,
                placed.len() as int,
                i,
                placed@[i],
            ),
{
    let count = placed.len();
    let mut placements: Vec<Placement> = Vec::new();
    if count == 0 {
        return placements;
    }
    match mode {
        LayoutMode::Floating => {
            let mut i: usize = 0;
            while i < count
                invariant
                    mode == LayoutMode::Floating,
                    layout_fits(mode, out, count as int),
                    1 <= count <= i32::MAX,
                    i <= count,
                    placements.len() == i,
                    count == placed.len(),
                    forall|j: int|
                        0 <= j < i ==> #[trigger] placements@[j] == placement_of(mode, out, count as int, j, placed@[j]),
                decreases count - i,
            {
                match placed[i] {
                    Some((px, py)) => {
                        placements.push(Placement { x: px, y: py, size: None, tiled: false });
                    },
                    None => {
                        let x = out.x + 80 + (i as i32 * FLOAT_STAGGER);
                        let y = out.y + 40 + (i as i32 * FLOAT_STAGGER);
                        placements.push(Placement { x, y, size: None, tiled: false });
                    },
                }
                i = i + 1;
            }
        },
        LayoutMode::MasterStack => {
            if count == 1 {
                placements.push(Placement { x: out.x, y: out.y, size: Some((out.w, out.h)), tiled: true });
            } else {
                let master_w = div_toward_zero_i32_wide(out.w);
                proof {
                    lemma_div_toward_zero_bounds(3 * out.w as int, 5);
                }
                let stack_width = out.w - master_w;
                let stack_count = (count - 1) as i32;
                let stack_height = div_toward_zero_i32(out.h, stack_count);
                proof {
                    lemma_div_toward_zero_bounds(out.h as int, stack_count as int);
                }
                placements.push(Placement { x: out.x, y: out.y, size: Some((master_w, out.h)), tiled: true });
                let mut i: usize = 0;
                while i < count - 1
                    invariant
                        mode == LayoutMode::MasterStack,
                        layout_fits(mode, out, count as int),
                        2 <= count <= i32::MAX,
                        stack_count == count - 1,
                        master_w == master_width(out.w as int),
                        stack_width == out.w - master_width(out.w as int),
                        stack_height == stack_row_height(out.h as int, stack_count as int),
                        i <= count - 1,
                        placements.len() == i + 1,
                        count == placed.len(),
                        forall|j: int|
                            0 <= j < i + 1 ==> #[trigger] placements@[j] == placement_of(
                                mode,
                                out,
                                count as int,
                                j,
                                placed@[j],
                            ),
                    decreases count - 1 - i,
                {
                    let x = out.x + master_w;
                    proof {
                        assert(i32::MIN <= out.y + i * stack_row_height(out.h as int, count - 1) <= i32::MAX);
                        lemma_stack_offset_bound(out.h as int, stack_count as int, i as int);
                    }
                    let y = out.y + (i as i32 * stack_height);
                    let h = if i as i32 == stack_count - 1 {
                        out.h - (i as i32 * stack_height)
                    } else {
                        stack_height
                    };
                    placements.push(Placement { x, y, size: Some((stack_width, h)), tiled: true });
                    i = i + 1;
                }
            }
        },
    }
    placements
}

/// Whether the layout of `count` windows on `out` stays within `i32` (see
/// `layout_fits`).
pub fn layout_in_range(mode: LayoutMode, out: OutputGeometry, count: usize) -> (ok: bool)
    ensures
        ok == layout_fits(mode, out, count as int),
{
    if count > 0x7fff_ffff {
        return false;
    }
    if count == 0 {
        return true;
    }
    let n = count as i64;
    match mode {
        LayoutMode::Floating => {
            let last: i64 = (n - 1) * 40;
            last <= 0x7fff_ffff && out.x as i64 + 80 + last <= 0x7fff_ffff && out.y as i64 + 40 + last <= 0x7fff_ffff
        },
        LayoutMode::MasterStack => {
            if count < 2 {
                return true;
            }
            let master = div_toward_zero_i32_wide(out.w) as i64;
            if !(out.x as i64 + master <= 0x7fff_ffff && out.x as i64 + master >= -0x8000_0000) {
                return false;
            }
            let stack_count: i64 = n - 1;
            let row = div_toward_zero_i32(out.h, stack_count as i32) as i64;
            proof {
                lemma_div_toward_zero_bounds(out.h as int, stack_count as int);
            }
            let mut k: i64 = 0;
            while k < stack_count
                invariant
                    mode == LayoutMode::MasterStack,
                    2 <= count <= 0x7fff_ffff,
                    out.x + master_width(out.w as int) <= i32::MAX,
                    out.x + master_width(out.w as int) >= i32::MIN,
                    1 <= stack_count <= 0x7fff_ffff,
                    stack_count == count - 1,
                    row == stack_row_height(out.h as int, stack_count as int),
                    0 <= k <= stack_count,
                    forall|j: int|
                        0 <= j < k ==> i32::MIN <= #[trigger] (out.y + j * stack_row_height(out.h as int, count - 1))
                            <= i32::MAX,
                decreases stack_count - k,
            {
                proof {
                    lemma_stack_offset_bound(out.h as int, stack_count as int, k as int);
                }
                let y = out.y as i64 + k * row;
                if !(y >= -0x8000_0000 && y <= 0x7fff_ffff) {
                    proof {
                        let j = k as int;
                        assert(!(i32::MIN <= (out.y + j * stack_row_height(out.h as int, count - 1)) <= i32::MAX));
                    }
                    return false;
                }
                k = k + 1;
            }
            true
        },
    }
}

/// The master column's width, computed without overflowing `i32`.
fn div_toward_zero_i32_wide(w: i32) -> (m: i32)
    ensures
        m == master_width(w as int),
{
    let t: i64 = 3 * (w as i64);
    let q: i64 = if t >= 0 {
        t / 5
    } else {
        -((-t) / 5)
    };
    proof {
        lemma_div_toward_zero_bounds(t as int, 5);
    }
    q as i32
}

/// Row `k` of the stack starts no farther from the top than the output height.
proof fn lemma_stack_offset_bound(h: int, sc: int, k: int)
    requires
        sc >= 1,
        0 <= k < sc,
        i32::MIN <= h <= i32::MAX,
    ensures
        -0x8000_0000 <= k * stack_row_height(h, sc) <= 0x7fff_ffff,
        -0x8000_0000 <= h - k * stack_row_height(h, sc) <= 0x7fff_ffff,
{
    let sh = stack_row_height(h, sc);
    lemma_div_toward_zero_bounds(h, sc);
    if h >= 0 {
        assert(0 <= k * sh <= sc * sh) by (nonlinear_arith)
            requires 0 <= k < sc, sh >= 0;
    } else {
        assert(sc * sh <= k * sh <= 0) by (nonlinear_arith)
            requires 0 <= k < sc, sh <= 0;
    }
}

/// The width the compositor asks a window for (zero when it asks none).
pub open spec fn requested_width(p: Placement) -> int {
    match p.size {
        Some((w, _)) => w as int,
        None => 0,
    }
}

/// The height the compositor asks a window for (zero when it asks none).
pub open spec fn requested_height(p: Placement) -> int {
    match p.size {
        Some((_, h)) => h as int,
        None => 0,
    }
}

/// In the tiled layout with a master and a stack, the master column and the
/// stack column together span the output's width, and the stack rows follow
/// one another without gap or overlap down to the output's bottom edge;
/// where a window was before does not matter.
pub proof fn lemma_master_stack_tiles(out: OutputGeometry, count: int)
    requires
        count >= 2,
        layout_fits(LayoutMode::MasterStack, out, count),
        out.w >= 0,
        out.h >= 0,
    ensures
        placement_of(LayoutMode::MasterStack, out, count, 0, None) == (Placement {
            x: out.x,
            y: out.y,
            size: Some((master_width(out.w as int) as i32, out.h)),
            tiled: true,
        }),
        forall|i: int|
            1 <= i < count ==> {
                let p = #[trigger] placement_of(LayoutMode::MasterStack, out, count, i, None);
                &&& p.x == out.x + master_width(out.w as int)
                &&& p.size is Some
                &&& master_width(out.w as int) + requested_width(p) == out.w
            },
        placement_of(LayoutMode::MasterStack, out, count, 1, None).y == out.y,
        forall|i: int|
            1 <= i < count - 1 ==> {
                let p = #[trigger] placement_of(LayoutMode::MasterStack, out, count, i, None);
                placement_of(LayoutMode::MasterStack, out, count, i + 1, None).y == p.y + requested_height(p)
            },
        placement_of(LayoutMode::MasterStack, out, count, count - 1, None).y + placement_of(
            LayoutMode::MasterStack,
            out,
            count,
            count - 1,
            None,
        ).size.unwrap().1 == out.y + out.h,
        forall|i: int, placed: Option<(i32, i32)>|
            #[trigger] placement_of(LayoutMode::MasterStack, out, count, i, placed) == placement_of(
                LayoutMode::MasterStack,
                out,
                count,
                i,
                None,
            ),
{
    let sc = count - 1;
    let sh = stack_row_height(out.h as int, sc);
    lemma_div_toward_zero_bounds(3 * out.w as int, 5);
    lemma_div_toward_zero_bounds(out.h as int, sc);
    assert forall|i: int| 1 <= i < count - 1 implies {
        let p = #[trigger] placement_of(LayoutMode::MasterStack, out, count, i, None);
        placement_of(LayoutMode::MasterStack, out, count, i + 1, None).y == p.y + requested_height(p)
    } by {
        lemma_stack_offset_bound(out.h as int, sc, i - 1);
        lemma_stack_offset_bound(out.h as int, sc, i);
        assert((i - 1) * sh + sh == i * sh) by (nonlinear_arith);
        assert(i32::MIN <= out.y + (i - 1) * sh <= i32::MAX);
        assert(i32::MIN <= out.y + i * sh <= i32::MAX);
    }
    lemma_stack_offset_bound(out.h as int, sc, sc - 1);
    assert(i32::MIN <= out.y + (sc - 1) * sh <= i32::MAX);
    assert(0 * sh == 0);
}

/// In the floating layout a window that is already placed keeps its place
/// (a window the user dragged does not jump back), and a new window goes to
/// its spot in the cascade, 40 pixels further right and down per position.
pub proof fn lemma_floating_keeps_placed(out: OutputGeometry, count: int, i: int, placed: Option<(i32, i32)>)
    requires
        0 <= i < count,
        layout_fits(LayoutMode::Floating, out, count),
    ensures
        placed matches Some(loc) ==> placement_of(LayoutMode::Floating, out, count, i, placed) == (Placement {
            x: loc.0,
            y: loc.1,
            size: None,
            tiled: false,
        }),
        placed is None ==> placement_of(LayoutMode::Floating, out, count, i, placed).x == out.x + 80 + i * 40,
        placed is None ==> placement_of(LayoutMode::Floating, out, count, i, placed).y == out.y + 40 + i * 40,
        placement_of(LayoutMode::Floating, out, count, i, placed).size is None,
        !placement_of(LayoutMode::Floating, out, count, i, placed).tiled,
{
    assert(0 <= i * 40 <= (count - 1) * 40) by (nonlinear_arith)
        requires 0 <= i < count;
}

/// The area, in the coordinates of a popup's parent surface, that the
/// popup must stay within: the output's rectangle moved by the popup's
/// offset from its toplevel and by the toplevel window's position.
pub open spec fn popup_area(out: OutputGeometry, popup_offset: (i32, i32), window_loc: (i32, i32)) -> OutputGeometry {
    OutputGeometry {
        x: (out.x - popup_offset.0 - window_loc.0) as i32,
        y: (out.y - popup_offset.1 - window_loc.1) as i32,
        w: out.w,
        h: out.h,
    }
}

/// The inputs on which `popup_area` stays within `i32` at every step.
pub open spec fn popup_area_fits(out: OutputGeometry, popup_offset: (i32, i32), window_loc: (i32, i32)) -> bool {
    &&& i32::MIN <= out.x - popup_offset.0 <= i32::MAX
    &&& i32::MIN <= out.y - popup_offset.1 <= i32::MAX
    &&& i32::MIN <= out.x - popup_offset.0 - window_loc.0 <= i32::MAX
    &&& i32::MIN <= out.y - popup_offset.1 - window_loc.1 <= i32::MAX
}

/// The area a popup is kept within (see `popup_area`), or `None` when a
/// coordinate leaves `i32`.
pub fn popup_constraint_area(out: OutputGeometry, popup_offset: (i32, i32), window_loc: (i32, i32)) -> (area:
    Option<OutputGeometry>)
    ensures
        area is Some <==> popup_area_fits(out, popup_offset, window_loc),
        area matches Some(a) ==> a == popup_area(out, popup_offset, window_loc),
{
    let x1 = out.x as i64 - popup_offset.0 as i64;
    let y1 = out.y as i64 - popup_offset.1 as i64;
    let x2 = x1 - window_loc.0 as i64;
    let y2 = y1 - window_loc.1 as i64;
    if x1 < -0x8000_0000 || x1 > 0x7fff_ffff || y1 < -0x8000_0000 || y1 > 0x7fff_ffff || x2 < -0x8000_0000 || x2
        > 0x7fff_ffff || y2 < -0x8000_0000 || y2 > 0x7fff_ffff {
        return None;
    }
    Some(OutputGeometry { x: x2 as i32, y: y2 as i32, w: out.w, h: out.h })
}

/// Whether pixel (px, py) lies in the rectangle that placement `p` asks
/// for (no pixel when it asks no size).
pub open spec fn in_tile(p: Placement, px: int, py: int) -> bool {
    match p.size {
        Some((w, h)) => p.x <= px < p.x + w && p.y <= py < p.y + h,
        None => false,
    }
}

/// Whether pixel (px, py) lies on the output.
pub open spec fn in_output(out: OutputGeometry, px: int, py: int) -> bool {
    out.x <= px < out.x + out.w && out.y <= py < out.y + out.h
}

/// Top of stack row `k`, relative to the output's top edge.
pub open spec fn row_top(h: int, sc: int, k: int) -> int {
    k * stack_row_height(h, sc)
}

/// Bottom (exclusive) of stack row `k`: the next row's top, or the output's
/// bottom edge for the last row, which takes the remainder.
pub open spec fn row_bottom(h: int, sc: int, k: int) -> int {
    if k == sc - 1 {
        h
    } else {
        (k + 1) * stack_row_height(h, sc)
    }
}

/// Offset `d` from the output's top edge lies in one of the stack rows.
pub open spec fn row_covers(h: int, sc: int, d: int) -> bool {
    exists|k: int| 0 <= k < sc && row_top(h, sc, k) <= d < #[trigger] row_bottom(h, sc, k)
}

/// The stack rows lie in order inside the output's height, and every row of
/// the output's height belongs to one of them.
proof fn lemma_rows_partition(h: int, sc: int)
    requires
        h > 0,
        sc >= 1,
    ensures
        forall|k1: int, k2: int|
            0 <= k1 < k2 < sc ==> #[trigger] row_bottom(h, sc, k1) <= #[trigger] row_top(h, sc, k2),
        forall|k: int| 0 <= k < sc ==> 0 <= #[trigger] row_top(h, sc, k) && row_bottom(h, sc, k) <= h,
        forall|d: int| 0 <= d < h ==> #[trigger] row_covers(h, sc, d),
{
    let sh = stack_row_height(h, sc);
    assert(sh == h / sc);
    vstd::arithmetic::div_mod::lemma_fundamental_div_mod(h, sc);
    vstd::arithmetic::div_mod::lemma_mod_pos_bound(h, sc);
    assert(sh >= 0) by (nonlinear_arith)
        requires h > 0, sc >= 1, sh == h / sc;
    assert(sc * sh <= h);
    assert forall|k1: int, k2: int| 0 <= k1 < k2 < sc implies #[trigger] row_bottom(h, sc, k1) <= #[trigger] row_top(
        h,
        sc,
        k2,
    ) by {
        assert((k1 + 1) * sh <= k2 * sh) by (nonlinear_arith)
            requires k1 + 1 <= k2, sh >= 0;
    }
    assert forall|k: int| 0 <= k < sc implies 0 <= #[trigger] row_top(h, sc, k) && row_bottom(h, sc, k) <= h by {
        assert(0 <= k * sh) by (nonlinear_arith)
            requires 0 <= k, sh >= 0;
        assert((k + 1) * sh <= sc * sh) by (nonlinear_arith)
            requires k + 1 <= sc, sh >= 0;
    }
    assert forall|d: int| 0 <= d < h implies #[trigger] row_covers(h, sc, d) by {
        if sh == 0 {
            assert(row_top(h, sc, sc - 1) <= d < row_bottom(h, sc, sc - 1)) by (nonlinear_arith)
                requires sh == 0, row_top(h, sc, sc - 1) == (sc - 1) * sh, row_bottom(h, sc, sc - 1) == h, 0 <= d < h;
        } else {
            let k0 = d / sh;
            vstd::arithmetic::div_mod::lemma_fundamental_div_mod(d, sh);
            vstd::arithmetic::div_mod::lemma_mod_pos_bound(d, sh);
            assert(k0 >= 0) by (nonlinear_arith)
                requires d >= 0, sh > 0, k0 == d / sh;
            if k0 >= sc - 1 {
                assert((sc - 1) * sh <= k0 * sh) by (nonlinear_arith)
                    requires sc - 1 <= k0, sh >= 0;
                assert(row_top(h, sc, sc - 1) <= d < row_bottom(h, sc, sc - 1));
            } else {
                assert(k0 * sh <= d < (k0 + 1) * sh) by (nonlinear_arith)
                    requires d == sh * k0 + d % sh, 0 <= d % sh < sh;
                assert(row_top(h, sc, k0) <= d < row_bottom(h, sc, k0));
            }
        }
    }
}

/// Window `i >= 1` of the tiled layout is stack row `i - 1`: right of the
/// master column, as wide as the rest of the output, spanning that row.
proof fn lemma_stack_tile(out: OutputGeometry, count: int, i: int)
    requires
        2 <= count,
        1 <= i < count,
        layout_fits(LayoutMode::MasterStack, out, count),
        out.w > 0,
        out.h > 0,
    ensures
        ({
            let p = placement_of(LayoutMode::MasterStack, out, count, i, None);
            let m = master_width(out.w as int);
            forall|px: int, py: int|
                #[trigger] in_tile(p, px, py) <==> (out.x + m <= px < out.x + out.w && out.y + row_top(
                    out.h as int,
                    count - 1,
                    i - 1,
                ) <= py < out.y + row_bottom(out.h as int, count - 1, i - 1))
        }),
{
    let sc = count - 1;
    let k = i - 1;
    let sh = stack_row_height(out.h as int, sc);
    lemma_div_toward_zero_bounds(3 * out.w as int, 5);
    lemma_div_toward_zero_bounds(out.h as int, sc);
    lemma_stack_offset_bound(out.h as int, sc, k);
    assert(i32::MIN <= out.y + k * sh <= i32::MAX);
    let m = master_width(out.w as int);
    assert(0 <= m <= out.w) by (nonlinear_arith)
        requires m == (3 * out.w) / 5, out.w > 0;
    assert(0 <= sh <= out.h);
    assert((k + 1) * sh == k * sh + sh) by (nonlinear_arith);
    let hk = if k == sc - 1 { out.h - k * sh } else { sh };
    let p = placement_of(LayoutMode::MasterStack, out, count, i, None);
    assert(p.x == out.x + m);
    assert(p.y == out.y + k * sh);
    assert(p.size == Some(((out.w - m) as i32, hk as i32)));
    assert(hk as i32 == hk);
    assert((out.w - m) as i32 == out.w - m);
    assert(out.y + k * sh + hk == out.y + row_bottom(out.h as int, sc, k));
}

/// The tiled layout partitions the output: with at least two windows on an
/// output of positive size, the windows' rectangles are pairwise disjoint
/// and together cover exactly the output's rectangle.
pub proof fn lemma_master_stack_partition(out: OutputGeometry, count: int)
    requires
        count >= 2,
        layout_fits(LayoutMode::MasterStack, out, count),
        out.w > 0,
        out.h > 0,
    ensures
        forall|i: int, j: int, px: int, py: int|
            0 <= i < j < count && #[trigger] in_tile(placement_of(LayoutMode::MasterStack, out, count, i, None), px, py)
                ==> !#[trigger] in_tile(placement_of(LayoutMode::MasterStack, out, count, j, None), px, py),
        forall|px: int, py: int|
            #[trigger] in_output(out, px, py) <==> exists|i: int|
                0 <= i < count && #[trigger] in_tile(placement_of(LayoutMode::MasterStack, out, count, i, None), px, py),
{
    let sc = count - 1;
    let h = out.h as int;
    let m = master_width(out.w as int);
    lemma_div_toward_zero_bounds(3 * out.w as int, 5);
    assert(0 <= m <= out.w) by (nonlinear_arith)
        requires m == (3 * out.w) / 5, out.w > 0;
    lemma_rows_partition(h, sc);
    let p0 = placement_of(LayoutMode::MasterStack, out, count, 0, None);
    assert(forall|px: int, py: int|
        #[trigger] in_tile(p0, px, py) <==> (out.x <= px < out.x + m && out.y <= py < out.y + out.h));
    assert forall|i: int, j: int, px: int, py: int|
        0 <= i < j < count && #[trigger] in_tile(placement_of(LayoutMode::MasterStack, out, count, i, None), px, py)
            implies !#[trigger] in_tile(placement_of(LayoutMode::MasterStack, out, count, j, None), px, py) by {
        lemma_stack_tile(out, count, j);
        if i >= 1 {
            lemma_stack_tile(out, count, i);
            assert(row_bottom(h, sc, i - 1) <= row_top(h, sc, j - 1));
        }
    }
    assert forall|px: int, py: int| #[trigger] in_output(out, px, py) <==> exists|i: int|
        0 <= i < count && #[trigger] in_tile(placement_of(LayoutMode::MasterStack, out, count, i, None), px, py) by {
        if in_output(out, px, py) {
            if px < out.x + m {
                assert(in_tile(p0, px, py));
            } else {
                let d = py - out.y;
                assert(row_covers(h, sc, d));
                let k = choose|k: int| 0 <= k < sc && row_top(h, sc, k) <= d < #[trigger] row_bottom(h, sc, k);
                lemma_stack_tile(out, count, k + 1);
                assert(in_tile(placement_of(LayoutMode::MasterStack, out, count, k + 1, None), px, py));
            }
        }
        if exists|i: int|
            0 <= i < count && #[trigger] in_tile(placement_of(LayoutMode::MasterStack, out, count, i, None), px, py) {
            let i = choose|i: int|
                0 <= i < count && #[trigger] in_tile(placement_of(LayoutMode::MasterStack, out, count, i, None), px, py);
            if i >= 1 {
                lemma_stack_tile(out, count, i);
                assert(0 <= row_top(h, sc, i - 1) && row_bottom(h, sc, i - 1) <= h);
            }
        }
    }
}

} // verus!
