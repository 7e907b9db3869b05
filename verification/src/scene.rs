//! The UI scenes drawn on the canvas: the desktop (status bar, widgets and
//! dock) and the overlays (dashboard, app launcher, quick settings). Each
//! scene is stated as the list of drawing operations that produce it.

use vstd::prelude::*;
use crate::canvas::NothingCanvas;
use crate::clock::LocalTime;
use crate::glyphs::lemma_text_fits;
use crate::layout::LayoutMode;
use crate::pixels::Rgba;
use crate::shapes::{
    Shape, DrawOp, op, apply_ops, lemma_apply_take, lemma_apply_take_ends, lemma_rounded_rect_ok,
    lemma_rounded_border_ok, sq,
};
use crate::shapes::{in_shape, within, all_within, lemma_within_grow, lemma_box_within, lemma_all_within_concat, lemma_ops_keep_outside, lemma_disc_within};
use crate::glyphs::lemma_text_within;
use crate::pixels::{byte_px, byte_py};
use crate::state::{NothingUiState, UiMode, click_outcome, dashboard_left, dashboard_top};
use crate::text::{decimal, two_digits, push_decimal, push_two_digits, push_str, lemma_decimal_len, str_chars};

verus! {

/// The dot-matrix text shape of `text` at (x, y).
pub open spec fn text_shape(text: Seq<char>, x: int, y: int, dot: int, spacing: int, char_spacing: int) -> Shape {
    Shape::Text { text, x, y, dot, spacing, char_spacing }
}

/// The name of a month, in capitals (`"???"` past December).
pub open spec fn month_name(month: int) -> Seq<char> {
    if month == 1 {
        seq!['J', 'A', 'N']
    } else if month == 2 {
        seq!['F', 'E', 'B']
    } else if month == 3 {
        seq!['M', 'A', 'R']
    } else if month == 4 {
        seq!['A', 'P', 'R']
    } else if month == 5 {
        seq!['M', 'A', 'Y']
    } else if month == 6 {
        seq!['J', 'U', 'N']
    } else if month == 7 {
        seq!['J', 'U', 'L']
    } else if month == 8 {
        seq!['A', 'U', 'G']
    } else if month == 9 {
        seq!['S', 'E', 'P']
    } else if month == 10 {
        seq!['O', 'C', 'T']
    } else if month == 11 {
        seq!['N', 'O', 'V']
    } else if month == 12 {
        seq!['D', 'E', 'C']
    } else if month == 0 {
        seq![]
    } else {
        seq!['?', '?', '?']
    }
}

/// The status bar clock, `HH:MM`.
pub open spec fn clock_text(t: LocalTime) -> Seq<char> {
    two_digits(t.hour as nat) + seq![':'] + two_digits(t.minute as nat)
}

/// The status bar date, two-digit day and month name, e.g. `07 MAR`.
pub open spec fn date_text(t: LocalTime) -> Seq<char> {
    two_digits(t.day as nat) + seq![' '] + month_name(t.month as int)
}

/// The layout indicator of the status bar.
pub open spec fn layout_label(mode: LayoutMode) -> Seq<char> {
    match mode {
        LayoutMode::Floating => seq!['F', 'L', 'O', 'A', 'T'],
        LayoutMode::MasterStack => seq!['T', 'I', 'L', 'E'],
    }
}

/// The four workspace dots of the status bar: the active one opaque.
pub open spec fn workspace_dot_ops(s: NothingUiState, cy: int) -> Seq<DrawOp> {
    Seq::new(
        4,
        |i: int|
            op(
                Shape::Disc { cx: 170 + 16 * i, cy, radius: 4 },
                255,
                255,
                255,
                if s.active_workspace == i + 1 {
                    255
                } else {
                    50
                },
            ),
    )
}

/// The battery gauge's arc: each point and the pixel right of it, in white.
pub open spec fn arc_ops(arc: Seq<(usize, usize)>) -> Seq<DrawOp> {
    Seq::new(
        2 * arc.len(),
        |j: int| op(Shape::Point { x: arc[j / 2].0 + j % 2, y: arc[j / 2].1 as int }, 255, 255, 255, 255),
    )
}

/// The status bar's panel at row `y`: the glass panel and its border, the
/// pulsing dot (opaque for 30 of every 60 frames), the title and the box of
/// the workspace dots.
pub open spec fn bar_panel_ops(width: int, y: int, frame_count: u64) -> Seq<DrawOp> {
    let cy = y + 24;
    let pulse: u8 = if frame_count % 60 < 30 {
        255
    } else {
        180
    };
    seq![
        op(Shape::RoundedRect { x: 16, y: y + 4, w: width - 32, h: 40, radius: 20 }, 18, 18, 18, 190),
        op(Shape::RoundedBorder { x: 16, y: y + 4, w: width - 32, h: 40, radius: 20, thickness: 1 }, 255, 255, 255, 20),
        op(Shape::Disc { cx: 40, cy, radius: 4 }, 255, 0, 60, pulse),
        op(text_shape(seq!['R', 'U', 'S', 'T', '-', 'W', 'M'], 54, cy - 3, 1, 1, 2), 160, 160, 160, 255),
        op(Shape::RoundedRect { x: 160, y: cy - 8, w: 70, h: 16, radius: 8 }, 0, 0, 0, 80),
    ]
}

/// The clock and date in the middle of the status bar.
pub open spec fn bar_clock_ops(width: int, cy: int, t: LocalTime) -> Seq<DrawOp> {
    seq![
        op(text_shape(clock_text(t), width / 2 - 45, cy - 4, 1, 1, 3), 255, 255, 255, 255),
        op(text_shape(date_text(t), width / 2 + 30, cy - 3, 1, 1, 2), 160, 160, 160, 255),
    ]
}

/// The right part of the status bar: the layout indicator box, the Wi-Fi
/// icon (bright when Wi-Fi is on) and the battery gauge's ring.
pub open spec fn bar_status_ops(width: int, cy: int, mode: LayoutMode, wifi: bool) -> Seq<DrawOp> {
    let wc: u8 = if wifi {
        255
    } else {
        80
    };
    seq![
        op(Shape::RoundedRect { x: width - 280, y: cy - 8, w: 60, h: 16, radius: 8 }, 255, 255, 255, 13),
        op(
            Shape::RoundedBorder { x: width - 280, y: cy - 8, w: 60, h: 16, radius: 8, thickness: 1 },
            255,
            255,
            255,
            25,
        ),
        op(text_shape(layout_label(mode), width - 272, cy - 3, 1, 1, 2), 200, 200, 200, 255),
        op(Shape::Disc { cx: width - 200, cy, radius: 3 }, wc, wc, wc, 255),
        op(Shape::Ring { cx: width - 200, cy, radius: 6, thickness: 1 }, wc, wc, wc, 200),
        op(Shape::Ring { cx: width - 170, cy, radius: 8, thickness: 2 }, 255, 255, 255, 25),
    ]
}

/// The battery percentage centred in the gauge, and the settings button.
pub open spec fn bar_tail_ops(width: int, cy: int, battery: u8) -> Seq<DrawOp> {
    let bat_str = decimal(battery as nat);
    seq![
        op(text_shape(bat_str, width - 170 - bat_str.len() * 5 / 2, cy - 3, 1, 0, 1), 255, 255, 255, 255),
        op(Shape::Disc { cx: width - 130, cy, radius: 12 }, 255, 255, 255, 25),
        op(text_shape(seq!['S'], width - 133, cy - 4, 1, 1, 0), 255, 255, 255, 200),
    ]
}

/// The status bar at row `y` of a screen `width` pixels wide: a glass panel
/// with a pulsing dot and title on the left, the workspace dots, the clock
/// and date in the middle, and on the right the layout indicator, the Wi-Fi
/// icon, the battery gauge (ring, arc and percentage) and the settings button.
pub open spec fn top_bar_ops(
    s: NothingUiState,
    mode: LayoutMode,
    width: int,
    y: int,
    t: LocalTime,
    arc: Seq<(usize, usize)>,
) -> Seq<DrawOp> {
    bar_panel_ops(width, y, s.frame_count) + workspace_dot_ops(s, y + 24) + bar_clock_ops(width, y + 24, t)
        + bar_status_ops(width, y + 24, mode, s.wifi_enabled) + arc_ops(arc) + bar_tail_ops(
        width,
        y + 24,
        s.battery_percentage,
    )
}

/// A buffer of `w` x `h` pixels that fits the address space, with `h` at
/// least `min_h`: a buffer of `min_h` rows of that width fits too, and the
/// width is at most a quarter of `usize::MAX` and half of `isize::MAX`.
proof fn lemma_canvas_dims(w: int, h: int, min_h: int)
    requires
        w * h * 4 <= usize::MAX,
        1 <= min_h <= h,
        0 <= w,
    ensures
        w * min_h * 4 <= usize::MAX,
        w <= usize::MAX / 4,
        w <= isize::MAX / 2,
{
    assert(w * min_h * 4 <= w * h * 4) by (nonlinear_arith)
        requires 1 <= min_h <= h, 0 <= w;
    assert(w * 4 <= w * min_h * 4) by (nonlinear_arith)
        requires 1 <= min_h, 0 <= w;
}

/// The centre of the status bar's battery gauge on a screen `width` pixels
/// wide; the arc of the gauge is drawn around it.
pub fn battery_gauge_center(width: usize) -> (center: (usize, usize))
    requires
        width >= 170,
    ensures
        center.0 == width - 170,
        center.1 == 24,
{
    (width - 170, 24)
}

/// The canvas facts that every part of the status bar needs.
pub open spec fn bar_canvas(c: NothingCanvas, width: usize) -> bool {
    &&& c.wf()
    &&& width == c.width
    &&& width >= 280
    &&& c.height >= 48
}

proof fn lemma_bar_width(c: NothingCanvas, width: usize)
    requires
        bar_canvas(c, width),
    ensures
        width <= usize::MAX / 4,
        width <= isize::MAX / 2,
{
    lemma_canvas_dims(width as int, c.height as int, 48);
}

/// Appends one part of a drawing to what has been drawn so far.
proof fn lemma_then(p0: Seq<u8>, w: nat, done: Seq<DrawOp>, part: Seq<DrawOp>, p1: Seq<u8>, p2: Seq<u8>)
    requires
        p1 == apply_ops(p0, w, done),
        p2 == apply_ops(p1, w, part),
    ensures
        p2 == apply_ops(p0, w, done + part),
{
    crate::shapes::lemma_apply_ops_concat(p0, w, done, part);
}

fn draw_bar_panel(canvas: &mut NothingCanvas, width: usize, frame_count: u64)
    requires
        bar_canvas(*old(canvas), width),
    ensures
        bar_canvas(*final(canvas), width),
        final(canvas).height == old(canvas).height,
        final(canvas).pixels@ == apply_ops(old(canvas).pixels@, width as nat, bar_panel_ops(width as int, 0, frame_count)),
{
    let ghost p0 = canvas.pixels@;
    let ghost wn = width as nat;
    let ghost ops = bar_panel_ops(width as int, 0, frame_count);
    proof {
        lemma_bar_width(*canvas, width);
        lemma_apply_take_ends(p0, wn, ops);
        lemma_rounded_rect_ok(16, 4, width - 32, 40, 20);
        lemma_rounded_border_ok(16, 4, width - 32, 40, 20, 1);
        lemma_rounded_rect_ok(160, 16, 70, 16, 8);
        reveal_strlit("RUST-WM");
        lemma_text_fits("RUST-WM"@, 54, 21, 1, 1, 2);
        assert("RUST-WM"@ =~= seq!['R', 'U', 'S', 'T', '-', 'W', 'M']);
    }
    let y: usize = 0;
    let bar_h: usize = 48;
    canvas.draw_rounded_rect(16, y + 4, width - 32, bar_h - 8, 20, 18, 18, 18, 190);
    proof { lemma_apply_take(p0, wn, ops, 0); }
    canvas.draw_rounded_rect_border(16, y + 4, width - 32, bar_h - 8, 20, 1, 255, 255, 255, 20);
    proof { lemma_apply_take(p0, wn, ops, 1); }
    let cy = y + bar_h / 2;
    let pulse = if frame_count % 60 < 30 { 255u8 } else { 180u8 };
    canvas.draw_circle(40, cy, 4, 255, 0, 60, pulse);
    proof { lemma_apply_take(p0, wn, ops, 2); }
    canvas.draw_text_dots("RUST-WM", 54, cy - 3, 1, 1, 2, 160, 160, 160, 255);
    proof { lemma_apply_take(p0, wn, ops, 3); }
    let ws_x: usize = 160;
    canvas.draw_rounded_rect(ws_x, cy - 8, 70, 16, 8, 0, 0, 0, 80);
    proof { lemma_apply_take(p0, wn, ops, 4); }
}

fn draw_workspace_dots(canvas: &mut NothingCanvas, width: usize, state: &NothingUiState)
    requires
        bar_canvas(*old(canvas), width),
    ensures
        bar_canvas(*final(canvas), width),
        final(canvas).height == old(canvas).height,
        final(canvas).pixels@ == apply_ops(old(canvas).pixels@, width as nat, workspace_dot_ops(*state, 24)),
{
    let ghost p0 = canvas.pixels@;
    let ghost wn = width as nat;
    let ghost ops = workspace_dot_ops(*state, 24);
    let ghost h = canvas.height;
    proof {
        lemma_bar_width(*canvas, width);
        lemma_apply_take_ends(p0, wn, ops);
    }
    let ws_x: usize = 160;
    let cy: usize = 24;
    let mut i: u8 = 0;
    while i < 4
        invariant
            bar_canvas(*canvas, width),
            canvas.height == h,
            ops == workspace_dot_ops(*state, 24),
            wn == width as nat,
            width <= isize::MAX / 2,
            ws_x == 160,
            cy == 24,
            i <= 4,
            canvas.pixels@ == apply_ops(p0, wn, ops.take(i as int)),
        decreases 4 - i,
    {
        let dx = ws_x + 10 + i as usize * 16;
        if state.active_workspace == i + 1 {
            canvas.draw_circle(dx, cy, 4, 255, 255, 255, 255);
        } else {
            canvas.draw_circle(dx, cy, 4, 255, 255, 255, 50);
        }
        proof {
            assert(ops.len() == 4);
            assert(ops[i as int] == op(
                Shape::Disc { cx: dx as int, cy: 24, radius: 4 },
                255,
                255,
                255,
                if state.active_workspace == i + 1 {
                    255
                } else {
                    50
                },
            ));
            lemma_apply_take(p0, wn, ops, i as int);
        }
        i = i + 1;
    }
}

fn draw_bar_clock(canvas: &mut NothingCanvas, width: usize, t: LocalTime)
    requires
        bar_canvas(*old(canvas), width),
        t.wf(),
    ensures
        bar_canvas(*final(canvas), width),
        final(canvas).height == old(canvas).height,
        final(canvas).pixels@ == apply_ops(old(canvas).pixels@, width as nat, bar_clock_ops(width as int, 24, t)),
{
    let ghost p0 = canvas.pixels@;
    let ghost wn = width as nat;
    let ghost ops = bar_clock_ops(width as int, 24, t);
    proof {
        lemma_bar_width(*canvas, width);
        lemma_apply_take_ends(p0, wn, ops);
    }
    let cy: usize = 24;
    let mut clock: Vec<char> = Vec::new();
    push_two_digits(&mut clock, t.hour as u64);
    clock.push(':');
    push_two_digits(&mut clock, t.minute as u64);
    let center_x = width / 2;
    let clock_tw = clock.len() * 10;
    proof {
        assert(clock@ =~= clock_text(t));
        assert(clock@.len() == 5);
        lemma_text_fits(clock@, width / 2 - 45, 20, 1, 1, 3);
    }
    canvas.draw_chars_dots(&clock, center_x - clock_tw / 2 - 20, cy - 4, 1, 1, 3, 255, 255, 255, 255);
    proof { lemma_apply_take(p0, wn, ops, 0); }
    let mut date: Vec<char> = Vec::new();
    push_two_digits(&mut date, t.day as u64);
    date.push(' ');
    push_month_name(&mut date, t.month);
    proof {
        assert(date@ =~= date_text(t));
        assert(month_name(t.month as int).len() <= 3);
        assert(date@.len() <= 6);
        lemma_text_fits(date@, width / 2 + 30, 21, 1, 1, 2);
    }
    canvas.draw_chars_dots(&date, center_x + 30, cy - 3, 1, 1, 2, 160, 160, 160, 255);
    proof { lemma_apply_take(p0, wn, ops, 1); }
}

fn draw_bar_status(canvas: &mut NothingCanvas, width: usize, layout_mode: LayoutMode, wifi: bool)
    requires
        bar_canvas(*old(canvas), width),
    ensures
        bar_canvas(*final(canvas), width),
        final(canvas).height == old(canvas).height,
        final(canvas).pixels@ == apply_ops(
            old(canvas).pixels@,
            width as nat,
            bar_status_ops(width as int, 24, layout_mode, wifi),
        ),
{
    let ghost p0 = canvas.pixels@;
    let ghost wn = width as nat;
    let ghost ops = bar_status_ops(width as int, 24, layout_mode, wifi);
    let cy: usize = 24;
    let rx = width - 280;
    let layout_str = match layout_mode {
        LayoutMode::Floating => "FLOAT",
        LayoutMode::MasterStack => "TILE",
    };
    proof {
        lemma_bar_width(*canvas, width);
        lemma_apply_take_ends(p0, wn, ops);
        lemma_rounded_rect_ok(rx as int, 16, 60, 16, 8);
        lemma_rounded_border_ok(rx as int, 16, 60, 16, 8, 1);
        reveal_strlit("FLOAT");
        reveal_strlit("TILE");
        assert(layout_str@ =~= layout_label(layout_mode));
        lemma_text_fits(layout_str@, rx + 8, 21, 1, 1, 2);
        assert(sq(6 - 1) <= isize::MAX);
        assert(sq(8 - 2) <= isize::MAX);
    }
    canvas.draw_rounded_rect(rx, cy - 8, 60, 16, 8, 255, 255, 255, 13);
    proof { lemma_apply_take(p0, wn, ops, 0); }
    canvas.draw_rounded_rect_border(rx, cy - 8, 60, 16, 8, 1, 255, 255, 255, 25);
    proof { lemma_apply_take(p0, wn, ops, 1); }
    canvas.draw_text_dots(layout_str, rx + 8, cy - 3, 1, 1, 2, 200, 200, 200, 255);
    proof { lemma_apply_take(p0, wn, ops, 2); }
    let wifi_x = width - 200;
    let wc = if wifi { 255u8 } else { 80u8 };
    canvas.draw_circle(wifi_x, cy, 3, wc, wc, wc, 255);
    proof { lemma_apply_take(p0, wn, ops, 3); }
    canvas.draw_circle_border(wifi_x, cy, 6, 1, wc, wc, wc, 200);
    proof { lemma_apply_take(p0, wn, ops, 4); }
    let bat_x = width - 170;
    canvas.draw_circle_border(bat_x, cy, 8, 2, 255, 255, 255, 25);
    proof { lemma_apply_take(p0, wn, ops, 5); }
}

fn draw_battery_arc(canvas: &mut NothingCanvas, width: usize, arc: &Vec<(usize, usize)>)
    requires
        bar_canvas(*old(canvas), width),
        forall|i: int| 0 <= i < arc.len() ==> #[trigger] arc@[i].0 < usize::MAX,
    ensures
        bar_canvas(*final(canvas), width),
        final(canvas).height == old(canvas).height,
        final(canvas).pixels@ == apply_ops(old(canvas).pixels@, width as nat, arc_ops(arc@)),
{
    let ghost p0 = canvas.pixels@;
    let ghost wn = width as nat;
    let ghost ops = arc_ops(arc@);
    let ghost h = canvas.height;
    proof {
        lemma_apply_take_ends(p0, wn, ops);
    }
    let mut k: usize = 0;
    while k < arc.len()
        invariant
            canvas.wf(),
            canvas.width == width,
            width >= 280,
            canvas.height == h,
            h >= 48,
            ops == arc_ops(arc@),
            wn == width as nat,
            forall|i: int| 0 <= i < arc.len() ==> #[trigger] arc@[i].0 < usize::MAX,
            k <= arc.len(),
            canvas.pixels@ == apply_ops(p0, wn, ops.take(2 * k)),
        decreases arc.len() - k,
    {
        let (px, py) = arc[k];
        proof {
            assert(arc@[k as int].0 < usize::MAX);
            assert((2 * k as int) / 2 == k && (2 * k as int) % 2 == 0) by (nonlinear_arith);
            assert((2 * k as int + 1) / 2 == k && (2 * k as int + 1) % 2 == 1) by (nonlinear_arith);
        }
        canvas.set_pixel(px, py, 255, 255, 255, 255);
        proof { lemma_apply_take(p0, wn, ops, 2 * k); }
        canvas.set_pixel(px + 1, py, 255, 255, 255, 255);
        proof { lemma_apply_take(p0, wn, ops, 2 * k + 1); }
        k = k + 1;
    }
}

fn draw_bar_tail(canvas: &mut NothingCanvas, width: usize, battery: u8)
    requires
        bar_canvas(*old(canvas), width),
    ensures
        bar_canvas(*final(canvas), width),
        final(canvas).height == old(canvas).height,
        final(canvas).pixels@ == apply_ops(old(canvas).pixels@, width as nat, bar_tail_ops(width as int, 24, battery)),
{
    let ghost p0 = canvas.pixels@;
    let ghost wn = width as nat;
    let ghost ops = bar_tail_ops(width as int, 24, battery);
    let cy: usize = 24;
    let bat_x = width - 170;
    let set_x = width - 130;
    let mut bat_str: Vec<char> = Vec::new();
    push_decimal(&mut bat_str, battery as u64);
    proof {
        lemma_bar_width(*canvas, width);
        lemma_apply_take_ends(p0, wn, ops);
        lemma_decimal_len(battery as nat);
        assert(bat_str@ =~= decimal(battery as nat));
        reveal_strlit("S");
        lemma_text_fits("S"@, set_x - 3, 20, 1, 1, 0);
        assert("S"@ =~= seq!['S']);
    }
    let btw = bat_str.len() * 5;
    proof {
        assert(bat_str@.len() <= 3);
        assert(bat_x - btw / 2 + bat_str@.len() * 6 <= usize::MAX);
        lemma_text_fits(bat_str@, bat_x - btw / 2, 21, 1, 0, 1);
    }
    canvas.draw_chars_dots(&bat_str, bat_x - btw / 2, cy - 3, 1, 0, 1, 255, 255, 255, 255);
    proof { lemma_apply_take(p0, wn, ops, 0); }
    canvas.draw_circle(set_x, cy, 12, 255, 255, 255, 25);
    proof { lemma_apply_take(p0, wn, ops, 1); }
    canvas.draw_text_dots("S", set_x - 3, cy - 4, 1, 1, 0, 255, 255, 255, 200);
    proof { lemma_apply_take(p0, wn, ops, 2); }
}

/// Draws the status bar at row 0 of a canvas at least 280 pixels wide and
/// 48 rows high; `arc` holds the pixels of the battery gauge's arc.
fn draw_top_bar(
    canvas: &mut NothingCanvas,
    state: &NothingUiState,
    layout_mode: LayoutMode,
    width: usize,
    t: LocalTime,
    arc: &Vec<(usize, usize)>,
)
    requires
        bar_canvas(*old(canvas), width),
        t.wf(),
        forall|i: int| 0 <= i < arc.len() ==> #[trigger] arc@[i].0 < usize::MAX,
    ensures
        bar_canvas(*final(canvas), width),
        final(canvas).height == old(canvas).height,
        final(canvas).pixels@ == apply_ops(
            old(canvas).pixels@,
            width as nat,
            top_bar_ops(*state, layout_mode, width as int, 0, t, arc@),
        ),
{
    let ghost p0 = canvas.pixels@;
    let ghost wn = width as nat;
    let ghost w = width as int;
    draw_bar_panel(canvas, width, state.frame_count);
    let ghost p1 = canvas.pixels@;
    draw_workspace_dots(canvas, width, state);
    proof {
        lemma_then(p0, wn, bar_panel_ops(w, 0, state.frame_count), workspace_dot_ops(*state, 24), p1, canvas.pixels@);
    }
    let ghost p2 = canvas.pixels@;
    let ghost d2 = bar_panel_ops(w, 0, state.frame_count) + workspace_dot_ops(*state, 24);
    draw_bar_clock(canvas, width, t);
    proof {
        lemma_then(p0, wn, d2, bar_clock_ops(w, 24, t), p2, canvas.pixels@);
    }
    let ghost p3 = canvas.pixels@;
    let ghost d3 = d2 + bar_clock_ops(w, 24, t);
    draw_bar_status(canvas, width, layout_mode, state.wifi_enabled);
    proof {
        lemma_then(p0, wn, d3, bar_status_ops(w, 24, layout_mode, state.wifi_enabled), p3, canvas.pixels@);
    }
    let ghost p4 = canvas.pixels@;
    let ghost d4 = d3 + bar_status_ops(w, 24, layout_mode, state.wifi_enabled);
    draw_battery_arc(canvas, width, arc);
    proof {
        lemma_then(p0, wn, d4, arc_ops(arc@), p4, canvas.pixels@);
    }
    let ghost p5 = canvas.pixels@;
    let ghost d5 = d4 + arc_ops(arc@);
    draw_bar_tail(canvas, width, state.battery_percentage);
    proof {
        lemma_then(p0, wn, d5, bar_tail_ops(w, 24, state.battery_percentage), p5, canvas.pixels@);
    }
}

/// Appends the month name of `month` (as `month_name` states it).
fn push_month_name(out: &mut Vec<char>, month: u32)
    ensures
        final(out)@ == old(out)@ + month_name(month as int),
{
    let name = if month == 1 {
        "JAN"
    } else if month == 2 {
        "FEB"
    } else if month == 3 {
        "MAR"
    } else if month == 4 {
        "APR"
    } else if month == 5 {
        "MAY"
    } else if month == 6 {
        "JUN"
    } else if month == 7 {
        "JUL"
    } else if month == 8 {
        "AUG"
    } else if month == 9 {
        "SEP"
    } else if month == 10 {
        "OCT"
    } else if month == 11 {
        "NOV"
    } else if month == 12 {
        "DEC"
    } else if month == 0 {
        ""
    } else {
        "???"
    };
    proof {
        reveal_strlit("JAN");
        reveal_strlit("FEB");
        reveal_strlit("MAR");
        reveal_strlit("APR");
        reveal_strlit("MAY");
        reveal_strlit("JUN");
        reveal_strlit("JUL");
        reveal_strlit("AUG");
        reveal_strlit("SEP");
        reveal_strlit("OCT");
        reveal_strlit("NOV");
        reveal_strlit("DEC");
        reveal_strlit("");
        reveal_strlit("???");
        assert(name@ =~= month_name(month as int));
    }
    push_str(out, name);
}

/// The letter on dock button `i`: terminal, monitor, files, settings.
pub open spec fn dock_label(i: int) -> Seq<char> {
    if i == 0 {
        seq!['T']
    } else if i == 1 {
        seq!['A']
    } else if i == 2 {
        seq!['F']
    } else {
        seq!['S']
    }
}

/// The dock's left edge and top edge on a `width` x `height` screen: a
/// 340 x 50 panel centred horizontally, 16 pixels above the bottom edge.
pub open spec fn dock_origin(width: int, height: int) -> (int, int) {
    ((width - 340) / 2, height - 50 - 16)
}

/// The dock's glass panel and its launcher button.
pub open spec fn dock_panel_ops(width: int, height: int) -> Seq<DrawOp> {
    let (x, y) = dock_origin(width, height);
    seq![
        op(Shape::RoundedRect { x, y, w: 340, h: 50, radius: 25 }, 18, 18, 18, 190),
        op(Shape::RoundedBorder { x, y, w: 340, h: 50, radius: 25, thickness: 1 }, 255, 255, 255, 20),
        op(Shape::Disc { cx: x + 30, cy: y + 25, radius: 16 }, 255, 255, 255, 255),
    ]
}

/// The 3 x 3 grid of black dots inside the launcher button, row by row.
pub open spec fn dock_grid_ops(width: int, height: int) -> Seq<DrawOp> {
    let (x, y) = dock_origin(width, height);
    Seq::new(
        9,
        |k: int| op(Shape::Disc { cx: x + 30 - 5 + (k % 3) * 5, cy: y + 25 - 5 + (k / 3) * 5, radius: 1 }, 0, 0, 0, 255),
    )
}

/// The separator: a faint vertical line of 20 pixels.
pub open spec fn dock_separator_ops(width: int, height: int) -> Seq<DrawOp> {
    let (x, y) = dock_origin(width, height);
    Seq::new(20, |k: int| op(Shape::Point { x: x + 64, y: y + 25 - 10 + k }, 255, 255, 255, 25))
}

/// The four app buttons, each a faint disc, its ring and its letter.
pub open spec fn dock_button_ops(width: int, height: int) -> Seq<DrawOp> {
    let (x, y) = dock_origin(width, height);
    Seq::new(
        12,
        |k: int|
            {
                let bx = x + 90 + (k / 3) * 60;
                if k % 3 == 0 {
                    op(Shape::Disc { cx: bx, cy: y + 25, radius: 16 }, 255, 255, 255, 13)
                } else if k % 3 == 1 {
                    op(Shape::Ring { cx: bx, cy: y + 25, radius: 16, thickness: 1 }, 255, 255, 255, 25)
                } else {
                    op(text_shape(dock_label(k / 3), bx - 3, y + 25 - 4, 1, 1, 0), 255, 255, 255, 200)
                }
            },
    )
}

/// The dock at the bottom of a `width` x `height` screen.
pub open spec fn dock_ops(width: int, height: int) -> Seq<DrawOp> {
    dock_panel_ops(width, height) + dock_grid_ops(width, height) + dock_separator_ops(width, height)
        + dock_button_ops(width, height)
}

/// The canvas facts that the dock needs.
pub open spec fn dock_canvas(c: NothingCanvas) -> bool {
    &&& c.wf()
    &&& c.width >= 340
    &&& c.height >= 66
}

fn draw_dock_panel(canvas: &mut NothingCanvas)
    requires
        dock_canvas(*old(canvas)),
    ensures
        dock_canvas(*final(canvas)),
        final(canvas).width == old(canvas).width,
        final(canvas).height == old(canvas).height,
        final(canvas).pixels@ == apply_ops(
            old(canvas).pixels@,
            old(canvas).width as nat,
            dock_panel_ops(old(canvas).width as int, old(canvas).height as int),
        ),
{
    let ghost p0 = canvas.pixels@;
    let ghost wn = canvas.width as nat;
    let ghost ops = dock_panel_ops(canvas.width as int, canvas.height as int);
    let width = canvas.width;
    let height = canvas.height;
    let dock_w: usize = 340;
    let dock_h: usize = 50;
    let dock_x = (width - dock_w) / 2;
    let dock_y = height - dock_h - 16;
    proof {
        lemma_canvas_dims(width as int, height as int, 66);
        lemma_canvas_dims_rows(width as int, height as int, 340);
        lemma_apply_take_ends(p0, wn, ops);
        lemma_rounded_rect_ok(dock_x as int, dock_y as int, 340, 50, 25);
        lemma_rounded_border_ok(dock_x as int, dock_y as int, 340, 50, 25, 1);
    }
    canvas.draw_rounded_rect(dock_x, dock_y, dock_w, dock_h, 25, 18, 18, 18, 190);
    proof { lemma_apply_take(p0, wn, ops, 0); }
    canvas.draw_rounded_rect_border(dock_x, dock_y, dock_w, dock_h, 25, 1, 255, 255, 255, 20);
    proof { lemma_apply_take(p0, wn, ops, 1); }
    let cy = dock_y + dock_h / 2;
    let grid_x = dock_x + 30;
    canvas.draw_circle(grid_x, cy, 16, 255, 255, 255, 255);
    proof { lemma_apply_take(p0, wn, ops, 2); }
}

/// A canvas at least `min_w` pixels wide has no more than
/// `usize::MAX / (4 * min_w)` rows.
proof fn lemma_canvas_dims_rows(w: int, h: int, min_w: int)
    requires
        w * h * 4 <= usize::MAX,
        1 <= min_w <= w,
        0 <= h,
    ensures
        h <= usize::MAX / 4,
        h <= isize::MAX / 2,
{
    assert(h * 4 <= w * h * 4) by (nonlinear_arith)
        requires 1 <= w, 0 <= h;
}

fn draw_dock_grid(canvas: &mut NothingCanvas)
    requires
        dock_canvas(*old(canvas)),
    ensures
        dock_canvas(*final(canvas)),
        final(canvas).width == old(canvas).width,
        final(canvas).height == old(canvas).height,
        final(canvas).pixels@ == apply_ops(
            old(canvas).pixels@,
            old(canvas).width as nat,
            dock_grid_ops(old(canvas).width as int, old(canvas).height as int),
        ),
{
    let ghost p0 = canvas.pixels@;
    let ghost wn = canvas.width as nat;
    let ghost ops = dock_grid_ops(canvas.width as int, canvas.height as int);
    let width = canvas.width;
    let height = canvas.height;
    let dock_x = (width - 340) / 2;
    let dock_y = height - 50 - 16;
    let cy = dock_y + 25;
    let grid_x = dock_x + 30;
    proof {
        lemma_canvas_dims(width as int, height as int, 66);
        lemma_canvas_dims_rows(width as int, height as int, 340);
        lemma_apply_take_ends(p0, wn, ops);
    }
    let mut r: usize = 0;
    while r < 3
        invariant
            dock_canvas(*canvas),
            canvas.width == width,
            canvas.height == height,
            wn == width as nat,
            ops == dock_grid_ops(width as int, height as int),
            width <= isize::MAX / 2,
            height <= isize::MAX / 2,
            grid_x == (width - 340) / 2 + 30,
            cy == height - 66 + 25,
            r <= 3,
            canvas.pixels@ == apply_ops(p0, wn, ops.take(3 * r)),
        decreases 3 - r,
    {
        let mut c: usize = 0;
        while c < 3
            invariant
                dock_canvas(*canvas),
                canvas.width == width,
                canvas.height == height,
                wn == width as nat,
                ops == dock_grid_ops(width as int, height as int),
                width <= isize::MAX / 2,
                height <= isize::MAX / 2,
                grid_x == (width - 340) / 2 + 30,
                cy == height - 66 + 25,
                r < 3,
                c <= 3,
                canvas.pixels@ == apply_ops(p0, wn, ops.take(3 * r + c)),
            decreases 3 - c,
        {
            proof {
                assert((3 * r + c) as int % 3 == c && (3 * r + c) as int / 3 == r) by (nonlinear_arith)
                    requires c < 3;
            }
            canvas.draw_circle(grid_x - 5 + c * 5, cy - 5 + r * 5, 1, 0, 0, 0, 255);
            proof { lemma_apply_take(p0, wn, ops, 3 * r + c); }
            c = c + 1;
        }
        r = r + 1;
    }
}

fn draw_dock_separator(canvas: &mut NothingCanvas)
    requires
        dock_canvas(*old(canvas)),
    ensures
        dock_canvas(*final(canvas)),
        final(canvas).width == old(canvas).width,
        final(canvas).height == old(canvas).height,
        final(canvas).pixels@ == apply_ops(
            old(canvas).pixels@,
            old(canvas).width as nat,
            dock_separator_ops(old(canvas).width as int, old(canvas).height as int),
        ),
{
    let ghost p0 = canvas.pixels@;
    let ghost wn = canvas.width as nat;
    let ghost ops = dock_separator_ops(canvas.width as int, canvas.height as int);
    let width = canvas.width;
    let height = canvas.height;
    let dock_x = (width - 340) / 2;
    let dock_y = height - 50 - 16;
    let cy = dock_y + 25;
    proof {
        lemma_canvas_dims(width as int, height as int, 66);
        lemma_canvas_dims_rows(width as int, height as int, 340);
        lemma_apply_take_ends(p0, wn, ops);
    }
    let mut dy: usize = 0;
    while dy < 20
        invariant
            dock_canvas(*canvas),
            canvas.width == width,
            canvas.height == height,
            wn == width as nat,
            ops == dock_separator_ops(width as int, height as int),
            width <= isize::MAX / 2,
            height <= isize::MAX / 2,
            dock_x == (width - 340) / 2,
            cy == height - 66 + 25,
            dy <= 20,
            canvas.pixels@ == apply_ops(p0, wn, ops.take(dy as int)),
        decreases 20 - dy,
    {
        canvas.set_pixel(dock_x + 64, cy - 10 + dy, 255, 255, 255, 25);
        proof { lemma_apply_take(p0, wn, ops, dy as int); }
        dy = dy + 1;
    }
}

/// The letter shown on dock button `i`.
fn dock_label_str(i: usize) -> (label: &'static str)
    requires
        i < 4,
    ensures
        label@ == dock_label(i as int),
{
    let label = if i == 0 {
        "T"
    } else if i == 1 {
        "A"
    } else if i == 2 {
        "F"
    } else {
        "S"
    };
    proof {
        reveal_strlit("T");
        reveal_strlit("A");
        reveal_strlit("F");
        reveal_strlit("S");
        assert(label@ =~= dock_label(i as int));
    }
    label
}

fn draw_dock_buttons(canvas: &mut NothingCanvas)
    requires
        dock_canvas(*old(canvas)),
    ensures
        dock_canvas(*final(canvas)),
        final(canvas).width == old(canvas).width,
        final(canvas).height == old(canvas).height,
        final(canvas).pixels@ == apply_ops(
            old(canvas).pixels@,
            old(canvas).width as nat,
            dock_button_ops(old(canvas).width as int, old(canvas).height as int),
        ),
{
    let ghost p0 = canvas.pixels@;
    let ghost wn = canvas.width as nat;
    let ghost ops = dock_button_ops(canvas.width as int, canvas.height as int);
    let width = canvas.width;
    let height = canvas.height;
    let dock_x = (width - 340) / 2;
    let dock_y = height - 50 - 16;
    let cy = dock_y + 25;
    proof {
        lemma_canvas_dims(width as int, height as int, 66);
        lemma_canvas_dims_rows(width as int, height as int, 340);
        lemma_apply_take_ends(p0, wn, ops);
    }
    let mut i: usize = 0;
    while i < 4
        invariant
            dock_canvas(*canvas),
            canvas.width == width,
            canvas.height == height,
            wn == width as nat,
            ops == dock_button_ops(width as int, height as int),
            width <= isize::MAX / 2,
            height <= isize::MAX / 2,
            dock_x == (width - 340) / 2,
            cy == height - 66 + 25,
            i <= 4,
            canvas.pixels@ == apply_ops(p0, wn, ops.take(3 * i)),
        decreases 4 - i,
    {
        let label = dock_label_str(i);
        let bx = dock_x + 90 + i * 60;
        proof {
            assert((3 * i) as int % 3 == 0 && (3 * i) as int / 3 == i) by (nonlinear_arith);
            assert((3 * i + 1) as int % 3 == 1 && (3 * i + 1) as int / 3 == i) by (nonlinear_arith);
            assert((3 * i + 2) as int % 3 == 2 && (3 * i + 2) as int / 3 == i) by (nonlinear_arith);
            assert(sq(16 - 1) <= isize::MAX);
            assert(label@.len() == 1);
            lemma_text_fits(label@, bx - 3, cy - 4, 1, 1, 0);
        }
        canvas.draw_circle(bx, cy, 16, 255, 255, 255, 13);
        proof { lemma_apply_take(p0, wn, ops, 3 * i); }
        canvas.draw_circle_border(bx, cy, 16, 1, 255, 255, 255, 25);
        proof { lemma_apply_take(p0, wn, ops, 3 * i + 1); }
        canvas.draw_text_dots(label, bx - 3, cy - 4, 1, 1, 0, 255, 255, 255, 200);
        proof { lemma_apply_take(p0, wn, ops, 3 * i + 2); }
        i = i + 1;
    }
}

/// Draws the dock at the bottom of a canvas at least 340 pixels wide and
/// 66 rows high (see `dock_ops`).
pub fn draw_bottom_dock(canvas: &mut NothingCanvas)
    requires
        dock_canvas(*old(canvas)),
    ensures
        dock_canvas(*final(canvas)),
        final(canvas).width == old(canvas).width,
        final(canvas).height == old(canvas).height,
        final(canvas).pixels@ == apply_ops(
            old(canvas).pixels@,
            old(canvas).width as nat,
            dock_ops(old(canvas).width as int, old(canvas).height as int),
        ),
{
    let ghost p0 = canvas.pixels@;
    let ghost wn = canvas.width as nat;
    let ghost (w, h) = (canvas.width as int, canvas.height as int);
    draw_dock_panel(canvas);
    let ghost p1 = canvas.pixels@;
    draw_dock_grid(canvas);
    proof { lemma_then(p0, wn, dock_panel_ops(w, h), dock_grid_ops(w, h), p1, canvas.pixels@); }
    let ghost p2 = canvas.pixels@;
    let ghost d2 = dock_panel_ops(w, h) + dock_grid_ops(w, h);
    draw_dock_separator(canvas);
    proof { lemma_then(p0, wn, d2, dock_separator_ops(w, h), p2, canvas.pixels@); }
    let ghost p3 = canvas.pixels@;
    let ghost d3 = d2 + dock_separator_ops(w, h);
    draw_dock_buttons(canvas);
    proof { lemma_then(p0, wn, d3, dock_button_ops(w, h), p3, canvas.pixels@); }
}

/// The weather widget: a glass card with the city code, the temperature in
/// large dots with a degree sign, and the city name.
pub open spec fn weather_widget_ops() -> Seq<DrawOp> {
    seq![
        op(Shape::RoundedRect { x: 32, y: 70, w: 170, h: 170, radius: 28 }, 18, 18, 18, 190),
        op(Shape::RoundedBorder { x: 32, y: 70, w: 170, h: 170, radius: 28, thickness: 1 }, 255, 255, 255, 20),
        op(text_shape(seq!['M', 'S', 'K'], 48, 86, 1, 1, 2), 160, 160, 160, 255),
        op(text_shape(seq!['2', '4'], 62, 125, 4, 2, 8), 255, 255, 255, 255),
        op(Shape::Disc { cx: 152, cy: 125, radius: 3 }, 255, 255, 255, 255),
        op(Shape::Disc { cx: 152, cy: 125, radius: 1 }, 18, 18, 18, 255),
        op(text_shape(seq!['K', 'R', 'A', 'S', 'N', 'O', 'Y', 'A', 'R', 'S', 'K'], 44, 216, 1, 0, 1), 100, 100, 100, 255),
    ]
}

/// Title and artist of track `i` of the music widget's playlist.
pub open spec fn track(i: int) -> (Seq<char>, Seq<char>) {
    if i == 0 {
        (seq!['O', 'V', 'E', 'R', 'T', 'H', 'I', 'N', 'K', 'E', 'R'], seq!['I', 'N', 'Z', 'O'])
    } else if i == 1 {
        (seq!['N', 'O', 'T', 'H', 'I', 'N', 'G', ' ', 'E', 'L', 'S', 'E'], seq!['J', 'O', 'E', ' ', 'H', 'E', 'R', 'T', 'Z'])
    } else {
        (seq!['G', 'H', 'O', 'S', 'T'], seq!['K', 'A', 'W', 'A', 'I'])
    }
}

/// The music widget: a glass card with a red dot and the player's name, the
/// current track's title and artist centred, and the previous, play/pause
/// (`P` while playing, `.` while paused) and next buttons.
pub open spec fn music_widget_ops(s: NothingUiState) -> Seq<DrawOp> {
    let (title, artist) = track((s.music_track_index % 3) as int);
    seq![
        op(Shape::RoundedRect { x: 32, y: 256, w: 170, h: 170, radius: 28 }, 18, 18, 18, 190),
        op(Shape::RoundedBorder { x: 32, y: 256, w: 170, h: 170, radius: 28, thickness: 1 }, 255, 255, 255, 20),
        op(Shape::Disc { cx: 48, cy: 272, radius: 3 }, 255, 0, 60, 255),
        op(text_shape(seq!['E', 'A', 'R', ' ', '2'], 92, 270, 1, 0, 1), 160, 160, 160, 255),
        op(text_shape(title, 32 + (170 - title.len() * 8) / 2, 316, 1, 1, 2), 255, 255, 255, 255),
        op(text_shape(artist, 32 + (170 - artist.len() * 7) / 2, 336, 1, 0, 1), 160, 160, 160, 255),
        op(Shape::Disc { cx: 77, cy: 376, radius: 12 }, 255, 255, 255, 13),
        op(text_shape(seq!['-'], 74, 373, 1, 1, 0), 200, 200, 200, 255),
        op(Shape::Disc { cx: 117, cy: 376, radius: 16 }, 255, 255, 255, 255),
        op(text_shape(if s.music_playing { seq!['P'] } else { seq!['.'] }, 114, 372, 1, 1, 0), 0, 0, 0, 255),
        op(Shape::Disc { cx: 157, cy: 376, radius: 12 }, 255, 255, 255, 13),
        op(text_shape(seq!['-'], 154, 373, 1, 1, 0), 200, 200, 200, 255),
    ]
}

/// The filled part of a usage bar `bar_w` pixels long at `percent`%: the
/// percentage of the length, rounded down.
pub open spec fn bar_fill(bar_w: int, percent: int) -> int {
    bar_w * percent / 100
}

/// A usage bar's filled part, at least 6 pixels long once anything is
/// filled; nothing when the fill is zero.
pub open spec fn usage_fill_ops(x: int, y: int, bar_w: int, percent: int) -> Seq<DrawOp> {
    let fill = bar_fill(bar_w, percent);
    if fill > 0 {
        seq![
            op(
                Shape::RoundedRect { x, y, w: if fill > 6 { fill } else { 6 }, h: 6, radius: 3 },
                255,
                255,
                255,
                255,
            ),
        ]
    } else {
        seq![]
    }
}

/// `label` followed by the decimal percentage and a per-cent sign.
pub open spec fn percent_text(label: Seq<char>, value: int) -> Seq<char> {
    label + decimal(value as nat) + seq!['%']
}

/// The system monitor widget's card, title, LIVE tag, CPU text and CPU bar.
pub open spec fn system_head_ops(s: NothingUiState) -> Seq<DrawOp> {
    seq![
        op(Shape::RoundedRect { x: 32, y: 442, w: 356, h: 100, radius: 28 }, 18, 18, 18, 190),
        op(Shape::RoundedBorder { x: 32, y: 442, w: 356, h: 100, radius: 28, thickness: 1 }, 255, 255, 255, 20),
        op(text_shape(seq!['R', 'U', 'S', 'T', ' ', 'S', 'M', 'I', 'T', 'H', 'A', 'Y', ' ', 'S', 'T', 'A', 'T', 'S'], 48, 456, 1, 0, 1), 160, 160, 160, 255),
        op(text_shape(seq!['L', 'I', 'V', 'E'], 338, 456, 1, 0, 1), 255, 0, 60, 255),
        op(text_shape(percent_text(seq!['C', 'P', 'U', ' '], s.cpu_usage as int), 48, 478, 1, 0, 1), 160, 160, 160, 255),
        op(Shape::RoundedRect { x: 48, y: 492, w: 324, h: 6, radius: 3 }, 30, 30, 30, 255),
    ]
}

/// The system monitor widget's RAM text and RAM bar.
pub open spec fn system_ram_ops(s: NothingUiState) -> Seq<DrawOp> {
    seq![
        op(text_shape(percent_text(seq!['R', 'A', 'M', ' '], s.mem_usage as int), 48, 506, 1, 0, 1), 160, 160, 160, 255),
        op(Shape::RoundedRect { x: 48, y: 520, w: 324, h: 6, radius: 3 }, 30, 30, 30, 255),
    ]
}

/// The system monitor widget: a wide glass card with its title and a red
/// LIVE tag, then the CPU and RAM usage, each as text and as a bar.
pub open spec fn system_widget_ops(s: NothingUiState) -> Seq<DrawOp> {
    system_head_ops(s) + usage_fill_ops(48, 492, 324, s.cpu_usage as int) + system_ram_ops(s) + usage_fill_ops(
        48,
        520,
        324,
        s.mem_usage as int,
    )
}

/// The desktop widgets on the left of the screen, top to bottom.
pub open spec fn desktop_widget_ops(s: NothingUiState) -> Seq<DrawOp> {
    weather_widget_ops() + music_widget_ops(s) + system_widget_ops(s)
}

/// Draws `text` where its full character cells fit the coordinate range.
fn draw_label(
    canvas: &mut NothingCanvas,
    text: &str,
    x: usize,
    y: usize,
    dot: usize,
    spacing: usize,
    char_spacing: usize,
    r: u8,
    g: u8,
    b: u8,
    a: u8,
)
    requires
        old(canvas).wf(),
        dot <= 8,
        spacing <= 8,
        char_spacing <= 16,
        text@.len() <= 64,
        x <= usize::MAX - 0x2000,
        y <= usize::MAX - 0x100,
    ensures
        final(canvas).wf(),
        final(canvas).width == old(canvas).width,
        final(canvas).height == old(canvas).height,
        final(canvas).pixels@ == crate::shapes::apply_op(
            old(canvas).pixels@,
            old(canvas).width as nat,
            op(text_shape(text@, x as int, y as int, dot as int, spacing as int, char_spacing as int), r, g, b, a),
        ),
{
    proof {
        assert(text@.len() * (5 * (dot + spacing) + char_spacing) <= 64 * 96) by (nonlinear_arith)
            requires
                text@.len() <= 64,
                5 * (dot + spacing) + char_spacing <= 96,
                5 * (dot + spacing) + char_spacing >= 0,
        ;
        lemma_text_fits(text@, x as int, y as int, dot as int, spacing as int, char_spacing as int);
    }
    canvas.draw_text_dots(text, x, y, dot, spacing, char_spacing, r, g, b, a);
}

/// Draws a character sequence where its full character cells fit the
/// coordinate range.
fn draw_label_chars(
    canvas: &mut NothingCanvas,
    text: &Vec<char>,
    x: usize,
    y: usize,
    dot: usize,
    spacing: usize,
    char_spacing: usize,
    r: u8,
    g: u8,
    b: u8,
    a: u8,
)
    requires
        old(canvas).wf(),
        dot <= 8,
        spacing <= 8,
        char_spacing <= 16,
        text@.len() <= 64,
        x <= usize::MAX - 0x2000,
        y <= usize::MAX - 0x100,
    ensures
        final(canvas).wf(),
        final(canvas).width == old(canvas).width,
        final(canvas).height == old(canvas).height,
        final(canvas).pixels@ == crate::shapes::apply_op(
            old(canvas).pixels@,
            old(canvas).width as nat,
            op(text_shape(text@, x as int, y as int, dot as int, spacing as int, char_spacing as int), r, g, b, a),
        ),
{
    proof {
        assert(text@.len() * (5 * (dot + spacing) + char_spacing) <= 64 * 96) by (nonlinear_arith)
            requires
                text@.len() <= 64,
                5 * (dot + spacing) + char_spacing <= 96,
                5 * (dot + spacing) + char_spacing >= 0,
        ;
        lemma_text_fits(text@, x as int, y as int, dot as int, spacing as int, char_spacing as int);
    }
    canvas.draw_chars_dots(text, x, y, dot, spacing, char_spacing, r, g, b, a);
}

fn draw_weather_widget(canvas: &mut NothingCanvas)
    requires
        old(canvas).wf(),
    ensures
        final(canvas).wf(),
        final(canvas).width == old(canvas).width,
        final(canvas).height == old(canvas).height,
        final(canvas).pixels@ == apply_ops(old(canvas).pixels@, old(canvas).width as nat, weather_widget_ops()),
{
    let ghost p0 = canvas.pixels@;
    let ghost wn = canvas.width as nat;
    let ghost ops = weather_widget_ops();
    proof {
        lemma_apply_take_ends(p0, wn, ops);
        lemma_rounded_rect_ok(32, 70, 170, 170, 28);
        lemma_rounded_border_ok(32, 70, 170, 170, 28, 1);
        reveal_strlit("MSK");
        reveal_strlit("24");
        reveal_strlit("KRASNOYARSK");
        assert("MSK"@ =~= seq!['M', 'S', 'K']);
        assert("24"@ =~= seq!['2', '4']);
        assert("KRASNOYARSK"@ =~= seq!['K', 'R', 'A', 'S', 'N', 'O', 'Y', 'A', 'R', 'S', 'K']);
    }
    let wx: usize = 32;
    let wy: usize = 70;
    let wsize: usize = 170;
    canvas.draw_rounded_rect(wx, wy, wsize, wsize, 28, 18, 18, 18, 190);
    proof { lemma_apply_take(p0, wn, ops, 0); }
    canvas.draw_rounded_rect_border(wx, wy, wsize, wsize, 28, 1, 255, 255, 255, 20);
    proof { lemma_apply_take(p0, wn, ops, 1); }
    draw_label(canvas, "MSK", wx + 16, wy + 16, 1, 1, 2, 160, 160, 160, 255);
    proof { lemma_apply_take(p0, wn, ops, 2); }
    draw_label(canvas, "24", wx + 30, wy + 55, 4, 2, 8, 255, 255, 255, 255);
    proof { lemma_apply_take(p0, wn, ops, 3); }
    canvas.draw_circle(wx + 120, wy + 55, 3, 255, 255, 255, 255);
    proof { lemma_apply_take(p0, wn, ops, 4); }
    canvas.draw_circle(wx + 120, wy + 55, 1, 18, 18, 18, 255);
    proof { lemma_apply_take(p0, wn, ops, 5); }
    draw_label(canvas, "KRASNOYARSK", wx + 12, wy + wsize - 24, 1, 0, 1, 100, 100, 100, 255);
    proof { lemma_apply_take(p0, wn, ops, 6); }
}

/// Title and artist of track `i` of the playlist.
fn track_strs(i: usize) -> (t: (&'static str, &'static str))
    requires
        i < 3,
    ensures
        t.0@ == track(i as int).0,
        t.1@ == track(i as int).1,
{
    let t = if i == 0 {
        ("OVERTHINKER", "INZO")
    } else if i == 1 {
        ("NOTHING ELSE", "JOE HERTZ")
    } else {
        ("GHOST", "KAWAI")
    };
    proof {
        reveal_strlit("OVERTHINKER");
        reveal_strlit("INZO");
        reveal_strlit("NOTHING ELSE");
        reveal_strlit("JOE HERTZ");
        reveal_strlit("GHOST");
        reveal_strlit("KAWAI");
        assert(t.0@ =~= track(i as int).0);
        assert(t.1@ =~= track(i as int).1);
    }
    t
}

fn draw_music_widget(canvas: &mut NothingCanvas, state: &NothingUiState)
    requires
        old(canvas).wf(),
    ensures
        final(canvas).wf(),
        final(canvas).width == old(canvas).width,
        final(canvas).height == old(canvas).height,
        final(canvas).pixels@ == apply_ops(old(canvas).pixels@, old(canvas).width as nat, music_widget_ops(*state)),
{
    let ghost p0 = canvas.pixels@;
    let ghost wn = canvas.width as nat;
    let ghost ops = music_widget_ops(*state);
    let (title, artist) = track_strs(state.music_track_index % 3);
    let play_char = if state.music_playing { "P" } else { "." };
    proof {
        lemma_apply_take_ends(p0, wn, ops);
        lemma_rounded_rect_ok(32, 256, 170, 170, 28);
        lemma_rounded_border_ok(32, 256, 170, 170, 28, 1);
        reveal_strlit("EAR 2");
        reveal_strlit("-");
        reveal_strlit("P");
        reveal_strlit(".");
        assert("EAR 2"@ =~= seq!['E', 'A', 'R', ' ', '2']);
        assert("-"@ =~= seq!['-']);
        assert(play_char@ =~= (if state.music_playing { seq!['P'] } else { seq!['.'] }));
        assert(title@.len() <= 12 && artist@.len() <= 9);
    }
    let wx: usize = 32;
    let wsize: usize = 170;
    let m_y: usize = 256;
    canvas.draw_rounded_rect(wx, m_y, wsize, wsize, 28, 18, 18, 18, 190);
    proof { lemma_apply_take(p0, wn, ops, 0); }
    canvas.draw_rounded_rect_border(wx, m_y, wsize, wsize, 28, 1, 255, 255, 255, 20);
    proof { lemma_apply_take(p0, wn, ops, 1); }
    canvas.draw_circle(wx + 16, m_y + 16, 3, 255, 0, 60, 255);
    proof { lemma_apply_take(p0, wn, ops, 2); }
    draw_label(canvas, "EAR 2", wx + 60, m_y + 14, 1, 0, 1, 160, 160, 160, 255);
    proof { lemma_apply_take(p0, wn, ops, 3); }
    let title_tw = title.unicode_len() * 8;
    draw_label(canvas, title, wx + (wsize - title_tw) / 2, m_y + 60, 1, 1, 2, 255, 255, 255, 255);
    proof { lemma_apply_take(p0, wn, ops, 4); }
    let artist_tw = artist.unicode_len() * 7;
    draw_label(canvas, artist, wx + (wsize - artist_tw) / 2, m_y + 80, 1, 0, 1, 160, 160, 160, 255);
    proof { lemma_apply_take(p0, wn, ops, 5); }
    let ctrl_y = m_y + 120;
    let ctrl_cx = wx + wsize / 2;
    canvas.draw_circle(ctrl_cx - 40, ctrl_y, 12, 255, 255, 255, 13);
    proof { lemma_apply_take(p0, wn, ops, 6); }
    draw_label(canvas, "-", ctrl_cx - 43, ctrl_y - 3, 1, 1, 0, 200, 200, 200, 255);
    proof { lemma_apply_take(p0, wn, ops, 7); }
    canvas.draw_circle(ctrl_cx, ctrl_y, 16, 255, 255, 255, 255);
    proof { lemma_apply_take(p0, wn, ops, 8); }
    draw_label(canvas, play_char, ctrl_cx - 3, ctrl_y - 4, 1, 1, 0, 0, 0, 0, 255);
    proof { lemma_apply_take(p0, wn, ops, 9); }
    canvas.draw_circle(ctrl_cx + 40, ctrl_y, 12, 255, 255, 255, 13);
    proof { lemma_apply_take(p0, wn, ops, 10); }
    draw_label(canvas, "-", ctrl_cx + 37, ctrl_y - 3, 1, 1, 0, 200, 200, 200, 255);
    proof { lemma_apply_take(p0, wn, ops, 11); }
}

/// The text `label` followed by the decimal `value` and a per-cent sign.
fn percent_chars(label: &str, value: u8) -> (text: Vec<char>)
    ensures
        text@ == percent_text(label@, value as int),
        text@.len() <= label@.len() + 4,
{
    let mut text: Vec<char> = Vec::new();
    push_str(&mut text, label);
    push_decimal(&mut text, value as u64);
    text.push('%');
    proof {
        lemma_decimal_len(value as nat);
        assert(text@ =~= percent_text(label@, value as int));
    }
    text
}

/// Draws a usage bar's filled part (see `usage_fill_ops`).
fn draw_usage_fill(canvas: &mut NothingCanvas, x: usize, y: usize, bar_w: usize, percent: u8)
    requires
        old(canvas).wf(),
        bar_w <= 1000,
        x <= usize::MAX - 0x1000,
        y <= usize::MAX - 0x1000,
    ensures
        final(canvas).wf(),
        final(canvas).width == old(canvas).width,
        final(canvas).height == old(canvas).height,
        final(canvas).pixels@ == apply_ops(
            old(canvas).pixels@,
            old(canvas).width as nat,
            usage_fill_ops(x as int, y as int, bar_w as int, percent as int),
        ),
{
    let ghost p0 = canvas.pixels@;
    let ghost wn = canvas.width as nat;
    let ghost ops = usage_fill_ops(x as int, y as int, bar_w as int, percent as int);
    proof {
        assert(bar_w * percent <= 1000 * 255) by (nonlinear_arith)
            requires
                bar_w <= 1000,
                percent <= 255,
        ;
        assert(bar_w * percent >= 0) by (nonlinear_arith)
            requires
                bar_w >= 0,
                percent >= 0,
        ;
        lemma_apply_take_ends(p0, wn, ops);
    }
    let fill = (bar_w as u32 * percent as u32 / 100) as usize;
    if fill > 0 {
        let len = if fill > 6 { fill } else { 6 };
        proof {
            lemma_rounded_rect_ok(x as int, y as int, len as int, 6, 3);
        }
        canvas.draw_rounded_rect(x, y, len, 6, 3, 255, 255, 255, 255);
        proof { lemma_apply_take(p0, wn, ops, 0); }
    }
}

fn draw_system_widget(canvas: &mut NothingCanvas, state: &NothingUiState)
    requires
        old(canvas).wf(),
    ensures
        final(canvas).wf(),
        final(canvas).width == old(canvas).width,
        final(canvas).height == old(canvas).height,
        final(canvas).pixels@ == apply_ops(old(canvas).pixels@, old(canvas).width as nat, system_widget_ops(*state)),
{
    let ghost p0 = canvas.pixels@;
    let ghost wn = canvas.width as nat;
    let ghost head = system_head_ops(*state);
    let ghost mid = system_ram_ops(*state);
    proof {
        lemma_apply_take_ends(p0, wn, head);
        lemma_rounded_rect_ok(32, 442, 356, 100, 28);
        lemma_rounded_border_ok(32, 442, 356, 100, 28, 1);
        lemma_rounded_rect_ok(48, 492, 324, 6, 3);
        lemma_rounded_rect_ok(48, 520, 324, 6, 3);
        reveal_strlit("RUST SMITHAY STATS");
        reveal_strlit("LIVE");
        reveal_strlit("CPU ");
        reveal_strlit("RAM ");
        assert("RUST SMITHAY STATS"@ =~= seq!['R', 'U', 'S', 'T', ' ', 'S', 'M', 'I', 'T', 'H', 'A', 'Y', ' ', 'S', 'T', 'A', 'T', 'S']);
        assert("LIVE"@ =~= seq!['L', 'I', 'V', 'E']);
        assert("CPU "@ =~= seq!['C', 'P', 'U', ' ']);
        assert("RAM "@ =~= seq!['R', 'A', 'M', ' ']);
    }
    let wx: usize = 32;
    let s_y: usize = 442;
    let s_w: usize = 356;
    canvas.draw_rounded_rect(wx, s_y, s_w, 100, 28, 18, 18, 18, 190);
    proof { lemma_apply_take(p0, wn, head, 0); }
    canvas.draw_rounded_rect_border(wx, s_y, s_w, 100, 28, 1, 255, 255, 255, 20);
    proof { lemma_apply_take(p0, wn, head, 1); }
    draw_label(canvas, "RUST SMITHAY STATS", wx + 16, s_y + 14, 1, 0, 1, 160, 160, 160, 255);
    proof { lemma_apply_take(p0, wn, head, 2); }
    draw_label(canvas, "LIVE", wx + s_w - 50, s_y + 14, 1, 0, 1, 255, 0, 60, 255);
    proof { lemma_apply_take(p0, wn, head, 3); }
    let bar_x = wx + 16;
    let bar_w = s_w - 32;
    let cpu_str = percent_chars("CPU ", state.cpu_usage);
    draw_label_chars(canvas, &cpu_str, bar_x, s_y + 36, 1, 0, 1, 160, 160, 160, 255);
    proof { lemma_apply_take(p0, wn, head, 4); }
    canvas.draw_rounded_rect(bar_x, s_y + 50, bar_w, 6, 3, 30, 30, 30, 255);
    proof { lemma_apply_take(p0, wn, head, 5); }
    let ghost p1 = canvas.pixels@;
    draw_usage_fill(canvas, bar_x, s_y + 50, bar_w, state.cpu_usage);
    proof {
        lemma_then(p0, wn, head, usage_fill_ops(48, 492, 324, state.cpu_usage as int), p1, canvas.pixels@);
    }
    let ghost d1 = head + usage_fill_ops(48, 492, 324, state.cpu_usage as int);
    let ghost p2 = canvas.pixels@;
    proof {
        lemma_apply_take_ends(p2, wn, mid);
    }
    let ram_str = percent_chars("RAM ", state.mem_usage);
    draw_label_chars(canvas, &ram_str, bar_x, s_y + 64, 1, 0, 1, 160, 160, 160, 255);
    proof { lemma_apply_take(p2, wn, mid, 0); }
    canvas.draw_rounded_rect(bar_x, s_y + 78, bar_w, 6, 3, 30, 30, 30, 255);
    proof {
        lemma_apply_take(p2, wn, mid, 1);
        lemma_then(p0, wn, d1, mid, p2, canvas.pixels@);
    }
    let ghost d2 = d1 + mid;
    let ghost p3 = canvas.pixels@;
    draw_usage_fill(canvas, bar_x, s_y + 78, bar_w, state.mem_usage);
    proof {
        lemma_then(p0, wn, d2, usage_fill_ops(48, 520, 324, state.mem_usage as int), p3, canvas.pixels@);
    }
}

/// Draws the desktop widgets: weather, music player and system monitor
/// (see `desktop_widget_ops`).
pub fn draw_desktop_widgets(canvas: &mut NothingCanvas, state: &NothingUiState)
    requires
        old(canvas).wf(),
    ensures
        final(canvas).wf(),
        final(canvas).width == old(canvas).width,
        final(canvas).height == old(canvas).height,
        final(canvas).pixels@ == apply_ops(old(canvas).pixels@, old(canvas).width as nat, desktop_widget_ops(*state)),
{
    let ghost p0 = canvas.pixels@;
    let ghost wn = canvas.width as nat;
    draw_weather_widget(canvas);
    let ghost p1 = canvas.pixels@;
    draw_music_widget(canvas, state);
    proof { lemma_then(p0, wn, weather_widget_ops(), music_widget_ops(*state), p1, canvas.pixels@); }
    let ghost p2 = canvas.pixels@;
    draw_system_widget(canvas, state);
    proof {
        lemma_then(p0, wn, weather_widget_ops() + music_widget_ops(*state), system_widget_ops(*state), p2, canvas.pixels@);
    }
}

/// A canvas of `width` x `height` pixels with every byte zero.
pub open spec fn blank_pixels(width: int, height: int) -> Seq<u8> {
    Seq::new((width * height * 4) as nat, |i: int| 0u8)
}

/// The sizes on which the desktop scene can be drawn: the dock needs 340
/// pixels of width and 66 rows, and the buffer must fit the address space.
pub open spec fn desktop_size_ok(width: u32, height: u32) -> bool {
    &&& width >= 340
    &&& height >= 66
    &&& width * height * 4 <= usize::MAX
}

/// The battery arc on a screen `width` pixels wide: at most 50 points (one
/// per 2% of charge), each within 9 pixels of the gauge's centre
/// (`battery_gauge_center`) in both directions.
pub open spec fn arc_ok(arc: Seq<(usize, usize)>, width: int) -> bool {
    &&& arc.len() <= 50
    &&& forall|i: int|
        0 <= i < arc.len() ==> width - 170 - 9 <= #[trigger] arc[i].0 <= width - 170 + 9 && 24 - 9 <= arc[i].1
            <= 24 + 9
}

/// Whether `arc` is a battery arc for a screen `width` pixels wide (see
/// `arc_ok`).
pub fn battery_arc_fits(arc: &Vec<(usize, usize)>, width: u32) -> (ok: bool)
    ensures
        ok == arc_ok(arc@, width as int),
{
    if arc.len() > 50 {
        return false;
    }
    let c: i128 = width as i128 - 170;
    let mut k: usize = 0;
    while k < arc.len()
        invariant
            arc.len() <= 50,
            c == width - 170,
            k <= arc.len(),
            forall|i: int| 0 <= i < k ==> width - 170 - 9 <= #[trigger] arc@[i].0 <= width - 170 + 9 && 24 - 9 <= arc@[i].1
                <= 24 + 9,
        decreases arc.len() - k,
    {
        let (x, y) = arc[k];
        let xi = x as i128;
        if !(c - 9 <= xi && xi <= c + 9 && 15 <= y && y <= 33) {
            return false;
        }
        k = k + 1;
    }
    true
}

/// The desktop scene: a transparent canvas with the status bar at the top,
/// the widgets on the left and the dock at the bottom.
pub open spec fn desktop_scene_ops(
    s: NothingUiState,
    mode: LayoutMode,
    width: int,
    height: int,
    t: LocalTime,
    arc: Seq<(usize, usize)>,
) -> Seq<DrawOp> {
    seq![op(Shape::All, 0, 0, 0, 0)] + top_bar_ops(s, mode, width, 0, t, arc) + desktop_widget_ops(s) + dock_ops(
        width,
        height,
    )
}

/// Starts a scene: a blank `width` x `height` canvas cleared to (r, g, b, a).
fn cleared_canvas(width: usize, height: usize, r: u8, g: u8, b: u8, a: u8) -> (canvas: NothingCanvas)
    requires
        width * height * 4 <= usize::MAX,
    ensures
        canvas.wf(),
        canvas.width == width,
        canvas.height == height,
        canvas.pixels@ == apply_ops(
            blank_pixels(width as int, height as int),
            width as nat,
            seq![op(Shape::All, r, g, b, a)],
        ),
{
    let mut canvas = NothingCanvas::new(width, height);
    let ghost p0 = canvas.pixels@;
    canvas.clear(r, g, b, a);
    proof {
        assert(p0 =~= blank_pixels(width as int, height as int));
        lemma_apply_take(p0, width as nat, seq![op(Shape::All, r, g, b, a)], 0);
        lemma_apply_take_ends(p0, width as nat, seq![op(Shape::All, r, g, b, a)]);
    }
    canvas
}

/// Draws the desktop scene at the local time `t`; `battery_arc` holds the
/// pixels of the battery gauge's arc.
pub fn render_desktop_canvas_at(
    state: &NothingUiState,
    layout_mode: LayoutMode,
    width: u32,
    height: u32,
    t: LocalTime,
    battery_arc: &Vec<(usize, usize)>,
) -> (canvas: NothingCanvas)
    requires
        desktop_size_ok(width, height),
        t.wf(),
        arc_ok(battery_arc@, width as int),
    ensures
        canvas.wf(),
        canvas.width == width,
        canvas.height == height,
        canvas.pixels@ == apply_ops(
            blank_pixels(width as int, height as int),
            width as nat,
            desktop_scene_ops(*state, layout_mode, width as int, height as int, t, battery_arc@),
        ),
{
    let w = width as usize;
    let h = height as usize;
    let ghost p0 = blank_pixels(w as int, h as int);
    let ghost wn = w as nat;
    let mut canvas = cleared_canvas(w, h, 0, 0, 0, 0);
    let ghost d1 = seq![op(Shape::All, 0, 0, 0, 0)];
    let ghost p1 = canvas.pixels@;
    draw_top_bar(&mut canvas, state, layout_mode, w, t, battery_arc);
    proof {
        lemma_then(p0, wn, d1, top_bar_ops(*state, layout_mode, w as int, 0, t, battery_arc@), p1, canvas.pixels@);
    }
    let ghost d2 = d1 + top_bar_ops(*state, layout_mode, w as int, 0, t, battery_arc@);
    let ghost p2 = canvas.pixels@;
    draw_desktop_widgets(&mut canvas, state);
    proof {
        lemma_then(p0, wn, d2, desktop_widget_ops(*state), p2, canvas.pixels@);
    }
    let ghost d3 = d2 + desktop_widget_ops(*state);
    let ghost p3 = canvas.pixels@;
    draw_bottom_dock(&mut canvas);
    proof {
        lemma_then(p0, wn, d3, dock_ops(w as int, h as int), p3, canvas.pixels@);
    }
    canvas
}

/// Draws the desktop scene at the current local time (see
/// `render_desktop_canvas_at`).
pub fn render_desktop_canvas(
    state: &NothingUiState,
    layout_mode: LayoutMode,
    width: u32,
    height: u32,
    battery_arc: &Vec<(usize, usize)>,
) -> (canvas: NothingCanvas)
    requires
        desktop_size_ok(width, height),
        arc_ok(battery_arc@, width as int),
    ensures
        canvas.wf(),
        canvas.width == width,
        canvas.height == height,
        exists|t: LocalTime|
            t.wf() && canvas.pixels@ == apply_ops(
                blank_pixels(width as int, height as int),
                width as nat,
                #[trigger] desktop_scene_ops(*state, layout_mode, width as int, height as int, t, battery_arc@),
            ),
{
    let t = crate::clock::local_time_now();
    render_desktop_canvas_at(state, layout_mode, width, height, t, battery_arc)
}

/// Name and icon letter of app `i` of the launcher grid.
pub open spec fn launcher_app(i: int) -> (Seq<char>, Seq<char>) {
    if i == 0 {
        (seq!['T', 'E', 'R', 'M', 'I', 'N', 'A', 'L'], seq!['T'])
    } else if i == 1 {
        (seq!['M', 'O', 'N', 'I', 'T', 'O', 'R'], seq!['A'])
    } else if i == 2 {
        (seq!['F', 'I', 'L', 'E', 'S'], seq!['F'])
    } else {
        (seq!['S', 'E', 'T', 'T', 'I', 'N', 'G', 'S'], seq!['S'])
    }
}

/// The sizes on which the app launcher can be drawn: the search bar needs
/// 500 pixels of width, the version line 40 rows.
pub open spec fn launcher_size_ok(width: u32, height: u32) -> bool {
    &&& width >= 500
    &&& height >= 40
    &&& width * height * 4 <= usize::MAX
}

/// The launcher's title, close button and search bar.
pub open spec fn launcher_head_ops(width: int) -> Seq<DrawOp> {
    let sb_x = (width - 500) / 2;
    seq![
        op(text_shape(seq!['N', 'O', 'T', 'H', 'I', 'N', 'G', ' ', 'A', 'P', 'P', 'S'], width / 2 - 100, 80, 2, 1, 4), 255, 255, 255, 255),
        op(Shape::Disc { cx: width - 60, cy: 90, radius: 16 }, 255, 255, 255, 25),
        op(text_shape(seq!['X'], width - 63, 86, 1, 1, 0), 255, 255, 255, 200),
        op(Shape::RoundedRect { x: sb_x, y: 140, w: 500, h: 40, radius: 16 }, 255, 255, 255, 13),
        op(Shape::RoundedBorder { x: sb_x, y: 140, w: 500, h: 40, radius: 16, thickness: 1 }, 255, 255, 255, 25),
        op(text_shape(seq!['S', 'E', 'A', 'R', 'C', 'H', ' ', 'A', 'P', 'P', 'S', '.', '.', '.'], sb_x + 20, 153, 1, 1, 2), 120, 120, 120, 255),
    ]
}

/// The four app cards of the launcher grid, each a faint card, its border,
/// an icon disc, the icon letter and the app's name centred below.
pub open spec fn launcher_card_ops(width: int) -> Seq<DrawOp> {
    Seq::new(
        20,
        |k: int|
            {
                let i = k / 5;
                let ax = (width - 400) / 2 + i * 100 + 10;
                let (name, icon) = launcher_app(i);
                if k % 5 == 0 {
                    op(Shape::RoundedRect { x: ax, y: 220, w: 80, h: 100, radius: 20 }, 255, 255, 255, 13)
                } else if k % 5 == 1 {
                    op(Shape::RoundedBorder { x: ax, y: 220, w: 80, h: 100, radius: 20, thickness: 1 }, 255, 255, 255, 13)
                } else if k % 5 == 2 {
                    op(Shape::Disc { cx: ax + 40, cy: 255, radius: 18 }, 255, 255, 255, 25)
                } else if k % 5 == 3 {
                    op(text_shape(icon, ax + 37, 251, 1, 1, 0), 255, 255, 255, 255)
                } else {
                    op(text_shape(name, ax + 40 - name.len() * 7 / 2, 290, 1, 0, 1), 255, 255, 255, 200)
                }
            },
    )
}

/// The app launcher: an 80% black overlay with the title, a close button,
/// the search bar, the grid of four apps and the version line.
pub open spec fn launcher_scene_ops(width: int, height: int) -> Seq<DrawOp> {
    seq![op(Shape::All, 0, 0, 0, 204)] + launcher_head_ops(width) + launcher_card_ops(width) + seq![
        op(text_shape(seq!['V', '0', '.', '1', '.', '0', '-', 'S', 'M', 'I', 'T', 'H', 'A', 'Y', '-', 'R', 'U', 'S', 'T'], width / 2 - 80, height - 40, 1, 0, 1), 80, 80, 80, 255),
    ]
}

/// The canvas facts that the launcher needs.
pub open spec fn launcher_canvas(c: NothingCanvas) -> bool {
    &&& c.wf()
    &&& c.width >= 500
    &&& c.height >= 40
}

fn draw_launcher_head(canvas: &mut NothingCanvas)
    requires
        launcher_canvas(*old(canvas)),
    ensures
        launcher_canvas(*final(canvas)),
        final(canvas).width == old(canvas).width,
        final(canvas).height == old(canvas).height,
        final(canvas).pixels@ == apply_ops(
            old(canvas).pixels@,
            old(canvas).width as nat,
            launcher_head_ops(old(canvas).width as int),
        ),
{
    let ghost p0 = canvas.pixels@;
    let ghost wn = canvas.width as nat;
    let ghost ops = launcher_head_ops(canvas.width as int);
    let w = canvas.width;
    let cx = w / 2;
    let sb_w: usize = 500;
    let sb_x = (w - sb_w) / 2;
    proof {
        lemma_canvas_dims(w as int, canvas.height as int, 40);
        lemma_apply_take_ends(p0, wn, ops);
        lemma_rounded_rect_ok(sb_x as int, 140, 500, 40, 16);
        lemma_rounded_border_ok(sb_x as int, 140, 500, 40, 16, 1);
        reveal_strlit("NOTHING APPS");
        reveal_strlit("X");
        reveal_strlit("SEARCH APPS...");
        assert("NOTHING APPS"@ =~= seq!['N', 'O', 'T', 'H', 'I', 'N', 'G', ' ', 'A', 'P', 'P', 'S']);
        assert("X"@ =~= seq!['X']);
        assert("SEARCH APPS..."@ =~= seq!['S', 'E', 'A', 'R', 'C', 'H', ' ', 'A', 'P', 'P', 'S', '.', '.', '.']);
    }
    draw_label(canvas, "NOTHING APPS", cx - 100, 80, 2, 1, 4, 255, 255, 255, 255);
    proof { lemma_apply_take(p0, wn, ops, 0); }
    canvas.draw_circle(w - 60, 90, 16, 255, 255, 255, 25);
    proof { lemma_apply_take(p0, wn, ops, 1); }
    draw_label(canvas, "X", w - 63, 86, 1, 1, 0, 255, 255, 255, 200);
    proof { lemma_apply_take(p0, wn, ops, 2); }
    canvas.draw_rounded_rect(sb_x, 140, sb_w, 40, 16, 255, 255, 255, 13);
    proof { lemma_apply_take(p0, wn, ops, 3); }
    canvas.draw_rounded_rect_border(sb_x, 140, sb_w, 40, 16, 1, 255, 255, 255, 25);
    proof { lemma_apply_take(p0, wn, ops, 4); }
    draw_label(canvas, "SEARCH APPS...", sb_x + 20, 153, 1, 1, 2, 120, 120, 120, 255);
    proof { lemma_apply_take(p0, wn, ops, 5); }
}

/// Name and icon letter of launcher app `i`.
fn launcher_app_strs(i: usize) -> (app: (&'static str, &'static str))
    requires
        i < 4,
    ensures
        app.0@ == launcher_app(i as int).0,
        app.1@ == launcher_app(i as int).1,
{
    let app = if i == 0 {
        ("TERMINAL", "T")
    } else if i == 1 {
        ("MONITOR", "A")
    } else if i == 2 {
        ("FILES", "F")
    } else {
        ("SETTINGS", "S")
    };
    proof {
        reveal_strlit("TERMINAL");
        reveal_strlit("MONITOR");
        reveal_strlit("FILES");
        reveal_strlit("SETTINGS");
        reveal_strlit("T");
        reveal_strlit("A");
        reveal_strlit("F");
        reveal_strlit("S");
        assert(app.0@ =~= launcher_app(i as int).0);
        assert(app.1@ =~= launcher_app(i as int).1);
    }
    app
}

fn draw_launcher_cards(canvas: &mut NothingCanvas)
    requires
        launcher_canvas(*old(canvas)),
    ensures
        launcher_canvas(*final(canvas)),
        final(canvas).width == old(canvas).width,
        final(canvas).height == old(canvas).height,
        final(canvas).pixels@ == apply_ops(
            old(canvas).pixels@,
            old(canvas).width as nat,
            launcher_card_ops(old(canvas).width as int),
        ),
{
    let ghost p0 = canvas.pixels@;
    let ghost wn = canvas.width as nat;
    let ghost ops = launcher_card_ops(canvas.width as int);
    let w = canvas.width;
    let grid_w: usize = 400;
    let grid_x = (w - grid_w) / 2;
    let grid_y: usize = 220;
    let ghost h = canvas.height;
    proof {
        lemma_canvas_dims(w as int, canvas.height as int, 40);
        lemma_apply_take_ends(p0, wn, ops);
    }
    let mut i: usize = 0;
    while i < 4
        invariant
            launcher_canvas(*canvas),
            canvas.width == w,
            canvas.height == h,
            wn == w as nat,
            ops == launcher_card_ops(w as int),
            w <= usize::MAX / 4,
            grid_x == (w - 400) / 2,
            grid_y == 220,
            i <= 4,
            canvas.pixels@ == apply_ops(p0, wn, ops.take(5 * i)),
        decreases 4 - i,
    {
        let (name, icon) = launcher_app_strs(i);
        let ax = grid_x + i * 100 + 10;
        let ay = grid_y;
        proof {
            assert((5 * i) as int / 5 == i && (5 * i) as int % 5 == 0) by (nonlinear_arith);
            assert((5 * i + 1) as int / 5 == i && (5 * i + 1) as int % 5 == 1) by (nonlinear_arith);
            assert((5 * i + 2) as int / 5 == i && (5 * i + 2) as int % 5 == 2) by (nonlinear_arith);
            assert((5 * i + 3) as int / 5 == i && (5 * i + 3) as int % 5 == 3) by (nonlinear_arith);
            assert((5 * i + 4) as int / 5 == i && (5 * i + 4) as int % 5 == 4) by (nonlinear_arith);
            lemma_rounded_rect_ok(ax as int, 220, 80, 100, 20);
            lemma_rounded_border_ok(ax as int, 220, 80, 100, 20, 1);
            assert(name@.len() <= 8 && icon@.len() == 1);
        }
        canvas.draw_rounded_rect(ax, ay, 80, 100, 20, 255, 255, 255, 13);
        proof { lemma_apply_take(p0, wn, ops, 5 * i); }
        canvas.draw_rounded_rect_border(ax, ay, 80, 100, 20, 1, 255, 255, 255, 13);
        proof { lemma_apply_take(p0, wn, ops, 5 * i + 1); }
        canvas.draw_circle(ax + 40, ay + 35, 18, 255, 255, 255, 25);
        proof { lemma_apply_take(p0, wn, ops, 5 * i + 2); }
        draw_label(canvas, icon, ax + 37, ay + 31, 1, 1, 0, 255, 255, 255, 255);
        proof { lemma_apply_take(p0, wn, ops, 5 * i + 3); }
        let nw = name.unicode_len() * 7;
        draw_label(canvas, name, ax + 40 - nw / 2, ay + 70, 1, 0, 1, 255, 255, 255, 200);
        proof { lemma_apply_take(p0, wn, ops, 5 * i + 4); }
        i = i + 1;
    }
}

/// Draws the app launcher overlay.
pub fn render_app_launcher_canvas(_state: &NothingUiState, width: u32, height: u32) -> (canvas: NothingCanvas)
    requires
        launcher_size_ok(width, height),
    ensures
        canvas.wf(),
        canvas.width == width,
        canvas.height == height,
        canvas.pixels@ == apply_ops(
            blank_pixels(width as int, height as int),
            width as nat,
            launcher_scene_ops(width as int, height as int),
        ),
{
    let w = width as usize;
    let h = height as usize;
    let ghost p0 = blank_pixels(w as int, h as int);
    let ghost wn = w as nat;
    let mut canvas = cleared_canvas(w, h, 0, 0, 0, 204);
    let ghost d1 = seq![op(Shape::All, 0, 0, 0, 204)];
    let ghost p1 = canvas.pixels@;
    draw_launcher_head(&mut canvas);
    proof { lemma_then(p0, wn, d1, launcher_head_ops(w as int), p1, canvas.pixels@); }
    let ghost d2 = d1 + launcher_head_ops(w as int);
    let ghost p2 = canvas.pixels@;
    draw_launcher_cards(&mut canvas);
    proof { lemma_then(p0, wn, d2, launcher_card_ops(w as int), p2, canvas.pixels@); }
    let ghost d3 = d2 + launcher_card_ops(w as int);
    let ghost p3 = canvas.pixels@;
    let ghost tail = seq![
        op(text_shape(seq!['V', '0', '.', '1', '.', '0', '-', 'S', 'M', 'I', 'T', 'H', 'A', 'Y', '-', 'R', 'U', 'S', 'T'], w / 2 - 80, h - 40, 1, 0, 1), 80, 80, 80, 255),
    ];
    let cx = w / 2;
    proof {
        lemma_canvas_dims(w as int, h as int, 40);
        lemma_canvas_dims_rows(w as int, h as int, 500);
        reveal_strlit("V0.1.0-SMITHAY-RUST");
        assert("V0.1.0-SMITHAY-RUST"@ =~= seq!['V', '0', '.', '1', '.', '0', '-', 'S', 'M', 'I', 'T', 'H', 'A', 'Y', '-', 'R', 'U', 'S', 'T']);
    }
    draw_label(&mut canvas, "V0.1.0-SMITHAY-RUST", cx - 80, h - 40, 1, 0, 1, 80, 80, 80, 255);
    proof {
        lemma_apply_take(p3, wn, tail, 0);
        lemma_apply_take_ends(p3, wn, tail);
        lemma_then(p0, wn, d3, tail, p3, canvas.pixels@);
    }
    canvas
}

/// Label of quick settings tile `i`.
pub open spec fn qs_toggle_label(i: int) -> Seq<char> {
    if i == 0 {
        seq!['W', 'I', 'F', 'I']
    } else if i == 1 {
        seq!['B', 'T']
    } else if i == 2 {
        seq!['S', 'L', 'E', 'E', 'P']
    } else {
        seq!['A', 'C', 'C', 'E', 'N', 'T']
    }
}

/// Label and state of quick settings tile `i`: Wi-Fi, Bluetooth, sleep
/// (always off) and accent (always on).
pub open spec fn qs_toggle(s: NothingUiState, i: int) -> (Seq<char>, bool) {
    (
        qs_toggle_label(i),
        if i == 0 {
            s.wifi_enabled
        } else if i == 1 {
            s.bluetooth_enabled
        } else {
            i != 2
        },
    )
}

/// A 100 x 100 toggle tile at (tx, ty): solid white with a black label
/// when active; faint with a border and a grey label otherwise.
pub open spec fn tile_ops(name: Seq<char>, active: bool, tx: int, ty: int) -> Seq<DrawOp> {
    if active {
        seq![
            op(Shape::RoundedRect { x: tx, y: ty, w: 100, h: 100, radius: 20 }, 255, 255, 255, 255),
            op(text_shape(name, tx + 12, ty + 76, 1, 1, 2), 0, 0, 0, 255),
        ]
    } else {
        seq![
            op(Shape::RoundedRect { x: tx, y: ty, w: 100, h: 100, radius: 20 }, 255, 255, 255, 13),
            op(Shape::RoundedBorder { x: tx, y: ty, w: 100, h: 100, radius: 20, thickness: 1 }, 255, 255, 255, 25),
            op(text_shape(name, tx + 12, ty + 76, 1, 1, 2), 160, 160, 160, 255),
        ]
    }
}

/// The first `n` toggle tiles of the panel whose left edge is `px`, in a
/// 2 x 2 grid with 12-pixel gaps, row by row.
pub open spec fn tiles_ops(s: NothingUiState, px: int, n: int) -> Seq<DrawOp>
    decreases n,
{
    if n <= 0 {
        seq![]
    } else {
        let i = n - 1;
        tiles_ops(s, px, n - 1) + tile_ops(
            qs_toggle(s, i).0,
            qs_toggle(s, i).1,
            px + 24 + (i % 2) * 112,
            124 + (i / 2) * 112,
        )
    }
}

/// The quick settings panel's card, header and close button.
pub open spec fn qs_head_ops(px: int) -> Seq<DrawOp> {
    seq![
        op(Shape::RoundedRect { x: px, y: 64, w: 280, h: 420, radius: 32 }, 18, 18, 18, 220),
        op(Shape::RoundedBorder { x: px, y: 64, w: 280, h: 420, radius: 32, thickness: 1 }, 255, 255, 255, 20),
        op(text_shape(seq!['N', 'O', 'T', 'H', 'I', 'N', 'G', ' ', 'S', 'Y', 'S', 'T', 'E', 'M'], px + 24, 88, 1, 1, 2), 160, 160, 160, 255),
        op(Shape::Disc { cx: px + 250, cy: 92, radius: 10 }, 255, 255, 255, 25),
        op(text_shape(seq!['X'], px + 247, 88, 1, 1, 0), 255, 255, 255, 200),
    ]
}

/// The volume and brightness sliders and the build line.
pub open spec fn qs_slider_ops(s: NothingUiState, px: int) -> Seq<DrawOp> {
    seq![
        op(text_shape(seq!['V', 'O', 'L', 'U', 'M', 'E'], px + 24, 364, 1, 0, 1), 160, 160, 160, 255),
        op(Shape::RoundedRect { x: px + 24, y: 380, w: 232, h: 6, radius: 3 }, 30, 30, 30, 255),
    ] + usage_fill_ops(px + 24, 380, 232, s.volume as int) + seq![
        op(text_shape(seq!['B', 'R', 'I', 'G', 'H', 'T', 'N', 'E', 'S', 'S'], px + 24, 400, 1, 0, 1), 160, 160, 160, 255),
        op(Shape::RoundedRect { x: px + 24, y: 416, w: 232, h: 6, radius: 3 }, 30, 30, 30, 255),
    ] + usage_fill_ops(px + 24, 416, 232, s.brightness as int) + seq![
        op(text_shape(seq!['B', 'U', 'I', 'L', 'D', ' ', 'V', '0', '.', '1', '.', '0'], px + 70, 460, 1, 0, 1), 80, 80, 80, 255),
    ]
}

/// The quick settings panel, 280 pixels wide, 16 pixels from the right edge.
pub open spec fn qs_panel_ops(s: NothingUiState, width: int) -> Seq<DrawOp> {
    qs_head_ops(width - 296) + tiles_ops(s, width - 296, 4) + qs_slider_ops(s, width - 296)
}

/// The quick settings scene: the desktop scene with the panel on top.
pub open spec fn quick_settings_scene_ops(
    s: NothingUiState,
    mode: LayoutMode,
    width: int,
    height: int,
    t: LocalTime,
    arc: Seq<(usize, usize)>,
) -> Seq<DrawOp> {
    desktop_scene_ops(s, mode, width, height, t, arc) + qs_panel_ops(s, width)
}

fn draw_qs_head(canvas: &mut NothingCanvas, px: usize)
    requires
        dock_canvas(*old(canvas)),
        px + 296 == old(canvas).width,
    ensures
        dock_canvas(*final(canvas)),
        final(canvas).width == old(canvas).width,
        final(canvas).height == old(canvas).height,
        final(canvas).pixels@ == apply_ops(old(canvas).pixels@, old(canvas).width as nat, qs_head_ops(px as int)),
{
    let ghost p0 = canvas.pixels@;
    let ghost wn = canvas.width as nat;
    let ghost ops = qs_head_ops(px as int);
    proof {
        lemma_canvas_dims(canvas.width as int, canvas.height as int, 66);
        lemma_apply_take_ends(p0, wn, ops);
        lemma_rounded_rect_ok(px as int, 64, 280, 420, 32);
        lemma_rounded_border_ok(px as int, 64, 280, 420, 32, 1);
        reveal_strlit("NOTHING SYSTEM");
        reveal_strlit("X");
        assert("NOTHING SYSTEM"@ =~= seq!['N', 'O', 'T', 'H', 'I', 'N', 'G', ' ', 'S', 'Y', 'S', 'T', 'E', 'M']);
        assert("X"@ =~= seq!['X']);
    }
    let panel_w: usize = 280;
    let panel_y: usize = 64;
    let panel_h: usize = 420;
    canvas.draw_rounded_rect(px, panel_y, panel_w, panel_h, 32, 18, 18, 18, 220);
    proof { lemma_apply_take(p0, wn, ops, 0); }
    canvas.draw_rounded_rect_border(px, panel_y, panel_w, panel_h, 32, 1, 255, 255, 255, 20);
    proof { lemma_apply_take(p0, wn, ops, 1); }
    draw_label(canvas, "NOTHING SYSTEM", px + 24, panel_y + 24, 1, 1, 2, 160, 160, 160, 255);
    proof { lemma_apply_take(p0, wn, ops, 2); }
    canvas.draw_circle(px + panel_w - 30, panel_y + 28, 10, 255, 255, 255, 25);
    proof { lemma_apply_take(p0, wn, ops, 3); }
    draw_label(canvas, "X", px + panel_w - 33, panel_y + 24, 1, 1, 0, 255, 255, 255, 200);
    proof { lemma_apply_take(p0, wn, ops, 4); }
}

/// Label of quick settings tile `i`.
fn qs_toggle_name(i: usize) -> (name: &'static str)
    requires
        i < 4,
    ensures
        name@ == qs_toggle_label(i as int),
{
    let name = if i == 0 {
        "WIFI"
    } else if i == 1 {
        "BT"
    } else if i == 2 {
        "SLEEP"
    } else {
        "ACCENT"
    };
    proof {
        reveal_strlit("WIFI");
        reveal_strlit("BT");
        reveal_strlit("SLEEP");
        reveal_strlit("ACCENT");
        assert(name@ =~= qs_toggle_label(i as int));
    }
    name
}

fn draw_toggle_tile(canvas: &mut NothingCanvas, name: &str, active: bool, tx: usize, ty: usize)
    requires
        old(canvas).wf(),
        name@.len() <= 6,
        tx <= usize::MAX - 0x4000,
        ty <= 0x1000,
    ensures
        final(canvas).wf(),
        final(canvas).width == old(canvas).width,
        final(canvas).height == old(canvas).height,
        final(canvas).pixels@ == apply_ops(
            old(canvas).pixels@,
            old(canvas).width as nat,
            tile_ops(name@, active, tx as int, ty as int),
        ),
{
    let ghost p0 = canvas.pixels@;
    let ghost wn = canvas.width as nat;
    let ghost ops = tile_ops(name@, active, tx as int, ty as int);
    let tile_size: usize = 100;
    proof {
        lemma_apply_take_ends(p0, wn, ops);
        lemma_rounded_rect_ok(tx as int, ty as int, 100, 100, 20);
        lemma_rounded_border_ok(tx as int, ty as int, 100, 100, 20, 1);
    }
    if active {
        canvas.draw_rounded_rect(tx, ty, tile_size, tile_size, 20, 255, 255, 255, 255);
        proof { lemma_apply_take(p0, wn, ops, 0); }
        draw_label(canvas, name, tx + 12, ty + tile_size - 24, 1, 1, 2, 0, 0, 0, 255);
        proof { lemma_apply_take(p0, wn, ops, 1); }
    } else {
        canvas.draw_rounded_rect(tx, ty, tile_size, tile_size, 20, 255, 255, 255, 13);
        proof { lemma_apply_take(p0, wn, ops, 0); }
        canvas.draw_rounded_rect_border(tx, ty, tile_size, tile_size, 20, 1, 255, 255, 255, 25);
        proof { lemma_apply_take(p0, wn, ops, 1); }
        draw_label(canvas, name, tx + 12, ty + tile_size - 24, 1, 1, 2, 160, 160, 160, 255);
        proof { lemma_apply_take(p0, wn, ops, 2); }
    }
}

fn draw_qs_tiles(canvas: &mut NothingCanvas, state: &NothingUiState, px: usize)
    requires
        dock_canvas(*old(canvas)),
        px + 296 == old(canvas).width,
    ensures
        dock_canvas(*final(canvas)),
        final(canvas).width == old(canvas).width,
        final(canvas).height == old(canvas).height,
        final(canvas).pixels@ == apply_ops(
            old(canvas).pixels@,
            old(canvas).width as nat,
            tiles_ops(*state, px as int, 4),
        ),
{
    let ghost p0 = canvas.pixels@;
    let ghost wn = canvas.width as nat;
    let ghost w = canvas.width;
    let ghost h = canvas.height;
    proof {
        lemma_canvas_dims(canvas.width as int, canvas.height as int, 66);
        assert(tiles_ops(*state, px as int, 0) =~= seq![]);
    }
    let tile_size: usize = 100;
    let tile_gap: usize = 12;
    let tiles_x = px + 24;
    let tiles_y: usize = 124;
    let mut i: usize = 0;
    while i < 4
        invariant
            dock_canvas(*canvas),
            canvas.width == w,
            canvas.height == h,
            wn == w as nat,
            px + 296 == w,
            w <= usize::MAX / 4,
            tiles_x == px + 24,
            tiles_y == 124,
            tile_size == 100,
            tile_gap == 12,
            i <= 4,
            canvas.pixels@ == apply_ops(p0, wn, tiles_ops(*state, px as int, i as int)),
        decreases 4 - i,
    {
        let name = qs_toggle_name(i);
        let active = if i == 0 {
            state.wifi_enabled
        } else if i == 1 {
            state.bluetooth_enabled
        } else if i == 2 {
            false
        } else {
            true
        };
        let col = i % 2;
        let row = i / 2;
        proof {
            assert(col < 2 && row < 2);
        }
        let tx = tiles_x + col * (tile_size + tile_gap);
        let ty = tiles_y + row * (tile_size + tile_gap);
        let ghost before = canvas.pixels@;
        proof {
            assert(name@ == qs_toggle(*state, i as int).0);
            assert(active == qs_toggle(*state, i as int).1);
            assert(name@.len() <= 6);
        }
        draw_toggle_tile(canvas, name, active, tx, ty);
        proof {
            lemma_then(p0, wn, tiles_ops(*state, px as int, i as int), tile_ops(name@, active, tx as int, ty as int), before, canvas.pixels@);
            assert(tiles_ops(*state, px as int, i as int + 1) == tiles_ops(*state, px as int, i as int) + tile_ops(
                name@,
                active,
                tx as int,
                ty as int,
            ));
        }
        i = i + 1;
    }
}

fn draw_qs_sliders(canvas: &mut NothingCanvas, state: &NothingUiState, px: usize)
    requires
        dock_canvas(*old(canvas)),
        px + 296 == old(canvas).width,
    ensures
        dock_canvas(*final(canvas)),
        final(canvas).width == old(canvas).width,
        final(canvas).height == old(canvas).height,
        final(canvas).pixels@ == apply_ops(
            old(canvas).pixels@,
            old(canvas).width as nat,
            qs_slider_ops(*state, px as int),
        ),
{
    let ghost p0 = canvas.pixels@;
    let ghost wn = canvas.width as nat;
    let ghost a = seq![
        op(text_shape(seq!['V', 'O', 'L', 'U', 'M', 'E'], px + 24, 364, 1, 0, 1), 160, 160, 160, 255),
        op(Shape::RoundedRect { x: px + 24, y: 380, w: 232, h: 6, radius: 3 }, 30, 30, 30, 255),
    ];
    let ghost b = seq![
        op(text_shape(seq!['B', 'R', 'I', 'G', 'H', 'T', 'N', 'E', 'S', 'S'], px + 24, 400, 1, 0, 1), 160, 160, 160, 255),
        op(Shape::RoundedRect { x: px + 24, y: 416, w: 232, h: 6, radius: 3 }, 30, 30, 30, 255),
    ];
    let ghost c = seq![op(text_shape(seq!['B', 'U', 'I', 'L', 'D', ' ', 'V', '0', '.', '1', '.', '0'], px + 70, 460, 1, 0, 1), 80, 80, 80, 255)];
    proof {
        lemma_canvas_dims(canvas.width as int, canvas.height as int, 66);
        lemma_apply_take_ends(p0, wn, a);
        lemma_rounded_rect_ok(px + 24, 380, 232, 6, 3);
        lemma_rounded_rect_ok(px + 24, 416, 232, 6, 3);
        reveal_strlit("VOLUME");
        reveal_strlit("BRIGHTNESS");
        reveal_strlit("BUILD V0.1.0");
        assert("VOLUME"@ =~= seq!['V', 'O', 'L', 'U', 'M', 'E']);
        assert("BRIGHTNESS"@ =~= seq!['B', 'R', 'I', 'G', 'H', 'T', 'N', 'E', 'S', 'S']);
        assert("BUILD V0.1.0"@ =~= seq!['B', 'U', 'I', 'L', 'D', ' ', 'V', '0', '.', '1', '.', '0']);
    }
    let panel_y: usize = 64;
    let panel_h: usize = 420;
    let sl_y: usize = 124 + 2 * (100 + 12) + 16;
    let sl_w: usize = 280 - 48;
    draw_label(canvas, "VOLUME", px + 24, sl_y, 1, 0, 1, 160, 160, 160, 255);
    proof { lemma_apply_take(p0, wn, a, 0); }
    canvas.draw_rounded_rect(px + 24, sl_y + 16, sl_w, 6, 3, 30, 30, 30, 255);
    proof { lemma_apply_take(p0, wn, a, 1); }
    let ghost p1 = canvas.pixels@;
    draw_usage_fill(canvas, px + 24, sl_y + 16, sl_w, state.volume);
    proof { lemma_then(p0, wn, a, usage_fill_ops(px + 24, 380, 232, state.volume as int), p1, canvas.pixels@); }
    let ghost d1 = a + usage_fill_ops(px + 24, 380, 232, state.volume as int);
    let ghost p2 = canvas.pixels@;
    proof { lemma_apply_take_ends(p2, wn, b); }
    draw_label(canvas, "BRIGHTNESS", px + 24, sl_y + 36, 1, 0, 1, 160, 160, 160, 255);
    proof { lemma_apply_take(p2, wn, b, 0); }
    canvas.draw_rounded_rect(px + 24, sl_y + 52, sl_w, 6, 3, 30, 30, 30, 255);
    proof {
        lemma_apply_take(p2, wn, b, 1);
        lemma_then(p0, wn, d1, b, p2, canvas.pixels@);
    }
    let ghost d2 = d1 + b;
    let ghost p3 = canvas.pixels@;
    draw_usage_fill(canvas, px + 24, sl_y + 52, sl_w, state.brightness);
    proof { lemma_then(p0, wn, d2, usage_fill_ops(px + 24, 416, 232, state.brightness as int), p3, canvas.pixels@); }
    let ghost d3 = d2 + usage_fill_ops(px + 24, 416, 232, state.brightness as int);
    let ghost p4 = canvas.pixels@;
    proof { lemma_apply_take_ends(p4, wn, c); }
    draw_label(canvas, "BUILD V0.1.0", px + 70, panel_y + panel_h - 24, 1, 0, 1, 80, 80, 80, 255);
    proof {
        lemma_apply_take(p4, wn, c, 0);
        lemma_then(p0, wn, d3, c, p4, canvas.pixels@);
    }
}

/// Draws the quick settings scene at the local time `t`: the desktop scene
/// (see `render_desktop_canvas_at`) with the quick settings panel on top.
pub fn render_quick_settings_canvas_at(
    state: &NothingUiState,
    layout_mode: LayoutMode,
    width: u32,
    height: u32,
    t: LocalTime,
    battery_arc: &Vec<(usize, usize)>,
) -> (canvas: NothingCanvas)
    requires
        desktop_size_ok(width, height),
        t.wf(),
        arc_ok(battery_arc@, width as int),
    ensures
        canvas.wf(),
        canvas.width == width,
        canvas.height == height,
        canvas.pixels@ == apply_ops(
            blank_pixels(width as int, height as int),
            width as nat,
            quick_settings_scene_ops(*state, layout_mode, width as int, height as int, t, battery_arc@),
        ),
{
    let w = width as usize;
    let ghost p0 = blank_pixels(w as int, height as int);
    let ghost wn = w as nat;
    let ghost d0 = desktop_scene_ops(*state, layout_mode, w as int, height as int, t, battery_arc@);
    let mut canvas = render_desktop_canvas_at(state, layout_mode, width, height, t, battery_arc);
    let panel_w: usize = 280;
    let panel_x = w - panel_w - 16;
    let ghost p1 = canvas.pixels@;
    draw_qs_head(&mut canvas, panel_x);
    proof { lemma_then(p0, wn, d0, qs_head_ops(panel_x as int), p1, canvas.pixels@); }
    let ghost d1 = d0 + qs_head_ops(panel_x as int);
    let ghost p2 = canvas.pixels@;
    draw_qs_tiles(&mut canvas, state, panel_x);
    proof { lemma_then(p0, wn, d1, tiles_ops(*state, panel_x as int, 4), p2, canvas.pixels@); }
    let ghost d2 = d1 + tiles_ops(*state, panel_x as int, 4);
    let ghost p3 = canvas.pixels@;
    draw_qs_sliders(&mut canvas, state, panel_x);
    proof {
        lemma_then(p0, wn, d2, qs_slider_ops(*state, panel_x as int), p3, canvas.pixels@);
        assert(d2 + qs_slider_ops(*state, panel_x as int) =~= quick_settings_scene_ops(
            *state,
            layout_mode,
            w as int,
            height as int,
            t,
            battery_arc@,
        ));
    }
    canvas
}

/// Draws the quick settings scene at the current local time (see
/// `render_quick_settings_canvas_at`).
pub fn render_quick_settings_canvas(
    state: &NothingUiState,
    layout_mode: LayoutMode,
    width: u32,
    height: u32,
    battery_arc: &Vec<(usize, usize)>,
) -> (canvas: NothingCanvas)
    requires
        desktop_size_ok(width, height),
        arc_ok(battery_arc@, width as int),
    ensures
        canvas.wf(),
        canvas.width == width,
        canvas.height == height,
        exists|t: LocalTime|
            t.wf() && canvas.pixels@ == apply_ops(
                blank_pixels(width as int, height as int),
                width as nat,
                #[trigger] quick_settings_scene_ops(*state, layout_mode, width as int, height as int, t, battery_arc@),
            ),
{
    let t = crate::clock::local_time_now();
    render_quick_settings_canvas_at(state, layout_mode, width, height, t, battery_arc)
}

/// The veil over the whole screen. In the dashboard's colours, dark mode
/// draws light text on black cards over a dark veil, light mode the reverse.
pub open spec fn dash_bg(dark: bool) -> Rgba {
    if dark { Rgba { r: 10, g: 10, b: 10, a: 217 } } else { Rgba { r: 240, g: 240, b: 240, a: 217 } }
}

/// The cards' colour.
pub open spec fn dash_card(dark: bool) -> Rgba {
    if dark { Rgba { r: 0, g: 0, b: 0, a: 240 } } else { Rgba { r: 255, g: 255, b: 255, a: 240 } }
}

/// The cards' border colour.
pub open spec fn dash_border(dark: bool) -> Rgba {
    if dark { Rgba { r: 80, g: 80, b: 80, a: 255 } } else { Rgba { r: 180, g: 180, b: 180, a: 255 } }
}

/// The colour of the big figures.
pub open spec fn dash_primary(dark: bool) -> Rgba {
    if dark { Rgba { r: 255, g: 255, b: 255, a: 255 } } else { Rgba { r: 0, g: 0, b: 0, a: 255 } }
}

/// The colour of the captions.
pub open spec fn dash_secondary(dark: bool) -> Rgba {
    if dark { Rgba { r: 140, g: 140, b: 140, a: 255 } } else { Rgba { r: 100, g: 100, b: 100, a: 255 } }
}

/// The colour of the holes cut into the toggle icons: the card colour, opaque.
pub open spec fn dash_hole(dark: bool) -> Rgba {
    if dark { Rgba { r: 0, g: 0, b: 0, a: 255 } } else { Rgba { r: 255, g: 255, b: 255, a: 255 } }
}

/// The Wi-Fi icon's colour: strong when Wi-Fi is on, faint when it is off.
pub open spec fn wifi_icon_color(wifi: bool, dark: bool) -> Rgba {
    if wifi {
        if dark { Rgba { r: 255, g: 255, b: 255, a: 255 } } else { Rgba { r: 0, g: 0, b: 0, a: 255 } }
    } else {
        if dark { Rgba { r: 80, g: 80, b: 80, a: 255 } } else { Rgba { r: 180, g: 180, b: 180, a: 255 } }
    }
}

/// The dark-mode tile's status colour: white when dark mode is on, light
/// grey when it is off.
pub open spec fn dark_status_color(dark: bool) -> Rgba {
    if dark { Rgba { r: 255, g: 255, b: 255, a: 255 } } else { Rgba { r: 180, g: 180, b: 180, a: 255 } }
}

/// The operation painting `shape` in colour `c`.
pub open spec fn paint(shape: Shape, c: Rgba) -> DrawOp {
    DrawOp { shape, color: c }
}

/// `ON` or `OFF`.
pub open spec fn on_off(on: bool) -> Seq<char> {
    if on { seq!['O', 'N'] } else { seq!['O', 'F', 'F'] }
}

/// The battery line of the power tile: `BAT`, a `+` while charging, the
/// percentage.
pub open spec fn battery_text(s: NothingUiState) -> Seq<char> {
    seq!['B', 'A', 'T', ' '] + (if s.battery_charging { seq!['+'] } else { seq![] }) + decimal(s.battery_percentage as nat) + seq!['%']
}

/// The shape of the uptime label shown from an hour on: `UPT `, the whole
/// hours in decimal, a point, one decimal digit and `H`; at most 24
/// characters, which every `u64` uptime fits.
pub open spec fn hours_label_ok(label: Seq<char>) -> bool {
    &&& 8 <= label.len() <= 24
    &&& label.take(4) == seq!['U', 'P', 'T', ' ']
    &&& label[label.len() - 1] == 'H'
    &&& label[label.len() - 3] == '.'
    &&& '0' <= label[label.len() - 2] <= '9'
    &&& forall|k: int| 4 <= k < label.len() - 3 ==> '0' <= #[trigger] label[k] <= '9'
}

/// Whether `label` has the shape of the uptime label (see
/// `hours_label_ok`).
pub fn hours_label_fits(label: &str) -> (ok: bool)
    ensures
        ok == hours_label_ok(label@),
{
    let l = str_chars(label);
    let n = l.len();
    if n < 8 || n > 24 {
        return false;
    }
    let head = l[0] == 'U' && l[1] == 'P' && l[2] == 'T' && l[3] == ' ';
    proof {
        assert(head == (l@.take(4) =~= seq!['U', 'P', 'T', ' ']));
    }
    if !head || l[n - 1] != 'H' || l[n - 3] != '.' || !('0' <= l[n - 2] && l[n - 2] <= '9') {
        return false;
    }
    let mut k: usize = 4;
    while k < n - 3
        invariant
            l@ == label@,
            n == l@.len(),
            8 <= n <= 24,
            4 <= k <= n - 3,
            forall|j: int| 4 <= j < k ==> '0' <= #[trigger] l@[j] <= '9',
        decreases n - 3 - k,
    {
        if !('0' <= l[k] && l[k] <= '9') {
            return false;
        }
        k = k + 1;
    }
    true
}

/// The uptime line of the power tile: whole minutes below an hour, and
/// `hours_label` (the uptime in hours to one decimal) from an hour on.
pub open spec fn uptime_text(uptime_secs: u64, hours_label: Seq<char>) -> Seq<char> {
    if uptime_secs >= 3600 {
        hours_label
    } else {
        seq!['U', 'P', 'T', ' '] + decimal((uptime_secs / 60) as nat) + seq!['M']
    }
}

/// A 180 x 180 dashboard tile at (x, y) with its caption.
pub open spec fn tile_frame_ops(dark: bool, x: int, y: int, caption: Seq<char>) -> Seq<DrawOp> {
    seq![
        paint(Shape::RoundedRect { x, y, w: 180, h: 180, radius: 24 }, dash_card(dark)),
        paint(Shape::RoundedBorder { x, y, w: 180, h: 180, radius: 24, thickness: 1 }, dash_border(dark)),
        paint(text_shape(caption, x + 20, y + 20, 1, 1, 3), dash_secondary(dark)),
    ]
}

/// The big clock tile: hours above minutes in large dots, the caption and a
/// red dot in the corner.
pub open spec fn dash_clock_ops(dark: bool, x: int, y: int, t: LocalTime) -> Seq<DrawOp> {
    seq![
        paint(Shape::RoundedRect { x, y, w: 380, h: 380, radius: 24 }, dash_card(dark)),
        paint(Shape::RoundedBorder { x, y, w: 380, h: 380, radius: 24, thickness: 1 }, dash_border(dark)),
        paint(text_shape(two_digits(t.hour as nat), x + 106, y + 80, 6, 2, 16), dash_primary(dark)),
        paint(text_shape(two_digits(t.minute as nat), x + 106, y + 190, 6, 2, 16), dash_primary(dark)),
        paint(text_shape(seq!['T', 'I', 'M', 'E'], x + 30, y + 30, 1, 1, 3), dash_secondary(dark)),
        op(Shape::Disc { cx: x + 350, cy: y + 350, radius: 6 }, 255, 0, 0, 255),
    ]
}

/// The number of dots of a circular gauge.
pub open spec fn gauge_dots() -> int {
    20
}

/// Offset from a gauge's centre of its dot `k`: twenty dots on a circle of
/// radius 32, one every 18 degrees, clockwise from the top.
pub open spec fn gauge_dot(k: int) -> (int, int) {
    if k == 0 {
        (0, -32)
    } else if k == 1 {
        (10, -30)
    } else if k == 2 {
        (19, -26)
    } else if k == 3 {
        (26, -19)
    } else if k == 4 {
        (30, -10)
    } else if k == 5 {
        (32, 0)
    } else if k == 6 {
        (30, 10)
    } else if k == 7 {
        (26, 19)
    } else if k == 8 {
        (19, 26)
    } else if k == 9 {
        (10, 30)
    } else if k == 10 {
        (0, 32)
    } else if k == 11 {
        (-10, 30)
    } else if k == 12 {
        (-19, 26)
    } else if k == 13 {
        (-26, 19)
    } else if k == 14 {
        (-30, 10)
    } else if k == 15 {
        (-32, 0)
    } else if k == 16 {
        (-30, -10)
    } else if k == 17 {
        (-26, -19)
    } else if k == 18 {
        (-19, -26)
    } else {
        (-10, -30)
    }
}

/// How many of a gauge's dots are lit at `percent`: one per 5%, all twenty
/// from 100% on.
pub open spec fn gauge_filled(percent: int) -> int {
    if percent >= 100 {
        20
    } else {
        percent / 5
    }
}

/// The gauge's track: all its dots, faint.
pub open spec fn gauge_track_ops(cx: int, cy: int, dark: bool) -> Seq<DrawOp> {
    Seq::new(
        20,
        |k: int| paint(Shape::Disc { cx: cx + gauge_dot(k).0, cy: cy + gauge_dot(k).1, radius: 3 }, dash_border(dark)),
    )
}

/// The gauge's filled arc: its first `gauge_filled(percent)` dots, clockwise
/// from the top, bright.
pub open spec fn gauge_fill_ops(cx: int, cy: int, percent: int, dark: bool) -> Seq<DrawOp> {
    Seq::new(
        gauge_filled(percent) as nat,
        |k: int| paint(Shape::Disc { cx: cx + gauge_dot(k).0, cy: cy + gauge_dot(k).1, radius: 3 }, dash_primary(dark)),
    )
}

/// The value of a gauge, `n%`.
pub open spec fn gauge_value_text(percent: int) -> Seq<char> {
    decimal(percent as nat) + seq!['%']
}

/// A circular gauge centred at (cx, cy): the track, the filled arc, the
/// value centred inside and the label below.
pub open spec fn gauge_ops(cx: int, cy: int, percent: int, label: Seq<char>, dark: bool) -> Seq<DrawOp> {
    let value = gauge_value_text(percent);
    gauge_track_ops(cx, cy, dark) + gauge_fill_ops(cx, cy, percent, dark) + seq![
        paint(text_shape(value, cx - value.len() * 11 / 2, cy - 6, 1, 1, 1), dash_primary(dark)),
        paint(text_shape(label, cx - label.len() * 11 / 2, cy + 44, 1, 1, 1), dash_secondary(dark)),
    ]
}

/// The system tile: a circular CPU gauge and a circular RAM gauge.
pub open spec fn dash_sys_ops(s: NothingUiState, x: int, y: int) -> Seq<DrawOp> {
    tile_frame_ops(s.dark_mode, x, y, seq!['S', 'Y', 'S']) + gauge_ops(
        x + 48,
        y + 92,
        s.cpu_usage as int,
        seq!['C', 'P', 'U'],
        s.dark_mode,
    ) + gauge_ops(x + 132, y + 92, s.mem_usage as int, seq!['R', 'A', 'M'], s.dark_mode)
}

/// A gauge's filled arc grows with its value: a larger value lights every
/// dot a smaller one lights, in the same order, and more; zero lights none
/// and 100% or more lights them all.
pub proof fn lemma_gauge_grows(cx: int, cy: int, p: int, q: int, dark: bool)
    requires
        0 <= p <= q,
    ensures
        gauge_filled(p) <= gauge_filled(q),
        gauge_fill_ops(cx, cy, p, dark) == gauge_fill_ops(cx, cy, q, dark).take(gauge_filled(p)),
        gauge_filled(0) == 0,
        q >= 100 ==> gauge_filled(q) == gauge_dots(),
        gauge_filled(q) <= gauge_dots(),
{
    assert(p / 5 <= q / 5) by (nonlinear_arith)
        requires 0 <= p <= q;
    assert(0 <= p / 5) by (nonlinear_arith)
        requires 0 <= p;
    assert(q < 100 ==> q / 5 < 20) by (nonlinear_arith)
        requires 0 <= q;
    assert(gauge_fill_ops(cx, cy, p, dark) =~= gauge_fill_ops(cx, cy, q, dark).take(gauge_filled(p)));
}

/// The power tile: battery and uptime.
pub open spec fn dash_pwr_ops(s: NothingUiState, x: int, y: int, hours_label: Seq<char>) -> Seq<DrawOp> {
    tile_frame_ops(s.dark_mode, x, y, seq!['P', 'W', 'R']) + seq![
        paint(text_shape(battery_text(s), x + 20, y + 60, 2, 1, 4), dash_primary(s.dark_mode)),
        paint(text_shape(uptime_text(s.uptime_secs, hours_label), x + 20, y + 110, 2, 1, 4), dash_primary(s.dark_mode)),
    ]
}

/// The Wi-Fi toggle tile: a ring with a dot in its middle, and the state.
pub open spec fn dash_wifi_ops(s: NothingUiState, x: int, y: int) -> Seq<DrawOp> {
    let c = wifi_icon_color(s.wifi_enabled, s.dark_mode);
    let status = on_off(s.wifi_enabled);
    tile_frame_ops(s.dark_mode, x, y, seq!['W', 'I', 'F', 'I']) + seq![
        paint(Shape::Disc { cx: x + 90, cy: y + 90, radius: 28 }, c),
        paint(Shape::Disc { cx: x + 90, cy: y + 90, radius: 24 }, dash_hole(s.dark_mode)),
        paint(Shape::Disc { cx: x + 90, cy: y + 90, radius: 4 }, c),
        paint(text_shape(status, x + 90 - status.len() * 10 / 2, y + 145, 1, 1, 3), c),
    ]
}

/// The dark-mode toggle tile: a crescent moon while dark mode is on, a sun
/// with four rays while it is off, and the state.
pub open spec fn dash_dark_ops(s: NothingUiState, x: int, y: int) -> Seq<DrawOp> {
    let status = on_off(s.dark_mode);
    let white = Rgba { r: 255, g: 255, b: 255, a: 255 };
    let black = Rgba { r: 0, g: 0, b: 0, a: 255 };
    tile_frame_ops(s.dark_mode, x, y, seq!['D', 'A', 'R', 'K']) + (if s.dark_mode {
        seq![
            paint(Shape::Disc { cx: x + 90, cy: y + 90, radius: 24 }, white),
            paint(Shape::Disc { cx: x + 100, cy: y + 85, radius: 20 }, dash_hole(s.dark_mode)),
        ]
    } else {
        seq![
            paint(Shape::Disc { cx: x + 90, cy: y + 90, radius: 14 }, black),
            paint(Shape::Disc { cx: x + 90, cy: y + 60, radius: 3 }, black),
            paint(Shape::Disc { cx: x + 90, cy: y + 120, radius: 3 }, black),
            paint(Shape::Disc { cx: x + 60, cy: y + 90, radius: 3 }, black),
            paint(Shape::Disc { cx: x + 120, cy: y + 90, radius: 3 }, black),
        ]
    }) + seq![paint(text_shape(status, x + 90 - status.len() * 10 / 2, y + 145, 1, 1, 3), dark_status_color(s.dark_mode))]
}

/// The dashboard: a veil over the whole screen and a centred 780 x 380 grid
/// of tiles: the clock (two by two), system and power in the third column,
/// Wi-Fi and dark mode in the fourth.
pub open spec fn dashboard_scene_ops(
    s: NothingUiState,
    width: u32,
    height: u32,
    t: LocalTime,
    hours_label: Seq<char>,
) -> Seq<DrawOp> {
    let x0 = crate::state::dashboard_left(width);
    let y0 = crate::state::dashboard_top(height);
    seq![paint(Shape::All, dash_bg(s.dark_mode))] + dash_clock_ops(s.dark_mode, x0, y0, t) + dash_sys_ops(s, x0 + 400, y0)
        + dash_pwr_ops(s, x0 + 400, y0 + 200, hours_label) + dash_wifi_ops(s, x0 + 600, y0) + dash_dark_ops(
        s,
        x0 + 600,
        y0 + 200,
    )
}

/// The sizes on which the dashboard can be drawn: the centred widget grid
/// must not start left of or above the screen (a screen one pixel smaller
/// than the 780 x 380 grid still puts it at zero), the sizes must be `i32`
/// values, and the buffer must fit the address space.
pub open spec fn dashboard_scene_size_ok(width: u32, height: u32) -> bool {
    &&& 779 <= width <= i32::MAX
    &&& 379 <= height <= i32::MAX
    &&& width * height * 4 <= usize::MAX
}

/// The canvas facts that a dashboard tile at (x, y) needs.
pub open spec fn tile_canvas(c: NothingCanvas, x: usize, y: usize) -> bool {
    &&& c.wf()
    &&& x <= isize::MAX - 0x4000
    &&& y <= isize::MAX - 0x4000
}

fn draw_tile_frame(canvas: &mut NothingCanvas, dark: bool, x: usize, y: usize, caption: &str)
    requires
        tile_canvas(*old(canvas), x, y),
        caption@.len() <= 8,
    ensures
        tile_canvas(*final(canvas), x, y),
        final(canvas).width == old(canvas).width,
        final(canvas).height == old(canvas).height,
        final(canvas).pixels@ == apply_ops(
            old(canvas).pixels@,
            old(canvas).width as nat,
            tile_frame_ops(dark, x as int, y as int, caption@),
        ),
{
    let ghost p0 = canvas.pixels@;
    let ghost wn = canvas.width as nat;
    let ghost ops = tile_frame_ops(dark, x as int, y as int, caption@);
    proof {
        lemma_apply_take_ends(p0, wn, ops);
        lemma_rounded_rect_ok(x as int, y as int, 180, 180, 24);
        lemma_rounded_border_ok(x as int, y as int, 180, 180, 24, 1);
    }
    let card = if dark { (0u8, 0u8, 0u8, 240u8) } else { (255u8, 255u8, 255u8, 240u8) };
    let border = if dark { (80u8, 80u8, 80u8, 255u8) } else { (180u8, 180u8, 180u8, 255u8) };
    let secondary = if dark { (140u8, 140u8, 140u8, 255u8) } else { (100u8, 100u8, 100u8, 255u8) };
    canvas.draw_rounded_rect(x, y, 180, 180, 24, card.0, card.1, card.2, card.3);
    proof { lemma_apply_take(p0, wn, ops, 0); }
    canvas.draw_rounded_rect_border(x, y, 180, 180, 24, 1, border.0, border.1, border.2, border.3);
    proof { lemma_apply_take(p0, wn, ops, 1); }
    draw_label(canvas, caption, x + 20, y + 20, 1, 1, 3, secondary.0, secondary.1, secondary.2, secondary.3);
    proof { lemma_apply_take(p0, wn, ops, 2); }
}

fn draw_dash_clock(canvas: &mut NothingCanvas, dark: bool, x: usize, y: usize, t: LocalTime)
    requires
        tile_canvas(*old(canvas), x, y),
        t.wf(),
    ensures
        tile_canvas(*final(canvas), x, y),
        final(canvas).width == old(canvas).width,
        final(canvas).height == old(canvas).height,
        final(canvas).pixels@ == apply_ops(
            old(canvas).pixels@,
            old(canvas).width as nat,
            dash_clock_ops(dark, x as int, y as int, t),
        ),
{
    let ghost p0 = canvas.pixels@;
    let ghost wn = canvas.width as nat;
    let ghost ops = dash_clock_ops(dark, x as int, y as int, t);
    let mut hh: Vec<char> = Vec::new();
    push_two_digits(&mut hh, t.hour as u64);
    let mut mm: Vec<char> = Vec::new();
    push_two_digits(&mut mm, t.minute as u64);
    proof {
        lemma_apply_take_ends(p0, wn, ops);
        lemma_rounded_rect_ok(x as int, y as int, 380, 380, 24);
        lemma_rounded_border_ok(x as int, y as int, 380, 380, 24, 1);
        reveal_strlit("TIME");
        assert("TIME"@ =~= seq!['T', 'I', 'M', 'E']);
        assert(hh@ =~= two_digits(t.hour as nat));
        assert(mm@ =~= two_digits(t.minute as nat));
    }
    let card = if dark { (0u8, 0u8, 0u8, 240u8) } else { (255u8, 255u8, 255u8, 240u8) };
    let border = if dark { (80u8, 80u8, 80u8, 255u8) } else { (180u8, 180u8, 180u8, 255u8) };
    let primary = if dark { (255u8, 255u8, 255u8, 255u8) } else { (0u8, 0u8, 0u8, 255u8) };
    let secondary = if dark { (140u8, 140u8, 140u8, 255u8) } else { (100u8, 100u8, 100u8, 255u8) };
    canvas.draw_rounded_rect(x, y, 380, 380, 24, card.0, card.1, card.2, card.3);
    proof { lemma_apply_take(p0, wn, ops, 0); }
    canvas.draw_rounded_rect_border(x, y, 380, 380, 24, 1, border.0, border.1, border.2, border.3);
    proof { lemma_apply_take(p0, wn, ops, 1); }
    let clock_dx = x + 106;
    draw_label_chars(canvas, &hh, clock_dx, y + 80, 6, 2, 16, primary.0, primary.1, primary.2, primary.3);
    proof { lemma_apply_take(p0, wn, ops, 2); }
    draw_label_chars(canvas, &mm, clock_dx, y + 190, 6, 2, 16, primary.0, primary.1, primary.2, primary.3);
    proof { lemma_apply_take(p0, wn, ops, 3); }
    draw_label(canvas, "TIME", x + 30, y + 30, 1, 1, 3, secondary.0, secondary.1, secondary.2, secondary.3);
    proof { lemma_apply_take(p0, wn, ops, 4); }
    canvas.draw_circle(x + 350, y + 350, 6, 255, 0, 0, 255);
    proof { lemma_apply_take(p0, wn, ops, 5); }
}

/// The offset of gauge dot `k` from the gauge's centre, moved by 32 in
/// both directions so that it is not negative.
fn gauge_dot_offset(k: usize) -> (o: (usize, usize))
    requires
        k < 20,
    ensures
        o.0 == gauge_dot(k as int).0 + 32,
        o.1 == gauge_dot(k as int).1 + 32,
{
    match k {
        0 => (32, 0),
        1 => (42, 2),
        2 => (51, 6),
        3 => (58, 13),
        4 => (62, 22),
        5 => (64, 32),
        6 => (62, 42),
        7 => (58, 51),
        8 => (51, 58),
        9 => (42, 62),
        10 => (32, 64),
        11 => (22, 62),
        12 => (13, 58),
        13 => (6, 51),
        14 => (2, 42),
        15 => (0, 32),
        16 => (2, 22),
        17 => (6, 13),
        18 => (13, 6),
        _ => (22, 2),
    }
}

/// The text of a gauge's value (see `gauge_value_text`).
fn gauge_value_chars(value: u8) -> (text: Vec<char>)
    ensures
        text@ == gauge_value_text(value as int),
        1 <= text@.len() <= 4,
{
    let mut text: Vec<char> = Vec::new();
    push_decimal(&mut text, value as u64);
    text.push('%');
    proof {
        lemma_decimal_len(value as nat);
        assert(text@ =~= gauge_value_text(value as int));
    }
    text
}

/// Draws a circular gauge (see `gauge_ops`).
fn draw_gauge(canvas: &mut NothingCanvas, cx: usize, cy: usize, percent: u8, label: &str, dark: bool)
    requires
        old(canvas).wf(),
        40 <= cx <= isize::MAX - 0x3000,
        40 <= cy <= isize::MAX - 0x3000,
        label@.len() <= 3,
    ensures
        final(canvas).wf(),
        final(canvas).width == old(canvas).width,
        final(canvas).height == old(canvas).height,
        final(canvas).pixels@ == apply_ops(
            old(canvas).pixels@,
            old(canvas).width as nat,
            gauge_ops(cx as int, cy as int, percent as int, label@, dark),
        ),
{
    let ghost p0 = canvas.pixels@;
    let ghost wn = canvas.width as nat;
    let ghost w = canvas.width;
    let ghost h = canvas.height;
    let ghost track = gauge_track_ops(cx as int, cy as int, dark);
    let border = if dark { (80u8, 80u8, 80u8, 255u8) } else { (180u8, 180u8, 180u8, 255u8) };
    let primary = if dark { (255u8, 255u8, 255u8, 255u8) } else { (0u8, 0u8, 0u8, 255u8) };
    let secondary = if dark { (140u8, 140u8, 140u8, 255u8) } else { (100u8, 100u8, 100u8, 255u8) };
    proof {
        lemma_apply_take_ends(p0, wn, track);
    }
    let mut k: usize = 0;
    while k < 20
        invariant
            canvas.wf(),
            canvas.width == w,
            canvas.height == h,
            wn == w as nat,
            40 <= cx <= isize::MAX - 0x3000,
            40 <= cy <= isize::MAX - 0x3000,
            track == gauge_track_ops(cx as int, cy as int, dark),
            border == (if dark { (80u8, 80u8, 80u8, 255u8) } else { (180u8, 180u8, 180u8, 255u8) }),
            k <= 20,
            canvas.pixels@ == apply_ops(p0, wn, track.take(k as int)),
        decreases 20 - k,
    {
        let (ox, oy) = gauge_dot_offset(k);
        canvas.draw_circle(cx - 32 + ox, cy - 32 + oy, 3, border.0, border.1, border.2, border.3);
        proof { lemma_apply_take(p0, wn, track, k as int); }
        k = k + 1;
    }
    let ghost p1 = canvas.pixels@;
    let ghost fill = gauge_fill_ops(cx as int, cy as int, percent as int, dark);
    let filled: usize = if percent >= 100 { 20 } else { (percent / 5) as usize };
    proof {
        lemma_apply_take_ends(p1, wn, fill);
        assert(filled == gauge_filled(percent as int));
    }
    let mut k: usize = 0;
    while k < filled
        invariant
            canvas.wf(),
            canvas.width == w,
            canvas.height == h,
            wn == w as nat,
            40 <= cx <= isize::MAX - 0x3000,
            40 <= cy <= isize::MAX - 0x3000,
            fill == gauge_fill_ops(cx as int, cy as int, percent as int, dark),
            filled == gauge_filled(percent as int),
            filled <= 20,
            primary == (if dark { (255u8, 255u8, 255u8, 255u8) } else { (0u8, 0u8, 0u8, 255u8) }),
            k <= filled,
            canvas.pixels@ == apply_ops(p1, wn, fill.take(k as int)),
        decreases filled - k,
    {
        let (ox, oy) = gauge_dot_offset(k);
        canvas.draw_circle(cx - 32 + ox, cy - 32 + oy, 3, primary.0, primary.1, primary.2, primary.3);
        proof { lemma_apply_take(p1, wn, fill, k as int); }
        k = k + 1;
    }
    proof {
        lemma_then(p0, wn, track, fill, p1, canvas.pixels@);
    }
    let ghost p2 = canvas.pixels@;
    let value = gauge_value_chars(percent);
    let lw = str_chars(label);
    let ghost texts = seq![
        paint(text_shape(value@, cx - value@.len() * 11 / 2, cy - 6, 1, 1, 1), dash_primary(dark)),
        paint(text_shape(label@, cx - label@.len() * 11 / 2, cy + 44, 1, 1, 1), dash_secondary(dark)),
    ];
    proof {
        lemma_apply_take_ends(p2, wn, texts);
    }
    draw_label_chars(canvas, &value, cx - value.len() * 11 / 2, cy - 6, 1, 1, 1, primary.0, primary.1, primary.2, primary.3);
    proof { lemma_apply_take(p2, wn, texts, 0); }
    draw_label_chars(canvas, &lw, cx - lw.len() * 11 / 2, cy + 44, 1, 1, 1, secondary.0, secondary.1, secondary.2, secondary.3);
    proof {
        lemma_apply_take(p2, wn, texts, 1);
        lemma_then(p0, wn, track + fill, texts, p2, canvas.pixels@);
    }
}

fn draw_dash_sys(canvas: &mut NothingCanvas, state: &NothingUiState, x: usize, y: usize)
    requires
        tile_canvas(*old(canvas), x, y),
    ensures
        tile_canvas(*final(canvas), x, y),
        final(canvas).width == old(canvas).width,
        final(canvas).height == old(canvas).height,
        final(canvas).pixels@ == apply_ops(
            old(canvas).pixels@,
            old(canvas).width as nat,
            dash_sys_ops(*state, x as int, y as int),
        ),
{
    let ghost p0 = canvas.pixels@;
    let ghost wn = canvas.width as nat;
    let dark = state.dark_mode;
    let ghost head = tile_frame_ops(dark, x as int, y as int, seq!['S', 'Y', 'S']);
    let ghost cpu = gauge_ops(x + 48, y + 92, state.cpu_usage as int, seq!['C', 'P', 'U'], dark);
    let ghost ram = gauge_ops(x + 132, y + 92, state.mem_usage as int, seq!['R', 'A', 'M'], dark);
    proof {
        reveal_strlit("SYS");
        reveal_strlit("CPU");
        reveal_strlit("RAM");
        assert("SYS"@ =~= seq!['S', 'Y', 'S']);
        assert("CPU"@ =~= seq!['C', 'P', 'U']);
        assert("RAM"@ =~= seq!['R', 'A', 'M']);
    }
    draw_tile_frame(canvas, dark, x, y, "SYS");
    let ghost p1 = canvas.pixels@;
    draw_gauge(canvas, x + 48, y + 92, state.cpu_usage, "CPU", dark);
    proof { lemma_then(p0, wn, head, cpu, p1, canvas.pixels@); }
    let ghost p2 = canvas.pixels@;
    draw_gauge(canvas, x + 132, y + 92, state.mem_usage, "RAM", dark);
    proof { lemma_then(p0, wn, head + cpu, ram, p2, canvas.pixels@); }
}

/// The uptime line of the power tile (see `uptime_text`).
fn uptime_chars(uptime_secs: u64, hours_label: &str) -> (text: Vec<char>)
    requires
        uptime_secs >= 3600 ==> hours_label@.len() <= 64,
    ensures
        text@ == uptime_text(uptime_secs, hours_label@),
        text@.len() <= 64,
{
    let mut text: Vec<char> = Vec::new();
    if uptime_secs >= 3600 {
        push_str(&mut text, hours_label);
        assert(text@ =~= hours_label@);
    } else {
        push_str(&mut text, "UPT ");
        push_decimal(&mut text, uptime_secs / 60);
        push_str(&mut text, "M");
        proof {
            reveal_strlit("UPT ");
            reveal_strlit("M");
            lemma_decimal_len((uptime_secs / 60) as nat);
            assert(text@ =~= uptime_text(uptime_secs, hours_label@));
        }
    }
    text
}

/// The battery line of the power tile (see `battery_text`).
fn battery_chars(state: &NothingUiState) -> (text: Vec<char>)
    ensures
        text@ == battery_text(*state),
        text@.len() <= 9,
{
    let mut text: Vec<char> = Vec::new();
    push_str(&mut text, "BAT ");
    let bat_char = if state.battery_charging { "+" } else { "" };
    push_str(&mut text, bat_char);
    push_decimal(&mut text, state.battery_percentage as u64);
    push_str(&mut text, "%");
    proof {
        reveal_strlit("BAT ");
        reveal_strlit("+");
        reveal_strlit("");
        reveal_strlit("%");
        lemma_decimal_len(state.battery_percentage as nat);
        assert(text@ =~= battery_text(*state));
    }
    text
}

fn draw_dash_pwr(canvas: &mut NothingCanvas, state: &NothingUiState, x: usize, y: usize, hours_label: &str)
    requires
        tile_canvas(*old(canvas), x, y),
        state.uptime_secs >= 3600 ==> hours_label@.len() <= 64,
    ensures
        tile_canvas(*final(canvas), x, y),
        final(canvas).width == old(canvas).width,
        final(canvas).height == old(canvas).height,
        final(canvas).pixels@ == apply_ops(
            old(canvas).pixels@,
            old(canvas).width as nat,
            dash_pwr_ops(*state, x as int, y as int, hours_label@),
        ),
{
    let ghost p0 = canvas.pixels@;
    let ghost wn = canvas.width as nat;
    let dark = state.dark_mode;
    let ghost head = tile_frame_ops(dark, x as int, y as int, seq!['P', 'W', 'R']);
    let ghost rest = seq![
        paint(text_shape(battery_text(*state), x + 20, y + 60, 2, 1, 4), dash_primary(dark)),
        paint(text_shape(uptime_text(state.uptime_secs, hours_label@), x + 20, y + 110, 2, 1, 4), dash_primary(dark)),
    ];
    proof {
        reveal_strlit("PWR");
        assert("PWR"@ =~= seq!['P', 'W', 'R']);
    }
    draw_tile_frame(canvas, dark, x, y, "PWR");
    let ghost p1 = canvas.pixels@;
    proof { lemma_apply_take_ends(p1, wn, rest); }
    let primary = if dark { (255u8, 255u8, 255u8, 255u8) } else { (0u8, 0u8, 0u8, 255u8) };
    let bat_str = battery_chars(state);
    let upt_str = uptime_chars(state.uptime_secs, hours_label);
    draw_label_chars(canvas, &bat_str, x + 20, y + 60, 2, 1, 4, primary.0, primary.1, primary.2, primary.3);
    proof { lemma_apply_take(p1, wn, rest, 0); }
    draw_label_chars(canvas, &upt_str, x + 20, y + 110, 2, 1, 4, primary.0, primary.1, primary.2, primary.3);
    proof {
        lemma_apply_take(p1, wn, rest, 1);
        lemma_then(p0, wn, head, rest, p1, canvas.pixels@);
    }
}

/// `"ON"` or `"OFF"`.
fn on_off_str(on: bool) -> (s: &'static str)
    ensures
        s@ == on_off(on),
        s@.len() <= 3,
{
    let s = if on { "ON" } else { "OFF" };
    proof {
        reveal_strlit("ON");
        reveal_strlit("OFF");
        assert(s@ =~= on_off(on));
    }
    s
}

fn draw_dash_wifi(canvas: &mut NothingCanvas, state: &NothingUiState, x: usize, y: usize)
    requires
        tile_canvas(*old(canvas), x, y),
    ensures
        tile_canvas(*final(canvas), x, y),
        final(canvas).width == old(canvas).width,
        final(canvas).height == old(canvas).height,
        final(canvas).pixels@ == apply_ops(
            old(canvas).pixels@,
            old(canvas).width as nat,
            dash_wifi_ops(*state, x as int, y as int),
        ),
{
    let ghost p0 = canvas.pixels@;
    let ghost wn = canvas.width as nat;
    let dark = state.dark_mode;
    let ghost c = wifi_icon_color(state.wifi_enabled, dark);
    let ghost head = tile_frame_ops(dark, x as int, y as int, seq!['W', 'I', 'F', 'I']);
    let ghost rest = seq![
        paint(Shape::Disc { cx: x + 90, cy: y + 90, radius: 28 }, c),
        paint(Shape::Disc { cx: x + 90, cy: y + 90, radius: 24 }, dash_hole(dark)),
        paint(Shape::Disc { cx: x + 90, cy: y + 90, radius: 4 }, c),
        paint(text_shape(on_off(state.wifi_enabled), x + 90 - on_off(state.wifi_enabled).len() * 10 / 2, y + 145, 1, 1, 3), c),
    ];
    proof {
        reveal_strlit("WIFI");
        assert("WIFI"@ =~= seq!['W', 'I', 'F', 'I']);
    }
    draw_tile_frame(canvas, dark, x, y, "WIFI");
    let ghost p1 = canvas.pixels@;
    proof { lemma_apply_take_ends(p1, wn, rest); }
    let wifi_color = if state.wifi_enabled {
        if dark { (255u8, 255u8, 255u8) } else { (0u8, 0u8, 0u8) }
    } else {
        if dark { (80u8, 80u8, 80u8) } else { (180u8, 180u8, 180u8) }
    };
    let hole_color = if dark { (0u8, 0u8, 0u8) } else { (255u8, 255u8, 255u8) };
    canvas.draw_circle(x + 90, y + 90, 28, wifi_color.0, wifi_color.1, wifi_color.2, 255);
    proof { lemma_apply_take(p1, wn, rest, 0); }
    canvas.draw_circle(x + 90, y + 90, 24, hole_color.0, hole_color.1, hole_color.2, 255);
    proof { lemma_apply_take(p1, wn, rest, 1); }
    canvas.draw_circle(x + 90, y + 90, 4, wifi_color.0, wifi_color.1, wifi_color.2, 255);
    proof { lemma_apply_take(p1, wn, rest, 2); }
    let wifi_status = on_off_str(state.wifi_enabled);
    let wifi_text_x = x + 90 - (wifi_status.unicode_len() * 10) / 2;
    draw_label(canvas, wifi_status, wifi_text_x, y + 145, 1, 1, 3, wifi_color.0, wifi_color.1, wifi_color.2, 255);
    proof {
        lemma_apply_take(p1, wn, rest, 3);
        lemma_then(p0, wn, head, rest, p1, canvas.pixels@);
    }
}

fn draw_dash_dark(canvas: &mut NothingCanvas, state: &NothingUiState, x: usize, y: usize)
    requires
        tile_canvas(*old(canvas), x, y),
    ensures
        tile_canvas(*final(canvas), x, y),
        final(canvas).width == old(canvas).width,
        final(canvas).height == old(canvas).height,
        final(canvas).pixels@ == apply_ops(
            old(canvas).pixels@,
            old(canvas).width as nat,
            dash_dark_ops(*state, x as int, y as int),
        ),
{
    let ghost p0 = canvas.pixels@;
    let ghost wn = canvas.width as nat;
    let dark = state.dark_mode;
    let ghost white = Rgba { r: 255, g: 255, b: 255, a: 255 };
    let ghost black = Rgba { r: 0, g: 0, b: 0, a: 255 };
    let ghost head = tile_frame_ops(dark, x as int, y as int, seq!['D', 'A', 'R', 'K']);
    let ghost icon = if dark {
        seq![
            paint(Shape::Disc { cx: x + 90, cy: y + 90, radius: 24 }, white),
            paint(Shape::Disc { cx: x + 100, cy: y + 85, radius: 20 }, dash_hole(dark)),
        ]
    } else {
        seq![
            paint(Shape::Disc { cx: x + 90, cy: y + 90, radius: 14 }, black),
            paint(Shape::Disc { cx: x + 90, cy: y + 60, radius: 3 }, black),
            paint(Shape::Disc { cx: x + 90, cy: y + 120, radius: 3 }, black),
            paint(Shape::Disc { cx: x + 60, cy: y + 90, radius: 3 }, black),
            paint(Shape::Disc { cx: x + 120, cy: y + 90, radius: 3 }, black),
        ]
    };
    let ghost tail = seq![
        paint(text_shape(on_off(dark), x + 90 - on_off(dark).len() * 10 / 2, y + 145, 1, 1, 3), dark_status_color(dark)),
    ];
    proof {
        reveal_strlit("DARK");
        assert("DARK"@ =~= seq!['D', 'A', 'R', 'K']);
    }
    draw_tile_frame(canvas, dark, x, y, "DARK");
    let ghost p1 = canvas.pixels@;
    proof { lemma_apply_take_ends(p1, wn, icon); }
    let dark_color = if dark { (255u8, 255u8, 255u8) } else { (180u8, 180u8, 180u8) };
    let hole_color = if dark { (0u8, 0u8, 0u8) } else { (255u8, 255u8, 255u8) };
    if dark {
        canvas.draw_circle(x + 90, y + 90, 24, 255, 255, 255, 255);
        proof { lemma_apply_take(p1, wn, icon, 0); }
        canvas.draw_circle(x + 100, y + 85, 20, hole_color.0, hole_color.1, hole_color.2, 255);
        proof { lemma_apply_take(p1, wn, icon, 1); }
    } else {
        canvas.draw_circle(x + 90, y + 90, 14, 0, 0, 0, 255);
        proof { lemma_apply_take(p1, wn, icon, 0); }
        canvas.draw_circle(x + 90, y + 60, 3, 0, 0, 0, 255);
        proof { lemma_apply_take(p1, wn, icon, 1); }
        canvas.draw_circle(x + 90, y + 120, 3, 0, 0, 0, 255);
        proof { lemma_apply_take(p1, wn, icon, 2); }
        canvas.draw_circle(x + 60, y + 90, 3, 0, 0, 0, 255);
        proof { lemma_apply_take(p1, wn, icon, 3); }
        canvas.draw_circle(x + 120, y + 90, 3, 0, 0, 0, 255);
        proof { lemma_apply_take(p1, wn, icon, 4); }
    }
    proof { lemma_then(p0, wn, head, icon, p1, canvas.pixels@); }
    let ghost p2 = canvas.pixels@;
    proof { lemma_apply_take_ends(p2, wn, tail); }
    let dark_status = on_off_str(dark);
    let dark_text_x = x + 90 - (dark_status.unicode_len() * 10) / 2;
    draw_label(canvas, dark_status, dark_text_x, y + 145, 1, 1, 3, dark_color.0, dark_color.1, dark_color.2, 255);
    proof {
        lemma_apply_take(p2, wn, tail, 0);
        lemma_then(p0, wn, head + icon, tail, p2, canvas.pixels@);
    }
}

/// Draws the dashboard at the local time `t`; `hours_label` is the uptime
/// line shown from an hour of uptime on (see `uptime_text`).
pub fn render_dashboard_canvas_at(
    state: &NothingUiState,
    width: u32,
    height: u32,
    t: LocalTime,
    hours_label: &str,
) -> (canvas: NothingCanvas)
    requires
        dashboard_scene_size_ok(width, height),
        t.wf(),
        state.uptime_secs >= 3600 ==> hours_label_ok(hours_label@),
    ensures
        canvas.wf(),
        canvas.width == width,
        canvas.height == height,
        canvas.pixels@ == apply_ops(
            blank_pixels(width as int, height as int),
            width as nat,
            dashboard_scene_ops(*state, width, height, t, hours_label@),
        ),
{
    let w = width as usize;
    let h = height as usize;
    let ghost p0 = blank_pixels(w as int, h as int);
    let ghost wn = w as nat;
    let dark = state.dark_mode;
    let bg = if dark { (10u8, 10u8, 10u8, 217u8) } else { (240u8, 240u8, 240u8, 217u8) };
    let mut canvas = cleared_canvas(w, h, bg.0, bg.1, bg.2, bg.3);
    proof {
        lemma_canvas_dims(w as int, h as int, 379);
        lemma_canvas_dims_rows(w as int, h as int, 779);
    }
    let dx_offset = if width >= 780 { (width - 780) / 2 } else { 0 };
    let dy_offset = if height >= 380 { (height - 380) / 2 } else { 0 };
    let col0_x = dx_offset as usize;
    let col2_x = (dx_offset + 400) as usize;
    let col3_x = (dx_offset + 600) as usize;
    let row0_y = dy_offset as usize;
    let row1_y = (dy_offset + 200) as usize;
    proof {
        assert(col0_x == crate::state::dashboard_left(width));
        assert(row0_y == crate::state::dashboard_top(height));
    }
    let ghost x0 = col0_x as int;
    let ghost y0 = row0_y as int;
    let ghost d1 = seq![paint(Shape::All, dash_bg(dark))];
    let ghost p1 = canvas.pixels@;
    draw_dash_clock(&mut canvas, dark, col0_x, row0_y, t);
    proof { lemma_then(p0, wn, d1, dash_clock_ops(dark, x0, y0, t), p1, canvas.pixels@); }
    let ghost d2 = d1 + dash_clock_ops(dark, x0, y0, t);
    let ghost p2 = canvas.pixels@;
    draw_dash_sys(&mut canvas, state, col2_x, row0_y);
    proof { lemma_then(p0, wn, d2, dash_sys_ops(*state, x0 + 400, y0), p2, canvas.pixels@); }
    let ghost d3 = d2 + dash_sys_ops(*state, x0 + 400, y0);
    let ghost p3 = canvas.pixels@;
    draw_dash_pwr(&mut canvas, state, col2_x, row1_y, hours_label);
    proof { lemma_then(p0, wn, d3, dash_pwr_ops(*state, x0 + 400, y0 + 200, hours_label@), p3, canvas.pixels@); }
    let ghost d4 = d3 + dash_pwr_ops(*state, x0 + 400, y0 + 200, hours_label@);
    let ghost p4 = canvas.pixels@;
    draw_dash_wifi(&mut canvas, state, col3_x, row0_y);
    proof { lemma_then(p0, wn, d4, dash_wifi_ops(*state, x0 + 600, y0), p4, canvas.pixels@); }
    let ghost d5 = d4 + dash_wifi_ops(*state, x0 + 600, y0);
    let ghost p5 = canvas.pixels@;
    draw_dash_dark(&mut canvas, state, col3_x, row1_y);
    proof { lemma_then(p0, wn, d5, dash_dark_ops(*state, x0 + 600, y0 + 200), p5, canvas.pixels@); }
    canvas
}

/// Draws the dashboard at the current local time (see
/// `render_dashboard_canvas_at`).
pub fn render_dashboard_canvas(
    state: &NothingUiState,
    width: u32,
    height: u32,
    hours_label: &str,
) -> (canvas: NothingCanvas)
    requires
        dashboard_scene_size_ok(width, height),
        state.uptime_secs >= 3600 ==> hours_label_ok(hours_label@),
    ensures
        canvas.wf(),
        canvas.width == width,
        canvas.height == height,
        exists|t: LocalTime|
            t.wf() && canvas.pixels@ == apply_ops(
                blank_pixels(width as int, height as int),
                width as nat,
                #[trigger] dashboard_scene_ops(*state, width, height, t, hours_label@),
            ),
{
    let t = crate::clock::local_time_now();
    render_dashboard_canvas_at(state, width, height, t, hours_label)
}

/// The sizes on which the scene of overlay `mode` can be drawn.
pub open spec fn ui_size_ok(mode: UiMode, width: u32, height: u32) -> bool {
    match mode {
        UiMode::Desktop => desktop_size_ok(width, height),
        UiMode::Dashboard => dashboard_scene_size_ok(width, height),
        UiMode::AppLauncher => launcher_size_ok(width, height),
        UiMode::QuickSettings => desktop_size_ok(width, height),
    }
}

/// Whether the scene of overlay `mode` can be drawn on a `width` x
/// `height` screen (see `ui_size_ok`).
pub fn ui_size_fits(mode: UiMode, width: u32, height: u32) -> (ok: bool)
    ensures
        ok == ui_size_ok(mode, width, height),
{
    let w = width as u128;
    let h = height as u128;
    assert(w * h <= 0xffff_ffff * 0xffff_ffff) by (nonlinear_arith)
        requires w <= 0xffff_ffff, h <= 0xffff_ffff;
    let bytes_fit = w * h * 4 <= usize::MAX as u128;
    match mode {
        UiMode::Desktop => width >= 340 && height >= 66 && bytes_fit,
        UiMode::Dashboard => 779 <= width && width <= 0x7fff_ffff && 379 <= height && height <= 0x7fff_ffff
            && bytes_fit,
        UiMode::AppLauncher => width >= 500 && height >= 40 && bytes_fit,
        UiMode::QuickSettings => width >= 340 && height >= 66 && bytes_fit,
    }
}

/// The scene that the UI shows in its current overlay mode.
pub open spec fn ui_scene_ops(
    s: NothingUiState,
    mode: LayoutMode,
    width: u32,
    height: u32,
    t: LocalTime,
    arc: Seq<(usize, usize)>,
    hours_label: Seq<char>,
) -> Seq<DrawOp> {
    match s.ui_mode {
        UiMode::Desktop => desktop_scene_ops(s, mode, width as int, height as int, t, arc),
        UiMode::Dashboard => dashboard_scene_ops(s, width, height, t, hours_label),
        UiMode::AppLauncher => launcher_scene_ops(width as int, height as int),
        UiMode::QuickSettings => quick_settings_scene_ops(s, mode, width as int, height as int, t, arc),
    }
}

/// Draws the scene of the UI's current overlay mode at the local time `t`
/// (see `ui_scene_ops`).
pub fn render_ui_canvas_at(
    state: &NothingUiState,
    layout_mode: LayoutMode,
    width: u32,
    height: u32,
    t: LocalTime,
    battery_arc: &Vec<(usize, usize)>,
    hours_label: &str,
) -> (canvas: NothingCanvas)
    requires
        ui_size_ok(state.ui_mode, width, height),
        t.wf(),
        arc_ok(battery_arc@, width as int),
        state.uptime_secs >= 3600 ==> hours_label_ok(hours_label@),
    ensures
        canvas.wf(),
        canvas.width == width,
        canvas.height == height,
        canvas.pixels@ == apply_ops(
            blank_pixels(width as int, height as int),
            width as nat,
            ui_scene_ops(*state, layout_mode, width, height, t, battery_arc@, hours_label@),
        ),
{
    match state.ui_mode {
        UiMode::Desktop => render_desktop_canvas_at(state, layout_mode, width, height, t, battery_arc),
        UiMode::Dashboard => render_dashboard_canvas_at(state, width, height, t, hours_label),
        UiMode::AppLauncher => render_app_launcher_canvas(state, width, height),
        UiMode::QuickSettings => render_quick_settings_canvas_at(state, layout_mode, width, height, t, battery_arc),
    }
}

/// Draws the scene of the UI's current overlay mode at the current local
/// time (see `render_ui_canvas_at`).
pub fn render_ui_canvas(
    state: &NothingUiState,
    layout_mode: LayoutMode,
    width: u32,
    height: u32,
    battery_arc: &Vec<(usize, usize)>,
    hours_label: &str,
) -> (canvas: NothingCanvas)
    requires
        ui_size_ok(state.ui_mode, width, height),
        arc_ok(battery_arc@, width as int),
        state.uptime_secs >= 3600 ==> hours_label_ok(hours_label@),
    ensures
        canvas.wf(),
        canvas.width == width,
        canvas.height == height,
        exists|t: LocalTime|
            t.wf() && canvas.pixels@ == apply_ops(
                blank_pixels(width as int, height as int),
                width as nat,
                #[trigger] ui_scene_ops(*state, layout_mode, width, height, t, battery_arc@, hours_label@),
            ),
{
    let t = crate::clock::local_time_now();
    render_ui_canvas_at(state, layout_mode, width, height, t, battery_arc, hours_label)
}

/// The dashboard's toggle tiles are where its clicks land: in dashboard
/// mode, a click on any pixel of the Wi-Fi tile's card as the dashboard
/// draws it toggles Wi-Fi and nothing else, and a click on any pixel of the
/// dark-mode tile's card toggles dark mode and nothing else.
pub proof fn lemma_drawn_toggles_take_clicks(s: NothingUiState, width: u32, height: u32, x: int, y: int)
    requires
        s.ui_mode == UiMode::Dashboard,
    ensures
        in_shape(
            dash_wifi_ops(s, dashboard_left(width) + 600, dashboard_top(height))[0].shape,
            x,
            y,
        ) ==> click_outcome(s, x, y, width, height) == (NothingUiState { wifi_enabled: !s.wifi_enabled, ..s }, true),
        in_shape(
            dash_dark_ops(s, dashboard_left(width) + 600, dashboard_top(height) + 200)[0].shape,
            x,
            y,
        ) ==> click_outcome(s, x, y, width, height) == (NothingUiState { dark_mode: !s.dark_mode, ..s }, true),
{
}

/// The music widget shows track `music_track_index % 3` of its three-track
/// playlist: a track index and that index modulo 3 draw the same desktop
/// widgets on any buffer (see `draw_desktop_widgets`), the same desktop
/// scene, and so the same quick settings scene.
pub proof fn lemma_track_index_wraps(
    s: NothingUiState,
    mode: LayoutMode,
    width: int,
    height: int,
    t: LocalTime,
    arc: Seq<(usize, usize)>,
    pixels: Seq<u8>,
    w: nat,
)
    ensures
        apply_ops(pixels, w, desktop_widget_ops(s)) == apply_ops(
            pixels,
            w,
            desktop_widget_ops(NothingUiState { music_track_index: s.music_track_index % 3, ..s }),
        ),
        desktop_scene_ops(s, mode, width, height, t, arc) == desktop_scene_ops(
            NothingUiState { music_track_index: s.music_track_index % 3, ..s },
            mode,
            width,
            height,
            t,
            arc,
        ),
        quick_settings_scene_ops(s, mode, width, height, t, arc) == quick_settings_scene_ops(
            NothingUiState { music_track_index: s.music_track_index % 3, ..s },
            mode,
            width,
            height,
            t,
            arc,
        ),
{
    let s2 = NothingUiState { music_track_index: s.music_track_index % 3, ..s };
    assert(s2.music_track_index % 3 == s.music_track_index % 3);
    assert(music_widget_ops(s2) == music_widget_ops(s));
    assert(system_widget_ops(s2) == system_widget_ops(s));
    assert(top_bar_ops(s2, mode, width, 0, t, arc) == top_bar_ops(s, mode, width, 0, t, arc));
    assert(desktop_widget_ops(s2) == desktop_widget_ops(s));
    assert(tiles_ops(s2, width - 296, 4) == tiles_ops(s, width - 296, 4)) by {
        reveal_with_fuel(tiles_ops, 5);
    }
    assert(qs_panel_ops(s2, width) == qs_panel_ops(s, width));
}

/// A text's box, moved into a larger box.
proof fn lemma_text_in_box(
    text: Seq<char>,
    n: int,
    x: int,
    y: int,
    dot: int,
    spacing: int,
    char_spacing: int,
    bx: int,
    by: int,
    bw: int,
    bh: int,
)
    requires
        0 <= dot,
        0 <= spacing,
        0 <= char_spacing,
        text.len() <= n,
        bx <= x,
        by <= y,
        x + n * (5 * (dot + spacing) + char_spacing) <= bx + bw,
        y + 7 * (dot + spacing) <= by + bh,
    ensures
        within(text_shape(text, x, y, dot, spacing, char_spacing), bx, by, bw, bh),
{
    lemma_text_within(text, x, y, dot, spacing, char_spacing);
    assert(text.len() * (5 * (dot + spacing) + char_spacing) <= n * (5 * (dot + spacing) + char_spacing))
        by (nonlinear_arith)
        requires text.len() <= n, 0 <= dot, 0 <= spacing, 0 <= char_spacing;
    lemma_within_grow(
        text_shape(text, x, y, dot, spacing, char_spacing),
        x,
        y,
        text.len() * (5 * (dot + spacing) + char_spacing),
        7 * (dot + spacing),
        bx,
        by,
        bw,
        bh,
    );
}

/// The quick settings panel's card, header and close button stay on the
/// card.
proof fn lemma_qs_head_within(px: int)
    ensures
        all_within(qs_head_ops(px), px, 64, 280, 420),
{
    let ops = qs_head_ops(px);
    lemma_box_within(px, 64, 280, 420, 32, 1);
    lemma_text_in_box(
        seq!['N', 'O', 'T', 'H', 'I', 'N', 'G', ' ', 'S', 'Y', 'S', 'T', 'E', 'M'],
        14,
        px + 24,
        88,
        1,
        1,
        2,
        px,
        64,
        280,
        420,
    );
    lemma_disc_within(px + 250, 92, 10, 0);
    lemma_within_grow(Shape::Disc { cx: px + 250, cy: 92, radius: 10 }, px + 240, 82, 21, 21, px, 64, 280, 420);
    lemma_text_in_box(seq!['X'], 1, px + 247, 88, 1, 1, 0, px, 64, 280, 420);
    assert forall|k: int| 0 <= k < ops.len() implies within(#[trigger] ops[k].shape, px, 64, 280, 420) by {}
}

/// A toggle tile with a label of at most six characters stays within the
/// panel when its 100 x 100 box does.
proof fn lemma_tile_within(name: Seq<char>, active: bool, tx: int, ty: int, px: int)
    requires
        name.len() <= 6,
        px <= tx,
        tx + 100 <= px + 280,
        64 <= ty,
        ty + 100 <= 484,
    ensures
        all_within(tile_ops(name, active, tx, ty), px, 64, 280, 420),
{
    let ops = tile_ops(name, active, tx, ty);
    lemma_box_within(tx, ty, 100, 100, 20, 1);
    lemma_within_grow(Shape::RoundedRect { x: tx, y: ty, w: 100, h: 100, radius: 20 }, tx, ty, 100, 100, px, 64, 280, 420);
    lemma_within_grow(
        Shape::RoundedBorder { x: tx, y: ty, w: 100, h: 100, radius: 20, thickness: 1 },
        tx,
        ty,
        100,
        100,
        px,
        64,
        280,
        420,
    );
    lemma_text_in_box(name, 6, tx + 12, ty + 76, 1, 1, 2, px, 64, 280, 420);
    assert forall|k: int| 0 <= k < ops.len() implies within(#[trigger] ops[k].shape, px, 64, 280, 420) by {}
}

/// The first `n` toggle tiles stay within the panel.
proof fn lemma_tiles_within(s: NothingUiState, px: int, n: int)
    requires
        0 <= n <= 4,
    ensures
        all_within(tiles_ops(s, px, n), px, 64, 280, 420),
    decreases n,
{
    if n > 0 {
        let i = n - 1;
        lemma_tiles_within(s, px, n - 1);
        let tx = px + 24 + (i % 2) * 112;
        let ty = 124 + (i / 2) * 112;
        assert(0 <= (i % 2) * 112 <= 112 && 0 <= (i / 2) * 112 <= 112) by {
            if i == 0 {
            } else if i == 1 {
            } else if i == 2 {
            } else {
            }
        }
        assert(qs_toggle(s, i).0.len() <= 6);
        lemma_tile_within(qs_toggle(s, i).0, qs_toggle(s, i).1, tx, ty, px);
        lemma_all_within_concat(tiles_ops(s, px, n - 1), tile_ops(qs_toggle(s, i).0, qs_toggle(s, i).1, tx, ty), px, 64, 280, 420);
    } else {
        assert(all_within(tiles_ops(s, px, n), px, 64, 280, 420));
    }
}

/// A 232-pixel slider's filled part at up to 110% stays within 256 pixels.
proof fn lemma_fill_within(x: int, y: int, percent: int)
    requires
        0 <= percent <= 110,
    ensures
        all_within(usage_fill_ops(x, y, 232, percent), x, y, 256, 6),
{
    let fill = bar_fill(232, percent);
    assert(0 <= fill <= 255) by (nonlinear_arith)
        requires fill == 232 * percent / 100, 0 <= percent <= 110;
    let ops = usage_fill_ops(x, y, 232, percent);
    if fill > 0 {
        let fw = if fill > 6 { fill } else { 6 };
        lemma_box_within(x, y, fw, 6, 3, 0);
        lemma_within_grow(Shape::RoundedRect { x, y, w: fw, h: 6, radius: 3 }, x, y, fw, 6, x, y, 256, 6);
    }
    assert forall|k: int| 0 <= k < ops.len() implies within(#[trigger] ops[k].shape, x, y, 256, 6) by {}
}

/// The sliders and the build line stay within the panel while volume and
/// brightness are at most 110.
proof fn lemma_qs_sliders_within(s: NothingUiState, px: int)
    requires
        s.volume <= 110,
        s.brightness <= 110,
    ensures
        all_within(qs_slider_ops(s, px), px, 64, 280, 420),
{
    let a = seq![
        op(text_shape(seq!['V', 'O', 'L', 'U', 'M', 'E'], px + 24, 364, 1, 0, 1), 160, 160, 160, 255),
        op(Shape::RoundedRect { x: px + 24, y: 380, w: 232, h: 6, radius: 3 }, 30, 30, 30, 255),
    ];
    let b = usage_fill_ops(px + 24, 380, 232, s.volume as int);
    let c = seq![
        op(text_shape(seq!['B', 'R', 'I', 'G', 'H', 'T', 'N', 'E', 'S', 'S'], px + 24, 400, 1, 0, 1), 160, 160, 160, 255),
        op(Shape::RoundedRect { x: px + 24, y: 416, w: 232, h: 6, radius: 3 }, 30, 30, 30, 255),
    ];
    let d = usage_fill_ops(px + 24, 416, 232, s.brightness as int);
    let e = seq![
        op(text_shape(seq!['B', 'U', 'I', 'L', 'D', ' ', 'V', '0', '.', '1', '.', '0'], px + 70, 460, 1, 0, 1), 80, 80, 80, 255),
    ];
    lemma_text_in_box(seq!['V', 'O', 'L', 'U', 'M', 'E'], 6, px + 24, 364, 1, 0, 1, px, 64, 280, 420);
    lemma_box_within(px + 24, 380, 232, 6, 3, 0);
    lemma_within_grow(Shape::RoundedRect { x: px + 24, y: 380, w: 232, h: 6, radius: 3 }, px + 24, 380, 232, 6, px, 64, 280, 420);
    assert forall|k: int| 0 <= k < a.len() implies within(#[trigger] a[k].shape, px, 64, 280, 420) by {}
    lemma_text_in_box(seq!['B', 'R', 'I', 'G', 'H', 'T', 'N', 'E', 'S', 'S'], 10, px + 24, 400, 1, 0, 1, px, 64, 280, 420);
    lemma_box_within(px + 24, 416, 232, 6, 3, 0);
    lemma_within_grow(Shape::RoundedRect { x: px + 24, y: 416, w: 232, h: 6, radius: 3 }, px + 24, 416, 232, 6, px, 64, 280, 420);
    assert forall|k: int| 0 <= k < c.len() implies within(#[trigger] c[k].shape, px, 64, 280, 420) by {}
    lemma_text_in_box(seq!['B', 'U', 'I', 'L', 'D', ' ', 'V', '0', '.', '1', '.', '0'], 12, px + 70, 460, 1, 0, 1, px, 64, 280, 420);
    assert forall|k: int| 0 <= k < e.len() implies within(#[trigger] e[k].shape, px, 64, 280, 420) by {}
    lemma_fill_within(px + 24, 380, s.volume as int);
    lemma_fill_within(px + 24, 416, s.brightness as int);
    assert forall|k: int| 0 <= k < b.len() implies within(#[trigger] b[k].shape, px, 64, 280, 420) by {
        lemma_within_grow(b[k].shape, px + 24, 380, 256, 6, px, 64, 280, 420);
    }
    assert forall|k: int| 0 <= k < d.len() implies within(#[trigger] d[k].shape, px, 64, 280, 420) by {
        lemma_within_grow(d[k].shape, px + 24, 416, 256, 6, px, 64, 280, 420);
    }
    lemma_all_within_concat(a, b, px, 64, 280, 420);
    lemma_all_within_concat(a + b, c, px, 64, 280, 420);
    lemma_all_within_concat(a + b + c, d, px, 64, 280, 420);
    lemma_all_within_concat(a + b + c + d, e, px, 64, 280, 420);
    assert(qs_slider_ops(s, px) == a + b + c + d + e);
}

/// The quick settings panel is an overlay on the desktop: while volume and
/// brightness are at most 110, every pixel outside the panel's 280 x 420
/// card (16 pixels from the right edge, 64 from the top) shows exactly
/// what the desktop scene shows there. (From 111 on, the slider bars reach
/// the card's right edge and beyond.)
pub proof fn lemma_quick_settings_over_desktop(
    s: NothingUiState,
    mode: LayoutMode,
    width: int,
    height: int,
    t: LocalTime,
    arc: Seq<(usize, usize)>,
)
    requires
        s.volume <= 110,
        s.brightness <= 110,
    ensures
        ({
            let w = width as nat;
            let desktop = apply_ops(blank_pixels(width, height), w, desktop_scene_ops(s, mode, width, height, t, arc));
            let qs = apply_ops(blank_pixels(width, height), w, quick_settings_scene_ops(s, mode, width, height, t, arc));
            &&& qs.len() == desktop.len()
            &&& forall|i: int|
                0 <= i < desktop.len() && !(width - 296 <= byte_px(i, w as int) < width - 16 && 64 <= byte_py(i, w as int)
                    < 484) ==> #[trigger] qs[i] == desktop[i]
        }),
{
    let w = width as nat;
    let px = width - 296;
    let p0 = blank_pixels(width, height);
    let dops = desktop_scene_ops(s, mode, width, height, t, arc);
    let panel = qs_panel_ops(s, width);
    lemma_qs_head_within(px);
    lemma_tiles_within(s, px, 4);
    lemma_qs_sliders_within(s, px);
    lemma_all_within_concat(qs_head_ops(px), tiles_ops(s, px, 4), px, 64, 280, 420);
    lemma_all_within_concat(qs_head_ops(px) + tiles_ops(s, px, 4), qs_slider_ops(s, px), px, 64, 280, 420);
    crate::shapes::lemma_apply_ops_concat(p0, w, dops, panel);
    let desktop = apply_ops(p0, w, dops);
    lemma_ops_keep_outside(desktop, w, panel, px, 64, 280, 420);
}

/// The status bar names the layout mode it shows: the desktop scene draws
/// the layout indicator, in the pill 280 pixels from the right edge, as the
/// text `TILE` in the tiled layout and `FLOAT` in the floating one, and the
/// two texts differ.
pub proof fn lemma_status_bar_names_layout(
    s: NothingUiState,
    mode: LayoutMode,
    width: int,
    height: int,
    t: LocalTime,
    arc: Seq<(usize, usize)>,
)
    ensures
        exists|k: int|
            0 <= k < desktop_scene_ops(s, mode, width, height, t, arc).len() && #[trigger] desktop_scene_ops(
                s,
                mode,
                width,
                height,
                t,
                arc,
            )[k] == op(
                text_shape(
                    if mode == LayoutMode::MasterStack {
                        seq!['T', 'I', 'L', 'E']
                    } else {
                        seq!['F', 'L', 'O', 'A', 'T']
                    },
                    width - 272,
                    21,
                    1,
                    1,
                    2,
                ),
                200,
                200,
                200,
                255,
            ),
        layout_label(LayoutMode::MasterStack) != layout_label(LayoutMode::Floating),
{
    let a = seq![op(Shape::All, 0, 0, 0, 0)] + bar_panel_ops(width, 0, s.frame_count) + workspace_dot_ops(s, 24)
        + bar_clock_ops(width, 24, t);
    let b = bar_status_ops(width, 24, mode, s.wifi_enabled);
    let ops = desktop_scene_ops(s, mode, width, height, t, arc);
    let k = a.len() as int + 2;
    assert(ops =~= a + b + arc_ops(arc) + bar_tail_ops(width, 24, s.battery_percentage) + desktop_widget_ops(s)
        + dock_ops(width, height));
    assert(ops[k] == b[2]);
    assert(seq!['T', 'I', 'L', 'E'].len() != seq!['F', 'L', 'O', 'A', 'T'].len());
}

/// The dashboard's Wi-Fi tile tells the Wi-Fi state: it shows `ON` while
/// Wi-Fi is enabled and `OFF` while it is not, centred 90 pixels into the
/// tile and 145 below its top.
pub proof fn lemma_wifi_tile_shows_state(s: NothingUiState, width: u32, height: u32, t: LocalTime, hours_label: Seq<char>)
    ensures
        ({
            let x = dashboard_left(width) + 600;
            let y = dashboard_top(height);
            let text = if s.wifi_enabled {
                seq!['O', 'N']
            } else {
                seq!['O', 'F', 'F']
            };
            exists|k: int|
                0 <= k < dashboard_scene_ops(s, width, height, t, hours_label).len() && #[trigger] dashboard_scene_ops(
                    s,
                    width,
                    height,
                    t,
                    hours_label,
                )[k] == paint(
                    text_shape(text, x + 90 - text.len() * 10 / 2, y + 145, 1, 1, 3),
                    wifi_icon_color(s.wifi_enabled, s.dark_mode),
                )
        }),
{
    let x0 = dashboard_left(width);
    let y0 = dashboard_top(height);
    let a = seq![paint(Shape::All, dash_bg(s.dark_mode))] + dash_clock_ops(s.dark_mode, x0, y0, t) + dash_sys_ops(
        s,
        x0 + 400,
        y0,
    ) + dash_pwr_ops(s, x0 + 400, y0 + 200, hours_label);
    let b = dash_wifi_ops(s, x0 + 600, y0);
    let ops = dashboard_scene_ops(s, width, height, t, hours_label);
    assert(ops =~= a + b + dash_dark_ops(s, x0 + 600, y0 + 200));
    let k = a.len() as int + 6;
    assert(ops[k] == b[6]);
}

/// The card of a quick settings tile and its label: solid white with a
/// black label when the setting is on, faint with a grey label when off.
pub open spec fn qs_tile_drawn(ops: Seq<DrawOp>, name: Seq<char>, on: bool, tx: int, ty: int) -> bool {
    exists|k: int|
        0 <= k && k + 2 < ops.len() && #[trigger] ops[k] == op(
            Shape::RoundedRect { x: tx, y: ty, w: 100, h: 100, radius: 20 },
            255,
            255,
            255,
            if on {
                255
            } else {
                13
            },
        ) && ops[if on {
            k + 1
        } else {
            k + 2
        }] == (if on {
            op(text_shape(name, tx + 12, ty + 76, 1, 1, 2), 0, 0, 0, 255)
        } else {
            op(text_shape(name, tx + 12, ty + 76, 1, 1, 2), 160, 160, 160, 255)
        })
}

/// Each quick settings toggle shows the setting it is labelled with: the
/// tile labelled `WIFI` (top left of the panel) is on exactly when Wi-Fi is
/// enabled, and the tile labelled `BT` (top right) exactly when Bluetooth
/// is.
#[verifier::spinoff_prover]
#[verifier::rlimit(40)]
pub proof fn lemma_qs_toggles_show_their_settings(
    s: NothingUiState,
    mode: LayoutMode,
    width: int,
    height: int,
    t: LocalTime,
    arc: Seq<(usize, usize)>,
)
    ensures
        qs_tile_drawn(
            quick_settings_scene_ops(s, mode, width, height, t, arc),
            seq!['W', 'I', 'F', 'I'],
            s.wifi_enabled,
            width - 296 + 24,
            124,
        ),
        qs_tile_drawn(
            quick_settings_scene_ops(s, mode, width, height, t, arc),
            seq!['B', 'T'],
            s.bluetooth_enabled,
            width - 296 + 136,
            124,
        ),
{
    let px = width - 296;
    let dd = desktop_scene_ops(s, mode, width, height, t, arc);
    let d = dd + qs_head_ops(px);
    let tiles = tiles_ops(s, px, 4);
    let t0 = tile_ops(qs_toggle(s, 0).0, qs_toggle(s, 0).1, px + 24, 124);
    let t1 = tile_ops(qs_toggle(s, 1).0, qs_toggle(s, 1).1, px + 136, 124);
    let rest = tiles.subrange((t0.len() + t1.len()) as int, tiles.len() as int);
    assert(tiles =~= t0 + t1 + rest) by {
        reveal_with_fuel(tiles_ops, 5);
        assert(tiles_ops(s, px, 2) =~= t0 + t1) by {
            reveal_with_fuel(tiles_ops, 3);
        }
        assert(tiles =~= tiles_ops(s, px, 2) + tiles.subrange(tiles_ops(s, px, 2).len() as int, tiles.len() as int));
    }
    let ops = quick_settings_scene_ops(s, mode, width, height, t, arc);
    assert(ops =~= d + t0 + t1 + rest + qs_slider_ops(s, px)) by {
        assert(ops == dd + (qs_head_ops(px) + tiles + qs_slider_ops(s, px)));
    }
    assert(qs_toggle(s, 0) == (seq!['W', 'I', 'F', 'I'], s.wifi_enabled));
    assert(qs_toggle(s, 1) == (seq!['B', 'T'], s.bluetooth_enabled));
    let k0 = d.len() as int;
    let k1 = (d.len() + t0.len()) as int;
    assert(ops[k0] == t0[0] && ops[k0 + 1] == t0[1]);
    if !s.wifi_enabled {
        assert(ops[k0 + 2] == t0[2]);
    }
    assert(ops[k1] == t1[0] && ops[k1 + 1] == t1[1]);
    if !s.bluetooth_enabled {
        assert(ops[k1 + 2] == t1[2]);
    }
    assert(k1 + 2 < ops.len());
}

/// The app launcher's cards pair each app's name with its icon letter: the
/// first card shows `T` and `TERMINAL`, the second `A` and `MONITOR`, the
/// third `F` and `FILES`, the fourth `S` and `SETTINGS`, left to right
/// from the centred grid's left edge, 100 pixels apart.
pub proof fn lemma_launcher_cards_match_icons(width: int, height: int)
    ensures
        ({
            let ops = launcher_scene_ops(width, height);
            let gx = (width - 400) / 2 + 10;
            &&& exists|k: int|
                0 <= k && k + 1 < ops.len() && #[trigger] ops[k] == op(text_shape(seq!['T'], gx + 37, 251, 1, 1, 0), 255, 255, 255, 255)
                    && ops[k + 1] == op(
                    text_shape(seq!['T', 'E', 'R', 'M', 'I', 'N', 'A', 'L'], gx + 40 - 8 * 7 / 2, 290, 1, 0, 1),
                    255,
                    255,
                    255,
                    200,
                )
            &&& exists|k: int|
                0 <= k && k + 1 < ops.len() && #[trigger] ops[k] == op(text_shape(seq!['A'], gx + 100 + 37, 251, 1, 1, 0), 255, 255, 255, 255)
                    && ops[k + 1] == op(
                    text_shape(seq!['M', 'O', 'N', 'I', 'T', 'O', 'R'], gx + 100 + 40 - 7 * 7 / 2, 290, 1, 0, 1),
                    255,
                    255,
                    255,
                    200,
                )
            &&& exists|k: int|
                0 <= k && k + 1 < ops.len() && #[trigger] ops[k] == op(text_shape(seq!['F'], gx + 200 + 37, 251, 1, 1, 0), 255, 255, 255, 255)
                    && ops[k + 1] == op(
                    text_shape(seq!['F', 'I', 'L', 'E', 'S'], gx + 200 + 40 - 5 * 7 / 2, 290, 1, 0, 1),
                    255,
                    255,
                    255,
                    200,
                )
            &&& exists|k: int|
                0 <= k && k + 1 < ops.len() && #[trigger] ops[k] == op(text_shape(seq!['S'], gx + 300 + 37, 251, 1, 1, 0), 255, 255, 255, 255)
                    && ops[k + 1] == op(
                    text_shape(seq!['S', 'E', 'T', 'T', 'I', 'N', 'G', 'S'], gx + 300 + 40 - 8 * 7 / 2, 290, 1, 0, 1),
                    255,
                    255,
                    255,
                    200,
                )
        }),
{
    let ops = launcher_scene_ops(width, height);
    let head = seq![op(Shape::All, 0, 0, 0, 204)] + launcher_head_ops(width);
    let cards = launcher_card_ops(width);
    assert(ops =~= head + cards + seq![
        op(text_shape(seq!['V', '0', '.', '1', '.', '0', '-', 'S', 'M', 'I', 'T', 'H', 'A', 'Y', '-', 'R', 'U', 'S', 'T'], width / 2 - 80, height - 40, 1, 0, 1), 80, 80, 80, 255),
    ]);
    let h = head.len() as int;
    assert(h == 7);
    assert(ops[h + 3] == cards[3] && ops[h + 4] == cards[4]);
    assert(ops[h + 8] == cards[8] && ops[h + 9] == cards[9]);
    assert(ops[h + 13] == cards[13] && ops[h + 14] == cards[14]);
    assert(ops[h + 18] == cards[18] && ops[h + 19] == cards[19]);
    assert(8int / 5 == 1 && 8int % 5 == 3 && 9int / 5 == 1 && 9int % 5 == 4);
    assert(13int / 5 == 2 && 13int % 5 == 3 && 14int / 5 == 2 && 14int % 5 == 4);
    assert(18int / 5 == 3 && 18int % 5 == 3 && 19int / 5 == 3 && 19int % 5 == 4);
    assert(seq!['T', 'E', 'R', 'M', 'I', 'N', 'A', 'L'].len() == 8);
    assert(seq!['M', 'O', 'N', 'I', 'T', 'O', 'R'].len() == 7);
    assert(seq!['F', 'I', 'L', 'E', 'S'].len() == 5);
    assert(seq!['S', 'E', 'T', 'T', 'I', 'N', 'G', 'S'].len() == 8);
}

/// The dashboard's dark-mode tile tells the theme: it shows `ON` while dark
/// mode is on and `OFF` while it is off, centred 90 pixels into the tile
/// and 145 below its top.
pub proof fn lemma_dark_tile_shows_state(s: NothingUiState, width: u32, height: u32, t: LocalTime, hours_label: Seq<char>)
    ensures
        ({
            let x = dashboard_left(width) + 600;
            let y = dashboard_top(height) + 200;
            let text = if s.dark_mode {
                seq!['O', 'N']
            } else {
                seq!['O', 'F', 'F']
            };
            exists|k: int|
                0 <= k < dashboard_scene_ops(s, width, height, t, hours_label).len() && #[trigger] dashboard_scene_ops(
                    s,
                    width,
                    height,
                    t,
                    hours_label,
                )[k] == paint(
                    text_shape(text, x + 90 - text.len() * 10 / 2, y + 145, 1, 1, 3),
                    dark_status_color(s.dark_mode),
                )
        }),
{
    let x0 = dashboard_left(width);
    let y0 = dashboard_top(height);
    let a = seq![paint(Shape::All, dash_bg(s.dark_mode))] + dash_clock_ops(s.dark_mode, x0, y0, t) + dash_sys_ops(
        s,
        x0 + 400,
        y0,
    ) + dash_pwr_ops(s, x0 + 400, y0 + 200, hours_label) + dash_wifi_ops(s, x0 + 600, y0);
    let b = dash_dark_ops(s, x0 + 600, y0 + 200);
    let ops = dashboard_scene_ops(s, width, height, t, hours_label);
    assert(ops =~= a + b);
    let k = (a.len() + b.len() - 1) as int;
    assert(ops[k] == b[b.len() - 1]);
}

/// The status bar's date names the month: January to December read `JAN`,
/// `FEB`, `MAR`, `APR`, `MAY`, `JUN`, `JUL`, `AUG`, `SEP`, `OCT`, `NOV`,
/// `DEC`.
pub proof fn lemma_month_names()
    ensures
        month_name(1) == seq!['J', 'A', 'N'],
        month_name(2) == seq!['F', 'E', 'B'],
        month_name(3) == seq!['M', 'A', 'R'],
        month_name(4) == seq!['A', 'P', 'R'],
        month_name(5) == seq!['M', 'A', 'Y'],
        month_name(6) == seq!['J', 'U', 'N'],
        month_name(7) == seq!['J', 'U', 'L'],
        month_name(8) == seq!['A', 'U', 'G'],
        month_name(9) == seq!['S', 'E', 'P'],
        month_name(10) == seq!['O', 'C', 'T'],
        month_name(11) == seq!['N', 'O', 'V'],
        month_name(12) == seq!['D', 'E', 'C'],
{
}

/// The status bar's clock reads back as the time it shows: its first two
/// characters are the hour and its last two the minute, in decimal, around
/// a colon.
pub proof fn lemma_clock_reads_back(t: LocalTime)
    requires
        t.wf(),
    ensures
        clock_text(t).len() == 5,
        clock_text(t)[2] == ':',
        crate::stats::digits_value(clock_text(t).subrange(0, 2)) == t.hour,
        crate::stats::digits_value(clock_text(t).subrange(3, 5)) == t.minute,
{
    crate::stats::lemma_two_digits_reads_back(t.hour as nat);
    crate::stats::lemma_two_digits_reads_back(t.minute as nat);
    assert(clock_text(t).subrange(0, 2) =~= two_digits(t.hour as nat));
    assert(clock_text(t).subrange(3, 5) =~= two_digits(t.minute as nat));
}

/// The status bar marks the active workspace: of its four dots, 16 pixels
/// apart from x = 170, the dot of workspace `i + 1` is drawn opaque exactly
/// when that workspace is active, and faint otherwise.
pub proof fn lemma_active_workspace_dot(
    s: NothingUiState,
    mode: LayoutMode,
    width: int,
    height: int,
    t: LocalTime,
    arc: Seq<(usize, usize)>,
    i: int,
)
    requires
        0 <= i < 4,
    ensures
        exists|k: int|
            0 <= k < desktop_scene_ops(s, mode, width, height, t, arc).len() && #[trigger] desktop_scene_ops(
                s,
                mode,
                width,
                height,
                t,
                arc,
            )[k] == op(
                Shape::Disc { cx: 170 + 16 * i, cy: 24, radius: 4 },
                255,
                255,
                255,
                if s.active_workspace == i + 1 {
                    255
                } else {
                    50
                },
            ),
{
    let a = seq![op(Shape::All, 0, 0, 0, 0)] + bar_panel_ops(width, 0, s.frame_count);
    let b = workspace_dot_ops(s, 24);
    let ops = desktop_scene_ops(s, mode, width, height, t, arc);
    assert(ops =~= a + b + bar_clock_ops(width, 24, t) + bar_status_ops(width, 24, mode, s.wifi_enabled) + arc_ops(arc)
        + bar_tail_ops(width, 24, s.battery_percentage) + desktop_widget_ops(s) + dock_ops(width, height));
    let k = a.len() as int + i;
    assert(ops[k] == b[i]);
}

/// The power tile's battery line reads back as the battery state: `BAT `,
/// then `+` exactly while charging, then the charge in decimal and `%`.
pub proof fn lemma_battery_text_reads_back(s: NothingUiState)
    ensures
        ({
            let text = battery_text(s);
            let start = if s.battery_charging {
                5int
            } else {
                4int
            };
            &&& text.take(4) == seq!['B', 'A', 'T', ' ']
            &&& (text[4] == '+' <==> s.battery_charging)
            &&& text[text.len() - 1] == '%'
            &&& crate::stats::all_digits(text.subrange(start, text.len() - 1))
            &&& crate::stats::digits_value(text.subrange(start, text.len() - 1)) == s.battery_percentage
        }),
{
    let text = battery_text(s);
    let digits = decimal(s.battery_percentage as nat);
    crate::stats::lemma_decimal_reads_back(s.battery_percentage as nat);
    let start = if s.battery_charging { 5int } else { 4int };
    assert(text.subrange(start, text.len() - 1) =~= digits);
    assert(text.take(4) =~= seq!['B', 'A', 'T', ' ']);
    if !s.battery_charging {
        assert(text[4] == digits[0]);
        assert('0' <= digits[0] <= '9');
    }
}

} // verus!
