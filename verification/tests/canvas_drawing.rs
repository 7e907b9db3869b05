use nothing_de::canvas::NothingCanvas;

fn pixel(c: &NothingCanvas, x: usize, y: usize) -> [u8; 4] {
    let i = (y * c.width + x) * 4;
    [c.pixels[i], c.pixels[i + 1], c.pixels[i + 2], c.pixels[i + 3]]
}

fn painted(c: &NothingCanvas, x: usize, y: usize) -> bool {
    pixel(c, x, y) != [0, 0, 0, 0]
}

fn painted_count(c: &NothingCanvas) -> usize {
    let mut n = 0;
    for y in 0..c.height {
        for x in 0..c.width {
            if painted(c, x, y) {
                n += 1;
            }
        }
    }
    n
}

#[test]
fn new_canvas_is_transparent_black() {
    let c = NothingCanvas::new(3, 2);
    assert_eq!(c.width, 3);
    assert_eq!(c.height, 2);
    assert_eq!(c.pixels.len(), 24);
    assert!(c.pixels.iter().all(|b| *b == 0));
}

#[test]
fn set_pixel_stores_bgra() {
    let mut c = NothingCanvas::new(3, 2);
    c.set_pixel(1, 1, 10, 20, 30, 40);
    assert_eq!(pixel(&c, 1, 1), [30, 20, 10, 40]);
    assert_eq!(painted_count(&c), 1);
}

#[test]
fn set_pixel_outside_changes_nothing() {
    let mut c = NothingCanvas::new(3, 2);
    c.set_pixel(3, 0, 1, 1, 1, 1);
    c.set_pixel(0, 2, 1, 1, 1, 1);
    c.set_pixel(usize::MAX, usize::MAX, 1, 1, 1, 1);
    assert!(c.pixels.iter().all(|b| *b == 0));
}

#[test]
fn clear_paints_every_pixel() {
    let mut c = NothingCanvas::new(4, 3);
    c.clear(1, 2, 3, 4);
    for y in 0..3 {
        for x in 0..4 {
            assert_eq!(pixel(&c, x, y), [3, 2, 1, 4]);
        }
    }
}

#[test]
fn draw_rect_covers_its_area_only() {
    let mut c = NothingCanvas::new(5, 5);
    c.draw_rect(1, 2, 3, 2, 255, 0, 0, 255);
    for y in 0..5 {
        for x in 0..5 {
            let inside = (1..4).contains(&x) && (2..4).contains(&y);
            assert_eq!(painted(&c, x, y), inside, "pixel ({}, {})", x, y);
            if inside {
                assert_eq!(pixel(&c, x, y), [0, 0, 255, 255]);
            }
        }
    }
}

#[test]
fn draw_rect_is_clipped_at_the_edges() {
    let mut c = NothingCanvas::new(4, 4);
    c.draw_rect(2, 2, 10, 10, 9, 9, 9, 9);
    assert_eq!(painted_count(&c), 4);
    assert!(painted(&c, 3, 3));
    assert!(!painted(&c, 1, 3));
}

#[test]
fn draw_rect_of_zero_size_draws_nothing() {
    let mut c = NothingCanvas::new(4, 4);
    c.draw_rect(1, 1, 0, 3, 9, 9, 9, 9);
    c.draw_rect(1, 1, 3, 0, 9, 9, 9, 9);
    assert_eq!(painted_count(&c), 0);
}

#[test]
fn draw_rounded_rect_cuts_the_corners() {
    let mut c = NothingCanvas::new(10, 10);
    c.draw_rounded_rect(0, 0, 10, 10, 4, 200, 200, 200, 255);
    assert!(!painted(&c, 0, 0));
    assert!(!painted(&c, 1, 1));
    assert!(!painted(&c, 3, 0));
    assert!(painted(&c, 4, 0));
    assert!(painted(&c, 2, 2));
    assert!(painted(&c, 5, 5));
    assert!(!painted(&c, 9, 9));
    assert!(painted(&c, 9, 5));
    assert!(!painted(&c, 0, 9));
    assert!(!painted(&c, 9, 0));
}

#[test]
fn draw_rounded_rect_without_radius_is_a_rect() {
    let mut a = NothingCanvas::new(6, 6);
    let mut b = NothingCanvas::new(6, 6);
    a.draw_rounded_rect(1, 1, 4, 3, 0, 5, 6, 7, 8);
    b.draw_rect(1, 1, 4, 3, 5, 6, 7, 8);
    assert_eq!(a.pixels, b.pixels);
}

#[test]
fn draw_rounded_rect_border_is_a_frame() {
    let mut c = NothingCanvas::new(8, 8);
    c.draw_rounded_rect_border(0, 0, 8, 8, 0, 1, 255, 255, 255, 255);
    for y in 0..8 {
        for x in 0..8 {
            let edge = x == 0 || y == 0 || x == 7 || y == 7;
            assert_eq!(painted(&c, x, y), edge, "pixel ({}, {})", x, y);
        }
    }
}

#[test]
fn draw_rounded_rect_border_follows_round_corners() {
    let mut c = NothingCanvas::new(12, 12);
    c.draw_rounded_rect_border(0, 0, 12, 12, 4, 1, 255, 255, 255, 255);
    // Outside the outer curve.
    assert!(!painted(&c, 0, 0));
    // On the straight edges.
    assert!(painted(&c, 6, 0));
    assert!(painted(&c, 0, 6));
    assert!(painted(&c, 11, 6));
    // Inside the frame.
    assert!(!painted(&c, 6, 6));
    assert!(!painted(&c, 2, 6));
}

#[test]
fn draw_circle_is_a_disc() {
    let mut c = NothingCanvas::new(9, 9);
    c.draw_circle(4, 4, 2, 1, 2, 3, 255);
    assert!(painted(&c, 4, 4));
    assert!(painted(&c, 4, 2));
    assert!(painted(&c, 6, 4));
    assert!(painted(&c, 3, 3));
    assert!(!painted(&c, 2, 2));
    assert!(!painted(&c, 7, 4));
    assert_eq!(painted_count(&c), 13);
}

#[test]
fn draw_circle_near_the_origin_is_clipped() {
    let mut c = NothingCanvas::new(4, 4);
    c.draw_circle(0, 0, 2, 1, 1, 1, 1);
    assert_eq!(painted_count(&c), 6);
    assert!(painted(&c, 2, 0));
    assert!(painted(&c, 1, 1));
    assert!(!painted(&c, 2, 1));
}

#[test]
fn draw_circle_border_is_a_ring() {
    let mut c = NothingCanvas::new(11, 11);
    c.draw_circle_border(5, 5, 3, 1, 1, 1, 1, 255);
    assert!(!painted(&c, 5, 5));
    assert!(!painted(&c, 5, 4));
    assert!(painted(&c, 5, 3));
    assert!(painted(&c, 5, 2));
    assert!(painted(&c, 7, 7));
    assert!(!painted(&c, 8, 8));
    assert!(!painted(&c, 5, 1));
}

#[test]
fn draw_char_dots_draws_the_glyph() {
    let mut c = NothingCanvas::new(5, 7);
    c.draw_char_dots('1', 0, 0, 1, 0, 255, 255, 255, 255);
    let rows: [u8; 7] = [0b00100, 0b01100, 0b00100, 0b00100, 0b00100, 0b00100, 0b01110];
    for row in 0..7 {
        for col in 0..5 {
            let lit = (rows[row] >> (4 - col)) & 1 == 1;
            assert_eq!(painted(&c, col, row), lit, "cell ({}, {})", col, row);
        }
    }
}

#[test]
fn draw_char_dots_treats_small_letters_as_capitals() {
    let mut lower = NothingCanvas::new(12, 16);
    let mut upper = NothingCanvas::new(12, 16);
    lower.draw_char_dots('g', 1, 1, 2, 0, 9, 9, 9, 9);
    upper.draw_char_dots('G', 1, 1, 2, 0, 9, 9, 9, 9);
    assert_eq!(lower.pixels, upper.pixels);
    assert!(painted_count(&lower) > 0);
}

#[test]
fn draw_char_dots_without_a_glyph_draws_nothing() {
    let mut c = NothingCanvas::new(10, 10);
    c.draw_char_dots('#', 0, 0, 1, 0, 255, 255, 255, 255);
    c.draw_char_dots(' ', 0, 0, 1, 0, 255, 255, 255, 255);
    assert_eq!(painted_count(&c), 0);
}

#[test]
fn draw_char_dots_spaces_the_dots() {
    let mut c = NothingCanvas::new(15, 21);
    c.draw_char_dots('-', 0, 0, 2, 1, 255, 255, 255, 255);
    // The bar is row 3: cells 3 pixels apart, each dot 2 x 2.
    assert!(painted(&c, 0, 9));
    assert!(painted(&c, 1, 10));
    assert!(!painted(&c, 2, 9));
    assert!(painted(&c, 3, 9));
    assert!(painted(&c, 13, 10));
    assert!(!painted(&c, 0, 0));
    assert_eq!(painted_count(&c), 20);
}

#[test]
fn draw_text_dots_advances_past_each_character() {
    let mut c = NothingCanvas::new(16, 7);
    c.draw_text_dots("1 1", 0, 0, 1, 0, 1, 255, 255, 255, 255);
    // First '1' at x = 0; it advances 5 + 1; the space advances 4.
    assert!(painted(&c, 2, 0));
    assert!(!painted(&c, 7, 0));
    assert!(!painted(&c, 8, 0));
    assert!(painted(&c, 12, 0));
    assert!(painted(&c, 11, 1));
    let mut single = NothingCanvas::new(16, 7);
    single.draw_char_dots('1', 10, 0, 1, 0, 255, 255, 255, 255);
    single.draw_char_dots('1', 0, 0, 1, 0, 255, 255, 255, 255);
    assert_eq!(c.pixels, single.pixels);
}

#[test]
fn draw_text_dots_of_empty_text_draws_nothing() {
    let mut c = NothingCanvas::new(8, 8);
    c.draw_text_dots("", 0, 0, 1, 0, 1, 255, 255, 255, 255);
    assert_eq!(painted_count(&c), 0);
}

#[test]
fn circles_centred_far_beyond_the_canvas_draw_nothing() {
    let mut c = NothingCanvas::new(8, 8);
    c.draw_circle(usize::MAX - 5, 2, 3, 255, 255, 255, 255);
    c.draw_circle(2, (isize::MAX as usize) + 10, 3, 255, 255, 255, 255);
    c.draw_circle_border(usize::MAX - 5, 2, 3, 1, 255, 255, 255, 255);
    assert_eq!(painted_count(&c), 0);
}
