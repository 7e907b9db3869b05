use nothing_de::glyphs::glyph_for;
use nothing_de::layout::LayoutMode;
use nothing_de::canvas::NothingCanvas;
use nothing_de::clock::LocalTime;
use nothing_de::scene::{
    battery_gauge_center, render_app_launcher_canvas, render_dashboard_canvas, render_desktop_canvas, render_desktop_canvas_at,
    render_quick_settings_canvas_at,
    render_quick_settings_canvas, render_ui_canvas, ui_size_fits, battery_arc_fits, hours_label_fits, draw_desktop_widgets,
};
use nothing_de::state::{NothingUiState, UiMode};
use nothing_de::text::{push_decimal, push_str, push_two_digits};

fn pixel(c: &NothingCanvas, x: usize, y: usize) -> [u8; 4] {
    let i = (y * c.width + x) * 4;
    [c.pixels[i], c.pixels[i + 1], c.pixels[i + 2], c.pixels[i + 3]]
}

#[test]
fn launcher_scene_has_its_size_and_veil() {
    let s = NothingUiState::new();
    let c = render_app_launcher_canvas(&s, 800, 600);
    assert_eq!((c.width, c.height, c.pixels.len()), (800, 600, 800 * 600 * 4));
    assert_eq!(pixel(&c, 0, 0), [0, 0, 0, 204]);
    assert_eq!(pixel(&c, 799, 599), [0, 0, 0, 204]);
    // The close button's disc, between the dots of its 'X'.
    assert_eq!(pixel(&c, 740, 90), [255, 255, 255, 25]);
    // The first dot of the version line.
    assert_eq!(pixel(&c, 320, 560), [80, 80, 80, 255]);
}

#[test]
fn ui_canvas_draws_the_launcher_in_launcher_mode() {
    let mut s = NothingUiState::new();
    s.ui_mode = UiMode::AppLauncher;
    let a = render_ui_canvas(&s, LayoutMode::Floating, 640, 480, &vec![], "");
    let b = render_app_launcher_canvas(&s, 640, 480);
    assert_eq!(a.pixels, b.pixels);
}

#[test]
fn dashboard_veil_follows_dark_mode() {
    let mut s = NothingUiState::new();
    s.ui_mode = UiMode::Dashboard;
    let dark = render_dashboard_canvas(&s, 1280, 800, "");
    assert_eq!((dark.width, dark.height), (1280, 800));
    assert_eq!(pixel(&dark, 0, 0), [10, 10, 10, 217]);
    // The clock tile's red dot, 350 pixels into the grid at (250, 210).
    assert_eq!(pixel(&dark, 600, 560), [0, 0, 255, 255]);
    s.dark_mode = false;
    let light = render_dashboard_canvas(&s, 1280, 800, "");
    assert_eq!(pixel(&light, 0, 0), [240, 240, 240, 217]);
    assert_eq!(pixel(&light, 600, 560), [0, 0, 255, 255]);
}

#[test]
fn dashboard_wifi_card_lies_under_its_click_area() {
    let mut s = NothingUiState::new();
    s.ui_mode = UiMode::Dashboard;
    let c = render_dashboard_canvas(&s, 1280, 800, "");
    // Inside the Wi-Fi card (at (850, 210)), away from its icon and text.
    assert_eq!(pixel(&c, 860, 380), [0, 0, 0, 240]);
    assert!(s.handle_click(860, 380, 1280, 800));
    assert!(!s.wifi_enabled);
}

#[test]
fn desktop_and_quick_settings_scenes_have_their_size() {
    let s = NothingUiState::new();
    let d = render_desktop_canvas(&s, LayoutMode::MasterStack, 1280, 800, &vec![(1110, 16), (1111, 17)]);
    assert_eq!((d.width, d.height, d.pixels.len()), (1280, 800, 1280 * 800 * 4));
    assert_eq!(pixel(&d, 0, 799), [0, 0, 0, 0]);
    let q = render_quick_settings_canvas(&s, LayoutMode::Floating, 1024, 768, &vec![]);
    assert_eq!((q.width, q.height), (1024, 768));
}

#[test]
fn battery_gauge_sits_near_the_right_end_of_the_bar() {
    assert_eq!(battery_gauge_center(1280), (1110, 24));
    assert_eq!(battery_gauge_center(170), (0, 24));
}

#[test]
fn glyphs_cover_digits_letters_and_marks() {
    assert_eq!(glyph_for('0'), Some([0b01110, 0b10001, 0b10011, 0b10101, 0b11001, 0b10001, 0b01110]));
    assert_eq!(glyph_for('Z'), Some([0b11111, 0b00001, 0b00010, 0b00100, 0b01000, 0b10000, 0b11111]));
    assert_eq!(glyph_for('%'), Some([0b11001, 0b11010, 0b00100, 0b01000, 0b01011, 0b10011, 0b00000]));
    assert_eq!(glyph_for('q'), glyph_for('Q'));
    assert_eq!(glyph_for('#'), None);
    assert_eq!(glyph_for(' '), None);
}

#[test]
fn numbers_are_written_in_decimal() {
    let mut v: Vec<char> = Vec::new();
    push_decimal(&mut v, 0);
    push_str(&mut v, " ");
    push_decimal(&mut v, 12345);
    push_str(&mut v, " ");
    push_two_digits(&mut v, 7);
    push_str(&mut v, ":");
    push_two_digits(&mut v, 59);
    push_str(&mut v, " ");
    push_decimal(&mut v, u64::MAX);
    let s: String = v.into_iter().collect();
    assert_eq!(s, "0 12345 07:59 18446744073709551615");
}

#[test]
fn dashboard_fits_a_screen_one_pixel_smaller_than_its_grid() {
    let mut s = NothingUiState::new();
    s.ui_mode = UiMode::Dashboard;
    let c = render_dashboard_canvas(&s, 779, 379, "");
    assert_eq!((c.width, c.height), (779, 379));
    // The grid starts at (0, 0): the clock tile's red dot is at (350, 350).
    assert_eq!(pixel(&c, 350, 350), [0, 0, 255, 255]);
    assert!(s.handle_click(600, 0, 779, 379));
}

#[test]
fn ui_size_limits_follow_each_scene() {
    assert!(ui_size_fits(UiMode::Desktop, 340, 66));
    assert!(!ui_size_fits(UiMode::Desktop, 339, 800));
    assert!(!ui_size_fits(UiMode::QuickSettings, 1280, 65));
    assert!(ui_size_fits(UiMode::Dashboard, 779, 379));
    assert!(!ui_size_fits(UiMode::Dashboard, 778, 800));
    assert!(!ui_size_fits(UiMode::Dashboard, 0x8000_0000, 800));
    assert!(ui_size_fits(UiMode::AppLauncher, 500, 40));
    assert!(!ui_size_fits(UiMode::AppLauncher, 499, 600));
}

#[test]
fn dashboard_gauges_fill_with_cpu_and_ram_use() {
    let mut s = NothingUiState::new();
    s.ui_mode = UiMode::Dashboard;
    s.cpu_usage = 50;
    s.mem_usage = 0;
    let c = render_dashboard_canvas(&s, 1280, 800, "");
    // The CPU gauge is centred at (698, 302): its dots from the top clockwise,
    // ten of twenty lit at 50%.
    assert_eq!(pixel(&c, 698, 270), [255, 255, 255, 255]);
    assert_eq!(pixel(&c, 708, 332), [255, 255, 255, 255]);
    assert_eq!(pixel(&c, 698, 334), [80, 80, 80, 255]);
    // The RAM gauge at (782, 302) is empty.
    assert_eq!(pixel(&c, 782, 270), [80, 80, 80, 255]);
    s.mem_usage = 100;
    s.cpu_usage = 4;
    let d = render_dashboard_canvas(&s, 1280, 800, "");
    assert_eq!(pixel(&d, 782, 270), [255, 255, 255, 255]);
    assert_eq!(pixel(&d, 782, 334), [255, 255, 255, 255]);
    assert_eq!(pixel(&d, 698, 270), [80, 80, 80, 255]);
}

fn fixed_time() -> LocalTime {
    LocalTime { hour: 9, minute: 41, day: 3, month: 6 }
}

#[test]
fn quick_settings_leave_the_desktop_visible_outside_the_panel() {
    let mut s = NothingUiState::new();
    s.volume = 110;
    s.brightness = 100;
    let d = render_desktop_canvas_at(&s, LayoutMode::Floating, 1280, 800, fixed_time(), &vec![(1110, 16)]);
    let q = render_quick_settings_canvas_at(&s, LayoutMode::Floating, 1280, 800, fixed_time(), &vec![(1110, 16)]);
    let mut inside_differs = false;
    for y in 0..800 {
        for x in 0..1280 {
            let in_panel = (984..1264).contains(&x) && (64..484).contains(&y);
            if in_panel {
                inside_differs |= pixel(&d, x, y) != pixel(&q, x, y);
            } else {
                assert_eq!(pixel(&d, x, y), pixel(&q, x, y), "pixel ({}, {})", x, y);
            }
        }
    }
    assert!(inside_differs);
}

#[test]
fn loud_volume_bar_reaches_past_the_panel() {
    let mut s = NothingUiState::new();
    s.volume = 120;
    let d = render_desktop_canvas_at(&s, LayoutMode::Floating, 1280, 800, fixed_time(), &vec![]);
    let q = render_quick_settings_canvas_at(&s, LayoutMode::Floating, 1280, 800, fixed_time(), &vec![]);
    assert_ne!(pixel(&d, 1264, 382), pixel(&q, 1264, 382));
    assert_eq!(pixel(&q, 1264, 382), [255, 255, 255, 255]);
}

#[test]
fn music_track_index_wraps_around_the_playlist() {
    let mut a = NothingUiState::new();
    let mut b = NothingUiState::new();
    a.music_track_index = 7;
    b.music_track_index = 1;
    let ca = render_desktop_canvas_at(&a, LayoutMode::MasterStack, 1024, 768, fixed_time(), &vec![]);
    let cb = render_desktop_canvas_at(&b, LayoutMode::MasterStack, 1024, 768, fixed_time(), &vec![]);
    assert_eq!(ca.pixels, cb.pixels);
    b.music_track_index = 2;
    let cc = render_desktop_canvas_at(&b, LayoutMode::MasterStack, 1024, 768, fixed_time(), &vec![]);
    assert_ne!(ca.pixels, cc.pixels);
}

#[test]
fn joined_text_draws_as_its_parts() {
    let mut joined = NothingCanvas::new(60, 10);
    joined.draw_text_dots("A#B C", 1, 1, 1, 1, 2, 255, 255, 255, 255);
    let mut parts = NothingCanvas::new(60, 10);
    parts.draw_text_dots("A#", 1, 1, 1, 1, 2, 255, 255, 255, 255);
    // "A#" advances two cells of 5 * 2 + 2 pixels, the unknown '#' included.
    parts.draw_text_dots("B C", 1 + 24, 1, 1, 1, 2, 255, 255, 255, 255);
    assert_eq!(joined.pixels, parts.pixels);
}

#[test]
fn battery_arc_must_stay_at_the_gauge() {
    assert!(battery_arc_fits(&vec![], 1280));
    assert!(battery_arc_fits(&vec![(1110, 16), (1118, 24), (1102, 32), (1101, 33)], 1280));
    assert!(!battery_arc_fits(&vec![(1100, 24)], 1280));
    assert!(!battery_arc_fits(&vec![(1110, 14)], 1280));
    assert!(!battery_arc_fits(&vec![(1110, 24); 51], 1280));
    assert!(battery_arc_fits(&vec![(0, 24)], 165));
}

#[test]
fn uptime_label_has_the_hours_shape() {
    assert!(hours_label_fits("UPT 1.0H"));
    assert!(hours_label_fits(&format!("UPT {:.1}H", u64::MAX as f64 / 3600.0)));
    assert!(hours_label_fits("UPT 123456.7H"));
    assert!(!hours_label_fits("UPT 1H"));
    assert!(!hours_label_fits("UPT .5H"));
    assert!(!hours_label_fits("upt 1.0H"));
    assert!(!hours_label_fits("UPT 1.05H"));
    assert!(!hours_label_fits("UPT 12345678901234567890.1H"));
}

#[test]
fn desktop_widgets_wrap_the_track_index() {
    let mut a = NothingUiState::new();
    let mut b = NothingUiState::new();
    a.music_track_index = 5;
    b.music_track_index = 2;
    let mut ca = NothingCanvas::new(420, 600);
    let mut cb = NothingCanvas::new(420, 600);
    draw_desktop_widgets(&mut ca, &a);
    draw_desktop_widgets(&mut cb, &b);
    assert_eq!(ca.pixels, cb.pixels);
}
