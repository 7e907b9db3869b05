use nothing_de::input::{
    button_action, layout_mode_after, move_grab_released, next_focus_index, pointer_reaches_clients, shortcut_action, ui_mode_after,
    ButtonAction, ShortcutAction, ShortcutKey, BTN_LEFT,
};
use nothing_de::layout::{compute_layout, layout_in_range, popup_constraint_area, toggle_layout_mode, LayoutMode, OutputGeometry, Placement, FLOAT_STAGGER};
use nothing_de::state::UiMode;

fn output(x: i32, y: i32, w: i32, h: i32) -> OutputGeometry {
    OutputGeometry { x, y, w, h }
}

#[test]
fn layout_toggle_switches_and_returns() {
    assert_eq!(toggle_layout_mode(LayoutMode::Floating), LayoutMode::MasterStack);
    assert_eq!(toggle_layout_mode(LayoutMode::MasterStack), LayoutMode::Floating);
    assert_eq!(toggle_layout_mode(toggle_layout_mode(LayoutMode::Floating)), LayoutMode::Floating);
}

#[test]
fn floating_layout_cascades_windows() {
    let p = compute_layout(LayoutMode::Floating, output(0, 0, 1280, 800), &vec![None; 3]);
    assert_eq!(p.len(), 3);
    assert_eq!(p[0], Placement { x: 80, y: 40, size: None, tiled: false });
    assert_eq!(p[1], Placement { x: 80 + FLOAT_STAGGER, y: 80, size: None, tiled: false });
    assert_eq!(p[2], Placement { x: 160, y: 120, size: None, tiled: false });
}

#[test]
fn floating_layout_follows_the_output_origin() {
    let p = compute_layout(LayoutMode::Floating, output(100, 50, 800, 600), &vec![None; 2]);
    assert_eq!(p[0], Placement { x: 180, y: 90, size: None, tiled: false });
    assert_eq!(p[1], Placement { x: 220, y: 130, size: None, tiled: false });
}

#[test]
fn no_windows_no_placements() {
    assert!(compute_layout(LayoutMode::Floating, output(0, 0, 1280, 800), &vec![None; 0]).is_empty());
    assert!(compute_layout(LayoutMode::MasterStack, output(0, 0, 1280, 800), &vec![None; 0]).is_empty());
}

#[test]
fn single_tiled_window_fills_the_output() {
    let p = compute_layout(LayoutMode::MasterStack, output(10, 20, 1280, 800), &vec![None; 1]);
    assert_eq!(p, vec![Placement { x: 10, y: 20, size: Some((1280, 800)), tiled: true }]);
}

#[test]
fn master_stack_splits_sixty_forty() {
    let p = compute_layout(LayoutMode::MasterStack, output(0, 0, 1280, 800), &vec![None; 3]);
    assert_eq!(p[0], Placement { x: 0, y: 0, size: Some((768, 800)), tiled: true });
    assert_eq!(p[1], Placement { x: 768, y: 0, size: Some((512, 400)), tiled: true });
    assert_eq!(p[2], Placement { x: 768, y: 400, size: Some((512, 400)), tiled: true });
}

#[test]
fn last_stack_window_takes_the_remainder() {
    let p = compute_layout(LayoutMode::MasterStack, output(0, 0, 1000, 801), &vec![None; 4]);
    assert_eq!(p[0].size, Some((600, 801)));
    assert_eq!(p[1], Placement { x: 600, y: 0, size: Some((400, 267)), tiled: true });
    assert_eq!(p[2], Placement { x: 600, y: 267, size: Some((400, 267)), tiled: true });
    assert_eq!(p[3], Placement { x: 600, y: 534, size: Some((400, 267)), tiled: true });
    let q = compute_layout(LayoutMode::MasterStack, output(0, 0, 1000, 802), &vec![None; 4]);
    assert_eq!(q[3], Placement { x: 600, y: 534, size: Some((400, 268)), tiled: true });
}

#[test]
fn master_width_matches_float_truncation() {
    for w in (0..20000).chain([i32::MAX / 8, 1_000_001, 1_234_567]) {
        let p = compute_layout(LayoutMode::MasterStack, output(0, 0, w, 600), &vec![None; 2]);
        let expected = (w as f64 * 0.6) as i32;
        assert_eq!(p[0].size, Some((expected, 600)), "width {}", w);
        assert_eq!(p[1].size, Some((w - expected, 600)), "width {}", w);
    }
}

#[test]
fn tiled_windows_cover_the_output_height() {
    for count in 2..9usize {
        let p = compute_layout(LayoutMode::MasterStack, output(0, 0, 1280, 799), &vec![None; count]);
        let mut y = 0;
        for q in &p[1..] {
            assert_eq!(q.y, y);
            y += q.size.unwrap().1;
        }
        assert_eq!(y, 799);
    }
}

#[test]
fn shortcuts_need_a_press_with_super() {
    assert_eq!(shortcut_action(true, true, ShortcutKey::Q), Some(ShortcutAction::CloseFocused));
    assert_eq!(shortcut_action(true, true, ShortcutKey::Return), Some(ShortcutAction::SpawnTerminal));
    assert_eq!(shortcut_action(true, true, ShortcutKey::T), Some(ShortcutAction::ToggleLayout));
    assert_eq!(shortcut_action(true, true, ShortcutKey::J), Some(ShortcutAction::FocusNext));
    assert_eq!(shortcut_action(true, true, ShortcutKey::K), Some(ShortcutAction::FocusPrevious));
    assert_eq!(shortcut_action(true, true, ShortcutKey::D), Some(ShortcutAction::ToggleDashboard));
    assert_eq!(shortcut_action(true, true, ShortcutKey::A), Some(ShortcutAction::ToggleAppLauncher));
    assert_eq!(shortcut_action(true, true, ShortcutKey::S), Some(ShortcutAction::ToggleQuickSettings));
    assert_eq!(shortcut_action(true, true, ShortcutKey::Other), None);
    assert_eq!(shortcut_action(true, false, ShortcutKey::Q), None);
    assert_eq!(shortcut_action(false, true, ShortcutKey::Q), None);
}

#[test]
fn overlay_shortcuts_toggle_the_ui_mode() {
    assert_eq!(ui_mode_after(UiMode::Desktop, ShortcutAction::ToggleDashboard), UiMode::Dashboard);
    assert_eq!(ui_mode_after(UiMode::Dashboard, ShortcutAction::ToggleDashboard), UiMode::Desktop);
    assert_eq!(ui_mode_after(UiMode::AppLauncher, ShortcutAction::ToggleDashboard), UiMode::Desktop);
    assert_eq!(ui_mode_after(UiMode::QuickSettings, ShortcutAction::ToggleDashboard), UiMode::Desktop);
    assert_eq!(ui_mode_after(UiMode::Desktop, ShortcutAction::ToggleAppLauncher), UiMode::AppLauncher);
    assert_eq!(ui_mode_after(UiMode::Dashboard, ShortcutAction::ToggleAppLauncher), UiMode::AppLauncher);
    assert_eq!(ui_mode_after(UiMode::AppLauncher, ShortcutAction::ToggleAppLauncher), UiMode::Desktop);
    assert_eq!(ui_mode_after(UiMode::Dashboard, ShortcutAction::ToggleQuickSettings), UiMode::QuickSettings);
    assert_eq!(ui_mode_after(UiMode::QuickSettings, ShortcutAction::ToggleQuickSettings), UiMode::Desktop);
    assert_eq!(ui_mode_after(UiMode::Dashboard, ShortcutAction::FocusNext), UiMode::Dashboard);
    assert_eq!(ui_mode_after(UiMode::AppLauncher, ShortcutAction::CloseFocused), UiMode::AppLauncher);
}

#[test]
fn only_the_layout_shortcut_changes_the_layout() {
    assert_eq!(layout_mode_after(LayoutMode::Floating, ShortcutAction::ToggleLayout), LayoutMode::MasterStack);
    assert_eq!(layout_mode_after(LayoutMode::MasterStack, ShortcutAction::ToggleLayout), LayoutMode::Floating);
    assert_eq!(layout_mode_after(LayoutMode::Floating, ShortcutAction::ToggleDashboard), LayoutMode::Floating);
}

#[test]
fn focus_cycles_around_the_window_list() {
    assert_eq!(next_focus_index(Some(0), 1, 3), 1);
    assert_eq!(next_focus_index(Some(2), 1, 3), 0);
    assert_eq!(next_focus_index(Some(0), -1, 3), 2);
    assert_eq!(next_focus_index(Some(1), -1, 3), 0);
    assert_eq!(next_focus_index(None, 1, 3), 0);
    assert_eq!(next_focus_index(None, -1, 3), 0);
    assert_eq!(next_focus_index(Some(0), 1, 1), 0);
    assert_eq!(next_focus_index(Some(0), -1, 1), 0);
}

#[test]
fn focus_next_then_previous_returns() {
    for count in 1..7usize {
        for idx in 0..count {
            let next = next_focus_index(Some(idx), 1, count);
            assert_eq!(next_focus_index(Some(next), -1, count), idx);
        }
    }
}

#[test]
fn overlay_takes_left_clicks_and_swallows_the_rest() {
    assert_eq!(button_action(UiMode::Dashboard, true, BTN_LEFT, false, Some(0), 5, false), ButtonAction::OverlayClick);
    assert_eq!(button_action(UiMode::AppLauncher, false, BTN_LEFT, false, None, 5, false), ButtonAction::OverlayIgnore);
    assert_eq!(button_action(UiMode::QuickSettings, true, 0x111, false, None, 5, false), ButtonAction::OverlayIgnore);
}

#[test]
fn title_bar_press_starts_a_move() {
    assert_eq!(button_action(UiMode::Desktop, true, BTN_LEFT, false, Some(100), 131, false), ButtonAction::StartMove);
    assert_eq!(button_action(UiMode::Desktop, true, BTN_LEFT, false, Some(100), 132, false), ButtonAction::RaiseAndFocus);
    assert_eq!(button_action(UiMode::Desktop, true, BTN_LEFT, false, Some(100), 500, true), ButtonAction::StartMove);
    assert_eq!(button_action(UiMode::Desktop, true, 0x111, false, Some(100), 110, true), ButtonAction::RaiseAndFocus);
}

#[test]
fn background_press_clears_focus_and_others_forward() {
    assert_eq!(button_action(UiMode::Desktop, true, BTN_LEFT, false, None, 10, false), ButtonAction::ClearFocus);
    assert_eq!(button_action(UiMode::Desktop, true, BTN_LEFT, true, Some(0), 10, false), ButtonAction::Forward);
    assert_eq!(button_action(UiMode::Desktop, false, BTN_LEFT, false, Some(0), 10, false), ButtonAction::Forward);
}

#[test]
fn only_the_desktop_lets_the_pointer_reach_clients() {
    assert!(pointer_reaches_clients(UiMode::Desktop));
    assert!(!pointer_reaches_clients(UiMode::Dashboard));
    assert!(!pointer_reaches_clients(UiMode::AppLauncher));
    assert!(!pointer_reaches_clients(UiMode::QuickSettings));
}

#[test]
fn layout_range_check_refuses_overflowing_cascades() {
    assert!(layout_in_range(LayoutMode::Floating, output(0, 0, 1280, 800), 3));
    assert!(!layout_in_range(LayoutMode::Floating, output(i32::MAX - 100, 0, 1280, 800), 2));
    assert!(layout_in_range(LayoutMode::MasterStack, output(0, 0, 1280, 800), 1));
    assert!(!layout_in_range(LayoutMode::MasterStack, output(i32::MAX - 10, 0, 1280, 800), 2));
    assert!(!layout_in_range(LayoutMode::MasterStack, output(0, i32::MAX - 10, 1280, 800), 3));
    assert!(layout_in_range(LayoutMode::MasterStack, output(0, 0, 1280, 800), 0));
}

#[test]
fn drag_ends_when_the_left_button_is_released() {
    assert!(move_grab_released(&vec![]));
    assert!(move_grab_released(&vec![0x111]));
    assert!(!move_grab_released(&vec![BTN_LEFT]));
    assert!(!move_grab_released(&vec![0x111, BTN_LEFT]));
}

#[test]
fn popup_area_is_the_output_seen_from_the_parent() {
    let a = popup_constraint_area(output(0, 0, 1280, 800), (10, 20), (100, 50));
    assert_eq!(a, Some(output(-110, -70, 1280, 800)));
    let b = popup_constraint_area(output(1920, 0, 1024, 768), (-5, 5), (2000, 40));
    assert_eq!(b, Some(output(-75, -45, 1024, 768)));
    assert_eq!(popup_constraint_area(output(i32::MIN, 0, 10, 10), (1, 0), (0, 0)), None);
    assert_eq!(popup_constraint_area(output(i32::MIN + 1, 0, 10, 10), (1, 0), (1, 0)), None);
    assert_eq!(popup_constraint_area(output(i32::MIN + 2, 0, 10, 10), (1, 0), (1, 0)), Some(output(i32::MIN, 0, 10, 10)));
}

#[test]
fn floating_layout_keeps_placed_windows_where_they_are() {
    let placed = vec![Some((500, 300)), None, Some((-20, 7)), None];
    let p = compute_layout(LayoutMode::Floating, output(0, 0, 1280, 800), &placed);
    assert_eq!(p[0], Placement { x: 500, y: 300, size: None, tiled: false });
    assert_eq!(p[1], Placement { x: 120, y: 80, size: None, tiled: false });
    assert_eq!(p[2], Placement { x: -20, y: 7, size: None, tiled: false });
    assert_eq!(p[3], Placement { x: 200, y: 160, size: None, tiled: false });
}

#[test]
fn tiled_layout_places_every_window() {
    let placed = vec![Some((500, 300)), Some((1, 1)), None];
    let p = compute_layout(LayoutMode::MasterStack, output(0, 0, 1280, 800), &placed);
    let q = compute_layout(LayoutMode::MasterStack, output(0, 0, 1280, 800), &vec![None; 3]);
    assert_eq!(p, q);
}

#[test]
fn tiles_partition_the_output() {
    let p = compute_layout(LayoutMode::MasterStack, output(0, 0, 1280, 800), &vec![None; 4]);
    assert_eq!(p[0], Placement { x: 0, y: 0, size: Some((768, 800)), tiled: true });
    assert_eq!(p[1], Placement { x: 768, y: 0, size: Some((512, 266)), tiled: true });
    assert_eq!(p[2], Placement { x: 768, y: 266, size: Some((512, 266)), tiled: true });
    assert_eq!(p[3], Placement { x: 768, y: 532, size: Some((512, 268)), tiled: true });
    for (w, h, n) in [(1280, 800, 4usize), (7, 3, 5), (1, 1, 2), (333, 101, 9)] {
        let p = compute_layout(LayoutMode::MasterStack, output(5, -3, w, h), &vec![None; n]);
        for py in -3..h - 3 {
            for px in 5..w + 5 {
                let covering = p
                    .iter()
                    .filter(|q| {
                        let (sw, sh) = q.size.unwrap();
                        q.x <= px && px < q.x + sw && q.y <= py && py < q.y + sh
                    })
                    .count();
                assert_eq!(covering, 1, "pixel ({}, {}) of {}x{} with {} windows", px, py, w, h, n);
            }
        }
    }
}
