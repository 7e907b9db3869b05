use nothing_de::state::{NothingUiState, StatsSample, UiMode};

fn dashboard_state() -> NothingUiState {
    let mut s = NothingUiState::new();
    s.ui_mode = UiMode::Dashboard;
    s
}

fn sample(cpu: Option<(u64, u64)>) -> StatsSample {
    StatsSample { uptime_secs: 42, memory: None, battery: None, cpu_times: cpu }
}

#[test]
fn new_state_starts_on_the_desktop() {
    let s = NothingUiState::new();
    assert_eq!(s.ui_mode, UiMode::Desktop);
    assert_eq!((s.cpu_usage, s.mem_usage), (0, 0));
    assert_eq!((s.battery_percentage, s.battery_charging), (100, true));
    assert_eq!(s.uptime_secs, 0);
    assert!(s.wifi_enabled && s.dark_mode);
    assert_eq!(s.prev_cpu_times, None);
    assert!(!s.music_playing && !s.bluetooth_enabled);
    assert_eq!(s.music_track_index, 0);
    assert_eq!((s.volume, s.brightness), (80, 70));
    assert_eq!(s.active_workspace, 1);
    assert_eq!(s.frame_count, 0);
}

#[test]
fn clicks_outside_the_dashboard_do_nothing() {
    let mut s = NothingUiState::new();
    assert!(!s.handle_click(900, 300, 1280, 800));
    assert!(s.wifi_enabled && s.dark_mode);
}

#[test]
fn wifi_tile_toggles_wifi() {
    let mut s = dashboard_state();
    // Grid at (250, 210); the Wi-Fi tile spans x 850..1030, y 210..390.
    assert!(s.handle_click(900, 300, 1280, 800));
    assert!(!s.wifi_enabled);
    assert!(s.dark_mode);
    assert!(s.handle_click(850, 210, 1280, 800));
    assert!(s.wifi_enabled);
    assert!(!s.handle_click(1030, 300, 1280, 800));
    assert!(!s.handle_click(849, 300, 1280, 800));
    assert!(s.wifi_enabled);
}

#[test]
fn dark_tile_toggles_dark_mode() {
    let mut s = dashboard_state();
    assert!(s.handle_click(1029, 589, 1280, 800));
    assert!(!s.dark_mode);
    assert!(s.wifi_enabled);
    assert!(!s.handle_click(900, 395, 1280, 800));
    assert!(!s.handle_click(900, 590, 1280, 800));
    assert!(s.handle_click(900, 410, 1280, 800));
    assert!(s.dark_mode);
}

#[test]
fn clicks_on_other_tiles_do_nothing() {
    let mut s = dashboard_state();
    assert!(!s.handle_click(300, 300, 1280, 800));
    assert!(!s.handle_click(10, 10, 1280, 800));
    assert!(!s.handle_click(-5, -5, 1280, 800));
    assert!(s.wifi_enabled && s.dark_mode);
}

#[test]
fn grid_centring_rounds_toward_zero() {
    // A screen narrower than the grid puts it at (779 - 780) / 2 == 0.
    let mut s = dashboard_state();
    assert!(s.handle_click(600, 0, 779, 379));
    assert!(!s.wifi_enabled);
    let mut t = dashboard_state();
    assert!(t.handle_click(600, 0, 781, 381));
    assert!(!t.wifi_enabled);
    let mut u = dashboard_state();
    assert!(!u.handle_click(600, 0, 782, 380));
    assert!(u.handle_click(601, 0, 782, 380));
}

#[test]
fn first_frame_always_refreshes() {
    let mut s = NothingUiState::new();
    assert!(s.update(0));
    assert_eq!(s.frame_count, 1);
    assert!(s.update(10));
    assert_eq!(s.frame_count, 2);
}

#[test]
fn refresh_waits_half_a_second_after_a_cpu_reading() {
    let mut s = NothingUiState::new();
    assert!(s.update(0));
    s.apply_stats(&sample(Some((1000, 400))));
    assert!(!s.update(0));
    assert!(!s.update(499));
    assert!(s.update(500));
    assert!(s.update(10_000));
    assert_eq!(s.frame_count, 5);
}

#[test]
fn frame_counter_wraps() {
    let mut s = NothingUiState::new();
    s.frame_count = u64::MAX;
    s.update(1000);
    assert_eq!(s.frame_count, 0);
}

#[test]
fn memory_use_is_the_unavailable_share() {
    let mut s = NothingUiState::new();
    let x = StatsSample { uptime_secs: 7, memory: Some((1000, 250)), battery: Some((55, false)), cpu_times: None };
    assert!(s.sample_fits(&x));
    s.apply_stats(&x);
    assert_eq!(s.mem_usage, 75);
    assert_eq!(s.uptime_secs, 7);
    assert_eq!((s.battery_percentage, s.battery_charging), (55, false));
    assert_eq!(s.prev_cpu_times, None);
}

#[test]
fn memory_use_rounds_down_and_ignores_a_zero_total() {
    let mut s = NothingUiState::new();
    s.apply_stats(&StatsSample { uptime_secs: 0, memory: Some((3, 1)), battery: None, cpu_times: None });
    assert_eq!(s.mem_usage, 66);
    s.apply_stats(&StatsSample { uptime_secs: 0, memory: Some((0, 0)), battery: None, cpu_times: None });
    assert_eq!(s.mem_usage, 66);
    s.apply_stats(&StatsSample { uptime_secs: 0, memory: None, battery: None, cpu_times: None });
    assert_eq!(s.mem_usage, 66);
}

#[test]
fn missing_battery_reads_as_full_and_charging() {
    let mut s = NothingUiState::new();
    s.apply_stats(&StatsSample { uptime_secs: 0, memory: None, battery: Some((12, false)), cpu_times: None });
    assert_eq!((s.battery_percentage, s.battery_charging), (12, false));
    s.apply_stats(&StatsSample { uptime_secs: 0, memory: None, battery: None, cpu_times: None });
    assert_eq!((s.battery_percentage, s.battery_charging), (100, true));
}

#[test]
fn cpu_use_is_the_busy_share_between_readings() {
    let mut s = NothingUiState::new();
    s.apply_stats(&sample(Some((1000, 400))));
    assert_eq!(s.cpu_usage, 0);
    assert_eq!(s.prev_cpu_times, Some((1000, 400)));
    s.apply_stats(&sample(Some((1100, 460))));
    assert_eq!(s.cpu_usage, 40);
    assert_eq!(s.prev_cpu_times, Some((1100, 460)));
    // No time passed: the load stays, the reading is kept.
    s.apply_stats(&sample(Some((1100, 470))));
    assert_eq!(s.cpu_usage, 40);
    assert_eq!(s.prev_cpu_times, Some((1100, 470)));
    // Counters that went back count as no time passed.
    s.apply_stats(&sample(Some((900, 100))));
    assert_eq!(s.cpu_usage, 40);
    // An unreadable reading keeps everything.
    s.apply_stats(&sample(None));
    assert_eq!(s.prev_cpu_times, Some((900, 100)));
}

#[test]
fn samples_out_of_range_are_refused() {
    let s = NothingUiState::new();
    let more_available = StatsSample { uptime_secs: 0, memory: Some((10, 11)), battery: None, cpu_times: None };
    assert!(!s.sample_fits(&more_available));
    let huge = StatsSample { uptime_secs: 0, memory: Some((u64::MAX, 0)), battery: None, cpu_times: None };
    assert!(!s.sample_fits(&huge));
    let mut t = NothingUiState::new();
    t.prev_cpu_times = Some((100, 10));
    let idle_outgrew_total = sample(Some((110, 30)));
    assert!(!t.sample_fits(&idle_outgrew_total));
    assert!(t.sample_fits(&sample(Some((110, 15)))));
    assert!(s.sample_fits(&sample(Some((110, 30)))));
}

#[test]
fn clicks_outside_dashboard_mode_need_no_size_bound() {
    let mut s = NothingUiState::new();
    s.ui_mode = UiMode::AppLauncher;
    assert!(!s.handle_click(900, 300, u32::MAX, u32::MAX));
    assert!(s.wifi_enabled && s.dark_mode);
}
