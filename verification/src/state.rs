//! The UI state of the desktop: the active overlay, the toggles of the
//! dashboard and quick settings, and the system figures that the widgets show.

use vstd::prelude::*;

verus! {

/// The overlay that covers the desktop, if any.
#[derive(Clone, Copy, PartialEq, Eq, Debug, Structural)]
pub enum UiMode {
    Desktop,
    Dashboard,
    AppLauncher,
    QuickSettings,
}

/// Everything the UI scenes show and the dashboard toggles change.
pub struct NothingUiState {
    pub ui_mode: UiMode,
    pub cpu_usage: u8,
    pub mem_usage: u8,
    pub battery_percentage: u8,
    pub battery_charging: bool,
    pub uptime_secs: u64,
    pub wifi_enabled: bool,
    pub dark_mode: bool,
    pub prev_cpu_times: Option<(u64, u64)>,
    pub music_playing: bool,
    pub music_track_index: usize,
    pub bluetooth_enabled: bool,
    pub volume: u8,
    pub brightness: u8,
    pub active_workspace: u8,
    pub frame_count: u64,
}

/// Which dashboard toggle, if any, a click lands on.
#[derive(Clone, Copy, PartialEq, Eq, Debug, Structural)]
pub enum DashboardHit {
    Wifi,
    Dark,
    Nothing,
}

/// `v` as the two's-complement `i32` of the same 32 bits.
pub open spec fn as_i32(v: u32) -> int {
    if v <= i32::MAX {
        v as int
    } else {
        v - 0x1_0000_0000
    }
}

/// `v / 2` rounded toward zero.
pub open spec fn half_toward_zero(v: int) -> int {
    if v >= 0 {
        v / 2
    } else {
        -((-v) / 2)
    }
}

/// Left edge of the dashboard's 780 x 380 widget grid, centred in a screen
/// `width` pixels wide.
pub open spec fn dashboard_left(width: u32) -> int {
    half_toward_zero(as_i32(width) - 780)
}

/// Top edge of the dashboard's widget grid, centred in a screen `height`
/// pixels high.
pub open spec fn dashboard_top(height: u32) -> int {
    half_toward_zero(as_i32(height) - 380)
}

/// The toggle under (x, y): the Wi-Fi tile is the 180 x 180 square in the
/// fourth column (600 pixels right of the grid's left edge) of the first row,
/// the dark-mode tile the square below it, 200 pixels lower.
pub open spec fn dashboard_hit(x: int, y: int, width: u32, height: u32) -> DashboardHit {
    let col3_x = dashboard_left(width) + 600;
    let row0_y = dashboard_top(height);
    let row1_y = dashboard_top(height) + 200;
    if col3_x <= x < col3_x + 180 && row0_y <= y < row0_y + 180 {
        DashboardHit::Wifi
    } else if col3_x <= x < col3_x + 180 && row1_y <= y < row1_y + 180 {
        DashboardHit::Dark
    } else {
        DashboardHit::Nothing
    }
}

/// The state after a click at (x, y) on a screen of the given size, and
/// whether the click toggled something: in dashboard mode a click on the
/// Wi-Fi tile flips Wi-Fi and one on the dark-mode tile flips dark mode;
/// every other click changes nothing.
pub open spec fn click_outcome(s: NothingUiState, x: int, y: int, width: u32, height: u32) -> (NothingUiState, bool) {
    if s.ui_mode != UiMode::Dashboard {
        (s, false)
    } else {
        match dashboard_hit(x, y, width, height) {
            DashboardHit::Wifi => (NothingUiState { wifi_enabled: !s.wifi_enabled, ..s }, true),
            DashboardHit::Dark => (NothingUiState { dark_mode: !s.dark_mode, ..s }, true),
            DashboardHit::Nothing => (s, false),
        }
    }
}

/// The inputs on which centring the dashboard grid stays within `i32`.
pub open spec fn dashboard_size_ok(width: u32, height: u32) -> bool {
    as_i32(width) - 780 >= i32::MIN && as_i32(height) - 380 >= i32::MIN
}

/// `v` read as a signed 32-bit integer.
fn to_i32(v: u32) -> (r: i32)
    ensures
        r == as_i32(v),
{
    if v <= 0x7fff_ffffu32 {
        v as i32
    } else {
        let low = (v - 0x8000_0000u32) as i32;
        low - 0x7fff_ffff - 1
    }
}

/// `v / 2` rounded toward zero.
fn halve(v: i32) -> (r: i32)
    ensures
        r == half_toward_zero(v as int),
{
    if v >= 0 {
        v / 2
    } else {
        let m: i64 = -(v as i64);
        let q: i64 = m / 2;
        -(q as i32)
    }
}

impl NothingUiState {
    /// The state at start-up: desktop mode, Wi-Fi and dark mode on, a full
    /// and charging battery, no figures measured yet, volume 80, brightness
    /// 70, the first workspace active.
    pub fn new() -> (s: Self)
        ensures
            s.ui_mode == UiMode::Desktop,
            s.cpu_usage == 0,
            s.mem_usage == 0,
            s.battery_percentage == 100,
            s.battery_charging,
            s.uptime_secs == 0,
            s.wifi_enabled,
            s.dark_mode,
            s.prev_cpu_times is None,
            !s.music_playing,
            s.music_track_index == 0,
            !s.bluetooth_enabled,
            s.volume == 80,
            s.brightness == 70,
            s.active_workspace == 1,
            s.frame_count == 0,
    {
        Self {
            ui_mode: UiMode::Desktop,
            cpu_usage: 0,
            mem_usage: 0,
            battery_percentage: 100,
            battery_charging: true,
            uptime_secs: 0,
            wifi_enabled: true,
            dark_mode: true,
            prev_cpu_times: None,
            music_playing: false,
            music_track_index: 0,
            bluetooth_enabled: false,
            volume: 80,
            brightness: 70,
            active_workspace: 1,
            frame_count: 0,
        }
    }

    /// Handles a click at (click_x, click_y) on a `width` x `height` screen;
    /// returns whether a dashboard toggle was hit (see `click_outcome`).
    pub fn handle_click(&mut self, click_x: i32, click_y: i32, width: u32, height: u32) -> (hit: bool)
        requires
            old(self).ui_mode == UiMode::Dashboard ==> dashboard_size_ok(width, height),
        ensures
            (*final(self), hit) == click_outcome(*old(self), click_x as int, click_y as int, width, height),
    {
        if self.ui_mode != UiMode::Dashboard {
            return false;
        }
        let dx_offset = halve(to_i32(width) - 780);
        let dy_offset = halve(to_i32(height) - 380);

        let col3_x = dx_offset + 600;
        let row0_y = dy_offset + 0;
        let row1_y = dy_offset + 200;

        if click_x >= col3_x && click_x < col3_x + 180 && click_y >= row0_y && click_y < row0_y + 180 {
            self.wifi_enabled = !self.wifi_enabled;
            return true;
        }
        if click_x >= col3_x && click_x < col3_x + 180 && click_y >= row1_y && click_y < row1_y + 180 {
            self.dark_mode = !self.dark_mode;
            return true;
        }
        false
    }
}

/// A click that toggles something, repeated at the same place, restores the
/// state: every dashboard toggle is its own inverse.
pub proof fn lemma_click_twice_restores(s: NothingUiState, x: int, y: int, width: u32, height: u32)
    ensures
        click_outcome(click_outcome(s, x, y, width, height).0, x, y, width, height).0 == s,
        click_outcome(click_outcome(s, x, y, width, height).0, x, y, width, height).1 == click_outcome(
            s,
            x,
            y,
            width,
            height,
        ).1,
{
}

/// The system figures measured for one refresh of the widgets.
#[derive(Clone, Copy, PartialEq, Eq, Debug)]
pub struct StatsSample {
    /// Seconds since boot (zero when unknown).
    pub uptime_secs: u64,
    /// (total, available) memory, `None` when it could not be read.
    pub memory: Option<(u64, u64)>,
    /// (charge in percent, on mains power) of the first battery, `None`
    /// when the machine has none.
    pub battery: Option<(u8, bool)>,
    /// (total, idle) CPU time counters, `None` when they could not be read.
    pub cpu_times: Option<(u64, u64)>,
}

/// Stats are refreshed at most every 500 ms, except until the first CPU
/// reading has been taken.
pub open spec fn refresh_due(s: NothingUiState, elapsed_ms: u64) -> bool {
    !(elapsed_ms < 500 && s.prev_cpu_times is Some)
}

/// `x - y`, or zero when `y` is larger.
pub open spec fn sat_sub(x: u64, y: u64) -> int {
    if x >= y {
        x - y
    } else {
        0
    }
}

/// The share, in percent, of `total` that is not `available`.
pub open spec fn used_percent(total: u64, available: u64) -> int {
    (total - available) * 100 / (total as int)
}

/// The CPU load, in percent, between two (total, idle) readings.
pub open spec fn busy_percent(now: (u64, u64), before: (u64, u64)) -> int {
    let dt = sat_sub(now.0, before.0);
    let di = sat_sub(now.1, before.1);
    (dt - di) * 100 / dt
}

/// The samples whose figures can be turned into percentages: available
/// memory no larger than the total, idle time grown no more than total
/// time, and the scaled differences within `u64`.
pub open spec fn sample_in_range(s: NothingUiState, x: StatsSample) -> bool {
    &&& match x.memory {
        Some((t, a)) => t > 0 ==> a <= t && (t - a) * 100 <= u64::MAX,
        None => true,
    }
    &&& match (x.cpu_times, s.prev_cpu_times) {
        (Some(now), Some(before)) => {
            let dt = sat_sub(now.0, before.0);
            let di = sat_sub(now.1, before.1);
            dt > 0 ==> di <= dt && (dt - di) * 100 <= u64::MAX
        },
        _ => true,
    }
}

/// The state after the figures of `x` are taken in: the uptime as given;
/// the memory use when memory was read and its total is not zero; the
/// battery reading, or a full, charging battery when there is none; the CPU
/// load between the last reading and this one when both exist and time has
/// passed; and this CPU reading kept for the next refresh.
pub open spec fn stats_applied(s: NothingUiState, x: StatsSample) -> NothingUiState {
    NothingUiState {
        uptime_secs: x.uptime_secs,
        mem_usage: match x.memory {
            Some((t, a)) => if t > 0 {
                used_percent(t, a) as u8
            } else {
                s.mem_usage
            },
            None => s.mem_usage,
        },
        battery_percentage: match x.battery {
            Some((p, _)) => p,
            None => 100,
        },
        battery_charging: match x.battery {
            Some((_, c)) => c,
            None => true,
        },
        cpu_usage: match (x.cpu_times, s.prev_cpu_times) {
            (Some(now), Some(before)) => if sat_sub(now.0, before.0) > 0 {
                busy_percent(now, before) as u8
            } else {
                s.cpu_usage
            },
            _ => s.cpu_usage,
        },
        prev_cpu_times: match x.cpu_times {
            Some(now) => Some(now),
            None => s.prev_cpu_times,
        },
        ..s
    }
}

impl NothingUiState {
    /// Advances the frame counter (wrapping) and says whether the system
    /// figures are due for a refresh, `elapsed_ms` milliseconds after the
    /// last one (see `refresh_due`).
    pub fn update(&mut self, elapsed_ms: u64) -> (due: bool)
        ensures
            *final(self) == (NothingUiState {
                frame_count: if old(self).frame_count == u64::MAX {
                    0
                } else {
                    (old(self).frame_count + 1) as u64
                },
                ..*old(self)
            }),
            due == refresh_due(*old(self), elapsed_ms),
    {
        self.frame_count = self.frame_count.wrapping_add(1);
        !(elapsed_ms < 500 && self.prev_cpu_times.is_some())
    }

    /// Whether the figures of `x` can be taken in (see `sample_in_range`).
    pub fn sample_fits(&self, x: &StatsSample) -> (ok: bool)
        ensures
            ok == sample_in_range(*self, *x),
    {
        let mem_ok = match x.memory {
            Some((t, a)) => t == 0 || (a <= t && (t - a) <= u64::MAX / 100),
            None => true,
        };
        let cpu_ok = match (x.cpu_times, self.prev_cpu_times) {
            (Some((tt, ti)), Some((pt, pi))) => {
                let dt = tt.saturating_sub(pt);
                let di = ti.saturating_sub(pi);
                dt == 0 || (di <= dt && (dt - di) <= u64::MAX / 100)
            },
            _ => true,
        };
        mem_ok && cpu_ok
    }

    /// Takes in the system figures of `x` (see `stats_applied`).
    pub fn apply_stats(&mut self, x: &StatsSample)
        requires
            sample_in_range(*old(self), *x),
        ensures
            *final(self) == stats_applied(*old(self), *x),
    {
        self.uptime_secs = x.uptime_secs;
        if let Some((total, available)) = x.memory {
            if total > 0 {
                self.mem_usage = (((total - available) * 100) / total) as u8;
            }
        }
        match x.battery {
            Some((percent, charging)) => {
                self.battery_percentage = percent;
                self.battery_charging = charging;
            },
            None => {
                self.battery_percentage = 100;
                self.battery_charging = true;
            },
        }
        if let Some((total, idle)) = x.cpu_times {
            if let Some((prev_total, prev_idle)) = self.prev_cpu_times {
                let diff_total = total.saturating_sub(prev_total);
                let diff_idle = idle.saturating_sub(prev_idle);
                if diff_total > 0 {
                    self.cpu_usage = (((diff_total - diff_idle) * 100) / diff_total) as u8;
                }
            }
            self.prev_cpu_times = Some((total, idle));
        }
    }
}

/// Memory and CPU use are percentages: taking in any sample keeps both at
/// most 100.
pub proof fn lemma_usage_stays_percent(s: NothingUiState, x: StatsSample)
    requires
        sample_in_range(s, x),
        s.cpu_usage <= 100,
        s.mem_usage <= 100,
    ensures
        stats_applied(s, x).cpu_usage <= 100,
        stats_applied(s, x).mem_usage <= 100,
{
    if let Some((t, a)) = x.memory {
        if t > 0 {
            assert((t - a) * 100 / (t as int) <= 100) by (nonlinear_arith)
                requires a <= t, t > 0;
        }
    }
    if let (Some(now), Some(before)) = (x.cpu_times, s.prev_cpu_times) {
        let dt = sat_sub(now.0, before.0);
        let di = sat_sub(now.1, before.1);
        if dt > 0 {
            assert((dt - di) * 100 / dt <= 100) by (nonlinear_arith)
                requires 0 <= di <= dt, dt > 0;
        }
    }
}

/// Once a CPU reading has been taken in, the next refresh waits 500 ms:
/// after any sample that holds one, a refresh is due exactly when at least
/// 500 ms have passed.
pub proof fn lemma_refresh_throttled(s: NothingUiState, x: StatsSample, elapsed_ms: u64)
    requires
        x.cpu_times is Some,
    ensures
        refresh_due(stats_applied(s, x), elapsed_ms) == (elapsed_ms >= 500),
{
}

/// Until the first CPU reading is taken in, every frame refreshes.
pub proof fn lemma_first_refresh_immediate(s: NothingUiState, elapsed_ms: u64)
    requires
        s.prev_cpu_times is None,
    ensures
        refresh_due(s, elapsed_ms),
{
}

} // verus!
