//! The decisions the compositor takes on keyboard and pointer input: which
//! shortcut a key press triggers, which window receives focus next, what a
//! pointer button press does, and how each shortcut changes the UI mode and
//! the layout mode.

use vstd::prelude::*;
use crate::state::UiMode;
use crate::layout::{LayoutMode, toggle_layout_mode, toggled_mode};

verus! {

/// The keys that take part in a Super shortcut.
#[derive(Clone, Copy, PartialEq, Eq, Debug, Structural)]
pub enum ShortcutKey {
    Q,
    Return,
    T,
    J,
    K,
    D,
    A,
    S,
    Other,
}

/// What a Super shortcut asks for.
#[derive(Clone, Copy, PartialEq, Eq, Debug, Structural)]
pub enum ShortcutAction {
    /// Super + Q: ask the focused window to close.
    CloseFocused,
    /// Super + Enter: start a terminal.
    SpawnTerminal,
    /// Super + T: switch between floating and tiled layout.
    ToggleLayout,
    /// Super + J: focus the next window.
    FocusNext,
    /// Super + K: focus the previous window.
    FocusPrevious,
    /// Super + D: show or hide the dashboard.
    ToggleDashboard,
    /// Super + A: show or hide the app launcher.
    ToggleAppLauncher,
    /// Super + S: show or hide the quick settings.
    ToggleQuickSettings,
}

/// The shortcut that a key event triggers: only a key press with the Super
/// (logo) modifier held triggers one, and only for the shortcut keys.
pub open spec fn spec_shortcut(pressed: bool, logo: bool, key: ShortcutKey) -> Option<ShortcutAction> {
    if !(pressed && logo) {
        None
    } else {
        match key {
            ShortcutKey::Q => Some(ShortcutAction::CloseFocused),
            ShortcutKey::Return => Some(ShortcutAction::SpawnTerminal),
            ShortcutKey::T => Some(ShortcutAction::ToggleLayout),
            ShortcutKey::J => Some(ShortcutAction::FocusNext),
            ShortcutKey::K => Some(ShortcutAction::FocusPrevious),
            ShortcutKey::D => Some(ShortcutAction::ToggleDashboard),
            ShortcutKey::A => Some(ShortcutAction::ToggleAppLauncher),
            ShortcutKey::S => Some(ShortcutAction::ToggleQuickSettings),
            ShortcutKey::Other => None,
        }
    }
}

/// The shortcut that a key event triggers; `None` means the key goes on to
/// the focused client.
pub fn shortcut_action(pressed: bool, logo: bool, key: ShortcutKey) -> (action: Option<ShortcutAction>)
    ensures
        action == spec_shortcut(pressed, logo, key),
{
    if !(pressed && logo) {
        return None;
    }
    match key {
        ShortcutKey::Q => Some(ShortcutAction::CloseFocused),
        ShortcutKey::Return => Some(ShortcutAction::SpawnTerminal),
        ShortcutKey::T => Some(ShortcutAction::ToggleLayout),
        ShortcutKey::J => Some(ShortcutAction::FocusNext),
        ShortcutKey::K => Some(ShortcutAction::FocusPrevious),
        ShortcutKey::D => Some(ShortcutAction::ToggleDashboard),
        ShortcutKey::A => Some(ShortcutAction::ToggleAppLauncher),
        ShortcutKey::S => Some(ShortcutAction::ToggleQuickSettings),
        ShortcutKey::Other => None,
    }
}

/// The UI mode after a shortcut: the dashboard shortcut leaves the dashboard
/// from desktop mode and returns to the desktop from every other mode; the
/// app launcher and quick settings shortcuts close their own overlay and
/// open it from every other mode; other shortcuts keep the mode.
pub open spec fn spec_ui_mode_after(mode: UiMode, action: ShortcutAction) -> UiMode {
    match action {
        ShortcutAction::ToggleDashboard => if mode == UiMode::Desktop {
            UiMode::Dashboard
        } else {
            UiMode::Desktop
        },
        ShortcutAction::ToggleAppLauncher => if mode == UiMode::AppLauncher {
            UiMode::Desktop
        } else {
            UiMode::AppLauncher
        },
        ShortcutAction::ToggleQuickSettings => if mode == UiMode::QuickSettings {
            UiMode::Desktop
        } else {
            UiMode::QuickSettings
        },
        _ => mode,
    }
}

/// The UI mode after a shortcut, as `spec_ui_mode_after` states it.
pub fn ui_mode_after(mode: UiMode, action: ShortcutAction) -> (next: UiMode)
    ensures
        next == spec_ui_mode_after(mode, action),
{
    match action {
        ShortcutAction::ToggleDashboard => match mode {
            UiMode::Desktop => UiMode::Dashboard,
            _ => UiMode::Desktop,
        },
        ShortcutAction::ToggleAppLauncher => match mode {
            UiMode::AppLauncher => UiMode::Desktop,
            _ => UiMode::AppLauncher,
        },
        ShortcutAction::ToggleQuickSettings => match mode {
            UiMode::QuickSettings => UiMode::Desktop,
            _ => UiMode::QuickSettings,
        },
        _ => mode,
    }
}

/// The layout mode after a shortcut: the layout shortcut switches it, every
/// other shortcut keeps it.
pub fn layout_mode_after(mode: LayoutMode, action: ShortcutAction) -> (next: LayoutMode)
    ensures
        next == (if action == ShortcutAction::ToggleLayout {
            toggled_mode(mode)
        } else {
            mode
        }),
{
    match action {
        ShortcutAction::ToggleLayout => toggle_layout_mode(mode),
        _ => mode,
    }
}

/// Pressing an overlay shortcut twice from the desktop, or from that
/// shortcut's own overlay, comes back to where one started; from the
/// desktop, each overlay shortcut opens its overlay.
pub proof fn lemma_overlay_shortcut_twice(mode: UiMode, action: ShortcutAction)
    requires
        action == ShortcutAction::ToggleDashboard || action == ShortcutAction::ToggleAppLauncher || action
            == ShortcutAction::ToggleQuickSettings,
        mode == UiMode::Desktop || mode == spec_ui_mode_after(UiMode::Desktop, action),
    ensures
        spec_ui_mode_after(spec_ui_mode_after(mode, action), action) == mode,
        spec_ui_mode_after(UiMode::Desktop, action) != UiMode::Desktop,
{
}

/// The index of the window that receives focus when cycling by `direction`
/// through `count` windows: the focused window's index plus `direction`,
/// wrapped around the list (Euclidean remainder); the first window when
/// none of them has focus.
pub open spec fn spec_next_focus(current: Option<usize>, direction: int, count: int) -> int {
    match current {
        Some(idx) => (idx + direction) % count,
        None => 0,
    }
}

/// The index of the window to focus next, as `spec_next_focus` states it.
pub fn next_focus_index(current: Option<usize>, direction: i32, count: usize) -> (next: usize)
    requires
        1 <= count <= i32::MAX,
        current matches Some(idx) ==> idx < count && i32::MIN <= idx + direction <= i32::MAX,
    ensures
        next == spec_next_focus(current, direction as int, count as int),
        next < count,
{
    match current {
        Some(idx) => {
            let s: i64 = idx as i64 + direction as i64;
            let n: i64 = count as i64;
            if s >= 0 {
                (s % n) as usize
            } else {
                let m: i64 = (-s) % n;
                proof {
                    let a = -(s as int);
                    let nn = n as int;
                    let qq = a / nn;
                    vstd::arithmetic::div_mod::lemma_fundamental_div_mod(a, nn);
                    vstd::arithmetic::div_mod::lemma_mod_pos_bound(a, nn);
                    assert(m == a % nn);
                    assert(a == nn * qq + m);
                    if m == 0 {
                        assert(s as int == (-qq) * nn + 0) by (nonlinear_arith)
                            requires a == nn * qq + 0, a == -(s as int);
                        vstd::arithmetic::div_mod::lemma_fundamental_div_mod_converse(s as int, nn, -qq, 0);
                    } else {
                        assert(s as int == (-qq - 1) * nn + (nn - m)) by (nonlinear_arith)
                            requires a == nn * qq + m, a == -(s as int);
                        vstd::arithmetic::div_mod::lemma_fundamental_div_mod_converse(s as int, nn, -qq - 1, nn - m);
                    }
                }
                if m == 0 {
                    0
                } else {
                    (n - m) as usize
                }
            }
        },
        None => 0,
    }
}

/// Focusing the next window and then the previous one returns focus to the
/// window one started from.
pub proof fn lemma_focus_next_then_previous(idx: int, count: int)
    requires
        0 <= idx < count,
        count <= i32::MAX,
    ensures
        spec_next_focus(Some((spec_next_focus(Some(idx as usize), 1, count)) as usize), -1, count) == idx,
{
    if idx + 1 < count {
        vstd::arithmetic::div_mod::lemma_small_mod((idx + 1) as nat, count as nat);
        vstd::arithmetic::div_mod::lemma_small_mod(idx as nat, count as nat);
    } else {
        vstd::arithmetic::div_mod::lemma_mod_self_0(count);
        assert((idx + 1) % count == 0);
        vstd::arithmetic::div_mod::lemma_fundamental_div_mod_converse(-1, count, -1, count - 1);
        assert(((0usize as int) + (-1)) % count == count - 1);
    }
}

/// Focusing the previous window and then the next one returns focus to the
/// window one started from.
pub proof fn lemma_focus_previous_then_next(idx: int, count: int)
    requires
        0 <= idx < count,
        count <= i32::MAX,
    ensures
        spec_next_focus(Some((spec_next_focus(Some(idx as usize), -1, count)) as usize), 1, count) == idx,
{
    if idx > 0 {
        vstd::arithmetic::div_mod::lemma_small_mod((idx - 1) as nat, count as nat);
        vstd::arithmetic::div_mod::lemma_small_mod(idx as nat, count as nat);
    } else {
        vstd::arithmetic::div_mod::lemma_fundamental_div_mod_converse(-1, count, -1, count - 1);
        assert((idx + (-1)) % count == count - 1);
        vstd::arithmetic::div_mod::lemma_mod_self_0(count);
        assert(((count - 1) + 1) % count == 0);
    }
}

/// The value of the left mouse button in pointer button events.
pub const BTN_LEFT: u32 = 0x110;

/// What a pointer button event does.
#[derive(Clone, Copy, PartialEq, Eq, Debug, Structural)]
pub enum ButtonAction {
    /// An overlay is shown and the left button went down: the click goes to
    /// the overlay's widgets; nothing goes on to clients.
    OverlayClick,
    /// An overlay is shown: any other button event is swallowed.
    OverlayIgnore,
    /// Start dragging the window under the pointer; nothing goes on to clients.
    StartMove,
    /// Raise and focus the window under the pointer, then pass the event on.
    RaiseAndFocus,
    /// Clear keyboard focus (the background was clicked), then pass the event on.
    ClearFocus,
    /// Pass the event on to the client under the pointer.
    Forward,
}

/// What a button event does, given the UI mode, whether the button went
/// down, which button it is, whether a pointer grab is active, the top edge
/// of the window under the pointer (if any), the pointer's vertical position
/// rounded down, and whether Super is held: a press of the left button on a
/// window drags it when Super is held or the press lies in the window's top
/// 32 pixels (its title bar).
pub open spec fn spec_button_action(
    mode: UiMode,
    pressed: bool,
    button: u32,
    grabbed: bool,
    window_top: Option<i32>,
    pointer_y_floor: int,
    logo: bool,
) -> ButtonAction {
    if mode != UiMode::Desktop {
        if pressed && button == BTN_LEFT {
            ButtonAction::OverlayClick
        } else {
            ButtonAction::OverlayIgnore
        }
    } else if pressed && !grabbed {
        match window_top {
            Some(top) => if (logo || pointer_y_floor - top < 32) && button == BTN_LEFT {
                ButtonAction::StartMove
            } else {
                ButtonAction::RaiseAndFocus
            },
            None => ButtonAction::ClearFocus,
        }
    } else {
        ButtonAction::Forward
    }
}

/// What a button event does, as `spec_button_action` states it.
pub fn button_action(
    mode: UiMode,
    pressed: bool,
    button: u32,
    grabbed: bool,
    window_top: Option<i32>,
    pointer_y_floor: i64,
    logo: bool,
) -> (action: ButtonAction)
    ensures
        action == spec_button_action(mode, pressed, button, grabbed, window_top, pointer_y_floor as int, logo),
{
    if mode != UiMode::Desktop {
        if pressed && button == BTN_LEFT {
            return ButtonAction::OverlayClick;
        }
        return ButtonAction::OverlayIgnore;
    }
    if pressed && !grabbed {
        match window_top {
            Some(top) => {
                let in_title_bar = (pointer_y_floor as i128) - (top as i128) < 32;
                if (logo || in_title_bar) && button == BTN_LEFT {
                    ButtonAction::StartMove
                } else {
                    ButtonAction::RaiseAndFocus
                }
            },
            None => ButtonAction::ClearFocus,
        }
    } else {
        ButtonAction::Forward
    }
}

/// Whether pointer motion looks for a client surface under the pointer:
/// only on the desktop; while an overlay is shown no client gets pointer
/// focus.
pub fn pointer_reaches_clients(mode: UiMode) -> (reaches: bool)
    ensures
        reaches == (mode == UiMode::Desktop),
{
    mode == UiMode::Desktop
}

/// Whether a window drag ends after a button event: it ends once the left
/// button is no longer among the pressed buttons.
pub fn move_grab_released(pressed_buttons: &Vec<u32>) -> (released: bool)
    ensures
        released == !pressed_buttons@.contains(BTN_LEFT),
{
    let mut k: usize = 0;
    while k < pressed_buttons.len()
        invariant
            k <= pressed_buttons.len(),
            forall|j: int| 0 <= j < k ==> pressed_buttons@[j] != BTN_LEFT,
        decreases pressed_buttons.len() - k,
    {
        if pressed_buttons[k] == BTN_LEFT {
            return false;
        }
        k = k + 1;
    }
    true
}

/// The shortcut table: with Super held, a press of Q closes the focused
/// window, Enter starts a terminal, T switches the layout, J and K focus
/// the next and the previous window, and D, A and S open (from the
/// desktop) the dashboard, the app launcher and the quick settings.
pub proof fn lemma_shortcut_table()
    ensures
        spec_shortcut(true, true, ShortcutKey::Q) == Some(ShortcutAction::CloseFocused),
        spec_shortcut(true, true, ShortcutKey::Return) == Some(ShortcutAction::SpawnTerminal),
        spec_shortcut(true, true, ShortcutKey::T) == Some(ShortcutAction::ToggleLayout),
        spec_shortcut(true, true, ShortcutKey::J) == Some(ShortcutAction::FocusNext),
        spec_shortcut(true, true, ShortcutKey::K) == Some(ShortcutAction::FocusPrevious),
        spec_shortcut(true, true, ShortcutKey::D) == Some(ShortcutAction::ToggleDashboard),
        spec_shortcut(true, true, ShortcutKey::A) == Some(ShortcutAction::ToggleAppLauncher),
        spec_shortcut(true, true, ShortcutKey::S) == Some(ShortcutAction::ToggleQuickSettings),
        spec_ui_mode_after(UiMode::Desktop, ShortcutAction::ToggleDashboard) == UiMode::Dashboard,
        spec_ui_mode_after(UiMode::Desktop, ShortcutAction::ToggleAppLauncher) == UiMode::AppLauncher,
        spec_ui_mode_after(UiMode::Desktop, ShortcutAction::ToggleQuickSettings) == UiMode::QuickSettings,
        forall|key: ShortcutKey| #[trigger] spec_shortcut(false, true, key) is None && spec_shortcut(true, false, key) is None,
        forall|mode: UiMode, a: ShortcutAction|
            a != ShortcutAction::ToggleDashboard && a != ShortcutAction::ToggleAppLauncher && a
                != ShortcutAction::ToggleQuickSettings ==> #[trigger] spec_ui_mode_after(mode, a) == mode,
{
}

} // verus!
