//! The decisions of the desktop shell: where the quick window goes, what closing or leaving
//! a window does, which tray entry does what, and how a settings change is applied.

use vstd::prelude::*;
use crate::json::append;
use crate::models::{AppSettings, AppSettingsV, Note};
use crate::text::str_eq;

verus! {

// ---------------------------------------------------------------------------
// Placing the quick window.
// ---------------------------------------------------------------------------

/// Half of `d`, rounded toward zero (as `i32` division does).
pub open spec fn half_toward_zero(d: int) -> int {
    if d >= 0 {
        d / 2
    } else {
        -((-d) / 2)
    }
}

pub open spec fn clamp_spec(x: int, lo: int, hi: int) -> int {
    if x < lo {
        lo
    } else if x > hi {
        hi
    } else {
        x
    }
}

/// Where a window of length `size` starts on an axis of a work area that starts at `start`
/// and has length `length`: centered, kept inside the area, and at its start when it does
/// not fit.
pub open spec fn centered(start: int, length: int, size: int) -> int {
    let hi = start + length - size;
    clamp_spec(start + half_toward_zero(length - size), start, if hi > start {
        hi
    } else {
        start
    })
}

/// The arithmetic of one axis stays within `i32`.
pub open spec fn axis_fits(start: i32, length: u32, size: u32) -> bool {
    &&& length <= i32::MAX
    &&& size <= i32::MAX
    &&& i32::MIN <= start + length <= i32::MAX
    &&& i32::MIN <= start + length - size <= i32::MAX
    &&& i32::MIN <= start + half_toward_zero(length - size) <= i32::MAX
}

fn center_axis(start: i32, length: u32, size: u32) -> (r: i32)
    requires
        axis_fits(start, length, size),
    ensures
        r == centered(start as int, length as int, size as int),
{
    let l = length as i32;
    let s = size as i32;
    let d = l - s;
    let x = start + d / 2;
    let max_x = start + l - s;
    let hi = if max_x > start {
        max_x
    } else {
        start
    };
    if x < start {
        start
    } else if x > hi {
        hi
    } else {
        x
    }
}

/// The position of the quick window in a work area at (`x`, `y`) of `width` by `height`,
/// for a window of `win_width` by `win_height`.
pub fn quick_window_position(
    x: i32,
    y: i32,
    width: u32,
    height: u32,
    win_width: u32,
    win_height: u32,
) -> (r: (i32, i32))
    requires
        axis_fits(x, width, win_width),
        axis_fits(y, height, win_height),
    ensures
        r.0 == centered(x as int, width as int, win_width as int),
        r.1 == centered(y as int, height as int, win_height as int),
{
    (center_axis(x, width, win_width), center_axis(y, height, win_height))
}

/// The quick window is centered on the cursor's screen unless it is pinned; when the
/// settings cannot be read it counts as not pinned.
pub fn quick_window_recenters(pinned: Option<bool>) -> (r: bool)
    ensures
        r == !(pinned == Some(true)),
{
    match pinned {
        Some(p) => !p,
        None => true,
    }
}

// ---------------------------------------------------------------------------
// Window events.
// ---------------------------------------------------------------------------

/// What a request to close a window asks for: the quick window asks to be toggled; the
/// main window asks to hide to the tray when the close behavior is `tray` or the settings
/// cannot be read, else to quit.
pub open spec fn close_event_spec(label: Seq<char>, close_behavior: Option<Seq<char>>) -> Option<Seq<char>> {
    if label == "quick"@ {
        Some("quick:toggle-request"@)
    } else if label == "main"@ {
        let to_tray = match close_behavior {
            Some(b) => b == "tray"@,
            None => true,
        };
        if to_tray {
            Some("main:hide-request"@)
        } else {
            Some("app:quit-request"@)
        }
    } else {
        None
    }
}

/// The event a close request emits, if any; `close_behavior` is `None` when the settings
/// cannot be read.
pub fn close_event(label: &str, close_behavior: Option<&str>) -> (r: Option<String>)
    ensures
        crate::json::opt_view(r) == close_event_spec(label@, match close_behavior {
            Some(b) => Some(b@),
            None => None,
        }),
{
    if str_eq(label, "quick") {
        Some("quick:toggle-request".to_owned())
    } else if str_eq(label, "main") {
        let to_tray = match close_behavior {
            Some(b) => str_eq(b, "tray"),
            None => true,
        };
        if to_tray {
            Some("main:hide-request".to_owned())
        } else {
            Some("app:quit-request".to_owned())
        }
    } else {
        None
    }
}

/// Whether the quick window hides itself when it loses focus: only when the store is open,
/// and then when hiding on blur is on and the window is not pinned, or the settings cannot
/// be read (`settings` is `None`).
pub open spec fn hides_on_blur_spec(label: Seq<char>, store_open: bool, settings: Option<(bool, bool)>) -> bool {
    label == "quick"@ && store_open && (match settings {
        Some((hide, pinned)) => (hide && !pinned),
        None => true,
    })
}

/// Whether losing focus toggles the quick window away; `settings` holds
/// (`hide_on_blur`, `quick_pinned`) when they can be read.
pub fn hides_on_blur(label: &str, store_open: bool, settings: Option<(bool, bool)>) -> (r: bool)
    ensures
        r == hides_on_blur_spec(label@, store_open, settings),
{
    if !str_eq(label, "quick") || !store_open {
        return false;
    }
    match settings {
        Some((hide, pinned)) => (hide && !pinned),
        None => true,
    }
}

/// Whether the app starts hidden: when launched with `--background`.
pub fn starts_hidden(args: &Vec<String>) -> (r: bool)
    ensures
        r == exists|i: int| 0 <= i < args@.len() && #[trigger] args@[i]@ == "--background"@,
{
    let mut i: usize = 0;
    while i < args.len()
        invariant
            i <= args.len(),
            forall|j: int| 0 <= j < i ==> #[trigger] args@[j]@ != "--background"@,
        decreases args.len() - i,
    {
        if str_eq(args[i].as_str(), "--background") {
            return true;
        }
        i = i + 1;
    }
    false
}

/// What a save tells the other windows: a changed note, unless the save met a conflict.
pub fn save_announces_change(status: &str) -> (r: bool)
    ensures
        r == (status@ != "conflict"@),
{
    !str_eq(status, "conflict")
}

// ---------------------------------------------------------------------------
// The tray and the global shortcut.
// ---------------------------------------------------------------------------

/// What a tray menu entry or a toggle does.
#[derive(Clone, Copy, Debug, PartialEq, Eq, Structural)]
pub enum ShellAction {
    /// Shows the quick window, with a new note when `true`.
    ShowQuick(bool),
    /// Shows the main window.
    ShowMain,
    /// Shows the main window on the settings page.
    ShowSettings,
    /// Shows the quick window, or asks it to hide when it is visible.
    ToggleQuick,
    /// Asks the app to quit.
    Quit,
}

/// The action of a tray menu entry.
pub open spec fn tray_action_spec(id: Seq<char>) -> Option<ShellAction> {
    if id == "quick_new"@ {
        Some(ShellAction::ShowQuick(true))
    } else if id == "open_main"@ {
        Some(ShellAction::ShowMain)
    } else if id == "toggle_quick"@ {
        Some(ShellAction::ToggleQuick)
    } else if id == "settings"@ {
        Some(ShellAction::ShowSettings)
    } else if id == "quit"@ {
        Some(ShellAction::Quit)
    } else {
        None
    }
}

pub fn tray_action(id: &str) -> (r: Option<ShellAction>)
    ensures
        r == tray_action_spec(id@),
{
    if str_eq(id, "quick_new") {
        Some(ShellAction::ShowQuick(true))
    } else if str_eq(id, "open_main") {
        Some(ShellAction::ShowMain)
    } else if str_eq(id, "toggle_quick") {
        Some(ShellAction::ToggleQuick)
    } else if str_eq(id, "settings") {
        Some(ShellAction::ShowSettings)
    } else if str_eq(id, "quit") {
        Some(ShellAction::Quit)
    } else {
        None
    }
}

/// What toggling the quick window does: a visible window is asked to hide (it may hold
/// unsaved text), a hidden one is shown. Visibility that cannot be read counts as hidden.
pub fn toggle_asks_to_hide(visible: Option<bool>) -> (r: bool)
    ensures
        r == (visible == Some(true)),
{
    match visible {
        Some(v) => v,
        None => false,
    }
}

// ---------------------------------------------------------------------------
// Applying new settings.
// ---------------------------------------------------------------------------

/// The steps of a settings change: register the new shortcut (when it changed), switch
/// autostart (when it changed), and, after the settings are stored, release the old
/// shortcut (when it changed). If switching autostart fails, the newly registered shortcut
/// is released again.
pub struct SettingsPlan {
    pub register: Option<String>,
    pub autostart: Option<bool>,
    pub release_on_failure: Option<String>,
    pub release_after: Option<String>,
}

pub struct SettingsPlanV {
    pub register: Option<Seq<char>>,
    pub autostart: Option<bool>,
    pub release_on_failure: Option<Seq<char>>,
    pub release_after: Option<Seq<char>>,
}

impl View for SettingsPlan {
    type V = SettingsPlanV;

    open spec fn view(&self) -> SettingsPlanV {
        SettingsPlanV {
            register: crate::json::opt_view(self.register),
            autostart: self.autostart,
            release_on_failure: crate::json::opt_view(self.release_on_failure),
            release_after: crate::json::opt_view(self.release_after),
        }
    }
}

pub open spec fn settings_plan_spec(previous: AppSettingsV, next: AppSettingsV) -> SettingsPlanV {
    let new_key = previous.shortcut != next.shortcut;
    SettingsPlanV {
        register: if new_key {
            Some(next.shortcut)
        } else {
            None
        },
        autostart: if previous.autostart != next.autostart {
            Some(next.autostart)
        } else {
            None
        },
        release_on_failure: if new_key {
            Some(next.shortcut)
        } else {
            None
        },
        release_after: if new_key {
            Some(previous.shortcut)
        } else {
            None
        },
    }
}

/// The steps that take the shell from the stored settings to new ones.
pub fn settings_plan(previous: &AppSettings, next: &AppSettings) -> (r: SettingsPlan)
    ensures
        r@ == settings_plan_spec(previous@, next@),
{
    let new_key = !str_eq(previous.shortcut.as_str(), next.shortcut.as_str());
    SettingsPlan {
        register: if new_key {
            Some(next.shortcut.clone())
        } else {
            None
        },
        autostart: if previous.autostart != next.autostart {
            Some(next.autostart)
        } else {
            None
        },
        release_on_failure: if new_key {
            Some(next.shortcut.clone())
        } else {
            None
        },
        release_after: if new_key {
            Some(previous.shortcut.clone())
        } else {
            None
        },
    }
}

/// The message when the new shortcut cannot be registered.
pub fn shortcut_error(reason: &str) -> (r: String)
    ensures
        r@ == "快捷键不可用："@ + reason@,
{
    let mut s = "快捷键不可用：".to_owned();
    append(&mut s, reason);
    s
}

/// The message when autostart cannot be switched.
pub fn autostart_error(reason: &str) -> (r: String)
    ensures
        r@ == "更新开机启动失败："@ + reason@,
{
    let mut s = "更新开机启动失败：".to_owned();
    append(&mut s, reason);
    s
}

// ---------------------------------------------------------------------------
// Reminders.
// ---------------------------------------------------------------------------

/// Where reminders for due dates will be scheduled.
pub trait ReminderScheduler {
    fn schedule(&self, note: &Note) -> Result<(), String>;

    fn cancel(&self, note_id: &str) -> Result<(), String>;
}

/// A scheduler that schedules nothing.
pub struct NoopReminderScheduler;

impl ReminderScheduler for NoopReminderScheduler {
    fn schedule(&self, note: &Note) -> (r: Result<(), String>)
        ensures
            r is Ok,
    {
        Ok(())
    }

    fn cancel(&self, note_id: &str) -> (r: Result<(), String>)
        ensures
            r is Ok,
    {
        Ok(())
    }
}

} // verus!
