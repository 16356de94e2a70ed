//! The numbers by which the window system and this program name messages,
//! timers and commands.
use vstd::prelude::*;

verus! {

/// The window is to be destroyed.
pub const WM_DESTROY: u32 = 2;

/// The window is to be painted.
pub const WM_PAINT: u32 = 15;

/// The background is to be erased.
pub const WM_ERASEBKGND: u32 = 20;

/// Which part of the window is under the cursor?
pub const WM_NCHITTEST: u32 = 132;

/// A menu item was chosen.
pub const WM_COMMAND: u32 = 273;

/// A timer fired.
pub const WM_TIMER: u32 = 275;

/// The left mouse button was released.
pub const WM_LBUTTONUP: u32 = 514;

/// The right mouse button was released.
pub const WM_RBUTTONUP: u32 = 517;

/// The power state changed.
pub const WM_POWERBROADCAST: u32 = 536;

/// A refresh was asked for from the menu.
pub const WM_APP_REFRESH: u32 = 32769;

/// Quitting was asked for from the menu.
pub const WM_APP_QUIT: u32 = 32770;

/// A refresh ended; it failed where the parameter is 0.
pub const WM_APP_RETRY: u32 = 32771;

/// Something happened to the tray icon.
pub const WM_TRAY: u32 = 32778;

/// The computer resumed after a user or an event woke it.
pub const PBT_APMRESUMESUSPEND: usize = 7;

/// The computer resumed by itself.
pub const PBT_APMRESUMEAUTOMATIC: usize = 18;

/// The menu command that refreshes.
pub const CMD_REFRESH: u32 = 1001;

/// The menu command that exits.
pub const CMD_EXIT: u32 = 1002;

/// The periodic refresh.
pub const TIMER_REFRESH: usize = 1;

/// The refresh shortly after startup.
pub const TIMER_STARTUP: usize = 2;

/// The refresh after the computer woke up.
pub const TIMER_WAKE_REFRESH: usize = 3;

/// The fast retry after a failed refresh.
pub const TIMER_RETRY: usize = 4;

/// The low word of a message parameter.
pub open spec fn low_word(param: usize) -> u32 {
    (param % 0x1_0000) as u32
}

/// The low word of a message parameter.
pub fn low_word_of(param: usize) -> (r: u32)
    ensures
        r == low_word(param),
{
    (param % 0x1_0000) as u32
}

} // verus!
