//! The system tray icon: its tooltip, its menu, and what clicks on it do.
use crate::codes::{low_word, low_word_of, CMD_EXIT, CMD_REFRESH, WM_LBUTTONUP, WM_RBUTTONUP, WM_TRAY};
use crate::text::{to_wide, utf16};
use vstd::prelude::*;

verus! {

/// The text of the tooltip.
pub const TIP: &'static str = "Codex Usage";

/// What a slot of `capacity` units holds for the tooltip `text`: as much of the
/// text as leaves room for a terminating zero, and zeros.
pub open spec fn tip_units(text: Seq<char>, capacity: nat) -> Seq<u16> {
    Seq::new(
        capacity,
        |i: int|
            if i < capacity - 1 && i < utf16(text).len() {
                utf16(text)[i]
            } else {
                0
            },
    )
}

/// Fills a slot of `capacity` units with the tooltip `text`.
pub fn tooltip(text: &str, capacity: usize) -> (r: Vec<u16>)
    requires
        capacity > 0,
    ensures
        r@ == tip_units(text@, capacity as nat),
{
    let tip = to_wide(text);
    let mut slot: Vec<u16> = Vec::new();
    let mut i: usize = 0;
    while i < capacity
        invariant
            i <= capacity,
            capacity > 0,
            tip@ == utf16(text@).push(0),
            slot@ == tip_units(text@, capacity as nat).take(i as int),
        decreases capacity - i,
    {
        let unit: u16 = if i < capacity - 1 && i < tip.len() {
            tip[i]
        } else {
            0
        };
        slot.push(unit);
        proof {
            let whole = tip_units(text@, capacity as nat);
            assert(whole.take(i + 1) =~= whole.take(i as int).push(whole[i as int]));
        }
        i = i + 1;
    }
    proof {
        let whole = tip_units(text@, capacity as nat);
        assert(whole.take(capacity as int) =~= whole);
    }
    slot
}

/// The tooltip's slot is always terminated, however long the text is.
pub proof fn tooltip_is_terminated(text: Seq<char>, capacity: nat)
    requires
        capacity > 0,
    ensures
        tip_units(text, capacity).last() == 0,
{
}

/// The items of the context menu: their commands and texts.
pub open spec fn menu_items() -> Seq<(u32, Seq<char>)> {
    seq![(CMD_REFRESH, "Refresh"@), (CMD_EXIT, "Exit"@)]
}

/// The items of the context menu.
pub fn menu() -> (r: Vec<(u32, &'static str)>)
    ensures
        r@.len() == menu_items().len(),
        forall|i: int|
            0 <= i < r@.len() ==> (#[trigger] r@[i]).0 == menu_items()[i].0 && r@[i].1@ == menu_items()[i].1,
{
    let mut items: Vec<(u32, &'static str)> = Vec::new();
    items.push((CMD_REFRESH, "Refresh"));
    items.push((CMD_EXIT, "Exit"));
    items
}

/// Whether a message to the window that owns the tray icon is a notification of
/// that icon; every other one is left to the system.
pub fn bus_wndproc(msg: u32) -> (r: bool)
    ensures
        r == (msg == WM_TRAY),
{
    msg == WM_TRAY
}

/// What is done to the overlay after a click on the tray icon.
#[derive(Clone, Copy, Debug, PartialEq, Eq, Structural)]
pub enum Click {
    /// Hide it.
    Hide,
    /// Show it without taking the focus.
    Show,
    /// Let it paint itself at once.
    Update,
    /// Draw it anew.
    Redraw,
    /// Show the menu, with the overlay as its owner: a visible owner window
    /// lets the popup reliably take the foreground.
    Menu,
}

/// What follows from the notification `lparam` while the overlay is visible or
/// not: a left click toggles it, a right click opens the menu.
pub open spec fn clicks(lparam: usize, visible: bool) -> Seq<Click> {
    if low_word(lparam) == WM_LBUTTONUP {
        if visible {
            seq![Click::Hide, Click::Redraw]
        } else {
            seq![Click::Show, Click::Update, Click::Redraw]
        }
    } else if low_word(lparam) == WM_RBUTTONUP {
        seq![Click::Menu]
    } else {
        Seq::empty()
    }
}

/// Decides what follows from a notification of the tray icon.
pub fn handle_tray(lparam: usize, visible: bool) -> (r: Vec<Click>)
    ensures
        r@ == clicks(lparam, visible),
{
    let mut steps: Vec<Click> = Vec::new();
    let low: u32 = low_word_of(lparam);
    if low == WM_LBUTTONUP {
        if visible {
            steps.push(Click::Hide);
        } else {
            steps.push(Click::Show);
            steps.push(Click::Update);
        }
        steps.push(Click::Redraw);
    } else if low == WM_RBUTTONUP {
        steps.push(Click::Menu);
    }
    assert(steps@ =~= clicks(lparam, visible));
    steps
}

/// Whether the overlay is visible after a step.
pub open spec fn visible_after(visible: bool, step: Click) -> bool {
    match step {
        Click::Hide => false,
        Click::Show => true,
        _ => visible,
    }
}

/// Whether the overlay is visible after some steps.
pub open spec fn visible_after_all(visible: bool, steps: Seq<Click>) -> bool
    decreases steps.len(),
{
    if steps.len() == 0 {
        visible
    } else {
        visible_after(visible_after_all(visible, steps.drop_last()), steps.last())
    }
}

/// A left click toggles the overlay; nothing else shows or hides it.
pub proof fn left_click_toggles(lparam: usize, visible: bool)
    ensures
        visible_after_all(visible, clicks(lparam, visible)) == (visible != (low_word(lparam) == WM_LBUTTONUP)),
{
    reveal_with_fuel(visible_after_all, 4);
    let steps = clicks(lparam, visible);
    if steps.len() > 0 {
        assert(steps.drop_last().len() == steps.len() - 1);
    }
}

} // verus!
