//! What each message leads to and from which messages each command comes, over
//! all messages and however many refreshes have failed; and what the tray shows.
use crate::appserver::FetchError;
use crate::codes::{
    low_word, CMD_EXIT, CMD_REFRESH, PBT_APMRESUMEAUTOMATIC, PBT_APMRESUMESUSPEND, TIMER_REFRESH, TIMER_RETRY,
    TIMER_STARTUP, TIMER_WAKE_REFRESH, WM_APP_QUIT, WM_APP_REFRESH, WM_APP_RETRY, WM_COMMAND, WM_DESTROY,
    WM_ERASEBKGND, WM_LBUTTONUP, WM_NCHITTEST, WM_PAINT, WM_POWERBROADCAST, WM_RBUTTONUP, WM_TIMER, WM_TRAY,
};
use crate::control::{
    at_most_one_fetch_runs, completion, failures_after, guard_after, response, running_after, Command, Tick,
    REFRESH_MS, RETRY_MS, STARTUP_DELAY_MS, WAKE_MS,
};
use crate::quota::Quota;
use crate::text::utf16;
use crate::tray::{clicks, menu_items, tip_units, Click, TIP};
use vstd::prelude::*;

verus! {

/// The low word of a parameter does not depend on what stands above it.
pub proof fn low_words_are_the_lowest(low: int, high: int)
    requires
        0 <= low < 0x1_0000,
        0 <= high,
        low + 0x1_0000 * high <= usize::MAX,
    ensures
        low_word((low + 0x1_0000 * high) as usize) == low,
{
}

/// No two messages, timers or commands have the same number, and the messages
/// of this program lie beyond those of the system.
pub proof fn numbers_are_told_apart()
    ensures
        seq![
            WM_DESTROY,
            WM_PAINT,
            WM_ERASEBKGND,
            WM_NCHITTEST,
            WM_COMMAND,
            WM_TIMER,
            WM_LBUTTONUP,
            WM_RBUTTONUP,
            WM_POWERBROADCAST,
            WM_APP_REFRESH,
            WM_APP_QUIT,
            WM_APP_RETRY,
            WM_TRAY,
        ].no_duplicates(),
        seq![TIMER_REFRESH, TIMER_STARTUP, TIMER_WAKE_REFRESH, TIMER_RETRY].no_duplicates(),
        PBT_APMRESUMESUSPEND != PBT_APMRESUMEAUTOMATIC,
        CMD_REFRESH != CMD_EXIT,
        CMD_REFRESH < 0x1_0000,
        CMD_EXIT < 0x1_0000,
        WM_APP_REFRESH > 0x8000,
        WM_APP_QUIT > 0x8000,
        WM_APP_RETRY > 0x8000,
        WM_TRAY > 0x8000,
{
}

/// The messages of the system have the numbers that the system gives them.
pub proof fn numbers_are_those_of_the_system()
    ensures
        WM_DESTROY == 0x0002,
        WM_PAINT == 0x000F,
        WM_ERASEBKGND == 0x0014,
        WM_NCHITTEST == 0x0084,
        WM_COMMAND == 0x0111,
        WM_TIMER == 0x0113,
        WM_LBUTTONUP == 0x0202,
        WM_RBUTTONUP == 0x0205,
        WM_POWERBROADCAST == 0x0218,
        PBT_APMRESUMESUSPEND == 0x7,
        PBT_APMRESUMEAUTOMATIC == 0x12,
{
}

/// The times between refreshes: a tenth of a second from startup to the first,
/// five minutes from one to the next, and two seconds to a retry and after waking
/// up.
pub proof fn refreshes_come_in_time()
    ensures
        10 * STARTUP_DELAY_MS == 1000,
        REFRESH_MS == 5 * 60 * 1000,
        RETRY_MS == 2 * 1000,
        WAKE_MS == 2 * 1000,
{
}

/// The periodic timer always refreshes, however many refreshes have failed: the
/// slow cadence goes on when the fast retries have ended.
pub proof fn periodic_timer_always_refreshes(failures: nat)
    ensures
        response(failures, WM_TIMER, TIMER_REFRESH).1 == seq![Command::Refresh],
{
}

/// Whether a message asks for a refresh: it comes from one of the four timers,
/// or from the menu.
pub open spec fn asks_for_refresh(msg: u32, wparam: usize) -> bool {
    ||| msg == WM_APP_REFRESH
    ||| msg == WM_COMMAND && wparam % 0x1_0000 == CMD_REFRESH
    ||| msg == WM_TIMER && (wparam == TIMER_REFRESH || wparam == TIMER_STARTUP || wparam == TIMER_WAKE_REFRESH
        || wparam == TIMER_RETRY)
}

/// Whether a message asks for the end of the program.
pub open spec fn asks_to_quit(msg: u32, wparam: usize) -> bool {
    ||| msg == WM_APP_QUIT
    ||| msg == WM_COMMAND && wparam % 0x1_0000 == CMD_EXIT
}

/// Whether a message tells that the computer has woken up.
pub open spec fn tells_of_waking(msg: u32, wparam: usize) -> bool {
    msg == WM_POWERBROADCAST && (wparam == PBT_APMRESUMEAUTOMATIC || wparam == PBT_APMRESUMESUSPEND)
}

/// Whether a message is one that the main loop handles itself.
pub open spec fn is_handled_here(msg: u32) -> bool {
    ||| msg == WM_APP_REFRESH
    ||| msg == WM_APP_QUIT
    ||| msg == WM_APP_RETRY
    ||| msg == WM_TIMER
    ||| msg == WM_POWERBROADCAST
    ||| msg == WM_COMMAND
}

/// A refresh follows from the messages that ask for one, once, and from no
/// others, however many refreshes have failed.
pub proof fn refreshes_follow_exactly(failures: nat, msg: u32, wparam: usize)
    ensures
        ({
            let commands = response(failures, msg, wparam).1;
            &&& commands.contains(Command::Refresh) <==> asks_for_refresh(msg, wparam)
            &&& asks_for_refresh(msg, wparam) ==> commands.last() == Command::Refresh
            &&& asks_for_refresh(msg, wparam) && !(msg == WM_TIMER && wparam != TIMER_REFRESH) ==> commands.len() == 1
            &&& msg == WM_TIMER && asks_for_refresh(msg, wparam) && wparam != TIMER_REFRESH ==> commands.len() == 2
                && commands[0] == Command::KillTimer { id: wparam }
        }),
{
    let commands = response(failures, msg, wparam).1;
    if asks_for_refresh(msg, wparam) {
        assert(commands.contains(commands.last()));
    }
}

/// The program ends by the messages that ask for it, after the tray icon has
/// been taken away, and by no others.
pub proof fn quitting_follows_exactly(failures: nat, msg: u32, wparam: usize)
    ensures
        ({
            let commands = response(failures, msg, wparam).1;
            &&& commands.contains(Command::Quit) <==> asks_to_quit(msg, wparam)
            &&& commands.contains(Command::RemoveTray) <==> asks_to_quit(msg, wparam)
            &&& asks_to_quit(msg, wparam) ==> commands == seq![Command::RemoveTray, Command::Quit]
        }),
{
    let commands = response(failures, msg, wparam).1;
    if asks_to_quit(msg, wparam) {
        assert(commands[0] == Command::RemoveTray && commands[1] == Command::Quit);
    }
}

/// Waking up is followed by a refresh two seconds later: the timer is set anew,
/// so that waking up twice in a row leads to one.
pub proof fn waking_up_is_followed_up(failures: nat, msg: u32, wparam: usize)
    ensures
        tells_of_waking(msg, wparam) ==> response(failures, msg, wparam).1 == seq![
            Command::KillTimer { id: TIMER_WAKE_REFRESH },
            Command::SetTimer { id: TIMER_WAKE_REFRESH, ms: 2000 },
        ],
        asks_for_refresh(WM_TIMER, TIMER_WAKE_REFRESH),
{
}

/// A failed refresh is retried two seconds later where fewer than four have
/// failed before it in a row, and is left to the periodic timer otherwise; a
/// successful one takes back a retry and starts the count anew.
pub proof fn refreshes_are_followed_up(failures: nat, wparam: usize)
    ensures
        ({
            let (count, commands) = response(failures, WM_APP_RETRY, wparam);
            &&& wparam == 0 ==> count == failures + 1
            &&& wparam == 0 && failures < 4 ==> commands == seq![Command::SetTimer { id: TIMER_RETRY, ms: 2000 }]
            &&& wparam == 0 && failures >= 4 ==> commands.len() == 0
            &&& wparam != 0 ==> count == 0 && commands == seq![Command::KillTimer { id: TIMER_RETRY }]
        }),
{
}

/// A timer is set after a failed refresh and after waking up, and by nothing
/// else; the periodic one is never stopped.
pub proof fn timers_are_set_for_a_reason(failures: nat, msg: u32, wparam: usize, id: usize, ms: u32)
    ensures
        ({
            let commands = response(failures, msg, wparam).1;
            &&& commands.contains(Command::SetTimer { id, ms }) <==> {
                ||| msg == WM_APP_RETRY && wparam == 0 && failures < 4 && id == TIMER_RETRY && ms == 2000
                ||| tells_of_waking(msg, wparam) && id == TIMER_WAKE_REFRESH && ms == 2000
            }
            &&& commands.contains(Command::KillTimer { id }) <==> {
                ||| msg == WM_APP_RETRY && wparam != 0 && id == TIMER_RETRY
                ||| tells_of_waking(msg, wparam) && id == TIMER_WAKE_REFRESH
                ||| msg == WM_TIMER && wparam == id && (id == TIMER_STARTUP || id == TIMER_WAKE_REFRESH || id
                    == TIMER_RETRY)
            }
            &&& !commands.contains(Command::KillTimer { id: TIMER_REFRESH })
        }),
{
    let commands = response(failures, msg, wparam).1;
    if commands.len() > 0 {
        assert(commands.contains(commands[0]));
    }
    if commands.len() > 1 {
        assert(commands.contains(commands[1]));
    }
}

/// Messages that the main loop does not handle itself are handed on, each to its
/// window, and the others are not.
pub proof fn other_messages_are_handed_on(failures: nat, msg: u32, wparam: usize)
    ensures
        !is_handled_here(msg) ==> response(failures, msg, wparam) == (failures, seq![Command::Dispatch]),
        is_handled_here(msg) ==> !response(failures, msg, wparam).1.contains(Command::Dispatch),
{
}

/// What asks for nothing does nothing: other timers, other menu items and other
/// changes of the power state.
pub proof fn other_parameters_do_nothing(failures: nat, msg: u32, wparam: usize)
    requires
        msg == WM_TIMER || msg == WM_POWERBROADCAST || msg == WM_COMMAND,
        !asks_for_refresh(msg, wparam),
        !asks_to_quit(msg, wparam),
        !tells_of_waking(msg, wparam),
    ensures
        response(failures, msg, wparam).1.len() == 0,
{
}

/// The failures in a row are counted from the last success on, or from startup.
pub proof fn failures_in_a_row_are_counted(before: Seq<bool>, n: nat)
    ensures
        failures_after(before.push(true) + Seq::new(n, |i: int| false)) == n,
        failures_after(Seq::new(n, |i: int| false)) == n,
    decreases n,
{
    let ends = Seq::new(n, |i: int| false);
    let run = before.push(true) + ends;
    if n == 0 {
        assert(run =~= before.push(true));
        assert(run.last());
        assert(ends =~= Seq::empty());
    } else {
        let less = Seq::new((n - 1) as nat, |i: int| false);
        failures_in_a_row_are_counted(before, (n - 1) as nat);
        assert(run.drop_last() =~= before.push(true) + less);
        assert(ends.drop_last() =~= less);
        assert(!run.last() && !ends.last());
    }
}

/// Of the failures in a row the first four are retried fast, and no later one,
/// until a refresh succeeds.
pub proof fn first_failures_are_retried_fast(before: Seq<bool>, n: nat)
    ensures
        ({
            let earlier = failures_after(before.push(true) + Seq::new(n, |i: int| false));
            let next = response(earlier, WM_APP_RETRY, 0).1;
            &&& n < 4 ==> next == seq![Command::SetTimer { id: TIMER_RETRY, ms: 2000 }]
            &&& n >= 4 ==> next.len() == 0
        }),
{
    failures_in_a_row_are_counted(before, n);
}

/// A fetch may begin exactly where none is running.
pub proof fn fetches_begin_when_none_runs(history: Seq<Tick>)
    ensures
        guard_after(history).allows() <==> running_after(history) == 0,
        running_after(history.push(Tick::Ask)) == 1,
        guard_after(history.push(Tick::End)).allows(),
{
    at_most_one_fetch_runs(history);
    assert(history.push(Tick::Ask).drop_last() =~= history);
    assert(history.push(Tick::End).drop_last() =~= history);
}

/// What a fetch brought is shown as it is, and what it failed with is not shown:
/// the quota is then missing.  The main loop can tell the one from the other.
pub proof fn outcomes_are_passed_on(result: Result<Quota, FetchError>)
    ensures
        result matches Ok(q) ==> completion(result).quota == q && completion(result).wparam != 0,
        result is Err ==> {
            &&& !completion(result).quota.connected
            &&& completion(result).quota.primary is None
            &&& completion(result).quota.secondary is None
            &&& completion(result).wparam == 0
        },
{
}

/// The menu has an item that refreshes and one that ends the program, and says
/// so.
pub proof fn menu_says_what_it_does(i: int)
    requires
        0 <= i < menu_items().len(),
    ensures
        menu_items().len() == 2,
        menu_items()[i].1 == "Refresh"@ <==> i == 0,
        menu_items()[i].1 == "Exit"@ <==> i == 1,
        asks_for_refresh(WM_COMMAND, menu_items()[i].0 as usize) <==> i == 0,
        asks_to_quit(WM_COMMAND, menu_items()[i].0 as usize) <==> i == 1,
{
    reveal_strlit("Refresh");
    reveal_strlit("Exit");
    assert("Refresh"@.len() != "Exit"@.len());
}

/// The menu opens on a right click and on nothing else.
pub proof fn right_click_opens_the_menu(lparam: usize, visible: bool)
    ensures
        clicks(lparam, visible).contains(Click::Menu) <==> lparam % 0x1_0000 == WM_RBUTTONUP,
        lparam % 0x1_0000 == WM_RBUTTONUP ==> clicks(lparam, visible).len() == 1,
{
    let steps = clicks(lparam, visible);
    if lparam % 0x1_0000 == WM_RBUTTONUP {
        assert(steps[0] == Click::Menu);
    }
}

/// A left click hides an overlay that is visible, and shows one that is not and
/// lets it paint itself at once; either way it is drawn anew.  Whatever is no
/// click does nothing.
pub proof fn left_click_hides_or_shows(lparam: usize, visible: bool)
    ensures
        ({
            let steps = clicks(lparam, visible);
            &&& steps.contains(Click::Hide) <==> lparam % 0x1_0000 == WM_LBUTTONUP && visible
            &&& steps.contains(Click::Show) <==> lparam % 0x1_0000 == WM_LBUTTONUP && !visible
            &&& lparam % 0x1_0000 == WM_LBUTTONUP && visible ==> steps.len() == 2 && steps[0] == Click::Hide
            &&& lparam % 0x1_0000 == WM_LBUTTONUP && !visible ==> steps.len() == 3 && steps[0] == Click::Show
                && steps[1] == Click::Update
            &&& lparam % 0x1_0000 == WM_LBUTTONUP ==> steps.last() == Click::Redraw
            &&& lparam % 0x1_0000 != WM_LBUTTONUP && lparam % 0x1_0000 != WM_RBUTTONUP ==> steps.len() == 0
        }),
{
    let steps = clicks(lparam, visible);
    if steps.len() > 0 {
        assert(steps.contains(steps[0]));
    }
}

/// The tooltip says what the icon is for, and fits in its slot of 128 units.
pub proof fn tooltip_names_the_widget()
    ensures
        TIP@ == "Codex Usage"@,
        TIP@.len() < 128,
{
    reveal_strlit("Codex Usage");
}

/// The tooltip's slot starts with the text, as far as there is room before the
/// zero that ends it, and holds zeros from there on.
pub proof fn tooltip_starts_with_the_text(text: Seq<char>, capacity: nat, i: int)
    requires
        0 <= i < capacity,
    ensures
        tip_units(text, capacity).len() == capacity,
        i < utf16(text).len() && i + 1 < capacity ==> tip_units(text, capacity)[i] == utf16(text)[i],
        i >= utf16(text).len() || i + 1 == capacity ==> tip_units(text, capacity)[i] == 0,
{
}

} // verus!
