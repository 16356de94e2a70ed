//! The main loop's decisions: when to refresh, when to retry, when to quit.
use crate::appserver::FetchError;
use crate::codes::{
    low_word, low_word_of, CMD_EXIT, CMD_REFRESH, PBT_APMRESUMEAUTOMATIC, PBT_APMRESUMESUSPEND, TIMER_REFRESH,
    TIMER_RETRY, TIMER_STARTUP, TIMER_WAKE_REFRESH, WM_APP_QUIT, WM_APP_REFRESH, WM_APP_RETRY, WM_COMMAND,
    WM_POWERBROADCAST, WM_TIMER,
};
use crate::overlay::{answer, background, offline_strokes, picture, Answer};
use crate::quota::Quota;
use crate::tray::menu_items;
use vstd::prelude::*;

verus! {

/// The time between two periodic refreshes: 5 min.
pub const REFRESH_MS: u32 = 300_000;

/// The time from startup to the first refresh.
pub const STARTUP_DELAY_MS: u32 = 100;

/// The time to a fast retry after a failed refresh.
pub const RETRY_MS: u32 = 2_000;

/// The time from waking up to a refresh; it lets the network settle.
pub const WAKE_MS: u32 = 2_000;

/// Cap on consecutive fast retries before falling back to the slow 5-min
/// cadence, so a long-absent codex process isn't constantly respawned.
pub const MAX_CONSECUTIVE_RETRIES: u32 = 4;

/// What the main loop is to do.
#[derive(Clone, Copy, Debug, PartialEq, Eq, Structural)]
pub enum Command {
    /// Fetch the quota in the background.
    Refresh,
    /// Take the tray icon away.
    RemoveTray,
    /// End the main loop.
    Quit,
    /// Set the timer `id` to `ms` milliseconds.
    SetTimer { id: usize, ms: u32 },
    /// Stop the timer `id`.
    KillTimer { id: usize },
    /// Hand the message to the window it is for.
    Dispatch,
}

/// What follows from a refresh that ended after `failures` failed ones in a
/// row: a failure is retried soon, unless that has been tried often enough.
pub open spec fn after_refresh(failures: nat, succeeded: bool) -> (nat, Seq<Command>) {
    if succeeded {
        (0, seq![Command::KillTimer { id: TIMER_RETRY }])
    } else {
        (
            failures + 1,
            if failures + 1 <= MAX_CONSECUTIVE_RETRIES {
                seq![Command::SetTimer { id: TIMER_RETRY, ms: RETRY_MS }]
            } else {
                Seq::empty()
            },
        )
    }
}

/// What follows from the timer `id`; all but the periodic one fire once.
pub open spec fn after_timer(id: usize) -> Seq<Command> {
    if id == TIMER_REFRESH {
        seq![Command::Refresh]
    } else if id == TIMER_STARTUP || id == TIMER_WAKE_REFRESH || id == TIMER_RETRY {
        seq![Command::KillTimer { id }, Command::Refresh]
    } else {
        Seq::empty()
    }
}

/// What follows from the message `msg` with the parameter `wparam`, after
/// `failures` failed refreshes in a row: the number of these from then on, and
/// what to do.
pub open spec fn response(failures: nat, msg: u32, wparam: usize) -> (nat, Seq<Command>) {
    if msg == WM_APP_REFRESH {
        (failures, seq![Command::Refresh])
    } else if msg == WM_APP_QUIT {
        (failures, seq![Command::RemoveTray, Command::Quit])
    } else if msg == WM_APP_RETRY {
        after_refresh(failures, wparam != 0)
    } else if msg == WM_TIMER {
        (failures, after_timer(wparam))
    } else if msg == WM_POWERBROADCAST {
        (
            failures,
            if wparam == PBT_APMRESUMEAUTOMATIC || wparam == PBT_APMRESUMESUSPEND {
                seq![
                    Command::KillTimer { id: TIMER_WAKE_REFRESH },
                    Command::SetTimer { id: TIMER_WAKE_REFRESH, ms: WAKE_MS },
                ]
            } else {
                Seq::empty()
            },
        )
    } else if msg == WM_COMMAND {
        (
            failures,
            if low_word(wparam) == CMD_REFRESH {
                seq![Command::Refresh]
            } else if low_word(wparam) == CMD_EXIT {
                seq![Command::RemoveTray, Command::Quit]
            } else {
                Seq::empty()
            },
        )
    } else {
        (failures, seq![Command::Dispatch])
    }
}

/// The state of the main loop.
#[derive(Clone, Copy, Debug, PartialEq, Eq, Structural)]
pub struct Controller {
    /// Consecutive failed refreshes; reset on success to bound fast retries.
    pub consecutive_failures: u32,
}

impl Controller {
    /// The state at startup.
    pub fn new() -> (r: Self)
        ensures
            r.consecutive_failures == 0,
    {
        Controller { consecutive_failures: 0 }
    }

    /// The timers that are set at startup: a refresh shortly after it, and a
    /// periodic one.
    pub fn startup() -> (r: Vec<Command>)
        ensures
            r@ == seq![
                Command::SetTimer { id: TIMER_STARTUP, ms: STARTUP_DELAY_MS },
                Command::SetTimer { id: TIMER_REFRESH, ms: REFRESH_MS },
            ],
    {
        let mut commands: Vec<Command> = Vec::new();
        commands.push(Command::SetTimer { id: TIMER_STARTUP, ms: STARTUP_DELAY_MS });
        commands.push(Command::SetTimer { id: TIMER_REFRESH, ms: REFRESH_MS });
        assert(commands@ =~= seq![
            Command::SetTimer { id: TIMER_STARTUP, ms: STARTUP_DELAY_MS },
            Command::SetTimer { id: TIMER_REFRESH, ms: REFRESH_MS },
        ]);
        commands
    }

    fn refresh_ended(&mut self, succeeded: bool) -> (r: Vec<Command>)
        requires
            succeeded || old(self).consecutive_failures < u32::MAX,
        ensures
            (final(self).consecutive_failures as nat, r@) == after_refresh(
                old(self).consecutive_failures as nat,
                succeeded,
            ),
    {
        let mut commands: Vec<Command> = Vec::new();
        if succeeded {
            self.consecutive_failures = 0;
            commands.push(Command::KillTimer { id: TIMER_RETRY });
        } else {
            self.consecutive_failures = self.consecutive_failures + 1;
            if self.consecutive_failures <= MAX_CONSECUTIVE_RETRIES {
                commands.push(Command::SetTimer { id: TIMER_RETRY, ms: RETRY_MS });
            }
        }
        assert(commands@ =~= after_refresh(old(self).consecutive_failures as nat, succeeded).1);
        commands
    }

    fn timer_fired(id: usize) -> (r: Vec<Command>)
        ensures
            r@ == after_timer(id),
    {
        let mut commands: Vec<Command> = Vec::new();
        if id == TIMER_STARTUP || id == TIMER_WAKE_REFRESH || id == TIMER_RETRY {
            commands.push(Command::KillTimer { id });
            commands.push(Command::Refresh);
        } else if id == TIMER_REFRESH {
            commands.push(Command::Refresh);
        }
        assert(commands@ =~= after_timer(id));
        commands
    }

    /// Decides what follows from a message.
    pub fn on_message(&mut self, msg: u32, wparam: usize) -> (r: Vec<Command>)
        requires
            msg == WM_APP_RETRY && wparam == 0 ==> old(self).consecutive_failures < u32::MAX,
        ensures
            (final(self).consecutive_failures as nat, r@) == response(
                old(self).consecutive_failures as nat,
                msg,
                wparam,
            ),
    {
        if msg == WM_APP_RETRY {
            return self.refresh_ended(wparam != 0);
        }
        if msg == WM_TIMER {
            return Self::timer_fired(wparam);
        }
        let mut commands: Vec<Command> = Vec::new();
        if msg == WM_APP_REFRESH {
            commands.push(Command::Refresh);
        } else if msg == WM_APP_QUIT {
            commands.push(Command::RemoveTray);
            commands.push(Command::Quit);
        } else if msg == WM_POWERBROADCAST {
            if wparam == PBT_APMRESUMEAUTOMATIC || wparam == PBT_APMRESUMESUSPEND {
                commands.push(Command::KillTimer { id: TIMER_WAKE_REFRESH });
                commands.push(Command::SetTimer { id: TIMER_WAKE_REFRESH, ms: WAKE_MS });
            }
        } else if msg == WM_COMMAND {
            let cmd: u32 = low_word_of(wparam);
            if cmd == CMD_REFRESH {
                commands.push(Command::Refresh);
            } else if cmd == CMD_EXIT {
                commands.push(Command::RemoveTray);
                commands.push(Command::Quit);
            }
        } else {
            commands.push(Command::Dispatch);
        }
        assert(commands@ =~= response(old(self).consecutive_failures as nat, msg, wparam).1);
        commands
    }
}

/// Skips a refresh tick while a previous fetch is still running, so a slow
/// network can't pile up overlapping `codex app-server` subprocesses.
#[derive(Clone, Copy, Debug, PartialEq, Eq, Structural)]
pub struct RefreshGuard {
    /// Whether a fetch is running.
    pub in_flight: bool,
}

/// What can happen to a refresh guard: a fetch is asked for, or a running one
/// ends.
pub enum Tick {
    Ask,
    End,
}

impl RefreshGuard {
    /// The guard after a tick.
    pub open spec fn after(self, tick: Tick) -> RefreshGuard {
        RefreshGuard { in_flight: tick is Ask }
    }

    /// Whether a fetch that is asked for may begin.
    pub open spec fn allows(self) -> bool {
        !self.in_flight
    }

    /// The guard while no fetch is running.
    pub fn new() -> (r: Self)
        ensures
            r == (RefreshGuard { in_flight: false }),
    {
        RefreshGuard { in_flight: false }
    }

    /// Asks for a fetch; it may begin unless one is running.
    pub fn begin(&mut self) -> (r: bool)
        ensures
            r == old(self).allows(),
            *final(self) == old(self).after(Tick::Ask),
    {
        let free = !self.in_flight;
        self.in_flight = true;
        free
    }

    /// The fetch has ended.
    pub fn finish(&mut self)
        ensures
            *final(self) == old(self).after(Tick::End),
    {
        self.in_flight = false;
    }
}

/// What a refresh that has ended hands to the rest of the program.
#[derive(Clone, Copy, Debug, PartialEq, Eq, Structural)]
pub struct Completion {
    /// What the overlay shows.
    pub quota: Quota,
    /// What the main loop is told: 0 = failed (reconnect soon), 1 = succeeded.
    pub wparam: usize,
}

/// What to show and what to tell after a fetch.
pub open spec fn completion(result: Result<Quota, FetchError>) -> Completion {
    match result {
        Ok(q) => Completion { quota: q, wparam: 1 },
        Err(_) => Completion {
            quota: Quota { primary: None, secondary: None, connected: false },
            wparam: 0,
        },
    }
}

/// Decides what to show and what to tell after a fetch.
pub fn conclude(result: &Result<Quota, FetchError>) -> (r: Completion)
    ensures
        r == completion(*result),
{
    match result {
        Ok(q) => Completion { quota: *q, wparam: 1 },
        Err(_) => Completion { quota: Quota::disconnected(), wparam: 0 },
    }
}

/// The window that is told of the end of a refresh: the bus, or the overlay
/// where there is no bus.
pub fn post_target(bus: usize, overlay: usize) -> (r: usize)
    ensures
        r == if bus != 0 { bus } else { overlay },
{
    if bus != 0 {
        bus
    } else {
        overlay
    }
}

/// How many refreshes in a row have failed at the end of a history of
/// refreshes, each of which succeeded or not.
pub open spec fn failures_after(history: Seq<bool>) -> nat
    decreases history.len(),
{
    if history.len() == 0 {
        0
    } else {
        after_refresh(failures_after(history.drop_last()), history.last()).0
    }
}

/// How many fast retries have been scheduled since the last success.
pub open spec fn retries_after(history: Seq<bool>) -> nat
    decreases history.len(),
{
    if history.len() == 0 || history.last() {
        0
    } else {
        retries_after(history.drop_last()) + after_refresh(
            failures_after(history.drop_last()),
            false,
        ).1.len()
    }
}

/// Fast retries are bounded: however many refreshes fail in a row, the first
/// ones, up to the cap, are retried fast, and no more.
pub proof fn fast_retries_are_bounded(history: Seq<bool>)
    ensures
        retries_after(history) == if failures_after(history) <= MAX_CONSECUTIVE_RETRIES {
            failures_after(history)
        } else {
            MAX_CONSECUTIVE_RETRIES as nat
        },
    decreases history.len(),
{
    if history.len() > 0 {
        fast_retries_are_bounded(history.drop_last());
    }
}

/// A success forgets the failures before it: the next failure is retried fast.
pub proof fn success_resets_the_cap(history: Seq<bool>)
    ensures
        failures_after(history.push(true)) == 0,
        after_refresh(failures_after(history.push(true)), false).1 == seq![
            Command::SetTimer { id: TIMER_RETRY, ms: RETRY_MS },
        ],
{
}

/// The guard after a history of ticks.
pub open spec fn guard_after(history: Seq<Tick>) -> RefreshGuard
    decreases history.len(),
{
    if history.len() == 0 {
        RefreshGuard { in_flight: false }
    } else {
        guard_after(history.drop_last()).after(history.last())
    }
}

/// How many fetches are running after a history of ticks, where an ask starts
/// one exactly when the guard allows it, and an end ends one that is running.
pub open spec fn running_after(history: Seq<Tick>) -> nat
    decreases history.len(),
{
    if history.len() == 0 {
        0
    } else {
        let before = running_after(history.drop_last());
        match history.last() {
            Tick::Ask => if guard_after(history.drop_last()).allows() {
                before + 1
            } else {
                before
            },
            Tick::End => if before > 0 {
                (before - 1) as nat
            } else {
                0
            },
        }
    }
}

/// At most one fetch runs at a time, whatever is asked for and when.
pub proof fn at_most_one_fetch_runs(history: Seq<Tick>)
    ensures
        running_after(history) <= 1,
        running_after(history) == 1 <==> guard_after(history).in_flight,
    decreases history.len(),
{
    if history.len() > 0 {
        at_most_one_fetch_runs(history.drop_last());
    }
}

/// A failed fetch shows the connecting state, and is retried soon while the cap
/// is not reached; a successful one shows what it brought, and takes back an
/// outstanding retry.
pub proof fn outcome_is_shown_and_followed_up(
    result: Result<Quota, FetchError>,
    failures: nat,
    w: int,
    h: int,
    now: int,
)
    ensures
        ({
            let done = completion(result);
            let shown = picture(done.quota, w, h, now);
            let next = response(failures, WM_APP_RETRY, done.wparam);
            match result {
                Ok(q) => {
                    &&& shown == picture(q, w, h, now)
                    &&& next == (0nat, seq![Command::KillTimer { id: TIMER_RETRY }])
                },
                Err(_) => {
                    &&& shown == background(w, h) + offline_strokes(w)
                    &&& next.0 == failures + 1
                    &&& failures < MAX_CONSECUTIVE_RETRIES ==> next.1 == seq![
                        Command::SetTimer { id: TIMER_RETRY, ms: RETRY_MS },
                    ]
                },
            }
        }),
{
}

/// Every item of the menu does what it says: the overlay hands it on, and the
/// main loop then refreshes, or takes the tray icon away and quits.
pub proof fn menu_items_are_carried_out(failures: nat)
    ensures
        ({
            let refresh = menu_items()[0].0 as usize;
            let exit = menu_items()[1].0 as usize;
            &&& answer(WM_COMMAND, refresh) matches Answer::Post(msg)
            &&& response(failures, msg, 0) == (failures, seq![Command::Refresh])
            &&& answer(WM_COMMAND, exit) matches Answer::Post(end)
            &&& response(failures, end, 0) == (failures, seq![Command::RemoveTray, Command::Quit])
        }),
{
}

/// No message but the end of a refresh touches the count of failures.
pub proof fn only_refreshes_count(failures: nat, msg: u32, wparam: usize)
    requires
        msg != WM_APP_RETRY,
    ensures
        response(failures, msg, wparam).0 == failures,
{
}

/// A timer other than the periodic one is stopped when it fires, before the
/// refresh that it stands for.
pub proof fn one_shot_timers_are_stopped(failures: nat, id: usize)
    requires
        id == TIMER_STARTUP || id == TIMER_WAKE_REFRESH || id == TIMER_RETRY,
    ensures
        response(failures, WM_TIMER, id).1 == seq![Command::KillTimer { id }, Command::Refresh],
{
}

} // verus!
