use codex_gauge::appserver::FetchError;
use codex_gauge::codes;
use codex_gauge::control::{conclude, post_target, Command, Controller, RefreshGuard};
use codex_gauge::percent::Percent;
use codex_gauge::quota::{Quota, Window};

const RETRY: Command = Command::SetTimer { id: 4, ms: 2000 };

#[test]
fn timers_are_set_at_startup() {
    let want = vec![Command::SetTimer { id: 2, ms: 100 }, Command::SetTimer { id: 1, ms: 300_000 }];
    assert_eq!(Controller::startup(), want);
}

#[test]
fn failures_are_retried_fast_up_to_the_cap() {
    let mut c = Controller::new();
    for _ in 0..4 {
        assert_eq!(c.on_message(codes::WM_APP_RETRY, 0), vec![RETRY]);
    }
    for _ in 0..3 {
        assert_eq!(c.on_message(codes::WM_APP_RETRY, 0), vec![]);
    }
    assert_eq!(c.consecutive_failures, 7);
    assert_eq!(c.on_message(codes::WM_APP_RETRY, 1), vec![Command::KillTimer { id: 4 }]);
    assert_eq!(c.consecutive_failures, 0);
    assert_eq!(c.on_message(codes::WM_APP_RETRY, 0), vec![RETRY]);
}

#[test]
fn timers_refresh() {
    let mut c = Controller::new();
    assert_eq!(c.on_message(codes::WM_TIMER, 1), vec![Command::Refresh]);
    for id in [2, 3, 4] {
        assert_eq!(c.on_message(codes::WM_TIMER, id), vec![Command::KillTimer { id }, Command::Refresh]);
    }
    assert_eq!(c.on_message(codes::WM_TIMER, 5), vec![]);
}

#[test]
fn waking_up_refreshes_after_a_while() {
    let mut c = Controller::new();
    let want = vec![Command::KillTimer { id: 3 }, Command::SetTimer { id: 3, ms: 2000 }];
    assert_eq!(c.on_message(codes::WM_POWERBROADCAST, 18), want);
    assert_eq!(c.on_message(codes::WM_POWERBROADCAST, 7), want);
    assert_eq!(c.on_message(codes::WM_POWERBROADCAST, 4), vec![]);
}

#[test]
fn commands_are_carried_out() {
    let mut c = Controller::new();
    let quit = vec![Command::RemoveTray, Command::Quit];
    assert_eq!(c.on_message(codes::WM_COMMAND, 1001), vec![Command::Refresh]);
    assert_eq!(c.on_message(codes::WM_COMMAND, 0x2_0000 + 1002), quit);
    assert_eq!(c.on_message(codes::WM_COMMAND, 1), vec![]);
    assert_eq!(c.on_message(codes::WM_APP_REFRESH, 0), vec![Command::Refresh]);
    assert_eq!(c.on_message(codes::WM_APP_QUIT, 0), quit);
    assert_eq!(c.on_message(codes::WM_PAINT, 0), vec![Command::Dispatch]);
}

#[test]
fn one_fetch_runs_at_a_time() {
    let mut g = RefreshGuard::new();
    assert!(g.begin());
    assert!(!g.begin());
    assert!(!g.begin());
    g.finish();
    assert!(g.begin());
}

#[test]
fn the_outcome_is_shown_and_told() {
    let w = Window { used_percent: Percent { bits: 0 }, resets_at: 1, window_mins: 2 };
    let q = Quota { primary: Some(w), secondary: None, connected: true };
    let done = conclude(&Ok(q));
    assert_eq!((done.quota, done.wparam), (q, 1));
    let failed = conclude(&Err(FetchError::Io("x".to_string())));
    assert_eq!((failed.quota, failed.wparam), (Quota::disconnected(), 0));
}

#[test]
fn the_bus_is_told_if_there_is_one() {
    assert_eq!(post_target(5, 9), 5);
    assert_eq!(post_target(0, 9), 9);
}
