use codex_gauge::appserver::FetchError;
use codex_gauge::percent::Percent;
use codex_gauge::protocol::Verdict;
use codex_gauge::quota::Quota;
use codex_gauge::session::{candidate, Action, Event, Fetcher, POLL_MILLIS, RPC_TIMEOUT_NANOS};

const INITIALIZED: &str = "{\"id\":1,\"result\":{}}\n";

fn fetcher(windows: bool) -> Fetcher {
    Fetcher::new(windows, RPC_TIMEOUT_NANOS)
}

fn bytes(text: &str) -> Event {
    Event::Received(text.as_bytes().to_vec())
}

fn written(f: &Fetcher) -> String {
    match f.action() {
        Action::Write(bytes) => String::from_utf8(bytes).unwrap(),
        other => panic!("{other:?}"),
    }
}

/// Hands one line to the request that has just been made.
fn answer(f: &mut Fetcher, text: &str) {
    assert!(matches!(f.action(), Action::Write(_)));
    f.handle(Event::Written);
    deliver_line(f, text);
}

fn deliver_line(f: &mut Fetcher, text: &str) {
    deliver(f, text);
    // The line is looked at when the clock has been read.
    assert!(matches!(f.action(), Action::Time));
    f.handle(Event::Elapsed(RPC_TIMEOUT_NANOS - 1));
}

/// Hands bytes to a request that waits and has no whole line.
fn deliver(f: &mut Fetcher, text: &str) {
    read_some(f, text.len() as u32);
    f.handle(bytes(text));
}

fn read_some(f: &mut Fetcher, there: u32) {
    assert!(matches!(f.action(), Action::Time));
    f.handle(Event::Elapsed(0));
    assert!(matches!(f.action(), Action::Peek));
    f.handle(Event::Available(there));
    assert!(matches!(f.action(), Action::Read(n) if n == there));
}

fn opened() -> Fetcher {
    let mut f = fetcher(true);
    f.start();
    f.handle(Event::Spawned { stdin: true, stdout: true });
    f
}

fn connected() -> Fetcher {
    let mut f = opened();
    answer(&mut f, INITIALIZED);
    f
}

fn fetched() -> (Fetcher, Quota) {
    let mut f = connected();
    answer(&mut f, "{\"id\":2,\"result\":{\"rateLimits\":{\"primary\":{\"usedPercent\":12,\"resetsAt\":5}}}}\n");
    assert!(matches!(f.action(), Action::Deliver));
    let q = f.take_outcome().unwrap().unwrap();
    (f, q)
}

/// Starts a fetch on a connection whose child is alive.
fn again(f: &mut Fetcher) {
    f.start();
    assert!(matches!(f.action(), Action::Probe));
    f.handle(Event::Alive);
}

/// The failure of a fetch that is about to dispose of its child.
fn disposed(f: &mut Fetcher) -> String {
    assert!(matches!(f.action(), Action::Dispose));
    f.handle(Event::Disposed);
    reported(f)
}

fn reported(f: &mut Fetcher) -> String {
    assert!(matches!(f.action(), Action::Deliver));
    let failure = f.take_outcome().unwrap().unwrap_err().to_string();
    assert!(matches!(f.action(), Action::Rest));
    // The next fetch has to start a program.
    f.start();
    assert!(matches!(f.action(), Action::Spawn(_)));
    failure
}

#[test]
fn programs_are_tried_in_order() {
    assert_eq!(candidate(true, 0), Some("codex.cmd"));
    assert_eq!(candidate(true, 1), Some("codex.exe"));
    assert_eq!(candidate(true, 2), Some("codex"));
    assert_eq!(candidate(true, 3), None);
    assert_eq!(candidate(false, 0), Some("codex"));
    assert_eq!(candidate(false, 1), None);
}

#[test]
fn the_last_spawn_failure_is_reported() {
    let mut f = fetcher(true);
    f.start();
    for name in ["codex.cmd", "codex.exe", "codex"] {
        assert!(matches!(f.action(), Action::Spawn(n) if n == name));
        f.handle(Event::SpawnFailed(format!("no {name}")));
    }
    assert_eq!(reported(&mut f), "failed to start codex: no codex");
    let mut f = fetcher(false);
    f.start();
    f.handle(Event::SpawnFailed("gone".to_string()));
    assert_eq!(reported(&mut f), "failed to start codex: gone");
}

#[test]
fn a_later_candidate_can_succeed() {
    let mut f = fetcher(true);
    f.start();
    f.handle(Event::SpawnFailed("no".to_string()));
    f.handle(Event::Spawned { stdin: true, stdout: true });
    assert!(written(&f).contains("\"initialize\""));
}

#[test]
fn a_child_without_pipes_is_disposed_of() {
    let mut f = fetcher(true);
    f.start();
    f.handle(Event::Spawned { stdin: false, stdout: true });
    assert_eq!(disposed(&mut f), "failed to start codex: no stdin on codex process");
    let mut f = fetcher(true);
    f.start();
    f.handle(Event::Spawned { stdin: true, stdout: false });
    assert_eq!(disposed(&mut f), "failed to start codex: no stdout on codex process");
}

#[test]
fn a_fetch_shakes_hands_then_reads() {
    let f = opened();
    assert!(written(&f).starts_with("{\"id\":1,\"method\":\"initialize\""));
    let f = connected();
    assert_eq!(written(&f), "{\"id\":2,\"method\":\"account/rateLimits/read\",\"params\":{}}\n");
    let (_, q) = fetched();
    assert!(q.connected);
    let w = q.primary.unwrap();
    assert_eq!(w.used_percent, Percent { bits: 12.0f64.to_bits() });
    assert_eq!(w.resets_at, 5);
}

#[test]
fn the_connection_is_reused() {
    let (mut f, _) = fetched();
    assert!(matches!(f.action(), Action::Rest));
    again(&mut f);
    assert_eq!(written(&f), "{\"id\":3,\"method\":\"account/rateLimits/read\",\"params\":{}}\n");
    answer(&mut f, "{\"id\":3,\"result\":{\"rateLimits\":{\"secondary\":{\"usedPercent\":1}}}}\n");
    assert!(f.take_outcome().unwrap().is_ok());
}

#[test]
fn other_lines_are_passed_over() {
    let mut f = connected();
    answer(&mut f, "{\"method\":\"note\"}\n");
    deliver_line(&mut f, "\n");
    deliver_line(&mut f, "{\"id\":1,\"result\":{}}\n");
    deliver_line(&mut f, "{\"id\":2,\"result\":{\"rateLimits\":{\"primary\":{\"usedPercent\":1}}}}\n");
    assert!(f.take_outcome().unwrap().is_ok());
}

#[test]
fn waiting_naps_until_the_time_is_up() {
    let mut f = opened();
    f.handle(Event::Written);
    f.handle(Event::Elapsed(0));
    f.handle(Event::Available(0));
    assert!(matches!(f.action(), Action::Sleep(ms) if ms == POLL_MILLIS));
    f.handle(Event::Slept);
    assert!(matches!(f.action(), Action::Time));
    f.handle(Event::Elapsed(RPC_TIMEOUT_NANOS));
    assert_eq!(disposed(&mut f), "codex RPC error: timeout waiting for codex");
}

#[test]
fn input_and_output_failures_end_the_fetch() {
    let mut f = opened();
    f.handle(Event::WriteFailed("broken pipe".to_string()));
    assert_eq!(disposed(&mut f), "codex I/O error: broken pipe");

    let mut f = opened();
    f.handle(Event::Written);
    f.handle(Event::Elapsed(0));
    f.handle(Event::PeekFailed("no pipe".to_string()));
    assert_eq!(disposed(&mut f), "codex I/O error: no pipe");

    let mut f = connected();
    f.handle(Event::Written);
    read_some(&mut f, 9);
    f.handle(Event::ReadFailed("no more".to_string()));
    assert_eq!(disposed(&mut f), "codex I/O error: no more");

    let mut f = connected();
    f.handle(Event::Written);
    read_some(&mut f, 9);
    f.handle(Event::Received(vec![0x7B, 0xFF, 0x0A]));
    f.handle(Event::Elapsed(0));
    assert_eq!(disposed(&mut f), "codex I/O error: stream did not contain valid UTF-8");

    let mut f = connected();
    f.handle(Event::Written);
    read_some(&mut f, 1);
    f.handle(Event::Received(vec![]));
    assert_eq!(disposed(&mut f), "codex RPC error: codex closed stdout");
}

#[test]
fn refused_requests_end_the_fetch() {
    let mut f = opened();
    answer(&mut f, "{\"id\":1,\"error\":{\"message\":\"no\"}}\n");
    assert_eq!(disposed(&mut f), "codex RPC error: {\"message\":\"no\"}");
    let mut f = connected();
    answer(&mut f, "{\"id\":2}\n");
    assert_eq!(disposed(&mut f), "codex RPC error: response missing result");
    let mut f = connected();
    answer(&mut f, "nonsense\n");
    assert_eq!(disposed(&mut f), "codex RPC error: expected ident at line 1 column 2");
}

#[test]
fn an_answer_without_data_is_a_failure() {
    let mut f = connected();
    answer(&mut f, "{\"id\":2,\"result\":{\"rateLimits\":{}}}\n");
    assert_eq!(disposed(&mut f), "codex RPC error: quota data unavailable");
}

#[test]
fn a_failed_fetch_on_a_reused_connection_disposes_of_it() {
    let (mut f, _) = fetched();
    again(&mut f);
    f.handle(Event::WriteFailed("closed".to_string()));
    assert_eq!(disposed(&mut f), "codex I/O error: closed");

    let (mut f, _) = fetched();
    again(&mut f);
    f.handle(Event::Written);
    f.handle(Event::Elapsed(RPC_TIMEOUT_NANOS));
    assert_eq!(disposed(&mut f), "codex RPC error: timeout waiting for codex");
}

#[test]
fn a_dead_connection_is_replaced_in_the_same_fetch() {
    let (mut f, first) = fetched();
    assert_eq!(first.primary.unwrap().used_percent, Percent { bits: 12.0f64.to_bits() });
    f.start();
    assert!(matches!(f.action(), Action::Probe));
    f.handle(Event::Exited);
    assert!(matches!(f.action(), Action::Dispose));
    assert!(f.take_outcome().is_none());
    f.handle(Event::Disposed);
    assert!(matches!(f.action(), Action::Spawn("codex.cmd")));
    f.handle(Event::Spawned { stdin: true, stdout: true });
    assert!(written(&f).starts_with("{\"id\":1,\"method\":\"initialize\""));
    answer(&mut f, INITIALIZED);
    answer(&mut f, "{\"id\":2,\"result\":{\"rateLimits\":{\"primary\":{\"usedPercent\":34}}}}\n");
    let q = f.take_outcome().unwrap().unwrap();
    assert_eq!(q.primary.unwrap().used_percent, Percent { bits: 34.0f64.to_bits() });
    // The new connection is the one that is kept.
    again(&mut f);
    assert!(written(&f).starts_with("{\"id\":3,\"method\":\"account/rateLimits/read\""));
}

#[test]
fn a_dead_connection_without_a_replacement_is_a_failure() {
    let (mut f, _) = fetched();
    f.start();
    f.handle(Event::Exited);
    f.handle(Event::Disposed);
    for _ in 0..3 {
        f.handle(Event::SpawnFailed("gone".to_string()));
    }
    assert_eq!(reported(&mut f), "failed to start codex: gone");
}

#[test]
fn bytes_of_a_dead_connection_are_dropped() {
    let mut f = connected();
    f.handle(Event::Written);
    deliver(&mut f, &format!("{ANSWER}{{\"id\":1,"));
    f.handle(Event::Elapsed(0));
    assert!(f.take_outcome().unwrap().is_ok());
    f.start();
    f.handle(Event::Exited);
    f.handle(Event::Disposed);
    f.handle(Event::Spawned { stdin: true, stdout: true });
    answer(&mut f, INITIALIZED);
    assert!(written(&f).starts_with("{\"id\":2,"));
}

#[test]
fn ids_go_up_over_the_fetches() {
    let (mut f, _) = fetched();
    for id in 3..10 {
        again(&mut f);
        let line = format!("{{\"id\":{id},\"method\":\"account/rateLimits/read\",\"params\":{{}}}}\n");
        assert_eq!(written(&f), line);
        answer(&mut f, &format!("{{\"id\":{id},\"result\":{{\"rateLimits\":{{\"primary\":{{\"usedPercent\":1}}}}}}}}\n"));
        assert!(f.take_outcome().unwrap().is_ok());
    }
}

#[test]
fn unexpected_events_change_nothing() {
    let mut f = fetcher(true);
    f.handle(Event::Disposed);
    f.handle(bytes(INITIALIZED));
    assert!(matches!(f.action(), Action::Rest));
    assert!(f.take_outcome().is_none());
    f.start();
    f.start();
    f.handle(Event::Slept);
    assert!(matches!(f.action(), Action::Spawn("codex.cmd")));
    let (mut f, _) = fetched();
    f.handle(Event::Exited);
    assert!(matches!(f.action(), Action::Rest));
    f.start();
    f.handle(Event::Written);
    f.handle(Event::Disposed);
    assert!(matches!(f.action(), Action::Probe));
    let mut f = opened();
    f.handle(Event::Exited);
    f.handle(Event::Spawned { stdin: true, stdout: true });
    f.handle(Event::Elapsed(u128::MAX));
    f.handle(Event::Received(vec![1]));
    f.apply_verdict(Verdict::Finished(Err(FetchError::Io("x".to_string()))));
    assert!(written(&f).starts_with("{\"id\":1,"));
    assert!(f.has_ids());
}

#[test]
fn delivered_percentages_are_in_range() {
    let mut f = connected();
    answer(&mut f, "{\"id\":2,\"result\":{\"rateLimits\":{\"primary\":{\"usedPercent\":1e300}}}}\n");
    let q = f.take_outcome().unwrap().unwrap();
    assert_eq!(q.primary.unwrap().used_percent, Percent { bits: 100.0f64.to_bits() });
}

const ANSWER: &str = "{\"id\":2,\"result\":{\"rateLimits\":{\"primary\":{\"usedPercent\":12}}}}\n";

#[test]
fn a_stalled_line_times_out() {
    let mut f = connected();
    f.handle(Event::Written);
    deliver(&mut f, "{\"id\":2,\"resu");
    for _ in 0..3 {
        f.handle(Event::Elapsed(RPC_TIMEOUT_NANOS - 1));
        f.handle(Event::Available(0));
        assert!(matches!(f.action(), Action::Sleep(_)));
        f.handle(Event::Slept);
    }
    assert!(matches!(f.action(), Action::Time));
    f.handle(Event::Elapsed(RPC_TIMEOUT_NANOS));
    assert_eq!(disposed(&mut f), "codex RPC error: timeout waiting for codex");
}

#[test]
fn time_that_is_up_ends_a_request_wherever_it_stands() {
    let up = || Event::Elapsed(RPC_TIMEOUT_NANOS);
    let mut f = connected();
    f.handle(Event::Written);
    f.handle(Event::Elapsed(0));
    f.handle(up());
    assert_eq!(disposed(&mut f), "codex RPC error: timeout waiting for codex");
    let mut f = connected();
    f.handle(Event::Written);
    read_some(&mut f, 5);
    f.handle(up());
    assert_eq!(disposed(&mut f), "codex RPC error: timeout waiting for codex");
    let mut f = connected();
    f.handle(Event::Written);
    f.handle(Event::Elapsed(0));
    f.handle(Event::Available(0));
    f.handle(up());
    assert_eq!(disposed(&mut f), "codex RPC error: timeout waiting for codex");
    // Even a whole answer comes too late.
    let mut f = connected();
    f.handle(Event::Written);
    deliver(&mut f, ANSWER);
    f.handle(up());
    assert_eq!(disposed(&mut f), "codex RPC error: timeout waiting for codex");
}

#[test]
fn without_time_nothing_is_read() {
    let mut f = Fetcher::new(true, 0);
    f.start();
    f.handle(Event::Spawned { stdin: true, stdout: true });
    f.handle(Event::Written);
    assert!(matches!(f.action(), Action::Time));
    f.handle(Event::Elapsed(0));
    assert_eq!(disposed(&mut f), "codex RPC error: timeout waiting for codex");
}

#[test]
fn the_limit_is_as_given() {
    let mut f = Fetcher::new(true, 5);
    f.start();
    f.handle(Event::Spawned { stdin: true, stdout: true });
    f.handle(Event::Written);
    f.handle(Event::Elapsed(4));
    assert!(matches!(f.action(), Action::Peek));
    f.handle(Event::Available(0));
    f.handle(Event::Slept);
    f.handle(Event::Elapsed(5));
    assert!(matches!(f.action(), Action::Dispose));
}

#[test]
fn lines_do_not_depend_on_the_pieces() {
    for cut in 1..ANSWER.len() {
        let mut f = connected();
        f.handle(Event::Written);
        deliver(&mut f, &ANSWER[..cut]);
        deliver(&mut f, &ANSWER[cut..]);
        f.handle(Event::Elapsed(0));
        assert!(f.take_outcome().unwrap().is_ok(), "{cut}");
    }
}

#[test]
fn several_lines_may_come_at_once() {
    let mut f = opened();
    f.handle(Event::Written);
    // A note, the answer to the handshake, and the answer to the next request.
    deliver(&mut f, &format!("{{\"method\":\"note\"}}\n{INITIALIZED}{ANSWER}"));
    f.handle(Event::Elapsed(0));
    assert!(matches!(f.action(), Action::Time));
    f.handle(Event::Elapsed(0));
    assert!(written(&f).contains("\"id\":2"));
    f.handle(Event::Written);
    f.handle(Event::Elapsed(0));
    assert!(f.take_outcome().unwrap().is_ok());
}

#[test]
fn what_is_left_at_the_end_counts_as_a_line() {
    let mut f = connected();
    f.handle(Event::Written);
    deliver(&mut f, ANSWER.trim_end());
    read_some(&mut f, 1);
    f.handle(Event::Received(vec![]));
    assert!(f.take_outcome().unwrap().is_ok());

    let mut f = connected();
    f.handle(Event::Written);
    deliver(&mut f, "{\"method\":\"note\"}");
    read_some(&mut f, 1);
    f.handle(Event::Received(vec![]));
    read_some(&mut f, 1);
    f.handle(Event::Received(vec![]));
    assert_eq!(disposed(&mut f), "codex RPC error: codex closed stdout");
}
