//! What holds of every fetch, whatever the program answers and however its
//! input and output fare.
use crate::appserver::{quota_of, Failure};
use crate::json::{member, Tree};
use crate::protocol::{
    bytes_judgement, first_line_is_found, initialize_tree, line_length, line_of, read_limits_tree, reply_judgement,
    Judgement,
};
use crate::session::{
    candidates, Connection, Happening, Progress, Purpose, Session, Stage, Wish, POLL_MILLIS, RPC_TIMEOUT_NANOS,
};
use vstd::prelude::*;

verus! {

/// What can be done to a fetcher.
pub enum Input {
    /// A fetch is asked for.
    Start,
    /// Something happened.
    Event(Happening),
    /// The outcome is collected.
    Deliver,
}

/// The state after one input.
pub open spec fn step(s: Session, input: Input) -> Session {
    match input {
        Input::Start => s.started(),
        Input::Event(e) => s.handled(e),
        Input::Deliver => s.delivered(),
    }
}

/// The state of a new fetcher after a history of inputs.
pub open spec fn run(windows: bool, timeout: nat, history: Seq<Input>) -> Session
    decreases history.len(),
{
    if history.len() == 0 {
        Session::fresh(windows, timeout)
    } else {
        step(run(windows, timeout, history.drop_last()), history.last())
    }
}

/// The ids of no connection ran out in the course of a history.
pub open spec fn ids_sufficed(windows: bool, timeout: nat, history: Seq<Input>) -> bool
    decreases history.len(),
{
    history.len() > 0 ==> run(windows, timeout, history.drop_last()).has_ids() && ids_sufficed(windows, timeout, history.drop_last())
}

/// Whether there is a child process: it serves the connection, or is about to
/// be disposed of.
pub open spec fn has_child(s: Session) -> bool {
    s.connection is Some || s.stage is Disposing
}

/// How many children one input adds: one where a program that was to be
/// started was started, minus one where a child was disposed of as asked.
pub open spec fn children_added(s: Session, input: Input) -> int {
    match input {
        Input::Event(Happening::Spawned { .. }) => if s.wish() is Spawn {
            1
        } else {
            0
        },
        Input::Event(Happening::Disposed) => if s.wish() is Dispose {
            -1
        } else {
            0
        },
        _ => 0,
    }
}

/// How many children there are after a history: started, and not disposed of.
pub open spec fn children(windows: bool, timeout: nat, history: Seq<Input>) -> int
    decreases history.len(),
{
    if history.len() == 0 {
        0
    } else {
        children(windows, timeout, history.drop_last()) + children_added(
            run(windows, timeout, history.drop_last()),
            history.last(),
        )
    }
}

/// Every input keeps a state valid.
pub proof fn validity_is_kept(s: Session, input: Input)
    requires
        s.valid(),
        s.has_ids(),
    ensures
        step(s, input).valid(),
{
    if let Input::Event(e) = input {
        if s.stage is Asking {
            lemma_exchange_keeps_validity(s, e);
        }
    }
}

#[verifier::spinoff_prover]
#[verifier::rlimit(40)]
proof fn lemma_exchange_keeps_validity(s: Session, e: Happening)
    requires
        s.valid(),
        s.has_ids(),
        s.stage is Asking,
    ensures
        s.handled(e).valid(),
{
    match line_looked_at(s, e) {
        Some(line) => {
            match bytes_judgement(line, open_id(s)->Some_0) {
                Judgement::Skip => {},
                Judgement::Finished(Ok(_)) => {},
                Judgement::Finished(Err(_)) => {},
            }
        },
        None => {},
    }
}

/// Every state that a new fetcher can get into is valid.
pub proof fn reachable_states_are_valid(windows: bool, timeout: nat, history: Seq<Input>)
    requires
        ids_sufficed(windows, timeout, history),
    ensures
        run(windows, timeout, history).valid(),
    decreases history.len(),
{
    if history.len() > 0 {
        reachable_states_are_valid(windows, timeout, history.drop_last());
        validity_is_kept(run(windows, timeout, history.drop_last()), history.last());
    }
}

/// There is at most one child process at any time, and it is known of: a program
/// is started only where every child has been disposed of.
pub proof fn at_most_one_child(windows: bool, timeout: nat, history: Seq<Input>)
    requires
        ids_sufficed(windows, timeout, history),
    ensures
        children(windows, timeout, history) == if has_child(run(windows, timeout, history)) { 1int } else { 0 },
        run(windows, timeout, history).wish() is Spawn ==> children(windows, timeout, history) == 0,
    decreases history.len(),
{
    reachable_states_are_valid(windows, timeout, history);
    if history.len() > 0 {
        let before = run(windows, timeout, history.drop_last());
        at_most_one_child(windows, timeout, history.drop_last());
        reachable_states_are_valid(windows, timeout, history.drop_last());
        assert(has_child(step(before, history.last())) as int == has_child(before) as int + children_added(
            before,
            history.last(),
        ));
    }
}

/// A failed fetch leaves no child behind.
pub proof fn failed_fetch_leaves_no_child(windows: bool, timeout: nat, history: Seq<Input>)
    requires
        ids_sufficed(windows, timeout, history),
        run(windows, timeout, history).stage matches Stage::Finished(Err(_)),
    ensures
        children(windows, timeout, history) == 0,
{
    at_most_one_child(windows, timeout, history);
    reachable_states_are_valid(windows, timeout, history);
}

/// A fetch succeeds only with real data.
pub proof fn successful_fetch_has_data(windows: bool, timeout: nat, history: Seq<Input>)
    requires
        ids_sufficed(windows, timeout, history),
    ensures
        run(windows, timeout, history).stage matches Stage::Finished(Ok(q)) ==> q.connected && (q.primary is Some
            || q.secondary is Some),
    decreases history.len(),
{
    if history.len() > 0 {
        successful_fetch_has_data(windows, timeout, history.drop_last());
    }
}

/// The connection of a successful fetch serves the next one, as long as its
/// child is alive: that fetch asks for the quota at once, under the next id, and
/// starts no program.
pub proof fn connection_is_reused(s: Session)
    requires
        s.valid(),
        s.delivered().started().has_ids(),
        s.stage matches Stage::Finished(Ok(_)),
    ensures
        s.delivered().started().wish() is Probe,
        s.delivered().started().handled(Happening::Alive).wish() == Wish::Write(
            line_of(read_limits_tree(s.connection->Some_0.next_id as int)),
        ),
{
}

/// A kept connection whose child has exited is not used: the child is disposed
/// of, and the same fetch goes on as the first one of a new fetcher would.
pub proof fn dead_connection_is_replaced(s: Session)
    requires
        s.valid(),
        s.stage == Stage::Idle,
        s.connection is Some,
    ensures
        s.started().wish() is Probe,
        s.started().handled(Happening::Exited).connection is None,
        s.started().handled(Happening::Exited).wish() is Dispose,
        s.started().handled(Happening::Exited).handled(Happening::Disposed).wish() == Wish::Spawn(
            candidates(s.windows)[0],
        ),
        s.started().handled(Happening::Exited).handled(Happening::Disposed) == Session::fresh(
            s.windows,
            s.timeout,
        ).started(),
{
}

/// All that is ever written are lines that hold one of two requests.
pub proof fn only_two_requests_are_written(s: Session)
    ensures
        s.wish() matches Wish::Write(bytes) ==> exists|id: int|
            bytes == line_of(#[trigger] initialize_tree(id)) || bytes == line_of(read_limits_tree(id)),
{
    if let Stage::Asking { purpose, id, progress: Progress::Writing } = s.stage {
        let _ = initialize_tree(id);
    }
}

/// The line that an event makes the machine look at, where it does: the first
/// one that has come, or what is left at the end of the stream.
pub open spec fn line_looked_at(s: Session, e: Happening) -> Option<Seq<u8>> {
    match (s.stage, e) {
        (Stage::Asking { purpose, id, progress: Progress::Timing }, Happening::Elapsed(t)) => {
            match line_length(s.pending) {
                Some(n) => if t < s.timeout {
                    Some(s.pending.take(n as int))
                } else {
                    None
                },
                None => None,
            }
        },
        (Stage::Asking { purpose, id, progress: Progress::Reading(_) }, Happening::Received(bytes)) => {
            if bytes.len() == 0 && s.pending.len() > 0 {
                Some(s.pending)
            } else {
                None
            }
        },
        _ => None,
    }
}

/// The bytes that an event brings to a request that reads.
pub open spec fn bytes_brought(s: Session, e: Happening) -> Seq<u8> {
    match (s.stage, e) {
        (Stage::Asking { purpose, id, progress: Progress::Reading(_) }, Happening::Received(bytes)) => bytes,
        _ => Seq::empty(),
    }
}

/// No byte is lost, looked at twice or moved: as long as the connection lasts,
/// what an event brings comes after what is kept, and what is looked at as a
/// line is taken from the front.  So the lines do not depend on the pieces in
/// which their bytes come.
pub proof fn no_byte_is_lost(s: Session, e: Happening)
    requires
        s.connection is Some,
        s.handled(e).connection is Some,
        s.stage is Asking,
    ensures
        (match line_looked_at(s, e) {
            Some(line) => line,
            None => Seq::empty(),
        }) + s.handled(e).pending == s.pending + bytes_brought(s, e),
{
    first_line_is_found(s.pending);
    if let Some(n) = line_length(s.pending) {
        assert(s.pending.take(n as int) + s.pending.skip(n as int) =~= s.pending);
    }
}

/// The quota is asked for only on a connection whose handshake has completed,
/// and a handshake completes only by the answer to it.
pub proof fn handshake_comes_first(s: Session, e: Happening)
    requires
        s.valid(),
        s.has_ids(),
    ensures
        s.stage matches Stage::Asking { purpose: Purpose::Quota, .. } ==> s.connection matches Some(c)
            && c.initialized,
        (s.handled(e).connection matches Some(c) && c.initialized) && !(s.connection matches Some(c)
            && c.initialized) ==> {
            &&& s.stage matches Stage::Asking { purpose, id, .. }
            &&& purpose != Purpose::Quota
            &&& line_looked_at(s, e) matches Some(line)
            &&& bytes_judgement(line, id) matches Judgement::Finished(Ok(_))
        },
{
}

/// The id of a request that `s` has open.
pub open spec fn open_id(s: Session) -> Option<int> {
    match s.stage {
        Stage::Asking { purpose, id, progress } => Some(id),
        _ => None,
    }
}

/// A request takes the next id of its connection, which is beyond that of the
/// request before it, and the first one on a connection takes the id 1.
pub proof fn ids_are_fresh(s: Session, input: Input)
    requires
        s.valid(),
        s.has_ids(),
        open_id(step(s, input)) is Some,
        open_id(step(s, input)) != open_id(s),
    ensures
        match s.connection {
            Some(c) => open_id(step(s, input)) == Some(c.next_id as int) && (open_id(s) matches Some(id) ==> id
                < c.next_id),
            None => open_id(step(s, input)) == Some(1int),
        },
{
}

/// The lines that have been written, after a history, on the connection that
/// there is.
pub open spec fn lines_written(windows: bool, timeout: nat, history: Seq<Input>) -> Seq<Seq<u8>>
    decreases history.len(),
{
    if history.len() == 0 || run(windows, timeout, history).connection is None {
        Seq::empty()
    } else {
        let before = lines_written(windows, timeout, history.drop_last());
        match (run(windows, timeout, history.drop_last()).wish(), history.last()) {
            (Wish::Write(bytes), Input::Event(Happening::Written)) => before.push(bytes),
            _ => before,
        }
    }
}

/// The line number `i` on a connection, from 0: the handshake, under the id 1,
/// and then requests for the quota, under the ids 2, 3 and so on.
pub open spec fn line_number(i: int) -> Seq<u8> {
    if i == 0 {
        line_of(initialize_tree(1))
    } else {
        line_of(read_limits_tree(i + 1))
    }
}

/// The lines on a connection are the handshake, under the id 1, and then
/// requests for the quota, under the ids 2, 3 and so on, over however many
/// fetches: none is left out or repeated, and a line that is to be written is the
/// one whose turn it is.
pub proof fn lines_are_written_in_order(windows: bool, timeout: nat, history: Seq<Input>)
    requires
        ids_sufficed(windows, timeout, history),
    ensures
        forall|i: int|
            0 <= i < lines_written(windows, timeout, history).len() ==> #[trigger] lines_written(
                windows,
                timeout,
                history,
            )[i] == line_number(i),
        run(windows, timeout, history).wish() matches Wish::Write(bytes) ==> bytes == line_number(
            lines_written(windows, timeout, history).len() as int,
        ),
        run(windows, timeout, history).connection matches Some(c) ==> lines_written(windows, timeout, history).len()
            == c.next_id - if run(windows, timeout, history).wish() is Write { 2int } else { 1 },
    decreases history.len(),
{
    if history.len() > 0 {
        let earlier = history.drop_last();
        let s = run(windows, timeout, earlier);
        let t = run(windows, timeout, history);
        let before = lines_written(windows, timeout, earlier);
        let now = lines_written(windows, timeout, history);
        reachable_states_are_valid(windows, timeout, earlier);
        lines_are_written_in_order(windows, timeout, earlier);
        lemma_lines_after_step(s, history.last());
        assert(t == step(s, history.last()));
        assert(before.len() == lines_counted(s)) by {
            if s.connection is None {
                assert(before.len() == 0);
            }
        }
        if t.connection is None {
            assert(now.len() == 0);
        } else if s.wish() is Write && history.last() == Input::Event(Happening::Written) {
            assert(now == before.push(s.wish()->Write_0));
        } else {
            assert(now == before);
        }
        assert(now.len() == lines_counted(t));
    } else {
        assert(run(windows, timeout, history) == Session::fresh(windows, timeout));
        assert(lines_written(windows, timeout, history).len() == 0);
    }
}

/// How many lines a state says have been written on its connection.
spec fn lines_counted(s: Session) -> int {
    match s.connection {
        Some(c) => c.next_id - if s.wish() is Write { 2int } else { 1 },
        None => 0,
    }
}

proof fn lemma_lines_after_step(s: Session, input: Input)
    requires
        s.valid(),
        s.has_ids(),
    ensures
        step(s, input).wish() matches Wish::Write(bytes) ==> bytes == line_number(lines_counted(step(s, input))),
        s.wish() matches Wish::Write(bytes) ==> bytes == line_number(lines_counted(s)),
        step(s, input).connection is Some ==> lines_counted(step(s, input)) == lines_counted(s) + if s.wish() is Write
            && input == Input::Event(Happening::Written) { 1int } else { 0 },
        step(s, input).connection is None ==> !(step(s, input).wish() is Write),
{
    validity_is_kept(s, input);
}

/// A message without an id is a notification, and no answer to any request.
pub proof fn notifications_are_skipped(reply: Tree, error: Option<Seq<char>>, want_id: int)
    requires
        member(reply, "id"@) is None,
    ensures
        reply_judgement(reply, error, want_id) == Judgement::Skip,
{
}

/// A line that is not the answer leaves the request open: it goes on waiting,
/// under the same id.
pub proof fn other_lines_keep_the_request_open(s: Session, e: Happening)
    requires
        line_looked_at(s, e) matches Some(line) && bytes_judgement(line, open_id(s)->Some_0) == Judgement::Skip,
    ensures
        open_id(s.handled(e)) == open_id(s),
        s.handled(e).wish() is Time,
{
}

/// The request that `s` has open has been written and waits for its answer.
pub open spec fn waits(s: Session) -> bool {
    s.stage matches Stage::Asking { progress, .. } && progress != Progress::Writing
}

/// Time that is up ends the request wherever it stands, whatever has come and
/// whatever is there to be read: it has failed by the timeout, and the child is
/// disposed of.  Nothing more is looked at.
pub proof fn time_that_is_up_ends_the_request(s: Session, t: nat)
    requires
        waits(s),
        t >= s.timeout,
    ensures
        s.handled(Happening::Elapsed(t)).stage == (Stage::Disposing {
            report: Some(Failure::Rpc("timeout waiting for codex"@)),
        }),
        s.handled(Happening::Elapsed(t)).wish() is Dispose,
        line_looked_at(s, Happening::Elapsed(t)) is None,
{
}

/// Before the time is up, the clock ends nothing by itself: a request that
/// fails by the timeout fails no sooner than that.
pub proof fn no_timeout_comes_early(s: Session, e: Happening)
    requires
        waits(s),
        s.handled(e).stage == (Stage::Disposing { report: Some(Failure::Rpc("timeout waiting for codex"@)) }),
    ensures
        (e matches Happening::Elapsed(t) && t >= s.timeout) || (line_looked_at(s, e) matches Some(line)
            && bytes_judgement(line, open_id(s)->Some_0) == Judgement::Finished(
            Err(Failure::Rpc("timeout waiting for codex"@)),
        )),
{
    reveal_strlit("timeout waiting for codex");
    reveal_strlit("codex closed stdout");
    reveal_strlit("quota data unavailable");
    assert("timeout waiting for codex"@.len() != "codex closed stdout"@.len());
    assert("timeout waiting for codex"@.len() != "quota data unavailable"@.len());
}

/// Whether an event is what the wanted action can bring.
pub open spec fn answers_wish(wish: Wish, e: Happening) -> bool {
    match wish {
        Wish::Probe => e is Alive || e is Exited,
        Wish::Spawn(_) => e is Spawned || e is SpawnFailed,
        Wish::Write(_) => e is Written || e is WriteFailed,
        Wish::Time => e is Elapsed,
        Wish::Peek => e is Available || e is PeekFailed,
        Wish::Sleep(_) => e is Slept,
        Wish::Read(_) => e is Received || e is ReadFailed,
        Wish::Dispose => e is Disposed,
        Wish::Rest | Wish::Deliver => false,
    }
}

/// How many actions may come before the clock is read again.
pub open spec fn actions_before_clock(s: Session) -> nat {
    match s.stage {
        Stage::Asking { purpose, id, progress } => match progress {
            Progress::Writing => 1,
            Progress::Timing => 0,
            Progress::Peeking => 2,
            Progress::Napping => 1,
            Progress::Reading(_) => 1,
        },
        _ => 0,
    }
}

/// While a request waits, the clock is read again after at most two actions,
/// and none of these waits for the child: they ask what is there, and then
/// either read what is there or sleep for a moment.
pub proof fn every_wait_returns_to_the_clock(s: Session, e: Happening)
    requires
        s.valid(),
        s.has_ids(),
        waits(s),
        answers_wish(s.wish(), e),
        open_id(s.handled(e)) == open_id(s),
    ensures
        waits(s.handled(e)),
        s.wish() is Time ==> actions_before_clock(s.handled(e)) <= 2,
        !(s.wish() is Time) ==> actions_before_clock(s.handled(e)) < actions_before_clock(s),
        actions_before_clock(s) == 0 <==> s.wish() is Time,
        s.wish() matches Wish::Sleep(ms) ==> ms == POLL_MILLIS,
        s.handled(e).wish() matches Wish::Read(n) ==> (e matches Happening::Available(there) && n == there as u32),
{
}

/// The state after some events.
pub open spec fn after_events(s: Session, events: Seq<Happening>) -> Session
    decreases events.len(),
{
    if events.len() == 0 {
        s
    } else {
        after_events(s, events.drop_last()).handled(events.last())
    }
}

/// What happens while a request is written and its answer comes in one piece.
pub open spec fn prompt_answer(line: Seq<u8>) -> Seq<Happening> {
    seq![
        Happening::Written,
        Happening::Elapsed(0),
        Happening::Available(line.len()),
        Happening::Received(line),
        Happening::Elapsed(0),
    ]
}

/// A program that starts, and answers both requests at once, serves the fetch:
/// its quota is the outcome, and its connection is kept.
pub proof fn prompt_program_serves_the_fetch(s: Session, hello: Seq<u8>, answer: Seq<u8>)
    requires
        s.valid(),
        s.stage is Spawning,
        s.timeout > 0,
        line_length(hello) == Some(hello.len()),
        line_length(answer) == Some(answer.len()),
        0 < hello.len() <= u32::MAX,
        0 < answer.len() <= u32::MAX,
        bytes_judgement(hello, 1) matches Judgement::Finished(Ok(_)),
        bytes_judgement(answer, 2) matches Judgement::Finished(Ok(result)) && quota_of(result).connected,
    ensures
        ({
            let opened = s.handled(Happening::Spawned { stdin: true, stdout: true });
            let end = after_events(after_events(opened, prompt_answer(hello)), prompt_answer(answer));
            &&& end.stage == Stage::Finished(Ok(quota_of(bytes_judgement(answer, 2)->Finished_0->Ok_0)))
            &&& end.connection == Some(Connection { next_id: 3, initialized: true })
        }),
{
    let opened = s.handled(Happening::Spawned { stdin: true, stdout: true });
    lemma_prompt_answer(opened, hello);
    lemma_prompt_answer(after_events(opened, prompt_answer(hello)), answer);
}

/// A kept connection whose child has exited costs the fetch nothing but the
/// start of a program: the program that takes the child's place serves the same
/// fetch, and its connection is the one that is kept.
pub proof fn replacement_serves_the_same_fetch(s: Session, hello: Seq<u8>, answer: Seq<u8>)
    requires
        s.valid(),
        s.stage == Stage::Idle,
        s.connection is Some,
        s.timeout > 0,
        line_length(hello) == Some(hello.len()),
        line_length(answer) == Some(answer.len()),
        0 < hello.len() <= u32::MAX,
        0 < answer.len() <= u32::MAX,
        bytes_judgement(hello, 1) matches Judgement::Finished(Ok(_)),
        bytes_judgement(answer, 2) matches Judgement::Finished(Ok(result)) && quota_of(result).connected,
    ensures
        ({
            let opened = s.started().handled(Happening::Exited).handled(Happening::Disposed).handled(
                Happening::Spawned { stdin: true, stdout: true },
            );
            let end = after_events(after_events(opened, prompt_answer(hello)), prompt_answer(answer));
            &&& end.stage == Stage::Finished(Ok(quota_of(bytes_judgement(answer, 2)->Finished_0->Ok_0)))
            &&& end.connection == Some(Connection { next_id: 3, initialized: true })
        }),
{
    dead_connection_is_replaced(s);
    prompt_program_serves_the_fetch(Session::fresh(s.windows, s.timeout).started(), hello, answer);
}

proof fn lemma_prompt_answer(s: Session, line: Seq<u8>)
    requires
        s.stage matches Stage::Asking { progress, .. } && progress == Progress::Writing,
        s.pending.len() == 0,
        s.timeout > 0,
        line_length(line) == Some(line.len()),
        0 < line.len() <= u32::MAX,
    ensures
        after_events(s, prompt_answer(line)) == (Session { pending: Seq::empty(), ..s }).proceed(
            Progress::Timing,
        ).judged(bytes_judgement(line, s.stage->id)),
{
    let events = prompt_answer(line);
    reveal_with_fuel(after_events, 6);
    first_line_is_found(s.pending);
    assert(events.drop_last() =~= events.take(4));
    assert(events.take(4).drop_last() =~= events.take(3));
    assert(events.take(3).drop_last() =~= events.take(2));
    assert(events.take(2).drop_last() =~= events.take(1));
    assert(events.take(1).drop_last() =~= events.take(0));
    assert(s.pending + line =~= line);
    assert(line.take(line.len() as int) =~= line);
    assert(line.skip(line.len() as int) =~= Seq::empty());
}

/// Whether an event brings a waiting request no nearer to an answer: the time
/// is not up, nothing fails and the stream does not end, and a line that is
/// looked at is not the answer.
pub open spec fn is_idle_event(s: Session, e: Happening) -> bool {
    &&& match e {
        Happening::Elapsed(t) => t < s.timeout,
        Happening::Available(_) | Happening::Slept => true,
        Happening::Received(bytes) => bytes.len() > 0,
        _ => false,
    }
    &&& line_looked_at(s, e) matches Some(line) ==> bytes_judgement(line, open_id(s)->Some_0) == Judgement::Skip
}

/// Whether all of some events are such events.
pub open spec fn are_idle_events(s: Session, events: Seq<Happening>) -> bool
    decreases events.len(),
{
    events.len() > 0 ==> are_idle_events(s, events.drop_last()) && is_idle_event(
        after_events(s, events.drop_last()),
        events.last(),
    )
}

/// A child that keeps its output open and never sends a whole line that answers
/// (it is silent, sends other lines, or stalls in the middle of one) leaves the
/// request open until the time is up, and then the request fails by the
/// timeout.
pub proof fn stalled_child_times_out(s: Session, events: Seq<Happening>, t: nat)
    requires
        s.valid(),
        waits(s),
        are_idle_events(s, events),
        t >= s.timeout,
    ensures
        open_id(after_events(s, events)) == open_id(s),
        waits(after_events(s, events)),
        after_events(s, events).handled(Happening::Elapsed(t)).stage == (Stage::Disposing {
            report: Some(Failure::Rpc("timeout waiting for codex"@)),
        }),
{
    lemma_idle_events_keep_waiting(s, events);
    time_that_is_up_ends_the_request(after_events(s, events), t);
}

proof fn lemma_idle_events_keep_waiting(s: Session, events: Seq<Happening>)
    requires
        s.valid(),
        waits(s),
        are_idle_events(s, events),
    ensures
        open_id(after_events(s, events)) == open_id(s),
        waits(after_events(s, events)),
        after_events(s, events).valid(),
        after_events(s, events).timeout == s.timeout,
    decreases events.len(),
{
    if events.len() > 0 {
        lemma_idle_events_keep_waiting(s, events.drop_last());
    }
}

/// Every program name is tried, in order, before starting one is given up.
pub proof fn every_candidate_is_tried(s: Session, e: Seq<char>)
    requires
        s.valid(),
        s.stage is Spawning,
    ensures
        ({
            let attempt = s.stage->attempt;
            let next = s.handled(Happening::SpawnFailed(e));
            if attempt + 1 < candidates(s.windows).len() {
                next.wish() == Wish::Spawn(candidates(s.windows)[attempt + 1int])
            } else {
                next.stage == Stage::Finished(Err(Failure::Spawn(e)))
            }
        }),
{
}

/// The answer to a request for the quota ends the fetch with what it says,
/// whichever request of the connection it is and however many fetches the
/// connection has served: with the quota of the result, unless that holds no
/// data, which is a failure.  The connection is kept with a quota only.
pub proof fn quota_answer_is_the_outcome(s: Session, e: Happening, id: int, line: Seq<u8>, result: Tree)
    requires
        s.valid(),
        s.stage matches Stage::Asking { purpose, id: open, .. } && purpose == Purpose::Quota && open == id,
        line_looked_at(s, e) == Some(line),
        bytes_judgement(line, id) == Judgement::Finished(Ok(result)),
    ensures
        quota_of(result).connected ==> {
            &&& s.handled(e).stage == Stage::Finished(Ok(quota_of(result)))
            &&& s.handled(e).connection == s.connection
        },
        !quota_of(result).connected ==> {
            &&& s.handled(e).stage == (Stage::Disposing { report: Some(Failure::Rpc("quota data unavailable"@)) })
            &&& s.handled(e).connection is None
        },
{
}

/// The answer to the handshake leads to the request for the quota, in the same
/// fetch.
pub proof fn handshake_answer_leads_to_the_quota(s: Session, e: Happening, id: int, line: Seq<u8>, result: Tree)
    requires
        s.valid(),
        s.has_ids(),
        s.stage matches Stage::Asking { purpose, id: open, .. } && purpose == Purpose::Open && open == id,
        line_looked_at(s, e) == Some(line),
        bytes_judgement(line, id) == Judgement::Finished(Ok(result)),
    ensures
        s.handled(e).wish() == Wish::Write(line_of(read_limits_tree(2))),
        s.handled(e).connection == Some(Connection { next_id: 3, initialized: true }),
{
}

/// An answer that is an error ends the fetch with that error, and the connection
/// with it.
pub proof fn error_answer_is_the_outcome(s: Session, e: Happening, id: int, line: Seq<u8>, failure: Failure)
    requires
        open_id(s) == Some(id),
        line_looked_at(s, e) == Some(line),
        bytes_judgement(line, id) == Judgement::Finished(Err(failure)),
    ensures
        s.handled(e).stage == (Stage::Disposing { report: Some(failure) }),
        s.handled(e).connection is None,
        s.handled(e).handled(Happening::Disposed).stage == Stage::Finished(Err(failure)),
{
}

/// A verdict settles a waiting request as the line would from which it came, and
/// one that comes before the request has been written changes nothing.
pub proof fn verdicts_settle_the_request(s: Session, judgement: Judgement)
    requires
        s.valid(),
        s.has_ids(),
    ensures
        !waits(s) ==> s.judged(judgement) == s,
        waits(s) ==> match judgement {
            Judgement::Skip => s.judged(judgement).wish() is Time && open_id(s.judged(judgement)) == open_id(s)
                && s.judged(judgement).pending == s.pending,
            Judgement::Finished(Err(failure)) => s.judged(judgement).stage == (Stage::Disposing {
                report: Some(failure),
            }),
            Judgement::Finished(Ok(result)) => match s.stage->purpose {
                Purpose::Open => s.judged(judgement).wish() == Wish::Write(line_of(read_limits_tree(2))),
                Purpose::Quota => s.judged(judgement).stage == if quota_of(result).connected {
                    Stage::Finished(Ok(quota_of(result)))
                } else {
                    Stage::Disposing { report: Some(Failure::Rpc("quota data unavailable"@)) }
                },
            },
        },
{
}

/// Nothing is done until a fetch is asked for.  It begins by seeing whether the connection that there is still stands,
/// or else by starting the first program; what has come over a connection stays.
pub proof fn fetch_begins(s: Session)
    requires
        s.valid(),
    ensures
        s.wish() is Rest <==> s.stage is Idle,
        s.stage is Idle && s.connection is Some ==> s.started().wish() is Probe,
        s.stage is Idle && s.connection is None ==> s.started().wish() == Wish::Spawn(candidates(s.windows)[0]),
        !(s.stage is Idle) ==> s.started() == s,
        s.started().connection == s.connection,
        s.started().pending == s.pending,
{
}

/// A connection whose child is alive is asked for the quota at once, under its
/// next id.
pub proof fn live_connection_is_asked(s: Session)
    requires
        s.valid(),
        s.has_ids(),
        s.stage is Probing,
    ensures
        s.handled(Happening::Alive).wish() == Wish::Write(
            line_of(read_limits_tree(s.connection->Some_0.next_id as int)),
        ),
        s.handled(Happening::Alive).pending == s.pending,
{
}

/// A program that has started is greeted by the handshake, under the id 1; one
/// that cannot be written to or read from is disposed of, and the fetch fails.
pub proof fn started_program_is_greeted(s: Session, stdin: bool, stdout: bool)
    requires
        s.valid(),
        s.stage is Spawning,
    ensures
        ({
            let next = s.handled(Happening::Spawned { stdin, stdout });
            &&& stdin && stdout ==> next.wish() == Wish::Write(line_of(initialize_tree(1)))
            &&& stdin && stdout ==> next.connection == Some(Connection { next_id: 2, initialized: false })
            &&& next.pending.len() == 0
            &&& !stdin ==> next.stage == (Stage::Disposing {
                report: Some(Failure::Spawn("no stdin on codex process"@)),
            })
            &&& stdin && !stdout ==> next.stage == (Stage::Disposing {
                report: Some(Failure::Spawn("no stdout on codex process"@)),
            })
        }),
{
}

/// A failure of input or output ends the fetch with its reason, in full.
pub proof fn failed_exchange_is_reported(s: Session, reason: Seq<char>)
    requires
        s.valid(),
        s.stage is Asking,
    ensures
        ({
            let end = Stage::Disposing { report: Some(Failure::Io(reason)) };
            &&& s.wish() is Write ==> s.handled(Happening::WriteFailed(reason)).stage == end
            &&& s.wish() is Peek ==> s.handled(Happening::PeekFailed(reason)).stage == end
            &&& s.wish() is Read ==> s.handled(Happening::ReadFailed(reason)).stage == end
        }),
{
}

/// A request that has been written waits: while there is no whole line, it is
/// seen how much there is to read, and that is read, or, where there is nothing,
/// a moment passes; in between the clock is read.
pub proof fn waiting_goes_round(s: Session, t: nat, n: nat, bytes: Seq<u8>)
    requires
        s.valid(),
        t < s.timeout,
        0 < n <= u32::MAX,
        bytes.len() > 0,
    ensures
        s.wish() is Write ==> s.handled(Happening::Written).wish() is Time,
        s.wish() is Time && !s.pending.contains(0x0A) ==> s.handled(Happening::Elapsed(t)).wish() is Peek,
        s.wish() is Peek ==> s.handled(Happening::Available(0)).wish() == Wish::Sleep(10),
        s.wish() is Peek ==> s.handled(Happening::Available(n)).wish() == Wish::Read(n),
        s.wish() is Sleep ==> s.handled(Happening::Slept).wish() is Time,
        s.wish() is Read ==> s.handled(Happening::Received(bytes)).wish() is Time,
        s.wish() is Read ==> s.handled(Happening::Received(bytes)).pending == s.pending + bytes,
{
    first_line_is_found(s.pending);
    if let Some(k) = line_length(s.pending) {
        assert(s.pending[k - 1] == 0x0A);
    }
}

/// A line that has come in full is looked at as soon as the clock has been read.
pub proof fn whole_lines_are_looked_at(s: Session, t: nat, n: nat)
    requires
        s.wish() is Time,
        t < s.timeout,
        0 < n <= s.pending.len(),
        s.pending[n - 1] == 0x0A,
        forall|i: int| 0 <= i < n - 1 ==> #[trigger] s.pending[i] != 0x0A,
    ensures
        line_looked_at(s, Happening::Elapsed(t)) == Some(s.pending.take(n as int)),
{
    first_line_is_found(s.pending);
    assert(s.pending.contains(s.pending[n - 1]));
    let m = line_length(s.pending)->Some_0;
    if m < n {
        assert(s.pending[m - 1] == 0x0A);
    } else if n < m {
        assert(s.pending[n - 1] == 0x0A);
    }
}

/// A stream that ends before the answer ends the fetch; what stands after the
/// last line feed is looked at first.
pub proof fn ended_stream_ends_the_fetch(s: Session)
    requires
        s.wish() is Read,
    ensures
        s.pending.len() == 0 ==> s.handled(Happening::Received(Seq::empty())).stage == (Stage::Disposing {
            report: Some(Failure::Rpc("codex closed stdout"@)),
        }),
        s.pending.len() > 0 ==> line_looked_at(s, Happening::Received(Seq::empty())) == Some(s.pending),
{
}

/// When a child has been disposed of, the fetch ends with its failure, or goes
/// on with a new program where it has none.
pub proof fn disposal_is_followed_up(s: Session)
    requires
        s.valid(),
        s.stage is Disposing,
    ensures
        s.wish() is Dispose,
        match s.stage->report {
            Some(failure) => s.handled(Happening::Disposed).stage == Stage::Finished(Err(failure)),
            None => s.handled(Happening::Disposed).wish() == Wish::Spawn(candidates(s.windows)[0]),
        },
        s.handled(Happening::Disposed).connection is None,
{
}

/// The outcome of a fetch waits to be collected, and collecting it leaves the
/// connection for the next fetch, with what has come over it.
pub proof fn outcome_is_collected(s: Session)
    ensures
        s.wish() is Deliver <==> s.stage is Finished,
        s.stage is Finished ==> s.delivered().stage is Idle,
        !(s.stage is Finished) ==> s.delivered() == s,
        s.delivered().connection == s.connection,
        s.delivered().pending == s.pending,
{
}

/// What does not answer the pending action changes nothing, except that time
/// that is up ends a request that waits.
pub proof fn events_out_of_turn_change_nothing(s: Session, e: Happening)
    requires
        s.valid(),
        !answers_wish(s.wish(), e),
        !(waits(s) && (e matches Happening::Elapsed(t) && t >= s.timeout)),
    ensures
        s.handled(e) == s,
{
}

/// Which programs are looked for and how long an answer is waited for stays as
/// it was set.
pub proof fn settings_stay(s: Session, input: Input)
    ensures
        step(s, input).windows == s.windows,
        step(s, input).timeout == s.timeout,
{
}

/// An answer is waited for as long as was set, and where the usual limit was set,
/// for three seconds.
pub proof fn answers_are_waited_for(s: Session, t: nat)
    requires
        s.wish() is Time,
        s.timeout == RPC_TIMEOUT_NANOS,
        !s.pending.contains(0x0A),
    ensures
        t < 3_000_000_000 ==> s.handled(Happening::Elapsed(t)).wish() is Peek,
        t >= 3_000_000_000 ==> s.handled(Happening::Elapsed(t)).wish() is Dispose,
{
    first_line_is_found(s.pending);
    if let Some(k) = line_length(s.pending) {
        assert(s.pending[k - 1] == 0x0A);
    }
}

/// Ids run out no sooner than the numbers do.
pub proof fn ids_last_long(s: Session)
    requires
        s.connection matches Some(c) ==> c.next_id < i64::MAX,
    ensures
        s.has_ids(),
{
}

/// On Windows the program is looked for as `codex.cmd`, then as `codex.exe`, and
/// then, as everywhere else, as `codex`.
pub proof fn programs_are_looked_for_in_order(windows: bool)
    ensures
        candidates(windows).last() == "codex"@,
        windows ==> candidates(windows).len() == 3 && candidates(windows)[0] == "codex.cmd"@ && candidates(windows)[1]
            == "codex.exe"@,
        !windows ==> candidates(windows).len() == 1,
{
}

/// A kept connection whose child is alive, and answers at once, serves the next
/// fetch: the outcome is the quota of the answer, whatever the id of the request,
/// and the connection is kept.
pub proof fn kept_connection_serves_the_fetch(s: Session, answer: Seq<u8>, result: Tree)
    requires
        s.valid(),
        s.stage is Idle,
        s.pending.len() == 0,
        s.timeout > 0,
        s.connection matches Some(c) && c.next_id < i64::MAX && bytes_judgement(answer, c.next_id as int)
            == Judgement::Finished(Ok(result)),
        line_length(answer) == Some(answer.len()),
        0 < answer.len() <= u32::MAX,
        quota_of(result).connected,
    ensures
        ({
            let end = after_events(s.started().handled(Happening::Alive), prompt_answer(answer));
            &&& end.stage == Stage::Finished(Ok(quota_of(result)))
            &&& end.connection == Some(
                Connection { next_id: (s.connection->Some_0.next_id + 1) as i64, initialized: true },
            )
        }),
{
    lemma_prompt_answer(s.started().handled(Happening::Alive), answer);
}

} // verus!
