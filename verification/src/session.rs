//! Fetching the quota: a machine that decides, from what the last piece of
//! input or output brought, which one comes next.
//!
//! The connection to `codex app-server` is long-lived: it is kept after a
//! successful fetch, so that the CLI is not started anew for every refresh.
//! Before it is used again, it is seen whether the child that serves it is still
//! alive: where it has exited, a new one takes its place in the same fetch.  A
//! failed fetch disposes of the connection.
//!
//! Only bytes that are there are ever read, and the machine puts the lines
//! together, so that a program that stalls in the middle of a line is found out
//! when the time is up.
use crate::appserver::{map_result, quota_of, Failure, FetchError};
use crate::json::{well_formed, Json, Tree};
use crate::protocol::{
    bytes_judgement, encode_line, find_line, first_line_is_found, initialize_request, initialize_tree, judge_bytes,
    line_length, line_of, read_limits_request, read_limits_tree, Judgement, Verdict,
};
use crate::quota::Quota;
use vstd::prelude::*;

verus! {

/// How long to wait for an answer, in nanoseconds: a slow or absent codex
/// should not leave the widget stuck on "Connecting...".
pub const RPC_TIMEOUT_NANOS: u128 = 3_000_000_000;

/// How long to sleep while there is nothing to read, in milliseconds.
pub const POLL_MILLIS: u64 = 10;

/// What is remembered of a connection.
#[derive(Clone, Copy, Debug, PartialEq, Eq, Structural)]
pub struct Connection {
    /// The id of the next request.
    pub next_id: i64,
    /// Whether the `initialize` handshake has completed on this connection.
    pub initialized: bool,
}

/// What a request is made for.
#[derive(Clone, Copy, Debug, PartialEq, Eq, Structural)]
pub enum Purpose {
    /// The handshake on a new connection.
    Open,
    /// The quota.
    Quota,
}

/// Where a request stands.
#[derive(Clone, Copy, Debug, PartialEq, Eq, Structural)]
pub enum Progress {
    /// It is being written.
    Writing,
    /// It is to be seen whether the time is up.
    Timing,
    /// It is to be seen whether there is something to read.
    Peeking,
    /// There was nothing to read.
    Napping,
    /// So many bytes, which are there, are being read.
    Reading(u32),
}

/// Where a fetch stands.
#[derive(Debug)]
pub enum Phase {
    /// No fetch is running.
    Idle,
    /// It is to be seen whether the child of an earlier fetch is still alive.
    Probing,
    /// The program name number `attempt` is being tried.
    Spawning { attempt: usize },
    /// A request has been made.
    Asking { purpose: Purpose, id: i64, progress: Progress },
    /// The child is being disposed of; then a new one is started or, where
    /// there is a failure to report, the fetch ends.
    Disposing { report: Option<FetchError> },
    /// The fetch has ended.
    Finished(Result<Quota, FetchError>),
}

/// A phase with its texts spelled out.
pub enum Stage {
    Idle,
    Probing,
    Spawning { attempt: nat },
    Asking { purpose: Purpose, id: int, progress: Progress },
    Disposing { report: Option<Failure> },
    Finished(Result<Quota, Failure>),
}

/// What the machine wants done next.
#[derive(Debug)]
pub enum Action {
    /// Nothing: no fetch is running.
    Rest,
    /// Tell whether the child is still alive.
    Probe,
    /// Start this program as `app-server --stdio`.
    Spawn(&'static str),
    /// Write these bytes to the child.
    Write(Vec<u8>),
    /// Tell how long ago, in nanoseconds, the last write ended.
    Time,
    /// Tell how many bytes there are to read.
    Peek,
    /// Sleep for so many milliseconds.
    Sleep(u64),
    /// Read at most so many bytes; they are there to be read.
    Read(u32),
    /// Kill the child and wait for its end.
    Dispose,
    /// Collect the outcome.
    Deliver,
}

/// What an action brought.
#[derive(Debug)]
pub enum Event {
    /// The child is alive.
    Alive,
    /// The child has exited.
    Exited,
    /// A child was started; its pipes are there or not.
    Spawned { stdin: bool, stdout: bool },
    SpawnFailed(String),
    Written,
    WriteFailed(String),
    /// So many nanoseconds have passed since the last write ended.
    Elapsed(u128),
    /// So many bytes can be read.
    Available(u32),
    PeekFailed(String),
    Slept,
    /// These bytes were read; none at the end of the stream.
    Received(Vec<u8>),
    ReadFailed(String),
    Disposed,
}

/// An event with its texts spelled out.
pub enum Happening {
    Alive,
    Exited,
    Spawned { stdin: bool, stdout: bool },
    SpawnFailed(Seq<char>),
    Written,
    WriteFailed(Seq<char>),
    Elapsed(nat),
    Available(nat),
    PeekFailed(Seq<char>),
    Slept,
    Received(Seq<u8>),
    ReadFailed(Seq<char>),
    Disposed,
}

impl View for Event {
    type V = Happening;

    open spec fn view(&self) -> Happening {
        match self {
            Event::Alive => Happening::Alive,
            Event::Exited => Happening::Exited,
            Event::Spawned { stdin, stdout } => Happening::Spawned { stdin: *stdin, stdout: *stdout },
            Event::SpawnFailed(e) => Happening::SpawnFailed(e@),
            Event::Written => Happening::Written,
            Event::WriteFailed(e) => Happening::WriteFailed(e@),
            Event::Elapsed(t) => Happening::Elapsed(*t as nat),
            Event::Available(n) => Happening::Available(*n as nat),
            Event::PeekFailed(e) => Happening::PeekFailed(e@),
            Event::Slept => Happening::Slept,
            Event::Received(bytes) => Happening::Received(bytes@),
            Event::ReadFailed(e) => Happening::ReadFailed(e@),
            Event::Disposed => Happening::Disposed,
        }
    }
}

/// The outcome of a fetch with its text spelled out.
pub open spec fn outcome_view(r: Result<Quota, FetchError>) -> Result<Quota, Failure> {
    match r {
        Ok(q) => Ok(q),
        Err(e) => Err(e@),
    }
}

impl View for Phase {
    type V = Stage;

    open spec fn view(&self) -> Stage {
        match self {
            Phase::Idle => Stage::Idle,
            Phase::Probing => Stage::Probing,
            Phase::Spawning { attempt } => Stage::Spawning { attempt: *attempt as nat },
            Phase::Asking { purpose, id, progress } => Stage::Asking {
                purpose: *purpose,
                id: *id as int,
                progress: *progress,
            },
            Phase::Disposing { report } => Stage::Disposing {
                report: match report {
                    Some(e) => Some(e@),
                    None => None,
                },
            },
            Phase::Finished(r) => Stage::Finished(outcome_view(*r)),
        }
    }
}

/// The names under which the program is looked for, in order.  On Windows,
/// codex is often `codex.cmd`, and only `.exe` is appended by the system.
pub open spec fn candidates(windows: bool) -> Seq<Seq<char>> {
    if windows {
        seq!["codex.cmd"@, "codex.exe"@, "codex"@]
    } else {
        seq!["codex"@]
    }
}

/// The name number `attempt`, where there are that many.
pub fn candidate(windows: bool, attempt: usize) -> (r: Option<&'static str>)
    ensures
        match r {
            Some(name) => attempt < candidates(windows).len() && name@ == candidates(windows)[attempt as int],
            None => attempt >= candidates(windows).len(),
        },
{
    if windows {
        match attempt {
            0 => Some("codex.cmd"),
            1 => Some("codex.exe"),
            2 => Some("codex"),
            _ => None,
        }
    } else {
        match attempt {
            0 => Some("codex"),
            _ => None,
        }
    }
}

/// The state of the machine, spelled out.
pub struct Session {
    /// Which program names are looked for.
    pub windows: bool,
    /// How long an answer is waited for, in nanoseconds.
    pub timeout: nat,
    /// What is remembered of the connection, where there is one.
    pub connection: Option<Connection>,
    /// The bytes that have come over the connection and not been looked at as a
    /// line.
    pub pending: Seq<u8>,
    /// Where the fetch stands.
    pub stage: Stage,
}

impl Session {
    /// No fetch has been made yet.
    pub open spec fn fresh(windows: bool, timeout: nat) -> Session {
        Session { windows, timeout, connection: None, pending: Seq::empty(), stage: Stage::Idle }
    }

    /// Makes a request for `purpose` on the connection `c`: it takes the next id.
    pub open spec fn ask(self, c: Connection, purpose: Purpose) -> Session {
        Session {
            connection: Some(Connection { next_id: (c.next_id + 1) as i64, initialized: c.initialized }),
            stage: Stage::Asking { purpose, id: c.next_id as int, progress: Progress::Writing },
            ..self
        }
    }

    /// Goes on with the request that has been made.
    pub open spec fn proceed(self, to: Progress) -> Session {
        match self.stage {
            Stage::Asking { purpose, id, progress } => Session {
                stage: Stage::Asking { purpose, id, progress: to },
                ..self
            },
            _ => self,
        }
    }

    /// Gives the connection up, with what came over it.
    pub open spec fn give_up(self, report: Option<Failure>) -> Session {
        Session { connection: None, pending: Seq::empty(), stage: Stage::Disposing { report }, ..self }
    }

    /// Gives the connection up and reports the failure.
    pub open spec fn fail(self, failure: Failure) -> Session {
        self.give_up(Some(failure))
    }

    /// Takes the result of a request.
    pub open spec fn accept(self, purpose: Purpose, result: Tree) -> Session {
        match purpose {
            Purpose::Quota => if quota_of(result).connected {
                Session { stage: Stage::Finished(Ok(quota_of(result))), ..self }
            } else {
                self.fail(Failure::Rpc("quota data unavailable"@))
            },
            Purpose::Open => match self.connection {
                Some(c) => self.ask(Connection { initialized: true, ..c }, Purpose::Quota),
                None => self,
            },
        }
    }

    /// Starts a fetch, where none is running: where there is a connection, it is
    /// to be seen whether its child is alive, and else a program is started.
    pub open spec fn started(self) -> Session {
        match self.stage {
            Stage::Idle => match self.connection {
                Some(_) => Session { stage: Stage::Probing, ..self },
                None => Session { stage: Stage::Spawning { attempt: 0 }, ..self },
            },
            _ => self,
        }
    }

    /// Lets go of the outcome of a fetch that has ended.
    pub open spec fn delivered(self) -> Session {
        match self.stage {
            Stage::Finished(_) => Session { stage: Stage::Idle, ..self },
            _ => self,
        }
    }

    /// Takes what a line means for the request that has been made.
    pub open spec fn judged(self, judgement: Judgement) -> Session {
        match self.stage {
            Stage::Asking { purpose, id, progress } => if progress == Progress::Writing {
                self
            } else {
                match judgement {
                    Judgement::Skip => self.proceed(Progress::Timing),
                    Judgement::Finished(Ok(result)) => self.accept(purpose, result),
                    Judgement::Finished(Err(failure)) => self.fail(failure),
                }
            },
            _ => self,
        }
    }

    /// Looks at the first line that has come, or, where there is none, goes on
    /// to see whether there is something to read.
    pub open spec fn looked(self, id: int) -> Session {
        match line_length(self.pending) {
            Some(n) => Session { pending: self.pending.skip(n as int), ..self }.judged(
                bytes_judgement(self.pending.take(n as int), id),
            ),
            None => self.proceed(Progress::Peeking),
        }
    }

    /// Takes bytes that were read.  At the end of the stream, what is left
    /// counts as a line.
    pub open spec fn received(self, id: int, bytes: Seq<u8>) -> Session {
        if bytes.len() > 0 {
            Session { pending: self.pending + bytes, ..self }.proceed(Progress::Timing)
        } else if self.pending.len() > 0 {
            Session { pending: Seq::empty(), ..self }.judged(bytes_judgement(self.pending, id))
        } else {
            self.fail(Failure::Rpc("codex closed stdout"@))
        }
    }

    /// Takes an event while a request is open.  Once the request has been
    /// written, it fails wherever it stands when the time is up.
    pub open spec fn exchanged(self, id: int, progress: Progress, event: Happening) -> Session {
        match (progress, event) {
            (Progress::Writing, Happening::Written) => self.proceed(Progress::Timing),
            (Progress::Writing, Happening::WriteFailed(e)) => self.fail(Failure::Io(e)),
            (Progress::Writing, _) => self,
            (_, Happening::Elapsed(t)) => if t >= self.timeout {
                self.fail(Failure::Rpc("timeout waiting for codex"@))
            } else if progress == Progress::Timing {
                self.looked(id)
            } else {
                self
            },
            (Progress::Peeking, Happening::Available(n)) => if n == 0 {
                self.proceed(Progress::Napping)
            } else {
                self.proceed(Progress::Reading(n as u32))
            },
            (Progress::Peeking, Happening::PeekFailed(e)) => self.fail(Failure::Io(e)),
            (Progress::Napping, Happening::Slept) => self.proceed(Progress::Timing),
            (Progress::Reading(_), Happening::Received(bytes)) => self.received(id, bytes),
            (Progress::Reading(_), Happening::ReadFailed(e)) => self.fail(Failure::Io(e)),
            _ => self,
        }
    }

    /// Takes an event.  One that does not answer the pending action changes
    /// nothing.
    pub open spec fn handled(self, event: Happening) -> Session {
        match (self.stage, event) {
            (Stage::Probing, Happening::Alive) => match self.connection {
                Some(c) => self.ask(c, Purpose::Quota),
                None => self,
            },
            (Stage::Probing, Happening::Exited) => self.give_up(None),
            (Stage::Spawning { attempt }, Happening::Spawned { stdin, stdout }) => if !stdin {
                self.fail(Failure::Spawn("no stdin on codex process"@))
            } else if !stdout {
                self.fail(Failure::Spawn("no stdout on codex process"@))
            } else {
                self.ask(Connection { next_id: 1, initialized: false }, Purpose::Open)
            },
            (Stage::Spawning { attempt }, Happening::SpawnFailed(e)) => Session {
                stage: if attempt + 1 < candidates(self.windows).len() {
                    Stage::Spawning { attempt: attempt + 1 }
                } else {
                    Stage::Finished(Err(Failure::Spawn(e)))
                },
                ..self
            },
            (Stage::Asking { purpose, id, progress }, e) => self.exchanged(id, progress, e),
            (Stage::Disposing { report }, Happening::Disposed) => Session {
                stage: match report {
                    Some(failure) => Stage::Finished(Err(failure)),
                    None => Stage::Spawning { attempt: 0 },
                },
                ..self
            },
            _ => self,
        }
    }

    /// The message that is being written.
    pub open spec fn message(self) -> Option<Tree> {
        match self.stage {
            Stage::Asking { purpose: Purpose::Quota, id, progress: Progress::Writing } => Some(read_limits_tree(id)),
            Stage::Asking { purpose, id, progress: Progress::Writing } => Some(initialize_tree(id)),
            _ => None,
        }
    }

    /// Whether the quota that a fetch has brought, if any, has percentages
    /// between 0 and 100 only.
    pub open spec fn in_range(self) -> bool {
        self.stage matches Stage::Finished(Ok(q)) ==> q.in_range()
    }

    /// Whether the connection has an id left for the request that the next event
    /// may lead to; after the one for the quota, none comes in the same fetch.
    pub open spec fn has_ids(self) -> bool {
        match self.stage {
            Stage::Idle | Stage::Asking { purpose: Purpose::Quota, .. } | Stage::Finished(_) => true,
            _ => self.connection matches Some(c) ==> c.next_id < i64::MAX,
        }
    }
}

/// An action with its contents spelled out.
pub enum Wish {
    Rest,
    Probe,
    Spawn(Seq<char>),
    Write(Seq<u8>),
    Time,
    Peek,
    Sleep(nat),
    Read(nat),
    Dispose,
    Deliver,
}

impl View for Action {
    type V = Wish;

    open spec fn view(&self) -> Wish {
        match self {
            Action::Rest => Wish::Rest,
            Action::Probe => Wish::Probe,
            Action::Spawn(name) => Wish::Spawn(name@),
            Action::Write(bytes) => Wish::Write(bytes@),
            Action::Time => Wish::Time,
            Action::Peek => Wish::Peek,
            Action::Sleep(ms) => Wish::Sleep(*ms as nat),
            Action::Read(n) => Wish::Read(*n as nat),
            Action::Dispose => Wish::Dispose,
            Action::Deliver => Wish::Deliver,
        }
    }
}

impl Session {
    /// What is to be done next.
    pub open spec fn wish(self) -> Wish {
        match self.stage {
            Stage::Idle => Wish::Rest,
            Stage::Probing => Wish::Probe,
            Stage::Spawning { attempt } => if attempt < candidates(self.windows).len() {
                Wish::Spawn(candidates(self.windows)[attempt as int])
            } else {
                Wish::Rest
            },
            Stage::Asking { purpose, id, progress } => match progress {
                Progress::Writing => Wish::Write(line_of(self.message()->Some_0)),
                Progress::Timing => Wish::Time,
                Progress::Peeking => Wish::Peek,
                Progress::Napping => Wish::Sleep(POLL_MILLIS as nat),
                Progress::Reading(n) => Wish::Read(n as nat),
            },
            Stage::Disposing { .. } => Wish::Dispose,
            Stage::Finished(_) => Wish::Deliver,
        }
    }

    /// What holds of every state that a fetcher can be in: there is a
    /// connection while a request is open, it has been initialized where the
    /// quota is asked for, and the open request has the last id given out, which
    /// is 1 for the handshake and more for the quota; a connection of an earlier
    /// fetch has been initialized and has served a request for the quota; while a
    /// program is being started or disposed of there is no connection; a fetch
    /// that succeeded brought data and left a connection, and one that failed left
    /// none; without a connection no bytes are kept.
    pub open spec fn valid(self) -> bool {
        &&& self.connection is None ==> self.pending.len() == 0
        &&& match self.stage {
            Stage::Idle => self.connection matches Some(c) ==> c.initialized && c.next_id >= 3,
            Stage::Probing => self.connection matches Some(c) && c.initialized && c.next_id >= 3,
            Stage::Spawning { attempt } => self.connection is None && attempt < candidates(self.windows).len(),
            Stage::Asking { purpose, id, progress } => {
                &&& self.connection matches Some(c)
                &&& id == c.next_id - 1
                &&& match purpose {
                    Purpose::Open => id == 1 && !c.initialized,
                    Purpose::Quota => id >= 2 && c.initialized,
                }
            },
            Stage::Disposing { .. } => self.connection is None,
            Stage::Finished(Ok(q)) => {
                &&& q.connected
                &&& self.connection matches Some(c)
                &&& c.initialized
                &&& c.next_id >= 3
            },
            Stage::Finished(Err(_)) => self.connection is None,
        }
    }
}

/// Drives a fetch.
#[derive(Debug)]
pub struct Fetcher {
    windows: bool,
    timeout: u128,
    connection: Option<Connection>,
    pending: Vec<u8>,
    phase: Phase,
}

impl View for Fetcher {
    type V = Session;

    closed spec fn view(&self) -> Session {
        Session {
            windows: self.windows,
            timeout: self.timeout as nat,
            connection: self.connection,
            pending: self.pending@,
            stage: self.phase@,
        }
    }
}

impl Fetcher {
    /// A fetcher without a connection; `windows` tells which program names to
    /// look for, and `timeout` how many nanoseconds to wait for an answer.
    pub fn new(windows: bool, timeout: u128) -> (r: Self)
        ensures
            r@ == Session::fresh(windows, timeout as nat),
            r@.valid(),
            r@.in_range(),
    {
        let r = Fetcher { windows, timeout, connection: None, pending: Vec::new(), phase: Phase::Idle };
        assert(r@.pending =~= Seq::empty());
        r
    }

    /// Whether the connection has an id left for the request that the next event
    /// may lead to.
    pub fn has_ids(&self) -> (r: bool)
        ensures
            r == self@.has_ids(),
    {
        match self.phase {
            Phase::Idle => true,
            Phase::Asking { purpose: Purpose::Quota, .. } => true,
            Phase::Finished(_) => true,
            _ => match self.connection {
                Some(c) => c.next_id < i64::MAX,
                None => true,
            },
        }
    }

    fn ask(&mut self, c: Connection, purpose: Purpose)
        requires
            c.next_id < i64::MAX,
        ensures
            final(self)@ == old(self)@.ask(c, purpose),
    {
        self.connection = Some(Connection { next_id: c.next_id + 1, initialized: c.initialized });
        self.phase = Phase::Asking { purpose, id: c.next_id, progress: Progress::Writing };
    }

    fn proceed(&mut self, to: Progress)
        ensures
            final(self)@ == old(self)@.proceed(to),
    {
        if let Phase::Asking { purpose, id, progress } = self.phase {
            self.phase = Phase::Asking { purpose, id, progress: to };
        }
    }

    fn give_up(&mut self, report: Option<FetchError>)
        ensures
            final(self)@ == old(self)@.give_up(
                match report {
                    Some(e) => Some(e@),
                    None => None,
                },
            ),
    {
        self.connection = None;
        self.pending = Vec::new();
        assert(self.pending@ =~= Seq::empty());
        self.phase = Phase::Disposing { report };
    }

    fn fail(&mut self, error: FetchError)
        ensures
            final(self)@ == old(self)@.fail(error@),
    {
        self.give_up(Some(error));
    }

    fn accept(&mut self, purpose: Purpose, result: Json)
        requires
            purpose == Purpose::Open ==> (old(self)@.connection matches Some(c) ==> c.next_id < i64::MAX),
        ensures
            final(self)@ == old(self)@.accept(purpose, result@),
            old(self)@.in_range() && well_formed(result) ==> final(self)@.in_range(),
    {
        match purpose {
            Purpose::Quota => {
                let quota = map_result(&result);
                if quota.connected {
                    self.phase = Phase::Finished(Ok(quota));
                } else {
                    self.fail(FetchError::Rpc("quota data unavailable".to_string()));
                }
            },
            Purpose::Open => {
                if let Some(c) = self.connection {
                    self.ask(Connection { next_id: c.next_id, initialized: true }, Purpose::Quota);
                }
            },
        }
    }

    /// Starts a fetch, where none is running.
    pub fn start(&mut self)
        ensures
            final(self)@ == old(self)@.started(),
            old(self)@.in_range() ==> final(self)@.in_range(),
    {
        if let Phase::Idle = self.phase {
            self.phase = match self.connection {
                Some(_) => Phase::Probing,
                None => Phase::Spawning { attempt: 0 },
            };
        }
    }

    /// Takes what a line means for the request that has been made.
    pub fn apply_verdict(&mut self, verdict: Verdict)
        requires
            old(self)@.has_ids(),
        ensures
            final(self)@ == old(self)@.judged(verdict@),
            old(self)@.in_range() && (verdict matches Verdict::Finished(Ok(j)) ==> well_formed(j))
                ==> final(self)@.in_range(),
    {
        if let Phase::Asking { purpose, id, progress } = self.phase {
            if progress != Progress::Writing {
                match verdict {
                    Verdict::Skip => self.proceed(Progress::Timing),
                    Verdict::Finished(Ok(result)) => self.accept(purpose, result),
                    Verdict::Finished(Err(error)) => self.fail(error),
                }
            }
        }
    }

    fn look(&mut self, id: i64)
        requires
            old(self)@.has_ids(),
        ensures
            final(self)@ == old(self)@.looked(id as int),
            old(self)@.in_range() ==> final(self)@.in_range(),
    {
        match find_line(&self.pending) {
            Some(n) => {
                proof {
                    first_line_is_found(self.pending@);
                }
                let rest = self.pending.split_off(n);
                let mut line = rest;
                std::mem::swap(&mut line, &mut self.pending);
                proof {
                    assert(line@ =~= old(self)@.pending.take(n as int));
                    assert(self.pending@ =~= old(self)@.pending.skip(n as int));
                }
                let verdict = judge_bytes(line, id);
                self.apply_verdict(verdict);
            },
            None => self.proceed(Progress::Peeking),
        }
    }

    fn receive(&mut self, id: i64, bytes: Vec<u8>)
        requires
            old(self)@.has_ids(),
        ensures
            final(self)@ == old(self)@.received(id as int, bytes@),
            old(self)@.in_range() ==> final(self)@.in_range(),
    {
        if bytes.len() > 0 {
            let mut more = bytes;
            self.pending.append(&mut more);
            self.proceed(Progress::Timing);
        } else if self.pending.len() > 0 {
            let mut line: Vec<u8> = Vec::new();
            std::mem::swap(&mut line, &mut self.pending);
            assert(self.pending@ =~= Seq::empty());
            let verdict = judge_bytes(line, id);
            self.apply_verdict(verdict);
        } else {
            self.fail(FetchError::Rpc("codex closed stdout".to_string()));
        }
    }

    fn exchange(&mut self, id: i64, progress: Progress, event: Event)
        requires
            old(self)@.has_ids(),
        ensures
            final(self)@ == old(self)@.exchanged(id as int, progress, event@),
            old(self)@.in_range() ==> final(self)@.in_range(),
    {
        match (progress, event) {
            (Progress::Writing, Event::Written) => self.proceed(Progress::Timing),
            (Progress::Writing, Event::WriteFailed(e)) => self.fail(FetchError::Io(e)),
            (Progress::Writing, _) => {},
            (_, Event::Elapsed(t)) => {
                if t >= self.timeout {
                    self.fail(FetchError::Rpc("timeout waiting for codex".to_string()));
                } else if progress == Progress::Timing {
                    self.look(id);
                }
            },
            (Progress::Peeking, Event::Available(n)) => {
                if n == 0 {
                    self.proceed(Progress::Napping);
                } else {
                    self.proceed(Progress::Reading(n));
                }
            },
            (Progress::Peeking, Event::PeekFailed(e)) => self.fail(FetchError::Io(e)),
            (Progress::Napping, Event::Slept) => self.proceed(Progress::Timing),
            (Progress::Reading(_), Event::Received(bytes)) => self.receive(id, bytes),
            (Progress::Reading(_), Event::ReadFailed(e)) => self.fail(FetchError::Io(e)),
            _ => {},
        }
    }

    /// Takes an event.  One that does not answer the pending action changes
    /// nothing.
    pub fn handle(&mut self, event: Event)
        requires
            old(self)@.has_ids(),
        ensures
            final(self)@ == old(self)@.handled(event@),
            old(self)@.in_range() ==> final(self)@.in_range(),
    {
        let mut phase = Phase::Idle;
        std::mem::swap(&mut phase, &mut self.phase);
        match (phase, event) {
            (Phase::Probing, Event::Alive) => {
                self.phase = Phase::Probing;
                if let Some(c) = self.connection {
                    self.ask(c, Purpose::Quota);
                }
            },
            (Phase::Probing, Event::Exited) => self.give_up(None),
            (Phase::Spawning { attempt }, Event::Spawned { stdin, stdout }) => {
                if !stdin {
                    self.fail(FetchError::Spawn("no stdin on codex process".to_string()));
                } else if !stdout {
                    self.fail(FetchError::Spawn("no stdout on codex process".to_string()));
                } else {
                    self.ask(Connection { next_id: 1, initialized: false }, Purpose::Open);
                }
            },
            (Phase::Spawning { attempt }, Event::SpawnFailed(e)) => {
                self.phase = if attempt < usize::MAX && candidate(self.windows, attempt + 1).is_some() {
                    Phase::Spawning { attempt: attempt + 1 }
                } else {
                    Phase::Finished(Err(FetchError::Spawn(e)))
                };
            },
            (Phase::Asking { purpose, id, progress }, event) => {
                self.phase = Phase::Asking { purpose, id, progress };
                self.exchange(id, progress, event);
            },
            (Phase::Disposing { report }, Event::Disposed) => {
                self.phase = match report {
                    Some(error) => Phase::Finished(Err(error)),
                    None => Phase::Spawning { attempt: 0 },
                };
            },
            (phase, _) => {
                self.phase = phase;
            },
        }
    }

    /// What is to be done next.
    pub fn action(&self) -> (r: Action)
        ensures
            r@ == self@.wish(),
    {
        match &self.phase {
            Phase::Idle => Action::Rest,
            Phase::Probing => Action::Probe,
            Phase::Spawning { attempt } => match candidate(self.windows, *attempt) {
                Some(name) => Action::Spawn(name),
                None => Action::Rest,
            },
            Phase::Asking { purpose, id, progress } => match progress {
                Progress::Writing => {
                    let message = match purpose {
                        Purpose::Quota => read_limits_request(*id),
                        Purpose::Open => initialize_request(*id),
                    };
                    Action::Write(encode_line(&message).unwrap())
                },
                Progress::Timing => Action::Time,
                Progress::Peeking => Action::Peek,
                Progress::Napping => Action::Sleep(POLL_MILLIS),
                Progress::Reading(n) => Action::Read(*n),
            },
            Phase::Disposing { .. } => Action::Dispose,
            Phase::Finished(_) => Action::Deliver,
        }
    }

    /// Hands over the outcome of a fetch that has ended.
    pub fn take_outcome(&mut self) -> (r: Option<Result<Quota, FetchError>>)
        ensures
            final(self)@ == old(self)@.delivered(),
            match old(self)@.stage {
                Stage::Finished(outcome) => r matches Some(o) && outcome_view(o) == outcome,
                _ => r is None,
            },
    {
        let mut phase = Phase::Idle;
        std::mem::swap(&mut phase, &mut self.phase);
        match phase {
            Phase::Finished(outcome) => Some(outcome),
            other => {
                self.phase = other;
                None
            },
        }
    }
}

} // verus!
