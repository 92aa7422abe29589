//! Running a pipeline: which stage comes next, where it reads from and
//! writes to, and when the pipeline is done.
//!
//! The executor is a state machine. It hands the driver one action at a time;
//! the driver carries the action out and reports what happened, and the
//! executor answers with the next action, until it says that the pipeline is
//! finished.
//!
//! Every file and pipe that the driver opens for a stage is given to the
//! process of that stage, or closed, before the driver reports. The one
//! exception is the read end of a pipe that a process writes to: the driver
//! keeps it until the executor has it handed to the next process or closed.
//! The executor keeps track of that pipe, so that none is left over.

use crate::builtin::RuntimeError;
use crate::jobs::JobTable;
use crate::parser::{CmdLine, CmdLineView, CmdView};
use crate::text::opt_view;
use vstd::prelude::*;

verus! {

/// Where a process reads its standard input from.
#[derive(Debug, PartialEq, Eq)]
pub enum Source {
    /// The terminal of the shell.
    Inherit,
    /// The file of this name, opened for reading.
    File(String),
    /// The read end of the pipe that the previous stage writes to.
    Pipe,
    /// A fresh pipe that the driver fills with this text, the result of the
    /// builtin before the stage, and closes.
    Text(String),
}

/// Where a process writes its standard output to.
#[derive(Debug, PartialEq, Eq)]
pub enum Sink {
    /// The terminal of the shell.
    Inherit,
    /// The file of this name, created or emptied.
    File(String),
    /// A fresh pipe, whose read end the driver keeps for the next stage.
    Pipe,
}

/// A source as plain values.
pub enum SourceView {
    Inherit,
    File(Seq<char>),
    Pipe,
    Text(Seq<char>),
}

/// A sink as plain values.
pub enum SinkView {
    Inherit,
    File(Seq<char>),
    Pipe,
}

impl View for Source {
    type V = SourceView;

    open spec fn view(&self) -> SourceView {
        match self {
            Source::Inherit => SourceView::Inherit,
            Source::File(name) => SourceView::File(name@),
            Source::Pipe => SourceView::Pipe,
            Source::Text(text) => SourceView::Text(text@),
        }
    }
}

impl View for Sink {
    type V = SinkView;

    open spec fn view(&self) -> SinkView {
        match self {
            Sink::Inherit => SinkView::Inherit,
            Sink::File(name) => SinkView::File(name@),
            Sink::Pipe => SinkView::Pipe,
        }
    }
}

/// What the executor asks the driver to do next.
#[derive(Debug, PartialEq, Eq)]
pub enum Action {
    /// Close the read end of the pipe that the previous stage writes to:
    /// nothing is going to read it.
    ClosePipe,
    /// Run the builtin of this stage and report its result.
    RunBuiltin { stage: usize },
    /// Write the text to the file, created or emptied, or to the terminal
    /// where there is no file.
    Emit { text: String, file: Option<String> },
    /// Start the process of this stage with this input and output, and
    /// report its process id. A pipe that is held goes to the process as its
    /// input, or is closed where the process cannot be started.
    Spawn { stage: usize, stdin: Source, stdout: Sink },
    /// Wait until this process has ended.
    Wait { pid: u32 },
    /// Nothing more: the pipeline is finished, with this outcome.
    Finish(Result<(), RuntimeError>),
}

/// An action as plain values.
pub enum ActionView {
    ClosePipe,
    RunBuiltin { stage: nat },
    Emit { text: Seq<char>, file: Option<Seq<char>> },
    Spawn { stage: nat, stdin: SourceView, stdout: SinkView },
    Wait { pid: u32 },
    Finish(Result<(), RuntimeError>),
}

impl View for Action {
    type V = ActionView;

    open spec fn view(&self) -> ActionView {
        match self {
            Action::ClosePipe => ActionView::ClosePipe,
            Action::RunBuiltin { stage } => ActionView::RunBuiltin { stage: *stage as nat },
            Action::Emit { text, file } => ActionView::Emit { text: text@, file: opt_view(*file) },
            Action::Spawn { stage, stdin, stdout } => ActionView::Spawn {
                stage: *stage as nat,
                stdin: stdin@,
                stdout: stdout@,
            },
            Action::Wait { pid } => ActionView::Wait { pid: *pid },
            Action::Finish(outcome) => ActionView::Finish(*outcome),
        }
    }
}

/// What the driver reports after it has carried out an action.
#[derive(Debug, PartialEq, Eq)]
pub enum Event {
    /// The action was carried out; there is nothing to tell.
    Done,
    /// The builtin gave this result.
    Output(String),
    /// The process was started and has this process id.
    Spawned(u32),
    /// The action failed.
    Failed(RuntimeError),
}

/// An event as plain values.
pub enum EventView {
    Done,
    Output(Seq<char>),
    Spawned(u32),
    Failed(RuntimeError),
}

impl View for Event {
    type V = EventView;

    open spec fn view(&self) -> EventView {
        match self {
            Event::Done => EventView::Done,
            Event::Output(text) => EventView::Output(text@),
            Event::Spawned(pid) => EventView::Spawned(*pid),
            Event::Failed(e) => EventView::Failed(*e),
        }
    }
}

/// The action that the executor waits for.
#[derive(Clone, Copy, Debug, PartialEq, Eq, Structural)]
pub enum Phase {
    /// The held pipe is being closed.
    AwaitClose,
    /// The builtin of stage `at` is being run.
    AwaitBuiltin,
    /// The result of the last builtin is being written.
    AwaitEmit,
    /// The process of stage `at` is being started.
    AwaitSpawn,
    /// The process of stage `at` is being waited for.
    AwaitWait,
    /// Nothing is pending, and nothing will be.
    Finished,
}

/// A pipeline on its way through the executor.
#[derive(Debug, PartialEq, Eq)]
pub struct Executor {
    /// The pipeline.
    pub line: CmdLine,
    /// The stage that the pending action is about.
    pub at: usize,
    /// The action that is pending.
    pub phase: Phase,
    /// The result of the builtin before stage `at`, kept for that stage.
    pub carried: Option<String>,
    /// The driver holds the read end of the pipe that the stage before `at`
    /// writes to.
    pub pipe_held: bool,
    /// The first failure, once there was one.
    pub failure: Option<RuntimeError>,
}

/// An executor as plain values.
pub struct ExecutorView {
    pub line: CmdLineView,
    pub at: nat,
    pub phase: Phase,
    pub carried: Option<Seq<char>>,
    pub pipe_held: bool,
    pub failure: Option<RuntimeError>,
}

impl View for Executor {
    type V = ExecutorView;

    open spec fn view(&self) -> ExecutorView {
        ExecutorView {
            line: self.line@,
            at: self.at as nat,
            phase: self.phase,
            carried: opt_view(self.carried),
            pipe_held: self.pipe_held,
            failure: self.failure,
        }
    }
}

/// Where stage `i` reads from, if it is a process: the first stage from the
/// input file, or else the terminal; a stage after a builtin from a fresh
/// pipe that holds the builtin's result; a stage after a process from that
/// process's pipe.
pub open spec fn source_of(line: CmdLineView, i: nat, carried: Option<Seq<char>>) -> SourceView {
    if i == 0 {
        match line.input_filename {
            Some(name) => SourceView::File(name),
            None => SourceView::Inherit,
        }
    } else if line.cmds[i - 1].is_builtin {
        match carried {
            Some(text) => SourceView::Text(text),
            None => SourceView::Text(Seq::empty()),
        }
    } else {
        SourceView::Pipe
    }
}

/// Where stage `i` writes to, if it is a process: the last stage to the
/// output file, or else the terminal; every other stage to a fresh pipe.
pub open spec fn sink_of(line: CmdLineView, i: nat) -> SinkView {
    if i + 1 == line.cmds.len() {
        match line.output_filename {
            Some(name) => SinkView::File(name),
            None => SinkView::Inherit,
        }
    } else {
        SinkView::Pipe
    }
}

/// The pipeline with `pid` as the process of stage `i`.
pub open spec fn with_pid(line: CmdLineView, i: nat, pid: u32) -> CmdLineView {
    if i < line.cmds.len() {
        CmdLineView {
            cmds: line.cmds.update(i as int, CmdView { pid: Some(pid), ..line.cmds[i as int] }),
            ..line
        }
    } else {
        line
    }
}

/// The outcome of a pipeline with this first failure.
pub open spec fn outcome_of(failure: Option<RuntimeError>) -> Result<(), RuntimeError> {
    match failure {
        Some(e) => Err(e),
        None => Ok(()),
    }
}

/// The failure that an event tells of, where nothing but `Done` was
/// expected.
pub open spec fn failure_of(event: EventView) -> Option<RuntimeError> {
    match event {
        EventView::Done => None,
        EventView::Failed(e) => Some(e),
        _ => Some(RuntimeError::UnexpectedEvent),
    }
}

/// The earlier of two failures.
pub open spec fn first_failure(earlier: Option<RuntimeError>, later: Option<RuntimeError>) -> Option<
    RuntimeError,
> {
    if earlier is Some {
        earlier
    } else {
        later
    }
}

/// The first stage from `from` on that has a process, or the number of
/// stages where there is none.
pub open spec fn next_process(cmds: Seq<CmdView>, from: nat) -> nat
    decreases cmds.len() - from,
{
    if from >= cmds.len() {
        cmds.len()
    } else if cmds[from as int].pid is Some {
        from
    } else {
        next_process(cmds, from + 1)
    }
}

/// The stage after `s.at`, while `s.at` is a stage.
pub open spec fn after(s: ExecutorView) -> nat {
    if s.at < s.line.cmds.len() {
        s.at + 1
    } else {
        s.at
    }
}

/// Waits for the next process from stage `from` on, or finishes.
pub open spec fn wait_from(s: ExecutorView, from: nat) -> (ExecutorView, ActionView) {
    let k = next_process(s.line.cmds, from);
    if k < s.line.cmds.len() {
        (
            ExecutorView { at: k, phase: Phase::AwaitWait, ..s },
            ActionView::Wait { pid: s.line.cmds[k as int].pid->0 },
        )
    } else {
        (
            ExecutorView {
                at: k,
                phase: Phase::Finished,
                line: CmdLineView { running: false, ..s.line },
                ..s
            },
            ActionView::Finish(outcome_of(s.failure)),
        )
    }
}

/// Goes on from stage `s.at` with no action pending.
///
/// After a failure, and after the last stage, construction is over: a pipe
/// that is still held is closed; a background pipeline that did not fail is
/// finished at once and keeps running; any other has its processes waited
/// for, from left to right. Before that, a builtin is run, after the pipe of
/// a process before it has been closed, and a process is started with its
/// input and output.
pub open spec fn proceed(s: ExecutorView) -> (ExecutorView, ActionView) {
    if s.failure is Some || s.at >= s.line.cmds.len() {
        if s.pipe_held {
            (ExecutorView { phase: Phase::AwaitClose, carried: None, ..s }, ActionView::ClosePipe)
        } else if s.failure is None && s.line.is_daemon {
            (
                ExecutorView { phase: Phase::Finished, carried: None, ..s },
                ActionView::Finish(Ok(())),
            )
        } else {
            wait_from(ExecutorView { carried: None, ..s }, 0)
        }
    } else if s.line.cmds[s.at as int].is_builtin {
        if s.pipe_held {
            (ExecutorView { phase: Phase::AwaitClose, ..s }, ActionView::ClosePipe)
        } else {
            (
                ExecutorView { phase: Phase::AwaitBuiltin, ..s },
                ActionView::RunBuiltin { stage: s.at },
            )
        }
    } else {
        (
            ExecutorView { phase: Phase::AwaitSpawn, carried: None, ..s },
            ActionView::Spawn {
                stage: s.at,
                stdin: source_of(s.line, s.at, s.carried),
                stdout: sink_of(s.line, s.at),
            },
        )
    }
}

/// The executor as it takes up a pipeline: the pipeline is running from now
/// on, and its first stage comes first.
pub open spec fn start_spec(line: CmdLineView) -> (ExecutorView, ActionView) {
    proceed(
        ExecutorView {
            line: CmdLineView { running: true, ..line },
            at: 0,
            phase: Phase::Finished,
            carried: None,
            pipe_held: false,
            failure: None,
        },
    )
}

/// The executor with a failure on record: what it carried is dropped.
pub open spec fn failed(s: ExecutorView, e: RuntimeError) -> ExecutorView {
    ExecutorView { failure: first_failure(s.failure, Some(e)), carried: None, ..s }
}

/// The executor after an event, and its next action.
///
/// The result of a builtin goes to the pipeline's output file or the
/// terminal where the builtin is the last stage, unless it is empty, and is
/// kept for the next stage otherwise. A started process is recorded with its
/// stage, and the driver holds its pipe where it writes to one. A failure
/// ends construction; the processes that were started are still waited for.
/// An event that does not answer the pending action counts as a failure.
pub open spec fn step_spec(s: ExecutorView, event: EventView) -> (ExecutorView, ActionView) {
    match s.phase {
        Phase::Finished => (s, ActionView::Finish(outcome_of(s.failure))),
        Phase::AwaitClose => proceed(
            ExecutorView {
                pipe_held: false,
                failure: first_failure(s.failure, failure_of(event)),
                ..s
            },
        ),
        Phase::AwaitBuiltin => match event {
            EventView::Output(text) => if s.at + 1 == s.line.cmds.len() {
                if text.len() > 0 {
                    (
                        ExecutorView { phase: Phase::AwaitEmit, carried: None, ..s },
                        ActionView::Emit { text, file: s.line.output_filename },
                    )
                } else {
                    proceed(ExecutorView { at: after(s), carried: None, ..s })
                }
            } else {
                proceed(ExecutorView { at: after(s), carried: Some(text), ..s })
            },
            EventView::Failed(e) => proceed(failed(s, e)),
            _ => proceed(failed(s, RuntimeError::UnexpectedEvent)),
        },
        Phase::AwaitEmit => match failure_of(event) {
            None => proceed(ExecutorView { at: after(s), ..s }),
            Some(e) => proceed(failed(s, e)),
        },
        Phase::AwaitSpawn => match event {
            EventView::Spawned(pid) => proceed(
                ExecutorView {
                    line: with_pid(s.line, s.at, pid),
                    at: after(s),
                    pipe_held: sink_of(s.line, s.at) is Pipe,
                    carried: None,
                    ..s
                },
            ),
            EventView::Failed(e) => proceed(ExecutorView { pipe_held: false, ..failed(s, e) }),
            _ => proceed(
                ExecutorView { pipe_held: false, ..failed(s, RuntimeError::UnexpectedEvent) },
            ),
        },
        Phase::AwaitWait => wait_from(
            ExecutorView { failure: first_failure(s.failure, failure_of(event)), ..s },
            after(s),
        ),
    }
}

/// The outcome of a pipeline with this first failure.
fn outcome(failure: Option<RuntimeError>) -> (r: Result<(), RuntimeError>)
    ensures
        r == outcome_of(failure),
{
    match failure {
        Some(e) => Err(e),
        None => Ok(()),
    }
}

/// A copy of an optional string.
fn copy_of(text: &Option<String>) -> (copy: Option<String>)
    ensures
        opt_view(copy) == opt_view(*text),
{
    match text {
        Some(t) => Some(t.clone()),
        None => None,
    }
}

impl Executor {
    /// Waits for the next process from stage `from` on, or finishes.
    fn wait_from(&mut self, from: usize) -> (action: Action)
        ensures
            (final(self)@, action@) == wait_from(old(self)@, from as nat),
    {
        let n = self.line.cmds.len();
        let ghost cmds = self.line@.cmds;
        let mut k: usize = from;
        while k < n
            invariant
                *self == *old(self),
                n == self.line.cmds.len(),
                cmds == self.line@.cmds,
                from <= k,
                next_process(cmds, from as nat) == next_process(cmds, k as nat),
            decreases n - k,
        {
            assert(cmds[k as int] == self.line.cmds@[k as int]@);
            match self.line.cmds[k].pid {
                Some(pid) => {
                    self.at = k;
                    self.phase = Phase::AwaitWait;
                    return Action::Wait { pid };
                },
                None => {},
            }
            k += 1;
        }
        self.at = n;
        self.phase = Phase::Finished;
        self.line.running = false;
        Action::Finish(outcome(self.failure))
    }

    /// Goes on from stage `self.at` with no action pending.
    fn proceed(&mut self) -> (action: Action)
        ensures
            (final(self)@, action@) == proceed(old(self)@),
    {
        let n = self.line.cmds.len();
        if self.failure.is_some() || self.at >= n {
            self.carried = None;
            if self.pipe_held {
                self.phase = Phase::AwaitClose;
                Action::ClosePipe
            } else if self.failure.is_none() && self.line.is_daemon {
                self.phase = Phase::Finished;
                Action::Finish(Ok(()))
            } else {
                self.wait_from(0)
            }
        } else {
            assert(self.line@.cmds[self.at as int] == self.line.cmds@[self.at as int]@);
            if self.line.cmds[self.at].is_builtin {
                if self.pipe_held {
                    self.phase = Phase::AwaitClose;
                    Action::ClosePipe
                } else {
                    self.phase = Phase::AwaitBuiltin;
                    Action::RunBuiltin { stage: self.at }
                }
            } else {
                let stdin = if self.at == 0 {
                    match &self.line.input_filename {
                        Some(name) => Source::File(name.clone()),
                        None => Source::Inherit,
                    }
                } else {
                    assert(self.line@.cmds[self.at - 1] == self.line.cmds@[self.at - 1]@);
                    if self.line.cmds[self.at - 1].is_builtin {
                        match self.carried.take() {
                            Some(text) => Source::Text(text),
                            None => Source::Text(String::new()),
                        }
                    } else {
                        Source::Pipe
                    }
                };
                let stdout = if self.at + 1 == n {
                    match &self.line.output_filename {
                        Some(name) => Sink::File(name.clone()),
                        None => Sink::Inherit,
                    }
                } else {
                    Sink::Pipe
                };
                self.carried = None;
                self.phase = Phase::AwaitSpawn;
                Action::Spawn { stage: self.at, stdin, stdout }
            }
        }
    }

    /// Puts a failure on record and drops what was carried.
    fn fail(&mut self, e: RuntimeError)
        ensures
            final(self)@ == failed(old(self)@, e),
    {
        if self.failure.is_none() {
            self.failure = Some(e);
        }
        self.carried = None;
    }

    /// Moves on to the stage after `self.at`, while `self.at` is a stage.
    fn advance(&mut self)
        ensures
            final(self)@ == (ExecutorView { at: after(old(self)@), ..old(self)@ }),
    {
        if self.at < self.line.cmds.len() {
            self.at = self.at + 1;
        }
    }

    /// Takes up a pipeline and says what to do first.
    pub fn start(line: CmdLine) -> (r: (Executor, Action))
        ensures
            (r.0@, r.1@) == start_spec(line@),
    {
        let mut line = line;
        line.running = true;
        let mut executor = Executor {
            line,
            at: 0,
            phase: Phase::Finished,
            carried: None,
            pipe_held: false,
            failure: None,
        };
        let action = executor.proceed();
        (executor, action)
    }

    /// Takes note of what the driver reports and says what to do next.
    pub fn step(&mut self, event: Event) -> (action: Action)
        ensures
            (final(self)@, action@) == step_spec(old(self)@, event@),
    {
        match self.phase {
            Phase::Finished => Action::Finish(outcome(self.failure)),
            Phase::AwaitClose => {
                self.pipe_held = false;
                match event {
                    Event::Done => {},
                    Event::Failed(e) => {
                        if self.failure.is_none() {
                            self.failure = Some(e);
                        }
                    },
                    _ => {
                        if self.failure.is_none() {
                            self.failure = Some(RuntimeError::UnexpectedEvent);
                        }
                    },
                }
                self.proceed()
            },
            Phase::AwaitBuiltin => {
                match event {
                    Event::Output(text) => {
                        let n = self.line.cmds.len();
                        if self.at < n && n - self.at == 1 {
                            if text.as_str().unicode_len() > 0 {
                                self.phase = Phase::AwaitEmit;
                                self.carried = None;
                                let file = copy_of(&self.line.output_filename);
                                Action::Emit { text, file }
                            } else {
                                self.advance();
                                self.carried = None;
                                self.proceed()
                            }
                        } else {
                            self.advance();
                            self.carried = Some(text);
                            self.proceed()
                        }
                    },
                    Event::Failed(e) => {
                        self.fail(e);
                        self.proceed()
                    },
                    _ => {
                        self.fail(RuntimeError::UnexpectedEvent);
                        self.proceed()
                    },
                }
            },
            Phase::AwaitEmit => {
                match event {
                    Event::Done => {
                        self.advance();
                    },
                    Event::Failed(e) => {
                        self.fail(e);
                    },
                    _ => {
                        self.fail(RuntimeError::UnexpectedEvent);
                    },
                }
                self.proceed()
            },
            Phase::AwaitSpawn => {
                match event {
                    Event::Spawned(pid) => {
                        let n = self.line.cmds.len();
                        if self.at < n {
                            let ghost before = self.line@;
                            self.line.cmds[self.at].pid = Some(pid);
                            assert(self.line@.cmds =~= with_pid(before, self.at as nat, pid).cmds);
                        }
                        self.pipe_held = !(self.at < n && n - self.at == 1);
                        self.advance();
                        self.carried = None;
                    },
                    Event::Failed(e) => {
                        self.fail(e);
                        self.pipe_held = false;
                    },
                    _ => {
                        self.fail(RuntimeError::UnexpectedEvent);
                        self.pipe_held = false;
                    },
                }
                self.proceed()
            },
            Phase::AwaitWait => {
                match event {
                    Event::Done => {},
                    Event::Failed(e) => {
                        if self.failure.is_none() {
                            self.failure = Some(e);
                        }
                    },
                    _ => {
                        if self.failure.is_none() {
                            self.failure = Some(RuntimeError::UnexpectedEvent);
                        }
                    },
                }
                let from = if self.at < self.line.cmds.len() {
                    self.at + 1
                } else {
                    self.at
                };
                self.wait_from(from)
            },
        }
    }
}

/// Every process among the first `n` stages has been started.
pub open spec fn started(cmds: Seq<CmdView>, n: nat) -> bool {
    forall|k: int| 0 <= k < n ==> (#[trigger] cmds[k]).is_builtin || cmds[k].pid is Some
}

impl ExecutorView {
    /// The number of stages that have been set up: all of them once the
    /// waiting has begun, else those before `at`.
    pub open spec fn built(self) -> nat {
        if self.phase == Phase::AwaitWait || self.phase == Phase::Finished {
            self.line.cmds.len()
        } else {
            self.at
        }
    }

    /// What holds of every executor that `start` made and `step` moved.
    ///
    /// The pending action is about a stage of the right kind. The driver
    /// holds a pipe only while the stage before `at` is a process that
    /// writes to one and the pipe has found no reader yet. A result is
    /// carried only from a builtin to the stage after it. While nothing has
    /// failed, every process before `at` has been started. A finished
    /// executor holds neither pipe nor result, and its pipeline still runs
    /// exactly if it went to the background without a failure.
    pub open spec fn wf(self) -> bool {
        let n = self.line.cmds.len();
        let cmds = self.line.cmds;
        let at = self.at as int;
        &&& at <= n
        &&& self.phase != Phase::Finished ==> self.line.running
        &&& self.pipe_held ==> 1 <= at < n && !cmds[at - 1].is_builtin
        &&& self.carried is Some ==> 1 <= at < n && cmds[at - 1].is_builtin
        &&& self.failure is None ==> started(cmds, self.built())
        &&& match self.phase {
            Phase::AwaitClose => {
                &&& self.pipe_held
                &&& self.failure is None ==> cmds[at].is_builtin
            },
            Phase::AwaitBuiltin => {
                &&& at < n
                &&& cmds[at].is_builtin
                &&& self.failure is None
                &&& !self.pipe_held
            },
            Phase::AwaitEmit => {
                &&& at + 1 == n
                &&& cmds[at].is_builtin
                &&& self.failure is None
                &&& !self.pipe_held
                &&& self.carried is None
            },
            Phase::AwaitSpawn => {
                &&& at < n
                &&& !cmds[at].is_builtin
                &&& self.failure is None
                &&& self.carried is None
                &&& self.pipe_held == (at >= 1 && !cmds[at - 1].is_builtin)
            },
            Phase::AwaitWait => {
                &&& at < n
                &&& cmds[at].pid is Some
                &&& !self.pipe_held
                &&& self.carried is None
                &&& self.failure is Some || !self.line.is_daemon
            },
            Phase::Finished => {
                &&& !self.pipe_held
                &&& self.carried is None
                &&& self.line.running == (self.failure is None && self.line.is_daemon)
            },
        }
    }
}

/// The action that answers to a phase.
pub open spec fn fits(phase: Phase, action: ActionView) -> bool {
    match phase {
        Phase::AwaitClose => action is ClosePipe,
        Phase::AwaitBuiltin => action is RunBuiltin,
        Phase::AwaitEmit => action is Emit,
        Phase::AwaitSpawn => action is Spawn,
        Phase::AwaitWait => action is Wait,
        Phase::Finished => action is Finish,
    }
}

/// What an action says of the executor that gave it: the pending action is
/// the one that the phase names and is about stage `at`; a process reads
/// from the held pipe exactly where one is held, and writes to a pipe
/// exactly where a stage follows.
pub open spec fn describes(action: ActionView, s: ExecutorView) -> bool {
    &&& fits(s.phase, action)
    &&& match action {
        ActionView::ClosePipe => true,
        ActionView::RunBuiltin { stage } => stage == s.at,
        ActionView::Emit { text, file } => text.len() > 0 && file == s.line.output_filename,
        ActionView::Spawn { stage, stdin, stdout } => {
            &&& stage == s.at
            &&& stdin is Pipe <==> s.pipe_held
            &&& stdout is Pipe <==> stage + 1 < s.line.cmds.len()
            &&& stdout == sink_of(s.line, stage)
            &&& stage == 0 ==> stdin == source_of(s.line, 0, None)
            &&& stdin is Text <==> stage > 0 && s.line.cmds[stage - 1].is_builtin
        },
        ActionView::Wait { pid } => s.line.cmds[s.at as int].pid == Some(pid),
        ActionView::Finish(outcome) => outcome == outcome_of(s.failure),
    }
}

/// The next process from `from` on is the first stage from there on that
/// has a process, or there is none.
pub proof fn lemma_next_process(cmds: Seq<CmdView>, from: nat)
    ensures
        from <= next_process(cmds, from) || next_process(cmds, from) == cmds.len(),
        next_process(cmds, from) <= cmds.len(),
        next_process(cmds, from) < cmds.len() ==> cmds[next_process(cmds, from) as int].pid is Some,
        forall|k: int| from <= k < next_process(cmds, from) ==> (#[trigger] cmds[k]).pid is None,
    decreases cmds.len() - from,
{
    if from < cmds.len() && cmds[from as int].pid is None {
        lemma_next_process(cmds, from + 1);
    }
}

/// Waiting keeps an executor well formed.
proof fn lemma_wait_from_wf(s: ExecutorView, from: nat)
    requires
        s.at <= s.line.cmds.len(),
        !s.pipe_held,
        s.carried is None,
        s.line.running,
        s.failure is Some || !s.line.is_daemon,
        s.failure is None ==> started(s.line.cmds, s.line.cmds.len()),
    ensures
        wait_from(s, from).0.wf(),
        describes(wait_from(s, from).1, wait_from(s, from).0),
{
    lemma_next_process(s.line.cmds, from);
}

/// Going on keeps an executor well formed, where the pipe is held exactly
/// behind a process and a result is carried only behind a builtin.
proof fn lemma_proceed_wf(s: ExecutorView)
    requires
        s.at <= s.line.cmds.len(),
        s.line.running,
        s.pipe_held ==> 1 <= s.at < s.line.cmds.len() && !s.line.cmds[s.at - 1].is_builtin,
        s.carried is Some ==> 1 <= s.at < s.line.cmds.len() && s.line.cmds[s.at - 1].is_builtin,
        s.failure is None && 1 <= s.at < s.line.cmds.len() && !s.line.cmds[s.at - 1].is_builtin
            && !s.line.cmds[s.at as int].is_builtin ==> s.pipe_held,
        s.failure is None ==> started(s.line.cmds, s.at),
    ensures
        proceed(s).0.wf(),
        describes(proceed(s).1, proceed(s).0),
{
    if s.failure is Some || s.at >= s.line.cmds.len() {
        if !s.pipe_held && !(s.failure is None && s.line.is_daemon) {
            lemma_wait_from_wf(ExecutorView { carried: None, ..s }, 0);
        }
    }
}

/// An executor is well formed from the start, and its first action describes
/// it.
pub proof fn lemma_start_wf(line: CmdLineView)
    ensures
        start_spec(line).0.wf(),
        describes(start_spec(line).1, start_spec(line).0),
{
    lemma_proceed_wf(
        ExecutorView {
            line: CmdLineView { running: true, ..line },
            at: 0,
            phase: Phase::Finished,
            carried: None,
            pipe_held: false,
            failure: None,
        },
    );
}

/// A step keeps an executor well formed, whatever the driver reports, and
/// the next action describes the executor after the step.
pub proof fn lemma_step_wf(s: ExecutorView, event: EventView)
    requires
        s.wf(),
    ensures
        step_spec(s, event).0.wf(),
        describes(step_spec(s, event).1, step_spec(s, event).0),
{
    let n = s.line.cmds.len();
    match s.phase {
        Phase::Finished => {},
        Phase::AwaitClose => {
            lemma_proceed_wf(
                ExecutorView {
                    pipe_held: false,
                    failure: first_failure(s.failure, failure_of(event)),
                    ..s
                },
            );
        },
        Phase::AwaitBuiltin => {
            match event {
                EventView::Output(text) => {
                    if s.at + 1 == n {
                        if text.len() == 0 {
                            lemma_proceed_wf(ExecutorView { at: after(s), carried: None, ..s });
                        }
                    } else {
                        lemma_proceed_wf(ExecutorView { at: after(s), carried: Some(text), ..s });
                    }
                },
                EventView::Failed(e) => {
                    lemma_proceed_wf(failed(s, e));
                },
                _ => {
                    lemma_proceed_wf(failed(s, RuntimeError::UnexpectedEvent));
                },
            }
        },
        Phase::AwaitEmit => {
            match failure_of(event) {
                None => {
                    lemma_proceed_wf(ExecutorView { at: after(s), ..s });
                },
                Some(e) => {
                    lemma_proceed_wf(failed(s, e));
                },
            }
        },
        Phase::AwaitSpawn => {
            match event {
                EventView::Spawned(pid) => {
                    let line = with_pid(s.line, s.at, pid);
                    assert forall|k: int| 0 <= k < s.at + 1 implies (#[trigger] line.cmds[k]).is_builtin
                        || line.cmds[k].pid is Some by {
                        if k < s.at {
                            assert(s.line.cmds[k].is_builtin || s.line.cmds[k].pid is Some);
                        }
                    }
                    lemma_proceed_wf(
                        ExecutorView {
                            line: with_pid(s.line, s.at, pid),
                            at: after(s),
                            pipe_held: sink_of(s.line, s.at) is Pipe,
                            carried: None,
                            ..s
                        },
                    );
                },
                EventView::Failed(e) => {
                    lemma_proceed_wf(ExecutorView { pipe_held: false, ..failed(s, e) });
                },
                _ => {
                    lemma_proceed_wf(
                        ExecutorView {
                            pipe_held: false,
                            ..failed(s, RuntimeError::UnexpectedEvent)
                        },
                    );
                },
            }
        },
        Phase::AwaitWait => {
            lemma_wait_from_wf(
                ExecutorView { failure: first_failure(s.failure, failure_of(event)), ..s },
                after(s),
            );
        },
    }
}

/// The pipeline of a finished executor becomes a job: it went to the
/// background and nothing failed.
pub open spec fn becomes_job(s: ExecutorView) -> bool {
    s.phase == Phase::Finished && s.failure is None && s.line.is_daemon
}

/// The executor after the driver has reported these events, one after
/// another.
pub open spec fn run(s: ExecutorView, events: Seq<EventView>) -> ExecutorView
    decreases events.len(),
{
    if events.len() == 0 {
        s
    } else {
        step_spec(run(s, events.drop_last()), events.last()).0
    }
}

/// Whatever the driver reports, the executor of a pipeline stays well
/// formed; so once it has finished, the driver holds no pipe of the pipeline
/// and the executor carries no text.
pub proof fn lemma_finished_holds_nothing(line: CmdLineView, events: Seq<EventView>)
    ensures
        run(start_spec(line).0, events).wf(),
        run(start_spec(line).0, events).phase == Phase::Finished ==> !run(
            start_spec(line).0,
            events,
        ).pipe_held && run(start_spec(line).0, events).carried is None,
    decreases events.len(),
{
    if events.len() == 0 {
        lemma_start_wf(line);
    } else {
        lemma_finished_holds_nothing(line, events.drop_last());
        lemma_step_wf(run(start_spec(line).0, events.drop_last()), events.last());
    }
}

/// A bound on the number of reports that an executor still takes before it
/// has finished.
pub open spec fn steps_left(s: ExecutorView) -> int {
    let n = s.line.cmds.len() as int;
    let ahead = n - s.at;
    match s.phase {
        Phase::Finished => 0,
        Phase::AwaitWait => ahead,
        Phase::AwaitClose => if s.failure is Some {
            n + 1
        } else {
            3 * ahead + n + 1
        },
        Phase::AwaitBuiltin => 3 * ahead + n,
        Phase::AwaitEmit => 3 * ahead + n - 1,
        Phase::AwaitSpawn => 3 * ahead + n - 1,
    }
}

/// Every report brings an executor that has not finished closer to its end:
/// a pipeline of `n` stages is finished after `4 * n + 1` reports at most.
pub proof fn lemma_step_progress(s: ExecutorView, event: EventView)
    requires
        s.wf(),
        s.phase != Phase::Finished,
    ensures
        0 <= steps_left(step_spec(s, event).0) < steps_left(s),
        steps_left(s) <= 4 * s.line.cmds.len() + 1,
{
    let n = s.line.cmds.len();
    let t = step_spec(s, event).0;
    lemma_step_wf(s, event);
    assert(t.line.cmds.len() == n);
    if s.phase == Phase::AwaitWait {
        lemma_next_process(
            ExecutorView { failure: first_failure(s.failure, failure_of(event)), ..s }.line.cmds,
            after(s),
        );
    } else {
        lemma_next_process(t.line.cmds, 0);
    }
}

impl Executor {
    /// The pipeline has finished.
    pub fn is_finished(&self) -> (done: bool)
        ensures
            done == (self@.phase == Phase::Finished),
    {
        self.phase == Phase::Finished
    }

    /// Gives the pipeline up once the executor is through with it. A
    /// pipeline that went to the background without a failure enters the job
    /// table as a new job; any other is handed back.
    pub fn settle(self, jobs: &mut JobTable) -> (rest: Option<CmdLine>)
        ensures
            final(jobs)@ == if becomes_job(self@) {
                old(jobs)@.push(CmdLineView { newly_added: true, ..self@.line })
            } else {
                old(jobs)@
            },
            match rest {
                Some(line) => !becomes_job(self@) && line@ == self@.line,
                None => becomes_job(self@),
            },
    {
        if self.phase == Phase::Finished && self.failure.is_none() && self.line.is_daemon {
            jobs.push(self.line);
            None
        } else {
            Some(self.line)
        }
    }
}

/// Two pipelines differ in nothing but the processes of their stages and
/// whether they run.
pub open spec fn same_pipeline(a: CmdLineView, b: CmdLineView) -> bool {
    &&& a.cmds.len() == b.cmds.len()
    &&& forall|k: int|
        0 <= k < a.cmds.len() ==> (#[trigger] a.cmds[k]).cmd == b.cmds[k].cmd && a.cmds[k].argv
            == b.cmds[k].argv && a.cmds[k].is_builtin == b.cmds[k].is_builtin
    &&& a.repr_string == b.repr_string
    &&& a.input_filename == b.input_filename
    &&& a.output_filename == b.output_filename
    &&& a.is_daemon == b.is_daemon
    &&& a.newly_added == b.newly_added
}

/// A step leaves the pipeline as it was parsed, but for the process that it
/// records and the end of the run; and a builtin never gets a process.
pub proof fn lemma_step_keeps_pipeline(s: ExecutorView, event: EventView)
    requires
        s.wf(),
    ensures
        same_pipeline(s.line, step_spec(s, event).0.line),
        s.line.wf() ==> step_spec(s, event).0.line.wf(),
        forall|k: int|
            0 <= k < s.line.cmds.len() && (#[trigger] s.line.cmds[k]).pid is Some ==> step_spec(
                s,
                event,
            ).0.line.cmds[k].pid is Some,
{
    lemma_step_wf(s, event);
    let t = step_spec(s, event).0;
    if s.phase == Phase::AwaitSpawn && event is Spawned {
        let pid = event->Spawned_0;
        let line = with_pid(s.line, s.at, pid);
        assert(t.line.cmds =~= line.cmds);
        if s.line.wf() {
            assert forall|k: int| 0 <= k < line.cmds.len() implies (#[trigger] line.cmds[k]).wf() by {
                assert(s.line.cmds[k].wf());
            }
        }
    } else {
        assert(t.line.cmds =~= s.line.cmds);
    }
}

/// The pipeline is the one that was taken up, marked as running.
pub proof fn lemma_start_keeps_pipeline(line: CmdLineView)
    ensures
        same_pipeline(line, start_spec(line).0.line),
        line.wf() ==> start_spec(line).0.line.wf(),
        start_spec(line).0.line.cmds == line.cmds,
{
}

/// The stages are dealt with from left to right, and the waiting comes last:
/// while the pipeline is set up a step never goes back to an earlier stage,
/// each wait is for a later stage than the one before, and nothing is set up
/// once the waiting has begun.
pub proof fn lemma_step_order(s: ExecutorView, event: EventView)
    requires
        s.wf(),
    ensures
        ({
            let t = step_spec(s, event).0;
            let waiting = s.phase == Phase::AwaitWait || s.phase == Phase::Finished;
            let still_waiting = t.phase == Phase::AwaitWait || t.phase == Phase::Finished;
            &&& waiting ==> still_waiting
            &&& !still_waiting ==> s.at <= t.at
            &&& s.phase == Phase::AwaitWait && t.phase == Phase::AwaitWait ==> s.at < t.at
                && forall|k: int| s.at < k < t.at ==> (#[trigger] t.line.cmds[k]).pid is None
        }),
{
    lemma_step_wf(s, event);
    if s.phase == Phase::AwaitWait {
        lemma_next_process(s.line.cmds, after(s));
    }
}

/// A pipeline that has finished without a failure has all its processes
/// started: every stage that is no builtin has one on record.
pub proof fn lemma_finished_started_all(s: ExecutorView, event: EventView)
    requires
        s.wf(),
        step_spec(s, event).0.phase == Phase::Finished,
        step_spec(s, event).0.failure is None,
    ensures
        forall|k: int|
            0 <= k < s.line.cmds.len() ==> (#[trigger] step_spec(s, event).0.line.cmds[k]).is_builtin
                || step_spec(s, event).0.line.cmds[k].pid is Some,
{
    lemma_step_wf(s, event);
}

/// The event answers the action that is pending in this phase, and tells of
/// no failure.
pub open spec fn answers(phase: Phase, event: EventView) -> bool {
    match phase {
        Phase::AwaitBuiltin => event is Output,
        Phase::AwaitSpawn => event is Spawned,
        _ => event is Done,
    }
}

/// While every report answers its action, nothing fails: a pipeline whose
/// driver meets no failure ends without one.
pub proof fn lemma_step_without_failure(s: ExecutorView, event: EventView)
    requires
        s.wf(),
        s.failure is None,
        answers(s.phase, event),
    ensures
        step_spec(s, event).0.failure is None,
        step_spec(s, event).1 matches ActionView::Finish(outcome) ==> outcome == Ok::<
            (),
            RuntimeError,
        >(()),
{
    lemma_step_wf(s, event);
}

} // verus!
