//! What the read loop needs around a line: the prompt, the line without its
//! ending, the text of an error, and the session that lasts from line to
//! line.

use crate::builtin::RuntimeError;
use crate::executor::{becomes_job, start_spec, Action, Executor};
use crate::history::History;
use crate::jobs::JobTable;
use crate::parser::{parse_line, CmdLine, CmdLineView, ParseError};
use crate::text::{opt_view, strip_line_end, without_line_end};
use vstd::prelude::*;

verus! {

/// The words that say what is wrong with a line.
pub open spec fn parse_message(e: ParseError) -> Seq<char> {
    match e {
        ParseError::MissingRedirectionTarget => "No direction file name specified!"@,
        ParseError::MisplacedInputRedirection => "Input direction can only appear in the first command!"@,
        ParseError::MisplacedOutputRedirection => "Output direction can only appear in the last command!"@,
        ParseError::MisplacedBackgroundMarker => "Daemon character(&) can only appear in the last command!"@,
    }
}

/// The words that say why a command could not be carried out.
pub open spec fn runtime_message(e: RuntimeError) -> Seq<char> {
    match e {
        RuntimeError::InvalidPath => "No such directory!"@,
        RuntimeError::InvalidPid => "Not a process id!"@,
        RuntimeError::SpawnFailure => "Could not start the command!"@,
        RuntimeError::FileOpenFailure => "Could not open the file!"@,
        RuntimeError::PipeFailure => "Could not create a pipe!"@,
        RuntimeError::UnexpectedEvent => "Unexpected report from the driver!"@,
    }
}

/// What every error line starts with.
pub open spec fn error_prefix() -> Seq<char> {
    seq!['r', 'u', 's', 'h', ':', ' ']
}

/// The prompt: a dollar sign and a space.
pub fn prompt() -> (text: &'static str)
    ensures
        text@ == seq!['$', ' '],
{
    proof {
        reveal_strlit("$ ");
        assert("$ "@ =~= seq!['$', ' ']);
    }
    "$ "
}

/// The line that was read, without its line ending, or nothing at the end of
/// the input, which is where no byte was read.
pub fn read_line(bytes_read: usize, raw: &str) -> (line: Option<String>)
    ensures
        opt_view(line) == if bytes_read == 0 {
            None
        } else {
            Some(without_line_end(raw@))
        },
{
    if bytes_read == 0 {
        None
    } else {
        Some(strip_line_end(raw))
    }
}

/// The words that say what is wrong with a line.
pub fn parse_error_message(e: ParseError) -> (text: &'static str)
    ensures
        text@ == parse_message(e),
{
    match e {
        ParseError::MissingRedirectionTarget => "No direction file name specified!",
        ParseError::MisplacedInputRedirection => "Input direction can only appear in the first command!",
        ParseError::MisplacedOutputRedirection => "Output direction can only appear in the last command!",
        ParseError::MisplacedBackgroundMarker => "Daemon character(&) can only appear in the last command!",
    }
}

/// The words that say why a command could not be carried out.
pub fn runtime_error_message(e: RuntimeError) -> (text: &'static str)
    ensures
        text@ == runtime_message(e),
{
    match e {
        RuntimeError::InvalidPath => "No such directory!",
        RuntimeError::InvalidPid => "Not a process id!",
        RuntimeError::SpawnFailure => "Could not start the command!",
        RuntimeError::FileOpenFailure => "Could not open the file!",
        RuntimeError::PipeFailure => "Could not create a pipe!",
        RuntimeError::UnexpectedEvent => "Unexpected report from the driver!",
    }
}

/// The line that reports an error: the shell's name, a colon, a space and
/// the message.
pub fn error_line(message: &str) -> (line: String)
    ensures
        line@ == error_prefix() + message@,
{
    proof {
        reveal_strlit("rush: ");
        assert("rush: "@ =~= error_prefix());
    }
    let mut line = String::new();
    line.append("rush: ");
    line.append(message);
    assert(line@ =~= error_prefix() + message@);
    line
}

/// What lasts from line to line: the history log and the job table.
#[derive(Debug, PartialEq, Eq)]
pub struct Session {
    pub history: History,
    pub jobs: JobTable,
}

impl Session {
    /// A session with an empty log and an empty table.
    pub fn new() -> (session: Session)
        ensures
            session.history@ == Seq::<Seq<char>>::empty(),
            session.jobs@ == Seq::<CmdLineView>::empty(),
    {
        Session { history: History::new(), jobs: JobTable::new() }
    }

    /// Parses a line and takes the pipeline up. A line that is no pipeline
    /// starts nothing.
    pub fn submit(&self, line: &str) -> (r: Result<(Executor, Action), ParseError>)
        ensures
            match r {
                Ok((executor, action)) => parse_line(line@) matches Ok(pipeline) && (
                    executor@,
                    action@,
                ) == start_spec(pipeline),
                Err(e) => parse_line(line@) == Err::<CmdLineView, ParseError>(e),
            },
    {
        match CmdLine::new(line) {
            Ok(pipeline) => Ok(Executor::start(pipeline)),
            Err(e) => Err(e),
        }
    }

    /// Ends a line that was run: its pipeline becomes a job where it went to
    /// the background, and the line enters the history log.
    pub fn complete(&mut self, executor: Executor, line: &str)
        ensures
            final(self).history@ == old(self).history@.push(line@),
            final(self).jobs@ == if becomes_job(executor@) {
                old(self).jobs@.push(CmdLineView { newly_added: true, ..executor@.line })
            } else {
                old(self).jobs@
            },
    {
        let _ = executor.settle(&mut self.jobs);
        self.history.record(line);
    }
}

} // verus!
