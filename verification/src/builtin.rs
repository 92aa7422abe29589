//! The commands that the shell runs itself: what each asks of the driver.

use crate::number::{parse_i32, parse_i32_spec};
use crate::parser::is_builtin_name;
use crate::text::{same_text, views};
use vstd::prelude::*;

verus! {

/// Why a command could not be carried out. None of these ends the session.
#[derive(Clone, Copy, Debug, PartialEq, Eq, Structural)]
pub enum RuntimeError {
    /// `cd` names a directory that does not exist or cannot be entered.
    InvalidPath,
    /// `kill` was given no process id, or something that is not a number.
    InvalidPid,
    /// A process could not be started.
    SpawnFailure,
    /// A redirection file could not be opened or created.
    FileOpenFailure,
    /// A pipe could not be created.
    PipeFailure,
    /// The driver reported something that does not answer the pending action.
    UnexpectedEvent,
}

/// What a builtin asks the driver to do.
#[derive(Debug, PartialEq, Eq)]
pub enum Request {
    /// Change the working directory, to the home directory where no path is
    /// given.
    ChangeDir(Option<String>),
    /// End the session.
    Exit,
    /// Give the history log as the result.
    History,
    /// Give the listing of the job table as the result.
    Jobs,
    /// Send the termination signal to the process.
    Kill(i32),
    /// Give the working directory as the result.
    Pwd,
    /// Nothing: the name is not a builtin.
    Nothing,
}

/// A request as plain values.
pub enum RequestView {
    ChangeDir(Option<Seq<char>>),
    Exit,
    History,
    Jobs,
    Kill(i32),
    Pwd,
    Nothing,
}

impl View for Request {
    type V = RequestView;

    open spec fn view(&self) -> RequestView {
        match self {
            Request::ChangeDir(Some(path)) => RequestView::ChangeDir(Some(path@)),
            Request::ChangeDir(None) => RequestView::ChangeDir(None),
            Request::Exit => RequestView::Exit,
            Request::History => RequestView::History,
            Request::Jobs => RequestView::Jobs,
            Request::Kill(pid) => RequestView::Kill(*pid),
            Request::Pwd => RequestView::Pwd,
            Request::Nothing => RequestView::Nothing,
        }
    }
}

/// What the command `cmd` with the arguments `argv` asks for.
///
/// `cd` goes to its first argument, or home without one. `kill` needs a first
/// argument that is a decimal integer of 32 bits. `exit`, `history`, `jobs`
/// and `pwd` take no notice of their arguments. Any other name asks for
/// nothing.
pub open spec fn dispatch(cmd: Seq<char>, argv: Seq<Seq<char>>) -> Result<RequestView, RuntimeError> {
    if cmd == seq!['c', 'd'] {
        Ok(
            RequestView::ChangeDir(
                if argv.len() == 0 {
                    None
                } else {
                    Some(argv[0])
                },
            ),
        )
    } else if cmd == seq!['e', 'x', 'i', 't'] {
        Ok(RequestView::Exit)
    } else if cmd == seq!['h', 'i', 's', 't', 'o', 'r', 'y'] {
        Ok(RequestView::History)
    } else if cmd == seq!['j', 'o', 'b', 's'] {
        Ok(RequestView::Jobs)
    } else if cmd == seq!['k', 'i', 'l', 'l'] {
        if argv.len() == 0 {
            Err(RuntimeError::InvalidPid)
        } else {
            match parse_i32_spec(argv[0]) {
                Some(pid) => Ok(RequestView::Kill(pid)),
                None => Err(RuntimeError::InvalidPid),
            }
        }
    } else if cmd == seq!['p', 'w', 'd'] {
        Ok(RequestView::Pwd)
    } else {
        Ok(RequestView::Nothing)
    }
}

/// The outcome of a dispatch as plain values.
pub open spec fn request_outcome(r: Result<Request, RuntimeError>) -> Result<RequestView, RuntimeError> {
    match r {
        Ok(request) => Ok(request@),
        Err(e) => Err(e),
    }
}

/// Decides what the builtin `cmd` asks of the driver.
pub fn builtin_run(cmd: &str, argv: &Vec<String>) -> (r: Result<Request, RuntimeError>)
    ensures
        request_outcome(r) == dispatch(cmd@, views(argv@)),
{
    proof {
        reveal_strlit("cd");
        reveal_strlit("exit");
        reveal_strlit("history");
        reveal_strlit("jobs");
        reveal_strlit("kill");
        reveal_strlit("pwd");
        assert("cd"@ =~= seq!['c', 'd']);
        assert("exit"@ =~= seq!['e', 'x', 'i', 't']);
        assert("history"@ =~= seq!['h', 'i', 's', 't', 'o', 'r', 'y']);
        assert("jobs"@ =~= seq!['j', 'o', 'b', 's']);
        assert("kill"@ =~= seq!['k', 'i', 'l', 'l']);
        assert("pwd"@ =~= seq!['p', 'w', 'd']);
    }
    if same_text(cmd, "cd") {
        if argv.len() == 0 {
            Ok(Request::ChangeDir(None))
        } else {
            assert(views(argv@)[0] == argv@[0]@);
            Ok(Request::ChangeDir(Some(argv[0].clone())))
        }
    } else if same_text(cmd, "exit") {
        Ok(Request::Exit)
    } else if same_text(cmd, "history") {
        Ok(Request::History)
    } else if same_text(cmd, "jobs") {
        Ok(Request::Jobs)
    } else if same_text(cmd, "kill") {
        if argv.len() == 0 {
            Err(RuntimeError::InvalidPid)
        } else {
            assert(views(argv@)[0] == argv@[0]@);
            match parse_i32(argv[0].as_str()) {
                Some(pid) => Ok(Request::Kill(pid)),
                None => Err(RuntimeError::InvalidPid),
            }
        }
    } else if same_text(cmd, "pwd") {
        Ok(Request::Pwd)
    } else {
        Ok(Request::Nothing)
    }
}

/// The result of `pwd`: the working directory and a line break.
pub fn pwd_output(cwd: &str) -> (out: String)
    ensures
        out@ == cwd@.push('\n'),
{
    let mut out = String::new();
    out.append(cwd);
    out.push('\n');
    assert(out@ =~= cwd@.push('\n'));
    out
}

/// A command asks for something exactly when its name is one of the builtin
/// names.
pub proof fn lemma_builtins_dispatch(cmd: Seq<char>, argv: Seq<Seq<char>>)
    ensures
        is_builtin_name(cmd) <==> dispatch(cmd, argv) != Ok::<RequestView, RuntimeError>(
            RequestView::Nothing,
        ),
{
}

} // verus!
