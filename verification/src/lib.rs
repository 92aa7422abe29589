//! The command-execution core of a small interactive shell.
//!
//! A raw input line is parsed into a pipeline of stages ([`parser`]). The
//! executor ([`executor`]) decides, stage by stage, what runs next and where
//! it reads from and writes to; builtins are dispatched by [`builtin`].
//! Pipelines that run in the background are kept in a job table ([`jobs`])
//! that is polled for liveness. The history log ([`history`]) and what the
//! read loop shows ([`repl`]) complete the session.
//!
//! Everything here is a function from plain values to plain values: the
//! process, file and terminal work is left to a driver, which carries out
//! the actions that the executor asks for and reports back what happened.
//! Each function states what it computes over a mathematical model of its
//! data, and the laws that connect the functions are proved beside them.

pub mod text;
pub mod number;
pub mod parser;
pub mod display;
pub mod builtin;
pub mod history;
pub mod jobs;
pub mod executor;
pub mod repl;
