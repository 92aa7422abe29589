use rush::builtin::{builtin_run, pwd_output, Request, RuntimeError};
use rush::executor::{Action, Event, Executor, Phase, Sink, Source};
use rush::jobs::JobTable;
use rush::parser::CmdLine;

fn start(line: &str) -> (Executor, Action) {
    Executor::start(CmdLine::new(line).unwrap())
}

#[test]
fn single_process_with_both_files() {
    let (mut executor, action) = start("echo hi > a.txt < b.txt");
    assert_eq!(
        action,
        Action::Spawn {
            stage: 0,
            stdin: Source::File("b.txt".to_string()),
            stdout: Sink::File("a.txt".to_string()),
        }
    );
    assert!(executor.line.running);
    assert!(!executor.pipe_held);
    assert_eq!(executor.step(Event::Spawned(100)), Action::Wait { pid: 100 });
    assert_eq!(executor.line.cmds[0].pid, Some(100));
    assert!(!executor.pipe_held);
    assert!(executor.line.running);
    assert_eq!(executor.step(Event::Done), Action::Finish(Ok(())));
    assert!(executor.is_finished());
    assert!(!executor.line.running);
    assert!(!executor.pipe_held);
    assert_eq!(executor.carried, None);
}

#[test]
fn pwd_goes_to_the_terminal() {
    let (mut executor, action) = start("pwd");
    assert_eq!(action, Action::RunBuiltin { stage: 0 });
    let request = builtin_run(&executor.line.cmds[0].cmd, &executor.line.cmds[0].argv);
    assert_eq!(request, Ok(Request::Pwd));
    let text = pwd_output("/home/user");
    assert_eq!(
        executor.step(Event::Output(text)),
        Action::Emit { text: "/home/user\n".to_string(), file: None }
    );
    assert_eq!(executor.step(Event::Done), Action::Finish(Ok(())));
    assert!(!executor.line.running);
}

#[test]
fn only_builtin_writes_to_the_output_file() {
    let (mut executor, action) = start("history > log.txt");
    assert_eq!(action, Action::RunBuiltin { stage: 0 });
    assert_eq!(
        executor.step(Event::Output("    1  ls\n".to_string())),
        Action::Emit { text: "    1  ls\n".to_string(), file: Some("log.txt".to_string()) }
    );
    assert_eq!(executor.step(Event::Done), Action::Finish(Ok(())));
}

#[test]
fn empty_builtin_result_is_not_written() {
    let (mut executor, action) = start("cd /tmp > out.txt");
    assert_eq!(action, Action::RunBuiltin { stage: 0 });
    assert_eq!(executor.step(Event::Output(String::new())), Action::Finish(Ok(())));
    assert!(executor.is_finished());
}

#[test]
fn processes_are_chained_by_pipes() {
    let (mut executor, action) = start("cat < in | sort | uniq > out");
    assert_eq!(
        action,
        Action::Spawn { stage: 0, stdin: Source::File("in".to_string()), stdout: Sink::Pipe }
    );
    assert!(!executor.pipe_held);
    assert_eq!(
        executor.step(Event::Spawned(11)),
        Action::Spawn { stage: 1, stdin: Source::Pipe, stdout: Sink::Pipe }
    );
    assert!(executor.pipe_held);
    assert_eq!(
        executor.step(Event::Spawned(12)),
        Action::Spawn { stage: 2, stdin: Source::Pipe, stdout: Sink::File("out".to_string()) }
    );
    assert!(executor.pipe_held);
    assert_eq!(executor.step(Event::Spawned(13)), Action::Wait { pid: 11 });
    assert!(!executor.pipe_held);
    assert_eq!(executor.step(Event::Done), Action::Wait { pid: 12 });
    assert_eq!(executor.step(Event::Done), Action::Wait { pid: 13 });
    assert!(executor.line.running);
    assert_eq!(executor.step(Event::Done), Action::Finish(Ok(())));
    assert!(!executor.line.running);
    assert!(!executor.pipe_held);
    assert_eq!(executor.carried, None);
    assert_eq!(executor.step(Event::Done), Action::Finish(Ok(())));
}

#[test]
fn builtin_result_feeds_the_next_process() {
    let (mut executor, action) = start("history | grep ls");
    assert_eq!(action, Action::RunBuiltin { stage: 0 });
    assert_eq!(
        executor.step(Event::Output("    1  ls\n".to_string())),
        Action::Spawn {
            stage: 1,
            stdin: Source::Text("    1  ls\n".to_string()),
            stdout: Sink::Inherit,
        }
    );
    assert_eq!(executor.carried, None);
    assert_eq!(executor.step(Event::Spawned(7)), Action::Wait { pid: 7 });
    assert_eq!(executor.step(Event::Done), Action::Finish(Ok(())));
}

#[test]
fn empty_builtin_result_still_feeds_a_pipe() {
    let (mut executor, _) = start("cd | cat");
    assert_eq!(
        executor.step(Event::Output(String::new())),
        Action::Spawn { stage: 1, stdin: Source::Text(String::new()), stdout: Sink::Inherit }
    );
}

#[test]
fn builtin_after_process_closes_the_pipe() {
    let (mut executor, action) = start("ls | pwd");
    assert_eq!(action, Action::Spawn { stage: 0, stdin: Source::Inherit, stdout: Sink::Pipe });
    assert_eq!(executor.step(Event::Spawned(5)), Action::ClosePipe);
    assert!(executor.pipe_held);
    assert_eq!(executor.step(Event::Done), Action::RunBuiltin { stage: 1 });
    assert!(!executor.pipe_held);
    assert_eq!(
        executor.step(Event::Output("/\n".to_string())),
        Action::Emit { text: "/\n".to_string(), file: None }
    );
    assert_eq!(executor.step(Event::Done), Action::Wait { pid: 5 });
    assert_eq!(executor.step(Event::Done), Action::Finish(Ok(())));
}

#[test]
fn builtin_after_builtin_replaces_the_result() {
    let (mut executor, action) = start("history | pwd | cat");
    assert_eq!(action, Action::RunBuiltin { stage: 0 });
    assert_eq!(
        executor.step(Event::Output("first".to_string())),
        Action::RunBuiltin { stage: 1 }
    );
    assert_eq!(executor.carried, Some("first".to_string()));
    assert_eq!(
        executor.step(Event::Output("second".to_string())),
        Action::Spawn { stage: 2, stdin: Source::Text("second".to_string()), stdout: Sink::Inherit }
    );
}

#[test]
fn background_pipeline_is_not_waited_for() {
    let (mut executor, action) = start("sleep 100 | cat &");
    assert_eq!(action, Action::Spawn { stage: 0, stdin: Source::Inherit, stdout: Sink::Pipe });
    assert_eq!(
        executor.step(Event::Spawned(21)),
        Action::Spawn { stage: 1, stdin: Source::Pipe, stdout: Sink::Inherit }
    );
    assert_eq!(executor.step(Event::Spawned(22)), Action::Finish(Ok(())));
    assert!(executor.is_finished());
    assert!(executor.line.running);
    assert!(!executor.pipe_held);
    let mut jobs = JobTable::new();
    assert_eq!(executor.settle(&mut jobs), None);
    assert_eq!(jobs.jobs.len(), 1);
    assert!(jobs.jobs[0].newly_added);
    assert!(jobs.jobs[0].running);
    assert_eq!(jobs.jobs[0].cmds[0].pid, Some(21));
    assert_eq!(jobs.jobs[0].cmds[1].pid, Some(22));
}

#[test]
fn foreground_pipeline_is_handed_back() {
    let (mut executor, _) = start("ls");
    executor.step(Event::Spawned(3));
    executor.step(Event::Done);
    let mut jobs = JobTable::new();
    let line = executor.settle(&mut jobs).unwrap();
    assert!(jobs.jobs.is_empty());
    assert!(!line.running);
    assert_eq!(line.cmds[0].pid, Some(3));
}

#[test]
fn spawn_failure_ends_construction() {
    let (mut executor, _) = start("ls | nothere | wc");
    assert_eq!(
        executor.step(Event::Spawned(31)),
        Action::Spawn { stage: 1, stdin: Source::Pipe, stdout: Sink::Pipe }
    );
    assert_eq!(executor.step(Event::Failed(RuntimeError::SpawnFailure)), Action::Wait { pid: 31 });
    assert!(!executor.pipe_held);
    assert_eq!(
        executor.step(Event::Done),
        Action::Finish(Err(RuntimeError::SpawnFailure))
    );
    assert!(executor.is_finished());
    assert!(!executor.line.running);
    assert_eq!(executor.line.cmds[2].pid, None);
}

#[test]
fn failed_background_pipeline_is_no_job() {
    let (mut executor, _) = start("ls | wc &");
    executor.step(Event::Spawned(1));
    assert_eq!(executor.step(Event::Failed(RuntimeError::PipeFailure)), Action::Wait { pid: 1 });
    assert_eq!(executor.step(Event::Done), Action::Finish(Err(RuntimeError::PipeFailure)));
    assert!(!executor.line.running);
    let mut jobs = JobTable::new();
    assert!(executor.settle(&mut jobs).is_some());
    assert!(jobs.jobs.is_empty());
}

#[test]
fn builtin_failure_is_reported() {
    let (mut executor, action) = start("cd /nowhere");
    assert_eq!(action, Action::RunBuiltin { stage: 0 });
    assert_eq!(
        executor.step(Event::Failed(RuntimeError::InvalidPath)),
        Action::Finish(Err(RuntimeError::InvalidPath))
    );
    let (mut executor, _) = start("kill abc");
    assert_eq!(
        builtin_run(&executor.line.cmds[0].cmd, &executor.line.cmds[0].argv),
        Err(RuntimeError::InvalidPid)
    );
    assert_eq!(
        executor.step(Event::Failed(RuntimeError::InvalidPid)),
        Action::Finish(Err(RuntimeError::InvalidPid))
    );
}

#[test]
fn failure_with_a_held_pipe_closes_it() {
    let (mut executor, _) = start("ls | pwd | wc");
    assert_eq!(executor.step(Event::Spawned(9)), Action::ClosePipe);
    assert_eq!(executor.step(Event::Failed(RuntimeError::PipeFailure)), Action::Wait { pid: 9 });
    assert!(!executor.pipe_held);
    assert_eq!(executor.step(Event::Done), Action::Finish(Err(RuntimeError::PipeFailure)));
}

#[test]
fn emit_failure_is_reported() {
    let (mut executor, _) = start("ls | history > /no/such/file");
    assert_eq!(executor.step(Event::Spawned(2)), Action::ClosePipe);
    assert_eq!(executor.step(Event::Done), Action::RunBuiltin { stage: 1 });
    assert!(matches!(executor.step(Event::Output("x".to_string())), Action::Emit { .. }));
    assert_eq!(executor.step(Event::Failed(RuntimeError::FileOpenFailure)), Action::Wait { pid: 2 });
    assert_eq!(executor.step(Event::Done), Action::Finish(Err(RuntimeError::FileOpenFailure)));
}

#[test]
fn unexpected_report_counts_as_failure() {
    let (mut executor, _) = start("ls");
    assert_eq!(
        executor.step(Event::Output("what".to_string())),
        Action::Finish(Err(RuntimeError::UnexpectedEvent))
    );
    let (mut executor, _) = start("pwd");
    assert_eq!(
        executor.step(Event::Spawned(4)),
        Action::Finish(Err(RuntimeError::UnexpectedEvent))
    );
    let (mut executor, _) = start("ls");
    executor.step(Event::Spawned(4));
    assert_eq!(
        executor.step(Event::Spawned(5)),
        Action::Finish(Err(RuntimeError::UnexpectedEvent))
    );
}

#[test]
fn empty_pipeline_finishes_at_once() {
    let (executor, action) = start("");
    assert_eq!(action, Action::Finish(Ok(())));
    assert!(executor.is_finished());
    assert!(!executor.line.running);
    assert_eq!(executor.phase, Phase::Finished);
}

#[test]
fn input_file_is_ignored_by_a_builtin() {
    let (mut executor, action) = start("pwd < in | cat");
    assert_eq!(action, Action::RunBuiltin { stage: 0 });
    assert_eq!(
        executor.step(Event::Output("/\n".to_string())),
        Action::Spawn { stage: 1, stdin: Source::Text("/\n".to_string()), stdout: Sink::Inherit }
    );
}

#[test]
fn nothing_is_held_when_any_pipeline_has_finished() {
    let lines = [
        "ls", "ls | wc", "ls | pwd", "pwd | ls", "pwd | cd | ls | jobs | cat > out",
        "a | b | c | d | e", "history | history", "a < in | pwd | b | c &", "cd",
    ];
    for line in lines {
        for fail_at in 0..20 {
            let (mut executor, mut action) = start(line);
            let stages = executor.line.cmds.len();
            let mut held = false;
            let mut reports = 0;
            loop {
                let event = match &action {
                    Action::Finish(_) => break,
                    _ if reports == fail_at => Event::Failed(RuntimeError::SpawnFailure),
                    Action::ClosePipe => {
                        assert!(held);
                        held = false;
                        Event::Done
                    },
                    Action::RunBuiltin { .. } => Event::Output("text".to_string()),
                    Action::Emit { .. } => Event::Done,
                    Action::Spawn { stdin, stdout, .. } => {
                        assert_eq!(*stdin == Source::Pipe, held);
                        held = *stdout == Sink::Pipe;
                        Event::Spawned(1000 + reports as u32)
                    },
                    Action::Wait { .. } => Event::Done,
                };
                if matches!(event, Event::Failed(_)) && matches!(action, Action::Spawn { .. } | Action::ClosePipe) {
                    held = false;
                }
                action = executor.step(event);
                reports += 1;
                assert!(reports <= 4 * stages + 1, "{}", line);
                assert_eq!(executor.pipe_held, held, "{} {}", line, fail_at);
            }
            assert!(executor.is_finished());
            assert!(!held, "{} {}", line, fail_at);
            assert!(!executor.pipe_held);
            assert_eq!(executor.carried, None);
        }
    }
}
