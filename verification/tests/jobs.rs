use rush::executor::{Event, Executor};
use rush::jobs::{try_wait, JobTable};
use rush::parser::CmdLine;

fn background(line: &str, first_pid: u32) -> CmdLine {
    let (mut executor, _) = Executor::start(CmdLine::new(line).unwrap());
    let mut pid = first_pid;
    while !executor.is_finished() {
        executor.step(Event::Spawned(pid));
        pid += 1;
    }
    let mut scratch = JobTable::new();
    assert_eq!(executor.settle(&mut scratch), None);
    scratch.jobs.pop().unwrap()
}

#[test]
fn zero_means_still_running() {
    assert!(try_wait(0));
    assert!(!try_wait(1234));
    assert!(!try_wait(-1));
}

#[test]
fn new_job_is_passed_over_once() {
    let mut table = JobTable::new();
    table.push(background("sleep 100 &", 10));
    assert!(table.jobs[0].newly_added);
    assert_eq!(table.probe_targets(), Vec::<u32>::new());
    assert_eq!(table.show_jobs(&vec![10]), "");
    assert!(!table.jobs[0].newly_added);
    assert!(table.jobs[0].running);
    assert_eq!(table.probe_targets(), vec![10]);
    assert_eq!(table.show_jobs(&vec![10]), "sleep 100\n");
}

#[test]
fn only_the_live_job_is_listed_and_listing_repeats() {
    let mut table = JobTable::new();
    table.push(background("sleep 100 | cat &", 10));
    table.push(background("true &", 20));
    assert_eq!(table.show_jobs(&vec![]), "");
    assert_eq!(table.probe_targets(), vec![10, 11, 20]);
    let live = vec![11];
    let first = table.show_jobs(&live);
    assert_eq!(first, "sleep 100 | cat\n");
    assert!(table.jobs[0].running);
    assert!(!table.jobs[1].running);
    assert_eq!(table.jobs.len(), 2);
    assert_eq!(table.probe_targets(), vec![10, 11]);
    let second = table.show_jobs(&live);
    assert_eq!(second, first);
    assert_eq!(table.jobs.len(), 2);
}

#[test]
fn dead_job_stays_out_of_later_listings() {
    let mut table = JobTable::new();
    table.push(background("a &", 1));
    table.push(background("b &", 2));
    table.push(background("c &", 3));
    table.show_jobs(&vec![]);
    assert_eq!(table.show_jobs(&vec![1, 3]), "a\nc\n");
    assert_eq!(table.show_jobs(&vec![2, 3]), "c\n");
    assert_eq!(table.show_jobs(&vec![1, 2, 3]), "c\n");
    assert_eq!(table.jobs.len(), 3);
    assert!(!table.jobs[0].running);
    assert!(!table.jobs[1].running);
    assert!(table.jobs[2].running);
}

#[test]
fn jobs_are_listed_in_insertion_order() {
    let mut table = JobTable::new();
    table.push(background("z &", 5));
    table.push(background("a | b &", 6));
    table.push(background("m &", 8));
    table.show_jobs(&vec![]);
    assert_eq!(table.show_jobs(&vec![8, 7, 5]), "z\na | b\nm\n");
}

#[test]
fn push_marks_the_job_as_new() {
    let mut job = background("x &", 1);
    job.newly_added = false;
    let mut table = JobTable::new();
    table.push(job);
    assert!(table.jobs[0].newly_added);
}

#[test]
fn job_of_builtins_has_nothing_to_probe() {
    let (mut executor, _) = Executor::start(CmdLine::new("pwd &").unwrap());
    executor.step(Event::Output(String::new()));
    let mut table = JobTable::new();
    assert_eq!(executor.settle(&mut table), None);
    table.show_jobs(&vec![]);
    assert_eq!(table.probe_targets(), Vec::<u32>::new());
    assert_eq!(table.show_jobs(&vec![1, 2, 3]), "");
    assert!(!table.jobs[0].running);
}

#[test]
fn listing_heeds_only_the_probed_processes() {
    let build = || {
        let mut table = JobTable::new();
        table.push(background("a | b &", 10));
        table.push(background("c &", 20));
        table.push(background("d &", 30));
        table.show_jobs(&vec![20]);
        table.show_jobs(&vec![10, 20]);
        table.push(background("e &", 40));
        table
    };
    let mut one = build();
    let mut two = build();
    assert_eq!(one.probe_targets(), vec![10, 11, 20]);
    let first = one.show_jobs(&vec![11]);
    let second = two.show_jobs(&vec![11, 30, 40, 99]);
    assert_eq!(first, "a | b\n");
    assert_eq!(first, second);
    assert_eq!(one, two);
}
