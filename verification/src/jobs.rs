//! The job table: the pipelines that run in the background, and the listing
//! that finds out which of them are still alive.

use crate::parser::{CmdLine, CmdLineView, CmdView};
use vstd::prelude::*;

verus! {

/// The background pipelines, in the order in which they were started.
#[derive(Debug, PartialEq, Eq)]
pub struct JobTable {
    pub jobs: Vec<CmdLine>,
}

/// The pipelines of `v` as plain values, in order.
pub open spec fn line_views(v: Seq<CmdLine>) -> Seq<CmdLineView> {
    Seq::new(v.len(), |i: int| v[i]@)
}

impl View for JobTable {
    type V = Seq<CmdLineView>;

    open spec fn view(&self) -> Seq<CmdLineView> {
        line_views(self.jobs@)
    }
}

/// One stage or more of the pipeline has a process among the live ones.
pub open spec fn any_alive(cmds: Seq<CmdView>, live: Set<u32>) -> bool {
    exists|i: int| 0 <= i < cmds.len() && alive_at(cmds, live, i)
}

/// Stage `i` has a process among the live ones.
pub open spec fn alive_at(cmds: Seq<CmdView>, live: Set<u32>, i: int) -> bool {
    match cmds[i].pid {
        Some(pid) => live.contains(pid),
        None => false,
    }
}

/// The processes of the stages, in stage order.
pub open spec fn pids(cmds: Seq<CmdView>) -> Seq<u32>
    decreases cmds.len(),
{
    if cmds.len() == 0 {
        Seq::empty()
    } else {
        match cmds.last().pid {
            Some(pid) => pids(cmds.drop_last()).push(pid),
            None => pids(cmds.drop_last()),
        }
    }
}

/// A listing probes the job: it has been through a listing before and was
/// running then.
pub open spec fn is_probed(job: CmdLineView) -> bool {
    !job.newly_added && job.running
}

/// The processes that a listing probes: those of every probed job, in table
/// order and stage order.
pub open spec fn probe_targets(jobs: Seq<CmdLineView>) -> Seq<u32>
    decreases jobs.len(),
{
    if jobs.len() == 0 {
        Seq::empty()
    } else if is_probed(jobs.last()) {
        probe_targets(jobs.drop_last()) + pids(jobs.last().cmds)
    } else {
        probe_targets(jobs.drop_last())
    }
}

/// The job is shown in a listing: it is probed and found alive.
pub open spec fn is_listed(job: CmdLineView, live: Set<u32>) -> bool {
    is_probed(job) && any_alive(job.cmds, live)
}

/// The job after a listing. A new job only loses its marker; a probed job
/// that has no live process is not running any more.
pub open spec fn polled(job: CmdLineView, live: Set<u32>) -> CmdLineView {
    if job.newly_added {
        CmdLineView { newly_added: false, ..job }
    } else if job.running && !any_alive(job.cmds, live) {
        CmdLineView { running: false, ..job }
    } else {
        job
    }
}

/// The table after a listing: every job polled, none removed.
pub open spec fn poll_all(jobs: Seq<CmdLineView>, live: Set<u32>) -> Seq<CmdLineView> {
    Seq::new(jobs.len(), |i: int| polled(jobs[i], live))
}

/// The listing: the display string of every listed job on a line of its own,
/// in table order.
pub open spec fn listing(jobs: Seq<CmdLineView>, live: Set<u32>) -> Seq<char>
    decreases jobs.len(),
{
    if jobs.len() == 0 {
        Seq::empty()
    } else if is_listed(jobs.last(), live) {
        listing(jobs.drop_last(), live) + jobs.last().repr_string.push('\n')
    } else {
        listing(jobs.drop_last(), live)
    }
}

/// Reads the answer of a wait that does not block: zero says that the
/// process has not ended yet.
pub fn try_wait(wait_result: i32) -> (running: bool)
    ensures
        running == (wait_result == 0),
{
    wait_result == 0
}

/// Decides whether `pid` is among `live`.
fn is_live(live: &Vec<u32>, pid: u32) -> (found: bool)
    ensures
        found == live@.to_set().contains(pid),
{
    let mut i: usize = 0;
    while i < live.len()
        invariant
            i <= live.len(),
            forall|k: int| 0 <= k < i ==> live@[k] != pid,
        decreases live.len() - i,
    {
        if live[i] == pid {
            assert(live@.contains(pid));
            return true;
        }
        i += 1;
    }
    assert(!live@.contains(pid));
    false
}

/// Decides whether a stage of `job` has a process among `live`.
fn has_live_stage(job: &CmdLine, live: &Vec<u32>) -> (found: bool)
    ensures
        found == any_alive(job@.cmds, live@.to_set()),
{
    let mut i: usize = 0;
    while i < job.cmds.len()
        invariant
            i <= job.cmds.len(),
            forall|k: int| 0 <= k < i ==> !alive_at(job@.cmds, live@.to_set(), k),
        decreases job.cmds.len() - i,
    {
        assert(job@.cmds[i as int] == job.cmds@[i as int]@);
        match job.cmds[i].pid {
            Some(pid) => {
                if is_live(live, pid) {
                    assert(alive_at(job@.cmds, live@.to_set(), i as int));
                    return true;
                }
            },
            None => {},
        }
        i += 1;
    }
    false
}

impl JobTable {
    /// An empty table.
    pub fn new() -> (table: JobTable)
        ensures
            table@ == Seq::<CmdLineView>::empty(),
    {
        let table = JobTable { jobs: Vec::new() };
        assert(table@ =~= Seq::<CmdLineView>::empty());
        table
    }

    /// Adds a pipeline that was just started in the background. It enters the
    /// table as a new job, behind the others.
    pub fn push(&mut self, job: CmdLine)
        ensures
            final(self)@ == old(self)@.push(CmdLineView { newly_added: true, ..job@ }),
    {
        let mut job = job;
        job.newly_added = true;
        self.jobs.push(job);
        assert(self@ =~= old(self)@.push(job@));
    }

    /// The processes that the next listing wants probed.
    pub fn probe_targets(&self) -> (targets: Vec<u32>)
        ensures
            targets@ == probe_targets(self@),
    {
        let mut targets: Vec<u32> = Vec::new();
        let n = self.jobs.len();
        let mut i: usize = 0;
        assert(self@.take(0).len() == 0);
        while i < n
            invariant
                n == self.jobs.len(),
                i <= n,
                targets@ == probe_targets(self@.take(i as int)),
            decreases n - i,
        {
            let ghost now = self@.take(i + 1);
            assert(now.drop_last() == self@.take(i as int));
            assert(now.last() == self.jobs@[i as int]@);
            let job = &self.jobs[i];
            if !job.newly_added && job.running {
                let ghost before = targets@;
                let m = job.cmds.len();
                let mut k: usize = 0;
                assert(job@.cmds.take(0).len() == 0);
                while k < m
                    invariant
                        m == job.cmds.len(),
                        k <= m,
                        targets@ == before + pids(job@.cmds.take(k as int)),
                    decreases m - k,
                {
                    let ghost stages = job@.cmds.take(k + 1);
                    assert(stages.drop_last() == job@.cmds.take(k as int));
                    assert(stages.last() == job.cmds@[k as int]@);
                    match job.cmds[k].pid {
                        Some(pid) => {
                            targets.push(pid);
                            assert(targets@ =~= before + pids(stages));
                        },
                        None => {},
                    }
                    k += 1;
                }
                assert(job@.cmds.take(m as int) == job@.cmds);
            }
            i += 1;
        }
        assert(self@.take(n as int) == self@);
        targets
    }

    /// Lists the jobs that are still alive, given the probed processes that
    /// have not ended, and brings the table up to date.
    pub fn show_jobs(&mut self, live: &Vec<u32>) -> (out: String)
        ensures
            out@ == listing(old(self)@, live@.to_set()),
            final(self)@ == poll_all(old(self)@, live@.to_set()),
    {
        let mut out = String::new();
        let n = self.jobs.len();
        let mut i: usize = 0;
        let ghost alive = live@.to_set();
        assert(old(self)@.take(0).len() == 0);
        while i < n
            invariant
                n == self.jobs.len(),
                n == old(self).jobs.len(),
                i <= n,
                alive == live@.to_set(),
                out@ == listing(old(self)@.take(i as int), alive),
                forall|k: int| 0 <= k < i ==> (#[trigger] self.jobs@[k])@ == polled(old(self)@[k], alive),
                forall|k: int| i <= k < n ==> (#[trigger] self.jobs@[k]) == old(self).jobs@[k],
            decreases n - i,
        {
            let ghost now = old(self)@.take(i + 1);
            assert(now.drop_last() == old(self)@.take(i as int));
            assert(now.last() == old(self).jobs@[i as int]@);
            if self.jobs[i].newly_added {
                self.jobs[i].newly_added = false;
            } else if self.jobs[i].running {
                if has_live_stage(&self.jobs[i], live) {
                    out.append(self.jobs[i].repr_string.as_str());
                    out.push('\n');
                } else {
                    self.jobs[i].running = false;
                }
            }
            i += 1;
        }
        assert(old(self)@.take(n as int) == old(self)@);
        assert(self@ =~= poll_all(old(self)@, alive));
        out
    }
}

/// A second listing right after the first, with the same processes alive,
/// shows the same jobs. This needs that no job is still new while it runs and
/// has a live process: the first listing passes over such a job and the
/// second shows it.
pub proof fn lemma_listing_idempotent(jobs: Seq<CmdLineView>, live: Set<u32>)
    requires
        forall|k: int|
            0 <= k < jobs.len() ==> !((#[trigger] jobs[k]).newly_added && jobs[k].running
                && any_alive(jobs[k].cmds, live)),
    ensures
        listing(poll_all(jobs, live), live) == listing(jobs, live),
    decreases jobs.len(),
{
    if jobs.len() > 0 {
        let rest = jobs.drop_last();
        assert forall|k: int| 0 <= k < rest.len() implies !((#[trigger] rest[k]).newly_added
            && rest[k].running && any_alive(rest[k].cmds, live)) by {
            assert(rest[k] == jobs[k]);
        }
        lemma_listing_idempotent(rest, live);
        assert(poll_all(jobs, live).drop_last() =~= poll_all(rest, live));
        assert(poll_all(jobs, live).last() == polled(jobs.last(), live));
        assert(jobs.last() == jobs[jobs.len() - 1]);
    }
}

/// Once no job is new, a listing with the same processes alive changes the
/// table no further.
pub proof fn lemma_poll_settles(jobs: Seq<CmdLineView>, live: Set<u32>)
    ensures
        poll_all(poll_all(poll_all(jobs, live), live), live) == poll_all(poll_all(jobs, live), live),
{
    let once = poll_all(jobs, live);
    let twice = poll_all(once, live);
    assert(poll_all(twice, live) =~= twice);
}

/// The process of a stage is among the processes of its pipeline.
proof fn lemma_pids_hold(cmds: Seq<CmdView>, i: int)
    requires
        0 <= i < cmds.len(),
        cmds[i].pid is Some,
    ensures
        pids(cmds).contains(cmds[i].pid->0),
    decreases cmds.len(),
{
    let rest = cmds.drop_last();
    if i < cmds.len() - 1 {
        lemma_pids_hold(rest, i);
        let k = choose|k: int| 0 <= k < pids(rest).len() && pids(rest)[k] == cmds[i].pid->0;
        assert(pids(cmds)[k] == cmds[i].pid->0);
    } else {
        assert(pids(cmds).last() == cmds[i].pid->0);
    }
}

/// The processes of a probed job are among the probe targets.
proof fn lemma_targets_hold(jobs: Seq<CmdLineView>, k: int, pid: u32)
    requires
        0 <= k < jobs.len(),
        is_probed(jobs[k]),
        pids(jobs[k].cmds).contains(pid),
    ensures
        probe_targets(jobs).contains(pid),
    decreases jobs.len(),
{
    let rest = jobs.drop_last();
    if k < jobs.len() - 1 {
        lemma_targets_hold(rest, k, pid);
        let j = choose|j: int| 0 <= j < probe_targets(rest).len() && probe_targets(rest)[j] == pid;
        assert(probe_targets(jobs)[j] == pid);
    } else {
        let own = pids(jobs.last().cmds);
        let j = choose|j: int| 0 <= j < own.len() && own[j] == pid;
        assert(probe_targets(jobs)[probe_targets(rest).len() + j] == pid);
    }
}

/// Two answers that agree on the probe targets find the same stages of a
/// probed job alive.
proof fn lemma_same_life(jobs: Seq<CmdLineView>, k: int, a: Set<u32>, b: Set<u32>)
    requires
        0 <= k < jobs.len(),
        is_probed(jobs[k]),
        forall|pid: u32| probe_targets(jobs).contains(pid) ==> (a.contains(pid) <==> b.contains(pid)),
        any_alive(jobs[k].cmds, a),
    ensures
        any_alive(jobs[k].cmds, b),
{
    let cmds = jobs[k].cmds;
    let i = choose|i: int| 0 <= i < cmds.len() && alive_at(cmds, a, i);
    lemma_pids_hold(cmds, i);
    lemma_targets_hold(jobs, k, cmds[i].pid->0);
    assert(alive_at(cmds, b, i));
}

/// A listing depends on the live processes only through the probe targets:
/// two answers that agree on every target give the same listing and the
/// same table.
pub proof fn lemma_only_targets_matter(jobs: Seq<CmdLineView>, a: Set<u32>, b: Set<u32>)
    requires
        forall|pid: u32| probe_targets(jobs).contains(pid) ==> (a.contains(pid) <==> b.contains(pid)),
    ensures
        listing(jobs, a) == listing(jobs, b),
        poll_all(jobs, a) == poll_all(jobs, b),
    decreases jobs.len(),
{
    assert forall|k: int| 0 <= k < jobs.len() && is_probed(jobs[k]) implies any_alive(
        jobs[k].cmds,
        a,
    ) == any_alive(jobs[k].cmds, b) by {
        if any_alive(jobs[k].cmds, a) {
            lemma_same_life(jobs, k, a, b);
        }
        if any_alive(jobs[k].cmds, b) {
            lemma_same_life(jobs, k, b, a);
        }
    }
    assert(poll_all(jobs, a) =~= poll_all(jobs, b));
    if jobs.len() > 0 {
        let rest = jobs.drop_last();
        assert forall|pid: u32| probe_targets(rest).contains(pid) implies (a.contains(pid)
            <==> b.contains(pid)) by {
            let j = choose|j: int| 0 <= j < probe_targets(rest).len() && probe_targets(rest)[j] == pid;
            assert(probe_targets(jobs)[j] == pid);
        }
        lemma_only_targets_matter(rest, a, b);
        assert(jobs.last() == jobs[jobs.len() - 1]);
    }
}

} // verus!
