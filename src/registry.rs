use vstd::prelude::*;

use std::sync::atomic::{AtomicU64, Ordering};
use std::sync::mpsc::Sender;
use std::sync::Arc;

verus! {

#[verifier::external_type_specification]
#[verifier::external_body]
#[verifier::reject_recursive_types(T)]
pub struct ExSender<T>(Sender<T>);

/// Relies on std::sync::mpsc::Sender::send: the message joins the channel's
/// queue behind those sent before it; when the receiver is gone it is dropped.
#[verifier::external_body]
fn post_status(tx: &Sender<String>, text: String) {
    let _ = tx.send(text);
}

/// What the download engine reports progress through, without knowing who
/// consumes it.
pub trait ProgressObserver {
    fn inc(&self, delta: u64);

    fn finish(&self);

    fn message(&self, message: String);
}

/// The live byte counter of one job, shared by all its workers.
pub struct JobProgress {
    pub downloaded_bytes: AtomicU64,
}

impl JobProgress {
    /// A counter at zero.
    pub fn new() -> (r: JobProgress) {
        JobProgress { downloaded_bytes: AtomicU64::new(0) }
    }

    /// The bytes counted so far.
    pub fn downloaded(&self) -> u64 {
        self.downloaded_bytes.load(Ordering::Relaxed)
    }
}

/// Observer of a job owned by the background process: increments go to the
/// job's atomic counter, status texts into the job's ordered status channel,
/// which the job's owner applies in the order they were sent.
pub struct DaemonObserver {
    pub job_data: Arc<JobProgress>,
    pub status: Sender<String>,
}

impl ProgressObserver for DaemonObserver {
    fn inc(&self, delta: u64) {
        self.job_data.downloaded_bytes.fetch_add(delta, Ordering::Relaxed);
    }

    fn finish(&self) {
        self.message("Done".to_owned());
    }

    fn message(&self, message: String) {
        post_status(&self.status, message);
    }
}

/// Percentage of `total` that `downloaded` makes, rounded down and capped at
/// 100; an empty resource counts as complete.
pub open spec fn percent_of(downloaded: u64, total: u64) -> nat {
    if total == 0 {
        100
    } else {
        vstd::math::min(100, (downloaded as int * 100) / total as int) as nat
    }
}

/// The progress figure of a status answer.
pub fn progress_percent(downloaded: u64, total: u64) -> (r: u64)
    ensures
        r == percent_of(downloaded, total),
{
    if total == 0 {
        return 100;
    }
    assert(downloaded as u128 * 100 <= 0xffff_ffff_ffff_ffffu128 * 100) by (nonlinear_arith);
    let p: u128 = downloaded as u128 * 100 / total as u128;
    if p > 100 {
        100
    } else {
        p as u64
    }
}

/// Progress is between 0 and 100 and never goes down while the counter grows.
pub proof fn lemma_progress_bounded_monotone(d1: u64, d2: u64, total: u64)
    requires
        d1 <= d2,
    ensures
        percent_of(d1, total) <= percent_of(d2, total) <= 100,
{
    if total > 0 {
        assert((d1 as int * 100) / total as int <= (d2 as int * 100) / total as int) by {
            vstd::arithmetic::div_mod::lemma_div_is_ordered(
                d1 as int * 100,
                d2 as int * 100,
                total as int,
            );
        }
    }
}

/// Lifecycle of a job.
#[derive(Clone, Copy, Debug, PartialEq, Eq, Structural)]
pub enum JobPhase {
    Pending,
    Running,
    Done,
    Failed,
    /// Stopped on request before completion; its resume record stays valid
    /// and it may be scheduled again.
    Stopped,
}

/// What moves a job along its lifecycle.
#[derive(Clone, Copy, Debug, PartialEq, Eq, Structural)]
pub enum JobEvent {
    /// Its workers have been scheduled.
    Scheduled,
    /// Every range is completed.
    AllRangesCompleted,
    /// A worker exhausted its retries.
    RangeFailed,
    /// The job was asked to stop.
    StopRequested,
}

pub open spec fn is_terminal(p: JobPhase) -> bool {
    p == JobPhase::Done || p == JobPhase::Failed
}

pub open spec fn next_phase_spec(p: JobPhase, e: JobEvent) -> JobPhase {
    match (p, e) {
        (JobPhase::Pending, JobEvent::Scheduled) => JobPhase::Running,
        (JobPhase::Running, JobEvent::AllRangesCompleted) => JobPhase::Done,
        (JobPhase::Pending, JobEvent::RangeFailed) => JobPhase::Failed,
        (JobPhase::Running, JobEvent::RangeFailed) => JobPhase::Failed,
        (JobPhase::Pending, JobEvent::StopRequested) => JobPhase::Stopped,
        (JobPhase::Running, JobEvent::StopRequested) => JobPhase::Stopped,
        (JobPhase::Stopped, JobEvent::Scheduled) => JobPhase::Running,
        _ => p,
    }
}

/// `Pending -> Running -> {Done | Failed}`; a stop request moves a pending or
/// running job to `Stopped`, from which it may be scheduled again; an event
/// that does not apply leaves the phase as it is.
pub fn next_phase(p: JobPhase, e: JobEvent) -> (r: JobPhase)
    ensures
        r == next_phase_spec(p, e),
{
    match (p, e) {
        (JobPhase::Pending, JobEvent::Scheduled) => JobPhase::Running,
        (JobPhase::Running, JobEvent::AllRangesCompleted) => JobPhase::Done,
        (JobPhase::Pending, JobEvent::RangeFailed) => JobPhase::Failed,
        (JobPhase::Running, JobEvent::RangeFailed) => JobPhase::Failed,
        (JobPhase::Pending, JobEvent::StopRequested) => JobPhase::Stopped,
        (JobPhase::Running, JobEvent::StopRequested) => JobPhase::Stopped,
        (JobPhase::Stopped, JobEvent::Scheduled) => JobPhase::Running,
        _ => p,
    }
}

/// A finished or failed job stays so, whatever comes after.
pub proof fn lemma_terminal_is_final(p: JobPhase, e: JobEvent)
    requires
        is_terminal(p),
    ensures
        next_phase_spec(p, e) == p,
{
}

/// A stop request is not a failure: it never fails a job, it never finishes
/// one, and a stopped job can run again.
pub proof fn lemma_stop_is_not_failure(p: JobPhase)
    ensures
        next_phase_spec(p, JobEvent::StopRequested) != JobPhase::Failed || p == JobPhase::Failed,
        next_phase_spec(p, JobEvent::StopRequested) != JobPhase::Done || p == JobPhase::Done,
        next_phase_spec(JobPhase::Stopped, JobEvent::Scheduled) == JobPhase::Running,
{
}

/// What the registry knows of one job at the moment of a status query.
#[derive(Debug)]
pub struct JobSnapshot {
    pub id: u64,
    pub filename: String,
    pub total_bytes: u64,
    pub downloaded_bytes: u64,
    pub state: String,
}

/// One line of a status answer.
#[derive(Debug)]
pub struct JobStatus {
    pub id: u64,
    pub filename: String,
    pub progress_percent: u64,
    pub state: String,
}

pub open spec fn status_of(j: JobSnapshot) -> (u64, Seq<char>, nat, Seq<char>) {
    (j.id, j.filename@, percent_of(j.downloaded_bytes, j.total_bytes), j.state@)
}

pub open spec fn status_view(s: JobStatus) -> (u64, Seq<char>, nat, Seq<char>) {
    (s.id, s.filename@, s.progress_percent as nat, s.state@)
}

pub fn status_entry(j: &JobSnapshot) -> (r: JobStatus)
    ensures
        status_view(r) == status_of(*j),
{
    JobStatus {
        id: j.id,
        filename: j.filename.clone(),
        progress_percent: progress_percent(j.downloaded_bytes, j.total_bytes),
        state: j.state.clone(),
    }
}

/// The answer to a status query: one entry per known job, in registry order.
pub fn status_list(jobs: &Vec<JobSnapshot>) -> (r: Vec<JobStatus>)
    ensures
        r@.len() == jobs@.len(),
        forall|i: int| 0 <= i < r@.len() ==> status_view(#[trigger] r@[i]) == status_of(jobs@[i]),
{
    let mut r: Vec<JobStatus> = Vec::new();
    let mut i: usize = 0;
    while i < jobs.len()
        invariant
            i <= jobs@.len(),
            r@.len() == i,
            forall|k: int| 0 <= k < i ==> status_view(#[trigger] r@[k]) == status_of(jobs@[k]),
        decreases jobs@.len() - i,
    {
        r.push(status_entry(&jobs[i]));
        i = i + 1;
    }
    r
}

/// Two status answers built from snapshots of the same jobs, the second read
/// when no counter had gone down, never show a job's progress going down.
pub proof fn lemma_status_progress_monotone(a: Seq<JobSnapshot>, b: Seq<JobSnapshot>, i: int)
    requires
        a.len() == b.len(),
        0 <= i < a.len(),
        a[i].total_bytes == b[i].total_bytes,
        a[i].downloaded_bytes <= b[i].downloaded_bytes,
    ensures
        status_of(a[i]).2 <= status_of(b[i]).2 <= 100,
{
    lemma_progress_bounded_monotone(a[i].downloaded_bytes, b[i].downloaded_bytes, a[i].total_bytes);
}

/// One job known to the background process.
pub struct JobEntry {
    pub id: u64,
    pub filename: String,
    pub total_bytes: u64,
    pub progress: Arc<JobProgress>,
    pub state: String,
    pub phase: JobPhase,
}

/// The set of jobs of the background process, the single owner of their
/// records. Ids are handed out in increasing order and never reused.
pub struct JobRegistry {
    pub jobs: Vec<JobEntry>,
    pub next_id: u64,
}

impl JobRegistry {
    pub open spec fn wf(&self) -> bool {
        &&& forall|i: int| 0 <= i < self.jobs@.len() ==> #[trigger] self.jobs@[i].id < self.next_id
        &&& forall|i: int, j: int|
            0 <= i < j < self.jobs@.len() ==> #[trigger] self.jobs@[i].id < #[trigger] self.jobs@[j].id
    }

    pub fn new() -> (r: JobRegistry)
        ensures
            r.wf(),
            r.jobs@.len() == 0,
    {
        JobRegistry { jobs: Vec::new(), next_id: 1 }
    }

    /// Index of the job with id `id`, if there is one.
    pub fn find(&self, id: u64) -> (r: Option<usize>)
        ensures
            match r {
                Some(i) => i < self.jobs@.len() && self.jobs@[i as int].id == id,
                None => forall|i: int| 0 <= i < self.jobs@.len() ==> #[trigger] self.jobs@[i].id != id,
            },
    {
        let mut i: usize = 0;
        while i < self.jobs.len()
            invariant
                i <= self.jobs@.len(),
                forall|k: int| 0 <= k < i ==> #[trigger] self.jobs@[k].id != id,
            decreases self.jobs@.len() - i,
        {
            if self.jobs[i].id == id {
                return Some(i);
            }
            i = i + 1;
        }
        None
    }

    /// Registers a pending job and returns its id and the counter its workers
    /// share; `None` once the ids are exhausted.
    pub fn submit(&mut self, filename: String, total_bytes: u64) -> (r: Option<(u64, Arc<JobProgress>)>)
        requires
            old(self).wf(),
        ensures
            final(self).wf(),
            old(self).next_id == u64::MAX ==> r is None && final(self).jobs@ == old(self).jobs@,
            old(self).next_id < u64::MAX ==> r is Some && r->Some_0.0 == old(self).next_id && {
                let e = final(self).jobs@.last();
                &&& final(self).jobs@.len() == old(self).jobs@.len() + 1
                &&& final(self).jobs@.drop_last() == old(self).jobs@
                &&& e.id == old(self).next_id
                &&& e.filename@ == filename@
                &&& e.total_bytes == total_bytes
                &&& e.phase == JobPhase::Pending
            },
    {
        if self.next_id == u64::MAX {
            return None;
        }
        let id: u64 = self.next_id;
        let progress: Arc<JobProgress> = Arc::new(JobProgress::new());
        let shared: Arc<JobProgress> = progress.clone();
        self.jobs.push(
            JobEntry {
                id,
                filename,
                total_bytes,
                progress,
                state: "Pending".to_owned(),
                phase: JobPhase::Pending,
            },
        );
        self.next_id = id + 1;
        assert(self.jobs@.drop_last() =~= old(self).jobs@);
        Some((id, shared))
    }

    /// Applies a status text to job `id`; the job's owner calls this for each
    /// text taken from the job's status channel, in the order they were sent.
    pub fn set_state(&mut self, id: u64, text: String) -> (found: bool)
        requires
            old(self).wf(),
        ensures
            final(self).wf(),
            final(self).next_id == old(self).next_id,
            final(self).jobs@.len() == old(self).jobs@.len(),
            found == exists|i: int| 0 <= i < old(self).jobs@.len() && #[trigger] old(self).jobs@[i].id == id,
            forall|i: int|
                0 <= i < final(self).jobs@.len() ==> {
                    let a = old(self).jobs@[i];
                    let b = #[trigger] final(self).jobs@[i];
                    &&& b.id == a.id
                    &&& b.filename == a.filename
                    &&& b.total_bytes == a.total_bytes
                    &&& b.phase == a.phase
                    &&& b.state@ == if a.id == id {
                        text@
                    } else {
                        a.state@
                    }
                },
    {
        match self.find(id) {
            Some(i) => {
                let mut e: JobEntry = self.jobs.remove(i);
                e.state = text;
                self.jobs.insert(i, e);
                proof {
                    old(self).lemma_id_at_one_index(i as int);
                }
                true
            },
            None => false,
        }
    }

    /// Moves job `id` along its lifecycle.
    pub fn advance(&mut self, id: u64, event: JobEvent) -> (found: bool)
        requires
            old(self).wf(),
        ensures
            final(self).wf(),
            final(self).next_id == old(self).next_id,
            final(self).jobs@.len() == old(self).jobs@.len(),
            found == exists|i: int| 0 <= i < old(self).jobs@.len() && #[trigger] old(self).jobs@[i].id == id,
            forall|i: int|
                0 <= i < final(self).jobs@.len() ==> {
                    let a = old(self).jobs@[i];
                    let b = #[trigger] final(self).jobs@[i];
                    &&& b.id == a.id
                    &&& b.filename == a.filename
                    &&& b.total_bytes == a.total_bytes
                    &&& b.state == a.state
                    &&& b.phase == if a.id == id {
                        next_phase_spec(a.phase, event)
                    } else {
                        a.phase
                    }
                },
    {
        match self.find(id) {
            Some(i) => {
                let mut e: JobEntry = self.jobs.remove(i);
                e.phase = next_phase(e.phase, event);
                self.jobs.insert(i, e);
                proof {
                    old(self).lemma_id_at_one_index(i as int);
                }
                true
            },
            None => false,
        }
    }

    /// Under unique ids, the job at index `i` is the only one with its id.
    pub proof fn lemma_id_at_one_index(&self, i: int)
        requires
            self.wf(),
            0 <= i < self.jobs@.len(),
        ensures
            forall|k: int|
                0 <= k < self.jobs@.len() && #[trigger] self.jobs@[k].id == self.jobs@[i].id ==> k
                    == i,
    {
        assert forall|k: int|
            0 <= k < self.jobs@.len() && #[trigger] self.jobs@[k].id == self.jobs@[i].id implies k
            == i by {
            if k < i {
                assert(self.jobs@[k].id < self.jobs@[i].id);
            } else if k > i {
                assert(self.jobs@[i].id < self.jobs@[k].id);
            }
        }
    }

    /// What the registry knows of each job now: its record, with the value
    /// its shared counter holds at the moment it is read.
    pub fn snapshot(&self) -> (r: Vec<JobSnapshot>)
        ensures
            r@.len() == self.jobs@.len(),
            forall|i: int|
                0 <= i < r@.len() ==> {
                    let s = #[trigger] r@[i];
                    let e = self.jobs@[i];
                    &&& s.id == e.id
                    &&& s.filename@ == e.filename@
                    &&& s.total_bytes == e.total_bytes
                    &&& s.state@ == e.state@
                },
    {
        let mut r: Vec<JobSnapshot> = Vec::new();
        let mut i: usize = 0;
        while i < self.jobs.len()
            invariant
                i <= self.jobs@.len(),
                r@.len() == i,
                forall|k: int|
                    0 <= k < i ==> {
                        let s = #[trigger] r@[k];
                        let e = self.jobs@[k];
                        &&& s.id == e.id
                        &&& s.filename@ == e.filename@
                        &&& s.total_bytes == e.total_bytes
                        &&& s.state@ == e.state@
                    },
            decreases self.jobs@.len() - i,
        {
            let e: &JobEntry = &self.jobs[i];
            r.push(
                JobSnapshot {
                    id: e.id,
                    filename: e.filename.clone(),
                    total_bytes: e.total_bytes,
                    downloaded_bytes: e.progress.downloaded(),
                    state: e.state.clone(),
                },
            );
            i = i + 1;
        }
        r
    }

    /// The answer to a status query: one entry per job, in submission order,
    /// whose progress is `percent_of` the counter value read for that job.
    pub fn status(&self) -> (r: Vec<JobStatus>)
        ensures
            r@.len() == self.jobs@.len(),
            forall|i: int|
                0 <= i < r@.len() ==> {
                    let s = #[trigger] r@[i];
                    let e = self.jobs@[i];
                    &&& s.id == e.id
                    &&& s.filename@ == e.filename@
                    &&& s.state@ == e.state@
                    &&& exists|d: u64| s.progress_percent == percent_of(d, e.total_bytes)
                    &&& s.progress_percent <= 100
                },
    {
        let snaps: Vec<JobSnapshot> = self.snapshot();
        let r: Vec<JobStatus> = status_list(&snaps);
        proof {
            assert forall|i: int| 0 <= i < r@.len() implies (#[trigger] r@[i]).progress_percent
                <= 100 && exists|d: u64| r@[i].progress_percent == percent_of(
                d,
                self.jobs@[i].total_bytes,
            ) by {
                lemma_progress_bounded_monotone(
                    snaps@[i].downloaded_bytes,
                    snaps@[i].downloaded_bytes,
                    snaps@[i].total_bytes,
                );
                assert(r@[i].progress_percent == percent_of(
                    snaps@[i].downloaded_bytes,
                    self.jobs@[i].total_bytes,
                ));
            }
        }
        r
    }
}

} // verus!
