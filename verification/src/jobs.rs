//! Background jobs: a unit of work is tagged with the execution substrate
//! it needs, and the dispatcher routes it — exhaustively and unconditionally
//! on the tag — to the queue of that substrate. Submission is fire and
//! forget: the queues are drained by executors running independently of the
//! response path, and nothing is reported back to the submitter.

use vstd::prelude::*;

verus! {

/// Which execution substrate a background job needs.
#[derive(Clone, Copy, PartialEq, Eq, Structural, Debug)]
pub enum JobKind {
    /// driven to completion on the asynchronous reactor
    Future,
    /// run on a thread that is allowed to block
    IOBlocking,
    /// run on a worker pool sized for compute parallelism
    CpuBound,
}

/// What a job does when its substrate runs it. Plain data: the work itself
/// is performed by whatever drains the queues.
#[derive(Clone, Copy, PartialEq, Eq, Structural, Debug)]
pub enum JobTask {
    /// announce itself from the background
    Greet,
    /// report the status-code snapshot taken from a response at submission
    ReportStatus(u16),
    /// count up to the given number
    CountTo(u64),
    /// block for a while, then notify
    SleepNotify,
}

/// A unit of background work: its substrate tag and its task.
#[derive(Clone, Copy, PartialEq, Eq, Structural, Debug)]
pub struct Job {
    pub kind: JobKind,
    pub task: JobTask,
}

/// Three queues, one per substrate. Submitting routes a job to the queue of
/// its kind and returns at once.
pub struct JobDispatcher {
    pub future_queue: Vec<Job>,
    pub io_queue: Vec<Job>,
    pub cpu_queue: Vec<Job>,
}

impl JobDispatcher {
    /// Every queued job sits on the queue of its own kind: no job is ever
    /// executed on the wrong substrate.
    pub open spec fn wf(self) -> bool {
        &&& forall|i: int|
            0 <= i < self.future_queue@.len() ==> (#[trigger] self.future_queue@[i]).kind
                == JobKind::Future
        &&& forall|i: int|
            0 <= i < self.io_queue@.len() ==> (#[trigger] self.io_queue@[i]).kind
                == JobKind::IOBlocking
        &&& forall|i: int|
            0 <= i < self.cpu_queue@.len() ==> (#[trigger] self.cpu_queue@[i]).kind
                == JobKind::CpuBound
    }

    pub fn new() -> (d: Self)
        ensures
            d.wf(),
            d.future_queue@ =~= Seq::<Job>::empty(),
            d.io_queue@ =~= Seq::<Job>::empty(),
            d.cpu_queue@ =~= Seq::<Job>::empty(),
    {
        JobDispatcher { future_queue: Vec::new(), io_queue: Vec::new(), cpu_queue: Vec::new() }
    }

    /// Fire-and-forget submission: the job lands on exactly the queue of
    /// its kind, at the tail; the other two queues are untouched.
    pub fn submit(&mut self, job: Job)
        ensures
            old(self).wf() ==> final(self).wf(),
            match job.kind {
                JobKind::Future => final(self).future_queue@ == old(self).future_queue@.push(job)
                    && final(self).io_queue@ == old(self).io_queue@
                    && final(self).cpu_queue@ == old(self).cpu_queue@,
                JobKind::IOBlocking => final(self).io_queue@ == old(self).io_queue@.push(job)
                    && final(self).future_queue@ == old(self).future_queue@
                    && final(self).cpu_queue@ == old(self).cpu_queue@,
                JobKind::CpuBound => final(self).cpu_queue@ == old(self).cpu_queue@.push(job)
                    && final(self).future_queue@ == old(self).future_queue@
                    && final(self).io_queue@ == old(self).io_queue@,
            },
    {
        match job.kind {
            JobKind::Future => self.future_queue.push(job),
            JobKind::IOBlocking => self.io_queue.push(job),
            JobKind::CpuBound => self.cpu_queue.push(job),
        }
    }

    /// Hand the reactor's pending jobs over, emptying the queue.
    pub fn take_future_jobs(&mut self) -> (jobs: Vec<Job>)
        ensures
            jobs@ == old(self).future_queue@,
            final(self).future_queue@ =~= Seq::<Job>::empty(),
            final(self).io_queue@ == old(self).io_queue@,
            final(self).cpu_queue@ == old(self).cpu_queue@,
            old(self).wf() ==> final(self).wf(),
    {
        let mut jobs: Vec<Job> = Vec::new();
        core::mem::swap(&mut jobs, &mut self.future_queue);
        jobs
    }

    /// Hand the blocking pool's pending jobs over, emptying the queue.
    pub fn take_io_jobs(&mut self) -> (jobs: Vec<Job>)
        ensures
            jobs@ == old(self).io_queue@,
            final(self).io_queue@ =~= Seq::<Job>::empty(),
            final(self).future_queue@ == old(self).future_queue@,
            final(self).cpu_queue@ == old(self).cpu_queue@,
            old(self).wf() ==> final(self).wf(),
    {
        let mut jobs: Vec<Job> = Vec::new();
        core::mem::swap(&mut jobs, &mut self.io_queue);
        jobs
    }

    /// Hand the compute pool's pending jobs over, emptying the queue.
    pub fn take_cpu_jobs(&mut self) -> (jobs: Vec<Job>)
        ensures
            jobs@ == old(self).cpu_queue@,
            final(self).cpu_queue@ =~= Seq::<Job>::empty(),
            final(self).future_queue@ == old(self).future_queue@,
            final(self).io_queue@ == old(self).io_queue@,
            old(self).wf() ==> final(self).wf(),
    {
        let mut jobs: Vec<Job> = Vec::new();
        core::mem::swap(&mut jobs, &mut self.cpu_queue);
        jobs
    }
}

/// A greeting job for the reactor, submitted independently of any request.
pub fn first_async_job() -> (j: Job)
    ensures
        j == (Job { kind: JobKind::Future, task: JobTask::Greet }),
{
    Job { kind: JobKind::Future, task: JobTask::Greet }
}

/// A blocking job tied to a response: it snapshots the status code at
/// submission time and reports it later from a thread allowed to block.
pub fn first_sync_job(status: u16) -> (j: Job)
    ensures
        j == (Job { kind: JobKind::IOBlocking, task: JobTask::ReportStatus(status) }),
{
    Job { kind: JobKind::IOBlocking, task: JobTask::ReportStatus(status) }
}

/// A compute-bound job: counts up to ten million on the worker pool.
pub fn first_sync_job1() -> (j: Job)
    ensures
        j == (Job { kind: JobKind::CpuBound, task: JobTask::CountTo(10000000) }),
{
    Job { kind: JobKind::CpuBound, task: JobTask::CountTo(10000000) }
}

/// A blocking job that sleeps and then notifies.
pub fn first_sync_io_job() -> (j: Job)
    ensures
        j == (Job { kind: JobKind::IOBlocking, task: JobTask::SleepNotify }),
{
    Job { kind: JobKind::IOBlocking, task: JobTask::SleepNotify }
}

/// The computation of a `CountTo` task: counting one by one reaches exactly
/// the requested number.
pub fn count_up(n: u64) -> (r: u64)
    ensures
        r == n,
{
    let mut r: u64 = 0;
    let mut i: u64 = 0;
    while i < n
        invariant
            i <= n,
            r == i,
        decreases n - i,
    {
        r = r + 1;
        i = i + 1;
    }
    r
}

} // verus!
