use vstd::prelude::*;

verus! {

/// What one worker is doing at a given instant of the pool's life.
pub enum WorkerState {
    /// Waiting at the queue's consuming end for a job.
    Idle,
    /// Running the job with the given id, outside the queue lock.
    Busy(u64),
    /// Observed the queue closed and drained, exited its loop normally.
    Done,
    /// A job faulted mid-run and took this worker's thread down with it.
    Failed,
}

/// One long-lived worker, identified by a small integer id.
///
/// The thread itself belongs to the caller; this value tracks what that
/// thread is doing, and the pool's contracts are stated over it.
pub struct Worker {
    /// Position of this worker in the pool, `0 .. size`.
    pub id: usize,
    /// What the worker is doing right now.
    pub state: WorkerState,
}

impl Worker {
    /// A fresh worker starts idle, blocked on the queue waiting for work.
    pub fn new(id: usize) -> (w: Worker)
        ensures
            w.id == id,
            w.state == WorkerState::Idle,
    {
        Worker { id, state: WorkerState::Idle }
    }

    /// The worker is waiting for a job.
    pub open spec fn is_idle(self) -> bool {
        self.state == WorkerState::Idle
    }

    /// The worker is running some job.
    pub open spec fn is_busy(self) -> bool {
        self.state is Busy
    }

    /// The worker is running exactly the job `job`.
    pub open spec fn busy_on(self, job: u64) -> bool {
        self.state == WorkerState::Busy(job)
    }

    /// The worker's loop has returned normally.
    pub open spec fn is_done(self) -> bool {
        self.state == WorkerState::Done
    }

    /// The worker's thread died running a faulting job.
    pub open spec fn is_failed(self) -> bool {
        self.state == WorkerState::Failed
    }

    /// The worker's thread is no longer running, normally or not.
    pub open spec fn is_terminated(self) -> bool {
        self.is_done() || self.is_failed()
    }
}

/// What one receive attempt on the shared queue consumer can yield: a job,
/// or the signal that the producing end was dropped and the queue drained.
pub enum Received {
    Job(u64),
    Closed,
}

/// What the worker loop does after a receive attempt.
pub enum WorkerAction {
    /// Release the queue lock, then run this job to completion.
    Run(u64),
    /// Leave the loop; the thread function returns.
    Exit,
}

/// The decision at the heart of the worker loop: a received job is run
/// (after the queue lock is released), and closure of the queue is the
/// normal signal to exit — never an error.
pub fn worker_step(message: Received) -> (action: WorkerAction)
    ensures
        forall|job: u64| message == Received::Job(job) ==> action == WorkerAction::Run(job),
        message == Received::Closed ==> action == WorkerAction::Exit,
{
    match message {
        Received::Job(job) => WorkerAction::Run(job),
        Received::Closed => WorkerAction::Exit,
    }
}

} // verus!
