use vstd::prelude::*;

use crate::worker::{Worker, WorkerState};

verus! {

/// How many times `job` occurs in the sequence `s`.
pub open spec fn count_in(s: Seq<u64>, job: u64) -> nat
    decreases s.len(),
{
    if s.len() == 0 {
        0
    } else {
        count_in(s.drop_last(), job) + if s.last() == job {
            1nat
        } else {
            0nat
        }
    }
}

/// 1 when the worker is running exactly `job`, else 0.
pub open spec fn busy_contrib(w: Worker, job: u64) -> nat {
    if w.busy_on(job) {
        1nat
    } else {
        0nat
    }
}

/// How many of the workers are running exactly `job`.
pub open spec fn busy_count(ws: Seq<Worker>, job: u64) -> nat
    decreases ws.len(),
{
    if ws.len() == 0 {
        0
    } else {
        busy_count(ws.drop_last(), job) + busy_contrib(ws.last(), job)
    }
}

/// How many of the workers are running some job.
pub open spec fn busy_total(ws: Seq<Worker>) -> nat
    decreases ws.len(),
{
    if ws.len() == 0 {
        0
    } else {
        busy_total(ws.drop_last()) + if ws.last().is_busy() {
            1nat
        } else {
            0nat
        }
    }
}

/// How many of the workers have exited normally.
pub open spec fn done_total(ws: Seq<Worker>) -> nat
    decreases ws.len(),
{
    if ws.len() == 0 {
        0
    } else {
        done_total(ws.drop_last()) + if ws.last().is_done() {
            1nat
        } else {
            0nat
        }
    }
}

/// How many of the workers have failed.
pub open spec fn failed_total(ws: Seq<Worker>) -> nat
    decreases ws.len(),
{
    if ws.len() == 0 {
        0
    } else {
        failed_total(ws.drop_last()) + if ws.last().is_failed() {
            1nat
        } else {
            0nat
        }
    }
}

proof fn lemma_count_push(s: Seq<u64>, x: u64, y: u64)
    ensures
        count_in(s.push(x), y) == count_in(s, y) + if x == y {
            1nat
        } else {
            0nat
        },
{
    assert(s.push(x).drop_last() =~= s);
}

proof fn lemma_count_member(s: Seq<u64>, i: int)
    requires
        0 <= i < s.len(),
    ensures
        count_in(s, s[i]) >= 1,
    decreases s.len(),
{
    if i < s.len() - 1 {
        assert(s.drop_last()[i] == s[i]);
        lemma_count_member(s.drop_last(), i);
    }
}

proof fn lemma_count_drop_first(s: Seq<u64>, y: u64)
    requires
        s.len() > 0,
    ensures
        count_in(s, y) == count_in(s.subrange(1, s.len() as int), y) + if s[0] == y {
            1nat
        } else {
            0nat
        },
    decreases s.len(),
{
    let rest = s.subrange(1, s.len() as int);
    if s.len() == 1 {
        assert(rest =~= Seq::<u64>::empty());
        assert(s.drop_last() =~= Seq::<u64>::empty());
    } else {
        lemma_count_drop_first(s.drop_last(), y);
        assert(s.drop_last().subrange(1, s.drop_last().len() as int) =~= rest.drop_last());
        assert(rest.last() == s.last());
        assert(s.drop_last()[0] == s[0]);
    }
}

proof fn lemma_busy_update(ws: Seq<Worker>, w: int, nw: Worker, y: u64)
    requires
        0 <= w < ws.len(),
    ensures
        busy_count(ws.update(w, nw), y) + busy_contrib(ws[w], y) == busy_count(ws, y)
            + busy_contrib(nw, y),
        busy_total(ws.update(w, nw)) + if ws[w].is_busy() {
            1nat
        } else {
            0nat
        } == busy_total(ws) + if nw.is_busy() {
            1nat
        } else {
            0nat
        },
        failed_total(ws.update(w, nw)) + if ws[w].is_failed() {
            1nat
        } else {
            0nat
        } == failed_total(ws) + if nw.is_failed() {
            1nat
        } else {
            0nat
        },
        done_total(ws.update(w, nw)) + if ws[w].is_done() {
            1nat
        } else {
            0nat
        } == done_total(ws) + if nw.is_done() {
            1nat
        } else {
            0nat
        },
    decreases ws.len(),
{
    let up = ws.update(w, nw);
    if w == ws.len() - 1 {
        assert(up.drop_last() =~= ws.drop_last());
        assert(up.last() == nw);
    } else {
        lemma_busy_update(ws.drop_last(), w, nw, y);
        assert(up.drop_last() =~= ws.drop_last().update(w, nw));
        assert(up.last() == ws.last());
        assert(ws.drop_last()[w] == ws[w]);
    }
}

proof fn lemma_busy_none(ws: Seq<Worker>, y: u64)
    requires
        forall|i: int| 0 <= i < ws.len() ==> !(#[trigger] ws[i]).is_busy(),
    ensures
        busy_count(ws, y) == 0,
        busy_total(ws) == 0,
    decreases ws.len(),
{
    if ws.len() > 0 {
        assert forall|i: int| 0 <= i < ws.drop_last().len() implies !(#[trigger] ws.drop_last()[
            i
        ]).is_busy() by {
            assert(ws.drop_last()[i] == ws[i]);
        }
        lemma_busy_none(ws.drop_last(), y);
        assert(ws.last() == ws[ws.len() - 1]);
    }
}

proof fn lemma_none_failed(ws: Seq<Worker>)
    requires
        forall|i: int| 0 <= i < ws.len() ==> !(#[trigger] ws[i]).is_failed(),
    ensures
        failed_total(ws) == 0,
    decreases ws.len(),
{
    if ws.len() > 0 {
        assert forall|i: int| 0 <= i < ws.drop_last().len() implies !(#[trigger] ws.drop_last()[
            i
        ]).is_failed() by {
            assert(ws.drop_last()[i] == ws[i]);
        }
        lemma_none_failed(ws.drop_last());
        assert(ws.last() == ws[ws.len() - 1]);
    }
}

/// The scheduling state of a fixed-size worker pool.
///
/// Jobs are identified by the order of their submission: the `n`th call to
/// [`ThreadPool::execute`] submits job `n`.  A job sits in `queue` until a
/// worker takes it, is then held by exactly that worker while it runs, and
/// ends in `completed` — or in `failed`, when it faults and takes its
/// worker down.  [`ThreadPool::wf`] ties the pieces together; every
/// operation requires and preserves it.
pub struct ThreadPool {
    /// The fixed set of workers, worker `i` at index `i`.
    pub workers: Vec<Worker>,
    /// Pending job ids, front first: the FIFO queue.
    pub queue: Vec<u64>,
    /// Jobs that some worker ran to completion, in completion order.
    pub completed: Vec<u64>,
    /// Jobs that faulted mid-run, in fault order.
    pub failed: Vec<u64>,
    /// Whether the producing end of the queue is still open.
    pub accepting: bool,
    /// How many jobs have been submitted; also the next job id.
    pub next_id: u64,
}

impl ThreadPool {
    /// Number of workers, fixed at construction.
    pub open spec fn size(self) -> nat {
        self.workers@.len()
    }

    /// The pending jobs, in the order a single producer submitted them.
    pub open spec fn pending(self) -> Seq<u64> {
        self.queue@
    }

    /// The jobs that ran to completion, in completion order.
    pub open spec fn completed_jobs(self) -> Seq<u64> {
        self.completed@
    }

    /// The jobs that faulted, in fault order.
    pub open spec fn failed_jobs(self) -> Seq<u64> {
        self.failed@
    }

    /// Whether submissions are still accepted.
    pub open spec fn accepting(self) -> bool {
        self.accepting
    }

    /// How many jobs have been submitted so far; ids are `0 .. submitted()`.
    pub open spec fn submitted(self) -> u64 {
        self.next_id
    }

    /// The workers as a sequence, worker `i` at index `i`.
    pub open spec fn workers_view(self) -> Seq<Worker> {
        self.workers@
    }

    /// How many places hold `job` right now: queue slots, workers running
    /// it, and the completed and failed records.  Exactly-once delivery is
    /// the invariant that this is 1 for every submitted job.
    pub open spec fn occurrences(self, job: u64) -> nat {
        count_in(self.queue@, job) + busy_count(self.workers@, job) + count_in(
            self.completed@,
            job,
        ) + count_in(self.failed@, job)
    }

    /// The pool's invariant.
    ///
    /// - there is at least one worker, and worker `i` sits at index `i`;
    /// - pending job ids strictly increase front to back, so the head of
    ///   the queue is always the earliest submission still waiting;
    /// - every submitted job is in exactly one place, and no other id
    ///   occurs anywhere (exactly-once delivery);
    /// - a worker exits normally only once submissions are closed and the
    ///   queue is drained, so nothing submitted is abandoned;
    /// - the fault record matches the failed workers one for one;
    /// - the four places together account for every submission.
    pub open spec fn wf(self) -> bool {
        &&& self.workers@.len() > 0
        &&& forall|i: int| 0 <= i < self.workers@.len() ==> (#[trigger] self.workers@[i]).id == i
        &&& forall|i: int, j: int|
            0 <= i < j < self.queue@.len() ==> self.queue@[i] < self.queue@[j]
        &&& forall|job: u64| job < self.next_id ==> #[trigger] self.occurrences(job) == 1
        &&& forall|job: u64| self.next_id <= job ==> #[trigger] self.occurrences(job) == 0
        &&& forall|i: int|
            0 <= i < self.workers@.len() && (#[trigger] self.workers@[i]).is_done() ==> (
            !self.accepting && self.queue@.len() == 0)
        &&& self.failed@.len() == failed_total(self.workers@)
        &&& self.queue@.len() + busy_total(self.workers@) + self.completed@.len()
            + self.failed@.len() == self.next_id
    }

    /// Worker `w` can take a job: it is idle and the queue is non-empty.
    pub open spec fn dispatch_enabled(self, w: int) -> bool {
        &&& 0 <= w < self.workers@.len()
        &&& self.workers@[w].is_idle()
        &&& self.queue@.len() > 0
    }

    /// The job that worker `w` is running (meaningful only when busy).
    pub open spec fn busy_job(self, w: int) -> u64 {
        self.workers@[w].state->Busy_0
    }

    /// Worker `w` can finish (or fault on) a job: it is running one.
    pub open spec fn complete_enabled(self, w: int) -> bool {
        &&& 0 <= w < self.workers@.len()
        &&& self.workers@[w].is_busy()
    }

    /// Worker `w` can exit its loop: it is idle and its receive attempt
    /// reports the queue closed and drained.  While the pool accepts
    /// submissions the worker blocks instead — which is why shutdown must
    /// close the producing end before it joins anyone.
    pub open spec fn retire_enabled(self, w: int) -> bool {
        &&& 0 <= w < self.workers@.len()
        &&& self.workers@[w].is_idle()
        &&& !self.accepting
        &&& self.queue@.len() == 0
    }

    /// Constructs a pool of `size` workers, all idle, with an empty, open
    /// queue.  A pool of zero workers is a programmer error and is ruled
    /// out here rather than clamped.
    pub fn new(size: usize) -> (pool: ThreadPool)
        requires
            size > 0,
        ensures
            pool.wf(),
            pool.size() == size,
            pool.accepting(),
            pool.submitted() == 0,
            pool.pending().len() == 0,
            pool.completed_jobs().len() == 0,
            pool.failed_jobs().len() == 0,
            forall|i: int| 0 <= i < size ==> (#[trigger] pool.workers_view()[i]).is_idle(),
    {
        let mut workers: Vec<Worker> = Vec::new();
        let mut id: usize = 0;
        while id < size
            invariant
                id <= size,
                workers@.len() == id,
                forall|i: int| 0 <= i < id ==> (#[trigger] workers@[i]).id == i,
                forall|i: int| 0 <= i < id ==> (#[trigger] workers@[i]).is_idle(),
            decreases size - id,
        {
            workers.push(Worker::new(id));
            id = id + 1;
        }
        let pool = ThreadPool {
            workers,
            queue: Vec::new(),
            completed: Vec::new(),
            failed: Vec::new(),
            accepting: true,
            next_id: 0,
        };
        proof {
            assert forall|i: int| 0 <= i < pool.workers@.len() implies !(
            #[trigger] pool.workers@[i]).is_busy() && !pool.workers@[i].is_failed() by {}
            lemma_none_failed(pool.workers@);
            lemma_busy_none(pool.workers@, 0);
            assert forall|job: u64| true implies #[trigger] pool.occurrences(job) == 0 by {
                lemma_busy_none(pool.workers@, job);
            }
        }
        pool
    }

    /// Submits one job and returns its id, the next in submission order.
    /// Only an open pool accepts work: once shutdown has begun the
    /// producing end is gone and no call can reach this function.
    pub fn execute(&mut self) -> (job: u64)
        requires
            old(self).wf(),
            old(self).accepting(),
            old(self).submitted() < u64::MAX,
        ensures
            final(self).wf(),
            job == old(self).submitted(),
            final(self).submitted() == old(self).submitted() + 1,
            final(self).pending() == old(self).pending().push(job),
            final(self).workers_view() == old(self).workers_view(),
            final(self).completed_jobs() == old(self).completed_jobs(),
            final(self).failed_jobs() == old(self).failed_jobs(),
            final(self).accepting(),
            final(self).size() == old(self).size(),
    {
        let job = self.next_id;
        self.queue.push(job);
        self.next_id = self.next_id + 1;
        proof {
            let oldq = old(self).queue@;
            assert forall|i: int| 0 <= i < oldq.len() implies oldq[i] < job by {
                lemma_count_member(oldq, i);
                assert(old(self).occurrences(oldq[i]) >= 1);
            }
            assert forall|j: u64| j < self.next_id implies #[trigger] self.occurrences(j)
                == 1 by {
                lemma_count_push(oldq, job, j);
                if j < old(self).next_id {
                    assert(old(self).occurrences(j) == 1);
                } else {
                    assert(old(self).occurrences(j) == 0);
                }
            }
            assert forall|j: u64| self.next_id <= j implies #[trigger] self.occurrences(j)
                == 0 by {
                lemma_count_push(oldq, job, j);
                assert(old(self).occurrences(j) == 0);
            }
        }
        job
    }

    /// Begins graceful shutdown: the producing end closes, so no further
    /// submission is possible, while everything already queued or running
    /// is untouched.
    pub fn begin_shutdown(&mut self)
        requires
            old(self).wf(),
        ensures
            final(self).wf(),
            !final(self).accepting(),
            final(self).pending() == old(self).pending(),
            final(self).workers_view() == old(self).workers_view(),
            final(self).completed_jobs() == old(self).completed_jobs(),
            final(self).failed_jobs() == old(self).failed_jobs(),
            final(self).submitted() == old(self).submitted(),
            final(self).size() == old(self).size(),
    {
        self.accepting = false;
        proof {
            assert forall|job: u64| true implies #[trigger] self.occurrences(job) == old(
                self,
            ).occurrences(job) by {}
        }
    }

    /// Worker `w` takes the job at the head of the queue: the earliest
    /// submission still pending, and no other — FIFO, exactly once.  The
    /// lock on the consuming end is held for this step alone; the job then
    /// runs outside it.
    pub fn dispatch(&mut self, w: usize) -> (job: u64)
        requires
            old(self).wf(),
            old(self).dispatch_enabled(w as int),
        ensures
            final(self).wf(),
            job == old(self).pending()[0],
            final(self).pending() == old(self).pending().subrange(
                1,
                old(self).pending().len() as int,
            ),
            final(self).workers_view() == old(self).workers_view().update(
                w as int,
                (Worker { id: w, state: WorkerState::Busy(job) }),
            ),
            final(self).workers_view()[w as int].busy_on(job),
            final(self).completed_jobs() == old(self).completed_jobs(),
            final(self).failed_jobs() == old(self).failed_jobs(),
            final(self).accepting() == old(self).accepting(),
            final(self).submitted() == old(self).submitted(),
            final(self).size() == old(self).size(),
            busy_total(final(self).workers_view()) == busy_total(old(self).workers_view()) + 1,
    {
        let job = self.queue.remove(0);
        let mut wk = self.workers.remove(w);
        wk.state = WorkerState::Busy(job);
        self.workers.insert(w, wk);
        proof {
            let oldq = old(self).queue@;
            let oldw = old(self).workers@;
            let nw = Worker { id: w, state: WorkerState::Busy(job) };
            assert(self.queue@ =~= oldq.subrange(1, oldq.len() as int));
            assert(self.workers@ =~= oldw.update(w as int, nw));
            lemma_busy_update(oldw, w as int, nw, 0);
            assert forall|j: u64| true implies #[trigger] self.occurrences(j) == old(
                self,
            ).occurrences(j) by {
                lemma_count_drop_first(oldq, j);
                lemma_busy_update(oldw, w as int, nw, j);
            }
        }
        job
    }

    /// Worker `w` finishes the job it was running; the job is recorded as
    /// completed and the worker goes back to the queue.
    pub fn complete(&mut self, w: usize) -> (job: u64)
        requires
            old(self).wf(),
            old(self).complete_enabled(w as int),
        ensures
            final(self).wf(),
            job == old(self).busy_job(w as int),
            final(self).completed_jobs() == old(self).completed_jobs().push(job),
            final(self).workers_view() == old(self).workers_view().update(
                w as int,
                (Worker { id: w, state: WorkerState::Idle }),
            ),
            final(self).pending() == old(self).pending(),
            final(self).failed_jobs() == old(self).failed_jobs(),
            final(self).accepting() == old(self).accepting(),
            final(self).submitted() == old(self).submitted(),
            final(self).size() == old(self).size(),
            busy_total(final(self).workers_view()) + 1 == busy_total(old(self).workers_view()),
    {
        let mut wk = self.workers.remove(w);
        let job: u64 = match wk.state {
            WorkerState::Busy(j) => j,
            _ => {
                proof {
                    assert(false);
                }
                0
            },
        };
        wk.state = WorkerState::Idle;
        self.workers.insert(w, wk);
        self.completed.push(job);
        proof {
            let oldw = old(self).workers@;
            let nw = Worker { id: w, state: WorkerState::Idle };
            assert(self.workers@ =~= oldw.update(w as int, nw));
            lemma_busy_update(oldw, w as int, nw, 0);
            assert forall|j: u64| true implies #[trigger] self.occurrences(j) == old(
                self,
            ).occurrences(j) by {
                lemma_count_push(old(self).completed@, job, j);
                lemma_busy_update(oldw, w as int, nw, j);
            }
        }
        job
    }

    /// The job that worker `w` was running faults: the worker's thread
    /// dies with it.  The job is recorded as failed, never re-queued, and
    /// the pool goes on with one worker fewer — the known, uncorrected
    /// degradation of this design.
    pub fn fault(&mut self, w: usize) -> (job: u64)
        requires
            old(self).wf(),
            old(self).complete_enabled(w as int),
        ensures
            final(self).wf(),
            job == old(self).busy_job(w as int),
            final(self).failed_jobs() == old(self).failed_jobs().push(job),
            final(self).workers_view() == old(self).workers_view().update(
                w as int,
                (Worker { id: w, state: WorkerState::Failed }),
            ),
            final(self).pending() == old(self).pending(),
            final(self).completed_jobs() == old(self).completed_jobs(),
            final(self).accepting() == old(self).accepting(),
            final(self).submitted() == old(self).submitted(),
            final(self).size() == old(self).size(),
            busy_total(final(self).workers_view()) + 1 == busy_total(old(self).workers_view()),
    {
        let mut wk = self.workers.remove(w);
        let job: u64 = match wk.state {
            WorkerState::Busy(j) => j,
            _ => {
                proof {
                    assert(false);
                }
                0
            },
        };
        wk.state = WorkerState::Failed;
        self.workers.insert(w, wk);
        self.failed.push(job);
        proof {
            let oldw = old(self).workers@;
            let nw = Worker { id: w, state: WorkerState::Failed };
            assert(self.workers@ =~= oldw.update(w as int, nw));
            lemma_busy_update(oldw, w as int, nw, 0);
            assert forall|j: u64| true implies #[trigger] self.occurrences(j) == old(
                self,
            ).occurrences(j) by {
                lemma_count_push(old(self).failed@, job, j);
                lemma_busy_update(oldw, w as int, nw, j);
            }
        }
        job
    }

    /// Worker `w` observes the queue closed and drained and exits its
    /// loop normally.  Possible only after shutdown has closed the
    /// producing end and every pending job has been taken.
    pub fn retire(&mut self, w: usize)
        requires
            old(self).wf(),
            old(self).retire_enabled(w as int),
        ensures
            final(self).wf(),
            final(self).workers_view() == old(self).workers_view().update(
                w as int,
                (Worker { id: w, state: WorkerState::Done }),
            ),
            final(self).pending() == old(self).pending(),
            final(self).completed_jobs() == old(self).completed_jobs(),
            final(self).failed_jobs() == old(self).failed_jobs(),
            final(self).accepting() == old(self).accepting(),
            final(self).submitted() == old(self).submitted(),
            final(self).size() == old(self).size(),
            busy_total(final(self).workers_view()) == busy_total(old(self).workers_view()),
    {
        let mut wk = self.workers.remove(w);
        wk.state = WorkerState::Done;
        self.workers.insert(w, wk);
        proof {
            let oldw = old(self).workers@;
            let nw = Worker { id: w, state: WorkerState::Done };
            assert(self.workers@ =~= oldw.update(w as int, nw));
            lemma_busy_update(oldw, w as int, nw, 0);
            assert forall|j: u64| true implies #[trigger] self.occurrences(j) == old(
                self,
            ).occurrences(j) by {
                lemma_busy_update(oldw, w as int, nw, j);
            }
        }
    }

    /// The waiting half of graceful shutdown, run to the end: busy
    /// workers finish their jobs, idle workers take what is still queued,
    /// and once the closed queue is empty each worker observes closure
    /// and exits.  The loop provably terminates, so teardown cannot hang,
    /// and it returns only when every worker has exited — with every job
    /// ever submitted completed exactly once.
    pub fn drain(&mut self)
        requires
            old(self).wf(),
            !old(self).accepting(),
            forall|i: int|
                0 <= i < old(self).size() ==> !(#[trigger] old(self).workers_view()[
                    i
                ]).is_failed(),
        ensures
            final(self).wf(),
            !final(self).accepting(),
            final(self).submitted() == old(self).submitted(),
            final(self).size() == old(self).size(),
            forall|i: int|
                0 <= i < final(self).size() ==> (#[trigger] final(self).workers_view()[
                    i
                ]).is_done(),
            final(self).pending().len() == 0,
            final(self).failed_jobs().len() == 0,
            final(self).completed_jobs().len() == final(self).submitted(),
            forall|job: u64|
                job < final(self).submitted() ==> count_in(final(self).completed_jobs(), job)
                    == 1,
    {
        let mut all_done = false;
        while !all_done
            invariant
                self.wf(),
                !self.accepting(),
                self.submitted() == old(self).submitted(),
                self.size() == old(self).size(),
                forall|i: int|
                    0 <= i < self.size() ==> !(#[trigger] self.workers_view()[i]).is_failed(),
                all_done ==> forall|i: int|
                    0 <= i < self.size() ==> (#[trigger] self.workers_view()[i]).is_done(),
            decreases
                    2 * self.queue@.len() + busy_total(self.workers@) + self.workers@.len()
                        - done_total(self.workers@) + if all_done {
                        0int
                    } else {
                        1int
                    },
        {
            proof {
                lemma_done_total_le_len(self.workers@);
            }
            let ghost pre = *self;
            let size = self.workers.len();
            let mut w: usize = 0;
            let mut stepped = false;
            while w < size && !stepped
                invariant
                    self.wf(),
                    !self.accepting(),
                    self.submitted() == old(self).submitted(),
                    size == self.size(),
                    w <= size,
                    forall|i: int|
                        0 <= i < self.size() ==> !(#[trigger] self.workers_view()[i]).is_failed(),
                    !stepped ==> *self == pre,
                    !stepped ==> forall|i: int|
                        0 <= i < w ==> (#[trigger] self.workers_view()[i]).is_done(),
                    stepped ==> 2 * self.queue@.len() + busy_total(self.workers@)
                        + self.workers@.len() - done_total(self.workers@) < 2 * pre.queue@.len()
                        + busy_total(pre.workers@) + pre.workers@.len() - done_total(pre.workers@),
                decreases size - w,
            {
                let ghost before = *self;
                if self.can_complete(w) {
                    self.complete(w);
                    stepped = true;
                    proof {
                        lemma_busy_update(
                            before.workers@,
                            w as int,
                            (Worker { id: w, state: WorkerState::Idle }),
                            0,
                        );
                    }
                } else if self.can_dispatch(w) {
                    let job = self.dispatch(w);
                    stepped = true;
                    proof {
                        lemma_busy_update(
                            before.workers@,
                            w as int,
                            (Worker { id: w, state: WorkerState::Busy(job) }),
                            0,
                        );
                    }
                } else if self.can_retire(w) {
                    self.retire(w);
                    stepped = true;
                    proof {
                        lemma_busy_update(
                            before.workers@,
                            w as int,
                            (Worker { id: w, state: WorkerState::Done }),
                            0,
                        );
                        lemma_done_total_le_len(before.workers@);
                    }
                } else {
                    proof {
                        assert(self.workers_view()[w as int].is_done());
                    }
                }
                w = w + 1;
            }
            if !stepped {
                all_done = true;
            }
            proof {
                lemma_done_total_le_len(self.workers@);
            }
        }
        proof {
            lemma_all_done_drains(*self);
        }
    }

    /// Explicit teardown: the two steps in their load-bearing order.
    /// Close the producing end first — only that lets a waiting worker
    /// observe closure instead of blocking forever — then wait until
    /// every worker has exited.  Returns only when the pool is fully
    /// drained: every submitted job completed exactly once.
    pub fn shutdown(&mut self)
        requires
            old(self).wf(),
            forall|i: int|
                0 <= i < old(self).size() ==> !(#[trigger] old(self).workers_view()[
                    i
                ]).is_failed(),
        ensures
            final(self).wf(),
            !final(self).accepting(),
            final(self).submitted() == old(self).submitted(),
            final(self).size() == old(self).size(),
            forall|i: int|
                0 <= i < final(self).size() ==> (#[trigger] final(self).workers_view()[
                    i
                ]).is_done(),
            final(self).pending().len() == 0,
            final(self).failed_jobs().len() == 0,
            final(self).completed_jobs().len() == final(self).submitted(),
            forall|job: u64|
                job < final(self).submitted() ==> count_in(final(self).completed_jobs(), job)
                    == 1,
    {
        self.begin_shutdown();
        self.drain();
    }

    /// Number of workers.
    pub fn worker_count(&self) -> (n: usize)
        ensures
            n == self.size(),
    {
        self.workers.len()
    }

    /// Number of jobs waiting in the queue.
    pub fn pending_count(&self) -> (n: usize)
        ensures
            n == self.pending().len(),
    {
        self.queue.len()
    }

    /// Number of jobs that ran to completion.
    pub fn completed_count(&self) -> (n: usize)
        ensures
            n == self.completed_jobs().len(),
    {
        self.completed.len()
    }

    /// Number of jobs that faulted.
    pub fn failed_count(&self) -> (n: usize)
        ensures
            n == self.failed_jobs().len(),
    {
        self.failed.len()
    }

    /// Number of jobs submitted so far.
    pub fn submitted_count(&self) -> (n: u64)
        ensures
            n == self.submitted(),
    {
        self.next_id
    }

    /// Whether the producing end is still open for submissions.
    pub fn is_accepting(&self) -> (b: bool)
        ensures
            b == self.accepting(),
    {
        self.accepting
    }

    /// The `i`th completed job, in completion order.
    pub fn completed_at(&self, i: usize) -> (job: u64)
        requires
            i < self.completed_jobs().len(),
        ensures
            job == self.completed_jobs()[i as int],
    {
        self.completed[i]
    }

    /// The `i`th pending job, in submission order.
    pub fn pending_at(&self, i: usize) -> (job: u64)
        requires
            i < self.pending().len(),
        ensures
            job == self.pending()[i as int],
    {
        self.queue[i]
    }

    /// How many workers are running a job at this instant.
    pub fn busy_workers(&self) -> (n: usize)
        ensures
            n == busy_total(self.workers_view()),
    {
        let mut n: usize = 0;
        let mut i: usize = 0;
        while i < self.workers.len()
            invariant
                i <= self.workers@.len(),
                n <= i,
                n == busy_total(self.workers@.subrange(0, i as int)),
            decreases self.workers@.len() - i,
        {
            let running = match self.workers[i].state {
                WorkerState::Busy(_) => true,
                _ => false,
            };
            if running {
                n = n + 1;
            }
            proof {
                assert(self.workers@.subrange(0, i + 1).drop_last() =~= self.workers@.subrange(
                    0,
                    i as int,
                ));
                assert(self.workers@.subrange(0, i + 1).last() == self.workers@[i as int]);
            }
            i = i + 1;
        }
        proof {
            assert(self.workers@.subrange(0, self.workers@.len() as int) =~= self.workers@);
        }
        n
    }

    /// Whether worker `w` could take a job right now.
    pub fn can_dispatch(&self, w: usize) -> (b: bool)
        ensures
            b == self.dispatch_enabled(w as int),
    {
        w < self.workers.len() && (match self.workers[w].state {
            WorkerState::Idle => true,
            _ => false,
        }) && self.queue.len() > 0
    }

    /// Whether worker `w` is running a job it could finish or fault on.
    pub fn can_complete(&self, w: usize) -> (b: bool)
        ensures
            b == self.complete_enabled(w as int),
    {
        w < self.workers.len() && (match self.workers[w].state {
            WorkerState::Busy(_) => true,
            _ => false,
        })
    }

    /// Whether worker `w` would observe closure and exit right now.
    pub fn can_retire(&self, w: usize) -> (b: bool)
        ensures
            b == self.retire_enabled(w as int),
    {
        w < self.workers.len() && (match self.workers[w].state {
            WorkerState::Idle => true,
            _ => false,
        }) && !self.accepting && self.queue.len() == 0
    }

    /// Whether worker `w` has exited its loop normally.
    pub fn worker_done(&self, w: usize) -> (b: bool)
        requires
            w < self.size(),
        ensures
            b == self.workers_view()[w as int].is_done(),
    {
        match self.workers[w].state {
            WorkerState::Done => true,
            _ => false,
        }
    }

    /// Whether worker `w` died running a faulting job.
    pub fn worker_failed(&self, w: usize) -> (b: bool)
        requires
            w < self.size(),
        ensures
            b == self.workers_view()[w as int].is_failed(),
    {
        match self.workers[w].state {
            WorkerState::Failed => true,
            _ => false,
        }
    }
}

proof fn lemma_busy_total_le_len(ws: Seq<Worker>)
    ensures
        busy_total(ws) <= ws.len(),
    decreases ws.len(),
{
    if ws.len() > 0 {
        lemma_busy_total_le_len(ws.drop_last());
    }
}

proof fn lemma_done_total_le_len(ws: Seq<Worker>)
    ensures
        done_total(ws) <= ws.len(),
    decreases ws.len(),
{
    if ws.len() > 0 {
        lemma_done_total_le_len(ws.drop_last());
    }
}

/// Bounded parallelism: a pool of `size` workers never runs more than
/// `size` jobs at one instant, since only a worker can hold a job.
pub proof fn lemma_bounded_parallelism(pool: ThreadPool)
    requires
        pool.wf(),
    ensures
        busy_total(pool.workers_view()) <= pool.size(),
{
    lemma_busy_total_le_len(pool.workers_view());
}

/// FIFO per producer: pending job ids strictly increase from the head of
/// the queue back, so the head — the one `dispatch` takes — is always the
/// earliest submission still waiting.  Dequeue order is submission order.
pub proof fn lemma_fifo_pending(pool: ThreadPool)
    requires
        pool.wf(),
    ensures
        forall|i: int, j: int|
            0 <= i < j < pool.pending().len() ==> pool.pending()[i] < pool.pending()[j],
        pool.pending().len() > 0 ==> forall|k: int|
            0 < k < pool.pending().len() ==> pool.pending()[0] < #[trigger] pool.pending()[k],
{
}

/// Graceful shutdown drains everything: once every worker has exited
/// normally, nothing is pending, nothing faulted, and the completion
/// record holds each of the `submitted()` jobs exactly once — every job
/// that was ever accepted ran, and ran once.
pub proof fn lemma_all_done_drains(pool: ThreadPool)
    requires
        pool.wf(),
        forall|i: int| 0 <= i < pool.size() ==> (#[trigger] pool.workers_view()[i]).is_done(),
    ensures
        pool.pending().len() == 0,
        pool.failed_jobs().len() == 0,
        pool.completed_jobs().len() == pool.submitted(),
        forall|job: u64| job < pool.submitted() ==> count_in(pool.completed_jobs(), job) == 1,
        forall|job: u64| pool.submitted() <= job ==> count_in(pool.completed_jobs(), job) == 0,
{
    let ws = pool.workers_view();
    assert(ws[0].is_done());
    assert(pool.pending().len() == 0);
    assert forall|i: int| 0 <= i < ws.len() implies !(#[trigger] ws[i]).is_busy() && !ws[
        i
    ].is_failed() by {
        assert(ws[i].is_done());
    }
    lemma_none_failed(ws);
    lemma_busy_none(ws, 0);
    assert forall|job: u64| job < pool.submitted() implies count_in(pool.completed_jobs(), job)
        == 1 by {
        lemma_busy_none(ws, job);
        assert(pool.occurrences(job) == 1);
    }
    assert forall|job: u64| pool.submitted() <= job implies count_in(pool.completed_jobs(), job)
        == 0 by {
        lemma_busy_none(ws, job);
        assert(pool.occurrences(job) == 0);
    }
}

/// Teardown cannot hang: after shutdown has closed the queue, as long as
/// no worker has faulted and some worker has not yet exited, one of the
/// three worker steps is enabled — a busy worker can finish, an idle
/// worker can take a pending job, or an idle worker can observe the
/// drained, closed queue and exit.  Repeated steps therefore end with
/// every worker exited, and never in deadlock.
pub proof fn lemma_teardown_progress(pool: ThreadPool)
    requires
        pool.wf(),
        !pool.accepting(),
        forall|i: int| 0 <= i < pool.size() ==> !(#[trigger] pool.workers_view()[i]).is_failed(),
        exists|i: int| 0 <= i < pool.size() && !(#[trigger] pool.workers_view()[i]).is_done(),
    ensures
        exists|w: int|
            #![trigger pool.dispatch_enabled(w)]
            #![trigger pool.complete_enabled(w)]
            #![trigger pool.retire_enabled(w)]
            pool.dispatch_enabled(w) || pool.complete_enabled(w) || pool.retire_enabled(w),
{
    let i = choose|i: int| 0 <= i < pool.size() && !(#[trigger] pool.workers_view()[i]).is_done();
    if pool.workers_view()[i].is_busy() {
        assert(pool.complete_enabled(i));
    } else if pool.pending().len() > 0 {
        assert(pool.workers_view()[i].is_idle());
        assert(pool.dispatch_enabled(i));
    } else {
        assert(pool.workers_view()[i].is_idle());
        assert(pool.retire_enabled(i));
    }
}

/// The shutdown order is load-bearing: while the producing end is still
/// open, no worker can exit its loop — a blocked receive can only yield a
/// job, never closure.  Joining the workers before closing the producer
/// would therefore wait forever; shutdown must close first, then join.
pub proof fn lemma_close_before_join(pool: ThreadPool)
    requires
        pool.wf(),
        pool.accepting(),
    ensures
        forall|w: int| !pool.retire_enabled(w),
{
}

/// The documented degradation: when every worker has died running a
/// faulting job, no worker step is enabled at all, so submissions still
/// accepted by the open queue are never serviced again.
pub proof fn lemma_all_failed_stalls(pool: ThreadPool)
    requires
        pool.wf(),
        forall|i: int| 0 <= i < pool.size() ==> (#[trigger] pool.workers_view()[i]).is_failed(),
    ensures
        forall|w: int| !pool.dispatch_enabled(w),
        forall|w: int| !pool.complete_enabled(w),
        forall|w: int| !pool.retire_enabled(w),
{
    assert forall|w: int|
        !pool.dispatch_enabled(w) && !pool.complete_enabled(w) && !pool.retire_enabled(
            w,
        ) by {
        if 0 <= w < pool.size() {
            assert(pool.workers_view()[w].is_failed());
        }
    }
}

} // verus!
