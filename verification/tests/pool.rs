use workpool::longest;
use workpool::pool::ThreadPool;
use workpool::worker::{worker_step, Received, WorkerAction};

/// Drives a pool with faulted workers through whatever steps remain
/// enabled; `ThreadPool::drain` refuses such pools, since a dead worker
/// can strand pending jobs forever.
fn drive_to_quiescence(pool: &mut ThreadPool) {
    loop {
        let size = pool.worker_count();
        let mut stepped = false;
        for w in 0..size {
            if pool.can_complete(w) {
                pool.complete(w);
                stepped = true;
            } else if pool.can_dispatch(w) {
                pool.dispatch(w);
                stepped = true;
            } else if pool.can_retire(w) {
                pool.retire(w);
                stepped = true;
            }
        }
        if !stepped {
            break;
        }
    }
}

#[test]
fn fresh_pool_tears_down() {
    for size in 1..6 {
        let mut pool = ThreadPool::new(size);
        pool.shutdown();
        for w in 0..size {
            assert!(pool.worker_done(w));
        }
        assert_eq!(pool.pending_count(), 0);
        assert_eq!(pool.completed_count(), 0);
    }
}

#[test]
fn every_job_runs_exactly_once() {
    let n: u64 = 17;
    let mut pool = ThreadPool::new(3);
    for expected in 0..n {
        let job = pool.execute();
        assert_eq!(job, expected);
    }
    assert_eq!(pool.submitted_count(), n);
    pool.shutdown();
    assert_eq!(pool.completed_count() as u64, n);
    assert_eq!(pool.pending_count(), 0);
    assert_eq!(pool.failed_count(), 0);
    let mut seen = vec![0u32; n as usize];
    for i in 0..pool.completed_count() {
        let job = pool.completed_at(i);
        assert!(job < n);
        seen[job as usize] += 1;
    }
    for count in seen {
        assert_eq!(count, 1);
    }
}

#[test]
fn fifo_with_single_worker() {
    let mut pool = ThreadPool::new(1);
    let first = pool.execute();
    let second = pool.execute();
    assert!(first < second);
    let dequeued_first = pool.dispatch(0);
    assert_eq!(dequeued_first, first);
    pool.complete(0);
    let dequeued_second = pool.dispatch(0);
    assert_eq!(dequeued_second, second);
}

#[test]
fn parallelism_bounded_by_size() {
    let k: usize = 3;
    let mut pool = ThreadPool::new(k);
    for _ in 0..7 {
        pool.execute();
    }
    for w in 0..k {
        assert!(pool.can_dispatch(w));
        pool.dispatch(w);
    }
    assert_eq!(pool.busy_workers(), k);
    // Every worker holds a job, so no further job can start.
    for w in 0..k {
        assert!(!pool.can_dispatch(w));
    }
    assert_eq!(pool.pending_count(), 7 - k);
}

#[test]
fn submissions_closed_after_shutdown() {
    let mut pool = ThreadPool::new(2);
    pool.execute();
    assert!(pool.is_accepting());
    pool.begin_shutdown();
    assert!(!pool.is_accepting());
    pool.drain();
    assert!(!pool.is_accepting());
}

#[test]
fn four_workers_four_jobs_all_complete() {
    let mut pool = ThreadPool::new(4);
    for _ in 0..4 {
        pool.execute();
    }
    pool.begin_shutdown();
    for w in 0..4 {
        pool.dispatch(w);
    }
    // All four jobs are in flight at the same instant.
    assert_eq!(pool.busy_workers(), 4);
    for w in 0..4 {
        pool.complete(w);
    }
    for w in 0..4 {
        assert!(pool.can_retire(w));
        pool.retire(w);
    }
    assert_eq!(pool.completed_count(), 4);
    assert_eq!(pool.pending_count(), 0);
    for w in 0..4 {
        assert!(pool.worker_done(w));
    }
}

#[test]
fn faulting_job_degrades_single_worker_pool() {
    let mut pool = ThreadPool::new(1);
    let doomed = pool.execute();
    pool.dispatch(0);
    let failed = pool.fault(0);
    assert_eq!(failed, doomed);
    assert!(pool.worker_failed(0));
    assert_eq!(pool.failed_count(), 1);
    // The producing end is still open, so a later submission is accepted...
    assert!(pool.is_accepting());
    let orphan = pool.execute();
    assert_eq!(pool.pending_count(), 1);
    assert_eq!(pool.pending_at(0), orphan);
    // ...but with the only worker dead, nothing will ever service it.
    assert!(!pool.can_dispatch(0));
    assert!(!pool.can_complete(0));
    assert!(!pool.can_retire(0));
    drive_to_quiescence(&mut pool);
    assert_eq!(pool.pending_count(), 1);
    assert_eq!(pool.completed_count(), 0);
}

#[test]
fn faulted_jobs_never_complete() {
    let mut pool = ThreadPool::new(2);
    for _ in 0..3 {
        pool.execute();
    }
    pool.dispatch(0);
    pool.dispatch(1);
    let lost = pool.fault(0);
    assert_eq!(lost, 0);
    pool.begin_shutdown();
    drive_to_quiescence(&mut pool);
    // The surviving worker drains the rest; the faulted job stays lost.
    assert_eq!(pool.completed_count(), 2);
    assert_eq!(pool.failed_count(), 1);
    assert_eq!(pool.pending_count(), 0);
    assert!(pool.worker_failed(0));
    assert!(pool.worker_done(1));
}

#[test]
fn worker_runs_received_job() {
    let action = worker_step(Received::Job(5));
    assert!(matches!(action, WorkerAction::Run(5)));
}

#[test]
fn worker_exits_on_closure() {
    let action = worker_step(Received::Closed);
    assert!(matches!(action, WorkerAction::Exit));
}

#[test]
fn longest_picks_longer_string() {
    let a = String::from("worker");
    let b = String::from("job");
    assert_eq!(longest(&a, &b), "worker");
    assert_eq!(longest(&b, &a), "worker");
}

#[test]
fn longest_prefers_second_on_tie() {
    let a = String::from("a");
    let b = String::from("b");
    let r = longest(&a, &b);
    assert_eq!(r, "b");
}
