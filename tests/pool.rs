use rust_webserver::pool::{PoolError, ThreadPool};
use rust_webserver::worker::{Action, WorkerState};

/// Lets worker `w` ask for work; returns the job it was handed, if any.
fn take(pool: &mut ThreadPool<u32>, w: usize) -> Option<u32> {
    match pool.next_action(w) {
        Action::Run(job) => Some(job),
        _ => None,
    }
}

/// Runs the pool on a simulated clock. Each job is `(label, duration)`.
/// At each tick, workers whose job has run its course finish it, then every
/// waiting worker asks for the next job. Returns `(label, start, end)` for each
/// job, in the order the jobs were handed out.
fn simulate(size: usize, jobs: &[(u32, u64)], ticks: u64) -> Vec<(u32, u64, u64)> {
    let mut pool: ThreadPool<u32> = ThreadPool::new(size);
    for &(label, _) in jobs {
        pool.execute(label).unwrap();
    }
    let duration = |label: u32| jobs.iter().find(|j| j.0 == label).unwrap().1;
    let mut running: Vec<Option<(u32, u64)>> = vec![None; size];
    let mut log: Vec<(u32, u64, u64)> = Vec::new();
    for t in 0..=ticks {
        for w in 0..size {
            if let Some((label, end)) = running[w] {
                if end <= t {
                    pool.finish(w);
                    running[w] = None;
                    log.iter_mut().find(|e| e.0 == label).unwrap().2 = t;
                }
            }
        }
        for w in 0..size {
            if running[w].is_none() {
                if let Some(label) = take(&mut pool, w) {
                    let end = t + duration(label);
                    log.push((label, t, u64::MAX));
                    if end <= t {
                        pool.finish(w);
                        log.last_mut().unwrap().2 = t;
                        // an instant job frees the worker at once: let it ask again
                        let mut again = true;
                        while again {
                            again = false;
                            if let Some(next) = take(&mut pool, w) {
                                let next_end = t + duration(next);
                                log.push((next, t, u64::MAX));
                                if next_end <= t {
                                    pool.finish(w);
                                    log.last_mut().unwrap().2 = t;
                                    again = true;
                                } else {
                                    running[w] = Some((next, next_end));
                                }
                            }
                        }
                    } else {
                        running[w] = Some((label, end));
                    }
                }
            }
        }
    }
    log
}

#[test]
fn new_makes_size_waiting_workers() {
    for size in 1..=8usize {
        let pool: ThreadPool<u32> = ThreadPool::new(size);
        assert_eq!(pool.worker_count(), size);
        for w in 0..size {
            assert_eq!(pool.worker_state(w), Some(WorkerState::Waiting));
        }
        assert_eq!(pool.worker_state(size), None);
        assert_eq!(pool.executing_count(), 0);
        assert_eq!(pool.pending_count(), 0);
        assert!(!pool.is_closed());
    }
}

#[test]
fn every_job_runs_exactly_once_in_submission_order() {
    let mut pool: ThreadPool<u32> = ThreadPool::new(3);
    let mut handed: Vec<u32> = Vec::new();
    let mut next_label: u32 = 0;
    // submissions of zero, one or two jobs alternate with steps of the three workers
    for round in 0..12usize {
        for _ in 0..(round % 3) {
            pool.execute(next_label).unwrap();
            next_label += 1;
        }
        let w = round % 3;
        match pool.worker_state(w) {
            Some(WorkerState::Executing) => pool.finish(w),
            Some(WorkerState::Waiting) => {
                if let Some(job) = take(&mut pool, w) {
                    handed.push(job);
                }
            }
            _ => unreachable!(),
        }
    }
    // drain what is left
    loop {
        let mut progressed = false;
        for w in 0..3usize {
            if pool.worker_state(w) == Some(WorkerState::Executing) {
                pool.finish(w);
            }
            if let Some(job) = take(&mut pool, w) {
                handed.push(job);
                progressed = true;
            }
        }
        if !progressed {
            break;
        }
    }
    let expected: Vec<u32> = (0..next_label).collect();
    assert!(next_label >= 1);
    assert_eq!(handed, expected);
    assert_eq!(pool.pending_count(), 0);
}

#[test]
fn a_waiting_worker_waits_on_an_empty_open_queue() {
    let mut pool: ThreadPool<u32> = ThreadPool::new(2);
    assert!(matches!(pool.next_action(0), Action::Wait));
    assert_eq!(pool.worker_state(0), Some(WorkerState::Waiting));
}

#[test]
fn no_more_than_size_jobs_run_at_once() {
    let mut pool: ThreadPool<u32> = ThreadPool::new(2);
    pool.execute(1).unwrap();
    pool.execute(2).unwrap();
    pool.execute(3).unwrap();
    assert_eq!(take(&mut pool, 0), Some(1));
    assert_eq!(take(&mut pool, 1), Some(2));
    assert_eq!(pool.executing_count(), 2);
    assert_eq!(pool.pending_count(), 1);
    assert_eq!(pool.worker_state(0), Some(WorkerState::Executing));
    assert_eq!(pool.worker_state(1), Some(WorkerState::Executing));
    pool.finish(1);
    assert_eq!(pool.executing_count(), 1);
    assert_eq!(take(&mut pool, 1), Some(3));
    assert_eq!(pool.pending_count(), 0);
}

#[test]
fn instant_jobs_pass_a_blocking_one() {
    // one job blocks for 5 ticks; three instant jobs follow it on a pool of 3
    let log = simulate(3, &[(0, 5), (1, 0), (2, 0), (3, 0)], 6);
    assert_eq!(log.len(), 4);
    for &(label, start, end) in &log {
        if label == 0 {
            assert_eq!((start, end), (0, 5));
        } else {
            assert_eq!(end, 0);
        }
    }
}

#[test]
fn a_job_beyond_size_blocking_jobs_waits_for_a_free_worker() {
    let log = simulate(2, &[(0, 3), (1, 4), (2, 0)], 6);
    let third = log.iter().find(|e| e.0 == 2).unwrap();
    assert_eq!(third.1, 3);
}

#[test]
fn a_failed_job_keeps_its_worker() {
    let mut pool: ThreadPool<u32> = ThreadPool::new(1);
    pool.execute(1).unwrap();
    pool.execute(2).unwrap();
    assert_eq!(take(&mut pool, 0), Some(1));
    // job 1 fails; the worker reports it through with it all the same
    pool.finish(0);
    assert_eq!(pool.worker_state(0), Some(WorkerState::Waiting));
    assert_eq!(take(&mut pool, 0), Some(2));
    pool.finish(0);
    pool.execute(3).unwrap();
    assert_eq!(take(&mut pool, 0), Some(3));
}

#[test]
fn four_workers_four_slow_and_four_instant_jobs() {
    let jobs = [(0, 0), (1, 0), (2, 0), (3, 0), (10, 5), (11, 5), (12, 5), (13, 5)];
    let log = simulate(4, &jobs, 6);
    assert_eq!(log.len(), 8);
    for &(label, _, end) in &log {
        if label < 10 {
            assert_eq!(end, 0);
        } else {
            assert_eq!(end, 5);
        }
    }
}

#[test]
fn one_worker_second_job_waits_for_the_first() {
    let t: u64 = 4;
    let log = simulate(1, &[(0, t), (1, 0)], 6);
    assert_eq!(log, vec![(0, 0, t), (1, t, t)]);
}

#[test]
fn second_job_not_handed_out_while_the_only_worker_runs() {
    let mut pool: ThreadPool<u32> = ThreadPool::new(1);
    pool.execute(1).unwrap();
    pool.execute(2).unwrap();
    assert_eq!(take(&mut pool, 0), Some(1));
    assert_eq!(pool.worker_state(0), Some(WorkerState::Executing));
    assert_eq!(pool.pending_count(), 1);
}

#[test]
fn close_drains_the_queue_then_stops_workers() {
    let mut pool: ThreadPool<u32> = ThreadPool::new(2);
    pool.execute(1).unwrap();
    pool.close();
    assert!(pool.is_closed());
    // a worker can still take it, so a job sent after closing is queued
    assert_eq!(pool.execute(2), Ok(()));
    assert_eq!(pool.pending_count(), 2);
    assert_eq!(take(&mut pool, 0), Some(1));
    assert_eq!(take(&mut pool, 1), Some(2));
    pool.finish(1);
    assert!(matches!(pool.next_action(1), Action::Stop));
    assert!(!pool.all_stopped());
    // worker 0 is still live: submission goes on
    assert_eq!(pool.execute(3), Ok(()));
    pool.finish(0);
    assert_eq!(take(&mut pool, 0), Some(3));
    pool.finish(0);
    assert!(matches!(pool.next_action(0), Action::Stop));
    assert!(pool.all_stopped());
    assert_eq!(pool.worker_state(0), Some(WorkerState::Stopped));
}

#[test]
fn execute_is_refused_once_every_worker_has_stopped() {
    let mut pool: ThreadPool<u32> = ThreadPool::new(1);
    pool.close();
    assert!(matches!(pool.next_action(0), Action::Stop));
    assert_eq!(pool.execute(4), Err(PoolError::Stopped));
    assert_eq!(pool.pending_count(), 0);
}
