use thread_runner::{Phase, PoolError, Step, ThreadPool, WorkerState};

/// Lets worker `id` ask once; a task it is handed is run by appending it to
/// `log`, and reported as completed.
fn turn(pool: &mut ThreadPool<&'static str>, id: usize, log: &mut Vec<&'static str>) -> bool {
    match pool.take(id) {
        Step::Run(name) => {
            log.push(name);
            assert!(pool.complete(id));
            true
        }
        Step::Exit | Step::Wait | Step::Refused => false,
    }
}

#[test]
fn new_pool_has_size_idle_workers() {
    for size in 1..6usize {
        let pool = ThreadPool::<u32>::new(size).ok().unwrap();
        assert_eq!(pool.size(), size);
        assert_eq!(pool.queued(), 0);
        assert_eq!(pool.phase(), Phase::Running);
        for id in 0..size {
            assert_eq!(pool.state_of(id), Some(WorkerState::Idle));
        }
        assert_eq!(pool.state_of(size), None);
        assert!(!pool.is_forced());
        assert!(!pool.is_joined());
    }
}

#[test]
fn zero_sized_pool_is_refused() {
    assert!(matches!(ThreadPool::<u32>::new(0), Err(PoolError::Construction)));
}

#[test]
fn tasks_leave_in_submission_order() {
    let mut pool = ThreadPool::<u32>::new(1).ok().unwrap();
    for job in [10u32, 20, 30] {
        assert!(pool.execute(job).is_ok());
    }
    assert_eq!(pool.queued(), 3);
    for job in [10u32, 20, 30] {
        assert!(matches!(pool.take(0), Step::Run(j) if j == job));
        assert_eq!(pool.state_of(0), Some(WorkerState::Busy));
        assert!(pool.complete(0));
    }
    assert!(matches!(pool.take(0), Step::Wait));
    assert_eq!(pool.state_of(0), Some(WorkerState::Idle));
}

#[test]
fn idle_workers_start_all_tasks_at_once() {
    let mut pool = ThreadPool::<u32>::new(3).ok().unwrap();
    for job in [1u32, 2, 3] {
        pool.execute(job).unwrap();
    }
    assert!(matches!(pool.take(2), Step::Run(1)));
    assert!(matches!(pool.take(0), Step::Run(2)));
    assert!(matches!(pool.take(1), Step::Run(3)));
    for id in 0..3 {
        assert_eq!(pool.state_of(id), Some(WorkerState::Busy));
    }
    assert_eq!(pool.queued(), 0);
}

#[test]
fn join_sends_one_sentinel_per_worker_once() {
    let mut pool = ThreadPool::<u32>::new(4).ok().unwrap();
    pool.execute(9).unwrap();
    assert_eq!(pool.join(), 4);
    assert_eq!(pool.queued(), 5);
    assert_eq!(pool.phase(), Phase::Draining);
    assert_eq!(pool.join(), 0);
    assert_eq!(pool.queued(), 5);
}

#[test]
fn submission_after_shutdown_is_refused() {
    let mut pool = ThreadPool::<u32>::new(2).ok().unwrap();
    pool.join();
    assert!(matches!(pool.execute(1), Err(PoolError::Submission)));
    assert_eq!(pool.queued(), 2);
}

#[test]
fn queued_tasks_run_before_the_sentinels() {
    let mut pool = ThreadPool::<u32>::new(2).ok().unwrap();
    pool.execute(1).unwrap();
    pool.execute(2).unwrap();
    pool.execute(3).unwrap();
    pool.join();
    assert!(matches!(pool.take(0), Step::Run(1)));
    assert!(matches!(pool.take(1), Step::Run(2)));
    assert!(pool.complete(1));
    assert!(matches!(pool.take(1), Step::Run(3)));
    assert!(pool.complete(0));
    assert!(matches!(pool.take(0), Step::Exit));
    assert_eq!(pool.phase(), Phase::Draining);
    assert!(pool.complete(1));
    assert!(matches!(pool.take(1), Step::Exit));
    assert_eq!(pool.phase(), Phase::Joined);
    assert!(pool.is_joined());
    assert_eq!(pool.queued(), 0);
    assert!(pool.failures().is_empty());
}

#[test]
fn a_stranger_or_a_busy_worker_is_refused() {
    let mut pool = ThreadPool::<u32>::new(1).ok().unwrap();
    pool.execute(5).unwrap();
    pool.execute(6).unwrap();
    assert!(matches!(pool.take(1), Step::Refused));
    assert!(matches!(pool.take(0), Step::Run(5)));
    assert!(matches!(pool.take(0), Step::Refused));
    assert_eq!(pool.queued(), 1);
    assert!(!pool.complete(1));
    assert!(!pool.abort(7));
    assert!(pool.complete(0));
    assert!(!pool.complete(0));
    assert!(!pool.abort(0));
    assert_eq!(pool.state_of(0), Some(WorkerState::Idle));
}

#[test]
fn an_exited_worker_is_refused() {
    let mut pool = ThreadPool::<u32>::new(1).ok().unwrap();
    pool.join();
    assert!(matches!(pool.take(0), Step::Exit));
    assert_eq!(pool.state_of(0), Some(WorkerState::Exited));
    assert!(matches!(pool.take(0), Step::Refused));
    assert!(pool.is_joined());
}

#[test]
fn forced_stop_overrides_the_queue() {
    let mut pool = ThreadPool::<u32>::new(2).ok().unwrap();
    pool.execute(1).unwrap();
    pool.execute(2).unwrap();
    assert!(matches!(pool.take(0), Step::Run(1)));
    pool.terminate();
    assert!(pool.is_forced());
    assert!(matches!(pool.take(1), Step::Exit));
    assert_eq!(pool.queued(), 1);
    assert!(pool.complete(0));
    assert!(matches!(pool.take(0), Step::Exit));
    assert_eq!(pool.phase(), Phase::Running);
    assert_eq!(pool.join(), 2);
    assert_eq!(pool.phase(), Phase::Joined);
    assert_eq!(pool.queued(), 3);
}

#[test]
fn four_tasks_on_two_workers_each_run_once() {
    let mut pool = ThreadPool::<&'static str>::new(2).ok().unwrap();
    let mut log: Vec<&'static str> = Vec::new();
    for name in ["T1", "T2", "T3", "T4"] {
        pool.execute(name).unwrap();
    }
    assert_eq!(pool.join(), 2);
    let mut id = 1;
    while !pool.is_joined() {
        turn(&mut pool, id, &mut log);
        id = 1 - id;
    }
    let mut seen = log.clone();
    seen.sort();
    assert_eq!(seen, vec!["T1", "T2", "T3", "T4"]);
    assert_eq!(log.len(), 4);
    assert_eq!(pool.state_of(0), Some(WorkerState::Exited));
    assert_eq!(pool.state_of(1), Some(WorkerState::Exited));
}

#[test]
fn one_worker_runs_tasks_strictly_in_order() {
    let mut pool = ThreadPool::<&'static str>::new(1).ok().unwrap();
    let mut log: Vec<&'static str> = Vec::new();
    pool.execute("A").unwrap();
    pool.execute("B").unwrap();
    pool.join();
    while !pool.is_joined() {
        turn(&mut pool, 0, &mut log);
    }
    assert_eq!(log, vec!["A", "B"]);
}

#[test]
fn an_aborting_task_costs_one_worker_only() {
    let mut pool = ThreadPool::<&'static str>::new(3).ok().unwrap();
    let mut log: Vec<&'static str> = Vec::new();
    pool.execute("boom").unwrap();
    pool.execute("first").unwrap();
    pool.execute("second").unwrap();
    assert!(matches!(pool.take(1), Step::Run("boom")));
    assert!(pool.abort(1));
    assert_eq!(pool.state_of(1), Some(WorkerState::Failed));
    assert_eq!(pool.queued(), 2);
    assert!(matches!(pool.take(1), Step::Refused));
    assert_eq!(pool.join(), 3);
    assert!(turn(&mut pool, 0, &mut log));
    assert!(turn(&mut pool, 2, &mut log));
    assert!(!turn(&mut pool, 0, &mut log));
    assert_eq!(pool.phase(), Phase::Draining);
    assert!(!turn(&mut pool, 2, &mut log));
    assert!(pool.is_joined());
    assert_eq!(log, vec!["first", "second"]);
    assert_eq!(pool.failures(), vec![1]);
    assert_eq!(pool.queued(), 1);
}

#[test]
fn failures_lists_lost_workers_in_ascending_order() {
    let mut pool = ThreadPool::<u32>::new(4).ok().unwrap();
    for job in 0..4u32 {
        pool.execute(job).unwrap();
    }
    for id in [3usize, 1, 0, 2] {
        assert!(matches!(pool.take(id), Step::Run(_)));
    }
    assert!(pool.abort(3));
    assert!(pool.abort(0));
    assert!(pool.complete(1));
    assert_eq!(pool.failures(), vec![0, 3]);
    assert!(!pool.is_joined());
    pool.join();
    assert_eq!(pool.phase(), Phase::Draining);
}

#[test]
fn a_pool_whose_only_worker_failed_joins_at_once() {
    let mut pool = ThreadPool::<u32>::new(1).ok().unwrap();
    pool.execute(1).unwrap();
    pool.execute(2).unwrap();
    assert!(matches!(pool.take(0), Step::Run(1)));
    assert!(pool.abort(0));
    assert_eq!(pool.join(), 1);
    assert!(pool.is_joined());
    assert_eq!(pool.queued(), 2);
    assert_eq!(pool.failures(), vec![0]);
}

#[test]
fn a_pool_that_lost_every_worker_refuses_tasks() {
    let mut pool = ThreadPool::<u32>::new(1).ok().unwrap();
    pool.execute(1).unwrap();
    assert!(matches!(pool.take(0), Step::Run(1)));
    assert!(pool.abort(0));
    assert_eq!(pool.phase(), Phase::Running);
    assert!(matches!(pool.execute(2), Err(PoolError::Submission)));
    assert_eq!(pool.queued(), 0);
}

#[test]
fn a_pool_with_one_worker_left_still_accepts_tasks() {
    let mut pool = ThreadPool::<u32>::new(2).ok().unwrap();
    pool.execute(1).unwrap();
    assert!(matches!(pool.take(0), Step::Run(1)));
    assert!(pool.abort(0));
    assert!(pool.execute(2).is_ok());
    assert_eq!(pool.queued(), 1);
    assert!(matches!(pool.take(1), Step::Run(2)));
}

#[test]
fn a_pool_whose_workers_were_sent_home_refuses_tasks() {
    let mut pool = ThreadPool::<u32>::new(2).ok().unwrap();
    pool.execute(1).unwrap();
    pool.terminate();
    assert!(matches!(pool.take(0), Step::Exit));
    assert!(pool.execute(2).is_ok());
    assert!(matches!(pool.take(1), Step::Exit));
    assert_eq!(pool.phase(), Phase::Running);
    assert!(matches!(pool.execute(3), Err(PoolError::Submission)));
    assert_eq!(pool.queued(), 2);
}
