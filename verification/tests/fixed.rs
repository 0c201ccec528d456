use thread_runner::{FixedThreadPool, PoolError, Sound, Step, ThreadPool};

#[test]
fn fixed_pool_without_workers_is_refused() {
    assert!(matches!(FixedThreadPool::<u32>::new(0), Err(PoolError::Construction)));
}

#[test]
fn fixed_pool_hands_out_tasks_in_order() {
    let pool = FixedThreadPool::<u32>::new(2).ok().unwrap();
    assert!(pool.execute(1).is_ok());
    assert!(pool.execute(2).is_ok());
    assert!(pool.execute(3).is_ok());
    assert!(matches!(pool.next(0), Step::Run(1)));
    assert!(matches!(pool.next(1), Step::Run(2)));
    assert!(matches!(pool.next(0), Step::Refused));
    assert!(pool.settle(0, true));
    assert!(!pool.settle(0, true));
    assert!(matches!(pool.next(0), Step::Run(3)));
}

#[test]
fn fixed_pool_joins_after_every_worker_took_a_sentinel() {
    let pool = FixedThreadPool::<u32>::new(2).ok().unwrap();
    pool.execute(7).unwrap();
    assert_eq!(pool.join(), 2);
    assert_eq!(pool.join(), 0);
    assert!(matches!(pool.execute(8), Err(PoolError::Submission)));
    assert!(!pool.is_joined());
    assert!(matches!(pool.next(1), Step::Run(7)));
    assert!(matches!(pool.next(0), Step::Exit));
    assert!(!pool.is_joined());
    assert!(pool.settle(1, true));
    assert!(matches!(pool.next(1), Step::Exit));
    assert!(pool.is_joined());
    assert!(pool.await_joined());
    assert!(pool.failures().is_empty());
}

#[test]
fn fixed_pool_lists_the_workers_it_lost() {
    let pool = FixedThreadPool::<u32>::new(3).ok().unwrap();
    pool.execute(1).unwrap();
    pool.execute(2).unwrap();
    assert!(matches!(pool.next(2), Step::Run(1)));
    assert!(matches!(pool.next(0), Step::Run(2)));
    assert!(pool.settle(2, false));
    assert!(pool.settle(0, false));
    assert!(!pool.settle(1, false));
    assert_eq!(pool.failures(), vec![0, 2]);
    assert!(matches!(pool.next(2), Step::Refused));
}

#[test]
fn fixed_pool_stop_signal_sends_idle_workers_home() {
    let pool = FixedThreadPool::<u32>::new(2).ok().unwrap();
    pool.execute(1).unwrap();
    pool.terminate();
    assert!(matches!(pool.next(0), Step::Exit));
    assert!(matches!(pool.next(1), Step::Exit));
    assert!(!pool.is_joined());
    pool.join();
    assert!(pool.is_joined());
}

#[test]
fn fixed_pool_knows_its_size() {
    for size in 1..5usize {
        assert_eq!(FixedThreadPool::<u32>::new(size).ok().unwrap().size(), size);
    }
}

#[test]
fn fixed_pool_refuses_ids_beyond_its_size() {
    let pool = FixedThreadPool::<u32>::new(2).ok().unwrap();
    pool.execute(1).unwrap();
    assert!(matches!(pool.next(2), Step::Refused));
    assert!(matches!(pool.next(usize::MAX), Step::Refused));
    assert!(!pool.settle(2, true));
    assert!(!pool.settle(2, false));
    assert!(matches!(pool.next(1), Step::Run(1)));
    assert!(pool.failures().is_empty());
}

#[test]
fn cell_answers_as_the_pool_in_it() {
    let mut cell = Sound::new(ThreadPool::<u32>::new(2).ok().unwrap());
    assert!(cell.fits(2));
    assert!(!cell.fits(1));
    assert!(cell.submit(4).is_ok());
    assert!(matches!(cell.serve(1), Step::Run(4)));
    assert!(matches!(cell.serve(0), Step::Wait));
    assert!(matches!(cell.serve(2), Step::Refused));
    assert_eq!(cell.close(3), 0);
    assert!(cell.submit(5).is_ok());
    assert!(matches!(cell.serve(0), Step::Run(5)));
    assert!(cell.settle(0, true));
    assert_eq!(cell.close(2), 2);
    assert_eq!(cell.close(2), 0);
    assert!(matches!(cell.submit(6), Err(PoolError::Submission)));
    assert!(!cell.joined());
    assert!(cell.settle(1, false));
    assert!(!cell.settle(1, false));
    assert_eq!(cell.failed(2), vec![1]);
    assert!(cell.failed(5).is_empty());
    assert!(matches!(cell.serve(0), Step::Exit));
    assert!(cell.joined());
}

#[test]
fn cell_stop_signal_reaches_the_pool() {
    let mut cell = Sound::new(ThreadPool::<u32>::new(1).ok().unwrap());
    cell.submit(1).unwrap();
    cell.force();
    assert!(matches!(cell.serve(0), Step::Exit));
    assert!(!cell.joined());
    assert_eq!(cell.close(1), 1);
    assert!(cell.joined());
}

#[test]
fn fixed_pool_without_a_live_worker_refuses_tasks() {
    let pool = FixedThreadPool::<u32>::new(1).ok().unwrap();
    pool.execute(1).unwrap();
    assert!(matches!(pool.next(0), Step::Run(1)));
    assert!(pool.settle(0, false));
    assert!(matches!(pool.execute(2), Err(PoolError::Submission)));
    assert!(!pool.is_joined());
    assert_eq!(pool.join(), 1);
    assert!(pool.is_joined());
    assert_eq!(pool.failures(), vec![0]);
}
