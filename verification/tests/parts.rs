use thread_runner::{AsyncFlavor, Msg, Redex, RuntimePlan};

#[test]
fn redex_shows_the_value_it_was_given() {
    let r = Redex::new(41u64);
    assert_eq!(*r.get(), 41);
    assert_eq!(*r, 41);
}

#[test]
fn redex_clones_share_one_value() {
    let first = Redex::new(vec![1u8, 2, 3]);
    let second = first.clone();
    assert_eq!(*second.get(), vec![1u8, 2, 3]);
    assert!(std::ptr::eq(first.get(), second.get()));
}

#[test]
fn msg_tells_sentinel_from_task() {
    assert!(Msg::<u8>::Terminate.is_terminate());
    assert!(!Msg::Task(3u8).is_terminate());
}

#[test]
fn flavor_plans() {
    assert_eq!(
        AsyncFlavor::CurrentThread.plan(),
        Some(RuntimePlan { multi_thread: false, worker_threads: None })
    );
    assert_eq!(
        AsyncFlavor::AllThreads.plan(),
        Some(RuntimePlan { multi_thread: true, worker_threads: None })
    );
    assert_eq!(
        AsyncFlavor::WorkerThreads(3).plan(),
        Some(RuntimePlan { multi_thread: true, worker_threads: Some(3) })
    );
}

#[test]
fn a_runtime_without_workers_has_no_plan() {
    assert_eq!(AsyncFlavor::WorkerThreads(0).plan(), None);
}
