use file_processor::thread_pool::{worker_step, PoolMessage, ThreadPool, WorkerAction};

#[test]
fn test_thread_pool_executesjobs() {
    let mut pool: ThreadPool<i32> = ThreadPool::new(4);

    // Submit 10 jobs to the pool
    for i in 0..10 {
        pool.execute(i);
    }

    // Collect the jobs handed out to the workers
    let mut seen = vec![];
    for _ in 0..10 {
        let v = pool.next_job().unwrap();
        seen.push(v);
    }

    // Verify all jobs were delivered
    assert_eq!(seen.len(), 10);
}

#[test]
fn test_jobs_delivered_in_order_exactly_once() {
    let mut pool: ThreadPool<u64> = ThreadPool::new(2);
    pool.execute(7);
    pool.execute(8);
    pool.execute(9);
    assert_eq!(pool.pending_count(), 3);
    assert_eq!(pool.next_job(), Some(7));
    assert_eq!(pool.next_job(), Some(8));
    assert_eq!(pool.next_job(), Some(9));
    assert_eq!(pool.next_job(), None);
    assert_eq!(pool.pending_count(), 0);
}

#[test]
fn test_shutdown_is_idempotent() {
    let mut pool: ThreadPool<u32> = ThreadPool::new(3);
    pool.execute(1);
    pool.shutdown();
    assert_eq!(pool.pending_count(), 0);
    // A second shutdown neither blocks nor panics, and changes nothing.
    pool.shutdown();
    assert_eq!(pool.pending_count(), 0);
}

#[test]
fn test_execute_after_shutdown_drops_job() {
    let mut pool: ThreadPool<u32> = ThreadPool::new(1);
    pool.shutdown();
    pool.execute(42);
    assert_eq!(pool.pending_count(), 0);
    assert_eq!(pool.next_job(), None);
}

#[test]
fn test_increase_changes_nothing() {
    let mut pool: ThreadPool<u32> = ThreadPool::new(2);
    pool.execute(1);
    pool.increase(0);
    assert_eq!(pool.pending_count(), 1);
    pool.shutdown();
    pool.increase(5);
    assert_eq!(pool.pending_count(), 0);
    pool.execute(2);
    assert_eq!(pool.pending_count(), 0);
}

#[test]
fn test_worker_step_decisions() {
    match worker_step(Some(PoolMessage::NewJob(5u8))) {
        WorkerAction::Run(j) => assert_eq!(j, 5),
        WorkerAction::Exit => panic!("a job message must be run"),
    }
    assert!(matches!(
        worker_step::<u8>(Some(PoolMessage::Shutdown)),
        WorkerAction::Exit
    ));
    assert!(matches!(worker_step::<u8>(None), WorkerAction::Exit));
}
