use worders::thread_pool::{Message, Task, ThreadPool, Worker};

#[test]
fn a_single_worker_gets_jobs_in_the_order_they_were_handed_in() {
    let mut pool: ThreadPool<&str> = ThreadPool::new(1);
    pool.execute("A");
    pool.execute("B");
    assert_eq!(pool.queued(), 2);
    assert_eq!(pool.take(0), Task::Run("A"));
    assert_eq!(pool.take(0), Task::Run("B"));
    assert_eq!(pool.take(0), Task::Wait);
    assert_eq!(pool.queued(), 0);
}

#[test]
fn each_job_goes_to_exactly_one_worker() {
    let mut pool: ThreadPool<u32> = ThreadPool::new(3);
    for job in 0..5 {
        pool.execute(job);
    }
    let mut taken = Vec::new();
    for turn in 0..5 {
        match pool.take(turn % 3) {
            Task::Run(job) => taken.push(job),
            other => panic!("told to {:?}", other),
        }
    }
    assert_eq!(taken, vec![0, 1, 2, 3, 4]);
    for worker in 0..3 {
        assert_eq!(pool.take(worker), Task::Wait);
    }
}

#[test]
fn after_shutdown_every_worker_stops() {
    let mut pool: ThreadPool<u32> = ThreadPool::new(3);
    assert_eq!(pool.size(), 3);
    assert!(!pool.is_finished());
    pool.execute(10);
    pool.shutdown();
    assert_eq!(pool.queued(), 4);
    assert_eq!(pool.take(1), Task::Run(10));
    assert_eq!(pool.take(1), Task::Exit);
    assert!(!pool.is_finished());
    assert_eq!(pool.take(0), Task::Exit);
    assert_eq!(pool.take(2), Task::Exit);
    assert_eq!(pool.queued(), 0);
    assert!(pool.is_finished());
}

#[test]
fn a_stopped_worker_takes_nothing() {
    let mut pool: ThreadPool<u32> = ThreadPool::new(2);
    pool.shutdown();
    assert_eq!(pool.take(0), Task::Exit);
    pool.execute(7);
    assert_eq!(pool.queued(), 2);
    assert_eq!(pool.take(0), Task::Exit);
    assert_eq!(pool.queued(), 2);
    assert_eq!(pool.take(1), Task::Exit);
    assert_eq!(pool.queued(), 1);
    assert!(pool.is_finished());
}

#[test]
fn jobs_queued_behind_the_terminations_may_be_left_over() {
    let mut pool: ThreadPool<u32> = ThreadPool::new(1);
    pool.shutdown();
    pool.execute(1);
    assert_eq!(pool.take(0), Task::Exit);
    assert!(pool.is_finished());
    assert_eq!(pool.queued(), 1);
}

#[test]
fn a_worker_the_pool_does_not_have_is_told_to_stop() {
    let mut pool: ThreadPool<u32> = ThreadPool::new(2);
    pool.execute(1);
    assert_eq!(pool.take(2), Task::Exit);
    assert_eq!(pool.take(usize::MAX), Task::Exit);
    assert_eq!(pool.queued(), 1);
}

#[test]
fn a_pool_without_workers_is_finished_and_runs_nothing() {
    let mut pool: ThreadPool<u32> = ThreadPool::new(0);
    assert!(pool.is_finished());
    pool.execute(1);
    pool.shutdown();
    assert_eq!(pool.queued(), 1);
    assert_eq!(pool.take(0), Task::Exit);
}

#[test]
fn a_worker_runs_jobs_until_it_is_told_to_stop() {
    let mut worker = Worker::new(4);
    assert_eq!(worker.id(), 4);
    assert!(worker.is_running());
    assert_eq!(worker.receive(Message::NewJob('x')), Task::Run('x'));
    assert!(worker.is_running());
    assert_eq!(worker.receive(Message::<char>::Terminate), Task::Exit);
    assert!(!worker.is_running());
    assert_eq!(worker.receive(Message::NewJob('y')), Task::Exit);
    assert!(!worker.is_running());
    assert_eq!(worker.id(), 4);
}
