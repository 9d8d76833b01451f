use kvs::thread_pool::{
    check_threads, shutdown_messages, JobOutcome, ThreadPoolMessage, Worker, WorkerState,
};
use kvs::{KvStoreError, NaiveThreadPool};

#[test]
fn pool_of_zero_threads_is_refused() {
    match check_threads(0) {
        Err(KvStoreError::OtherError(m)) => assert_eq!(m, "thread num can not be 0"),
        other => panic!("unexpected {:?}", other),
    }
    match NaiveThreadPool::new(0) {
        Err(KvStoreError::OtherError(m)) => assert_eq!(m, "thread num can not be 0"),
        other => panic!("unexpected {:?}", other),
    }
    assert_eq!(check_threads(4).unwrap(), 4);
    assert_eq!(NaiveThreadPool::new(4).unwrap().threads(), 4);
    assert_eq!(NaiveThreadPool::new(u32::MAX).unwrap().threads(), u32::MAX);
}

#[test]
fn worker_runs_job_and_is_idle_again() {
    let mut worker = Worker::new(3);
    assert_eq!(worker.id(), 3);
    assert_eq!(worker.state(), WorkerState::Idle);
    assert!(worker.takes_messages());
    let job = worker.receive(ThreadPoolMessage::RunJob(41)).ok().unwrap();
    assert_eq!(job, Some(41));
    assert_eq!(worker.state(), WorkerState::Running);
    assert!(!worker.takes_messages());
    worker.finish(JobOutcome::Completed);
    assert_eq!(worker.state(), WorkerState::Idle);
    assert_eq!(worker.completed(), 1);
    assert_eq!(worker.faulted(), 0);
}

#[test]
fn worker_survives_faulting_job() {
    let mut worker = Worker::new(0);
    assert_eq!(worker.receive(ThreadPoolMessage::RunJob("a")).ok().unwrap(), Some("a"));
    worker.finish(JobOutcome::Faulted);
    assert_eq!(worker.state(), WorkerState::Idle);
    assert_eq!(worker.receive(ThreadPoolMessage::RunJob("b")).ok().unwrap(), Some("b"));
    worker.finish(JobOutcome::Completed);
    assert_eq!(worker.state(), WorkerState::Idle);
    assert_eq!(worker.completed(), 1);
    assert_eq!(worker.faulted(), 1);
}

#[test]
fn worker_terminates_on_shutdown_and_takes_no_more() {
    let mut worker = Worker::new(0);
    assert_eq!(worker.receive(ThreadPoolMessage::<u8>::Shutdown).ok().unwrap(), None);
    assert_eq!(worker.state(), WorkerState::Terminated);
    assert!(!worker.takes_messages());
    match worker.receive(ThreadPoolMessage::RunJob(7u8)) {
        Err(ThreadPoolMessage::RunJob(job)) => assert_eq!(job, 7),
        _ => panic!("a terminated worker took a job"),
    }
    worker.finish(JobOutcome::Completed);
    assert_eq!(worker.state(), WorkerState::Terminated);
    assert_eq!(worker.completed(), 0);
}

#[test]
fn running_worker_takes_no_message() {
    let mut worker = Worker::new(0);
    worker.receive(ThreadPoolMessage::RunJob(1u8)).ok().unwrap();
    assert!(matches!(
        worker.receive(ThreadPoolMessage::<u8>::Shutdown),
        Err(ThreadPoolMessage::Shutdown)
    ));
    assert_eq!(worker.state(), WorkerState::Running);
}

#[test]
fn shutdown_sends_one_message_per_worker() {
    let msgs = shutdown_messages::<u8>(4);
    assert_eq!(msgs.len(), 4);
    assert!(msgs.iter().all(|m| matches!(m, ThreadPoolMessage::Shutdown)));
    assert_eq!(shutdown_messages::<u8>(0).len(), 0);
}

#[test]
fn pool_runs_every_job_once_and_shuts_down() {
    // Four workers share one queue; every third job faults.
    let mut queue: std::collections::VecDeque<ThreadPoolMessage<usize>> =
        (0..50).map(ThreadPoolMessage::RunJob).collect();
    let mut workers: Vec<Worker> = (0..4).map(Worker::new).collect();
    queue.extend(shutdown_messages(workers.len()));
    let mut runs = vec![0usize; 50];
    let mut turn = 0;
    while let Some(msg) = queue.pop_front() {
        while !workers[turn % 4].takes_messages() {
            turn += 1;
        }
        let worker = &mut workers[turn % 4];
        turn += 7;
        if let Some(job) = worker.receive(msg).ok().unwrap() {
            runs[job] += 1;
            worker.finish(if job % 3 == 0 { JobOutcome::Faulted } else { JobOutcome::Completed });
        }
    }
    assert!(runs.iter().all(|&n| n == 1));
    assert!(workers.iter().all(|w| w.state() == WorkerState::Terminated));
    assert_eq!(workers.iter().map(|w| w.completed()).sum::<u64>(), 33);
    assert_eq!(workers.iter().map(|w| w.faulted()).sum::<u64>(), 17);
}
