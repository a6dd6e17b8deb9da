use worker_pool::pool::ThreadPool;
use worker_pool::worker::Dequeued;
use worker_pool::worker::WorkerState;

#[test]
fn it_works() {
    let threadpool = ThreadPool::new(10);
    assert_eq!(threadpool.thread_count(), 10);
}

#[test]
fn thread_count_is_fixed_at_construction() {
    for n in 0..8 {
        let mut pool = ThreadPool::new(n);
        assert_eq!(pool.thread_count(), n);
        pool.execute(1);
        pool.execute(2);
        assert_eq!(pool.thread_count(), n);
    }
}

#[test]
fn new_pool_starts_idle_and_open() {
    let pool = ThreadPool::new(3);
    assert!(!pool.is_closed());
    assert_eq!(pool.pending_count(), 0);
    assert_eq!(pool.finished_count(), 0);
    for w in 0..3 {
        assert_eq!(pool.worker_state(w), WorkerState::Waiting);
    }
}

#[test]
fn tasks_are_dequeued_in_submission_order() {
    let mut pool = ThreadPool::new(1);
    pool.execute(11);
    pool.execute(22);
    pool.execute(33);
    assert_eq!(pool.worker_dequeue(0), Dequeued::Task(11));
    pool.finish_task(0);
    assert_eq!(pool.worker_dequeue(0), Dequeued::Task(22));
    pool.finish_task(0);
    assert_eq!(pool.worker_dequeue(0), Dequeued::Task(33));
    pool.finish_task(0);
    assert_eq!(pool.pending_count(), 0);
    assert_eq!(pool.finished_count(), 3);
}

#[test]
fn empty_open_queue_keeps_worker_waiting() {
    let mut pool = ThreadPool::new(2);
    assert_eq!(pool.worker_dequeue(0), Dequeued::Empty);
    assert_eq!(pool.worker_state(0), WorkerState::Waiting);
    assert!(!pool.is_closed());
}

#[test]
fn all_workers_can_run_simultaneously() {
    let mut pool = ThreadPool::new(2);
    pool.execute(1);
    pool.execute(2);
    assert_eq!(pool.worker_dequeue(0), Dequeued::Task(1));
    // Worker 0 still runs its task: claiming released the queue, so
    // worker 1 can claim the next task concurrently.
    assert_eq!(pool.worker_dequeue(1), Dequeued::Task(2));
    assert_eq!(pool.worker_state(0), WorkerState::Running { task: 1 });
    assert_eq!(pool.worker_state(1), WorkerState::Running { task: 2 });

    let mut big = ThreadPool::new(4);
    for t in 10..14 {
        big.execute(t);
    }
    for w in 0..4 {
        assert_eq!(big.worker_dequeue(w), Dequeued::Task(10 + w as u64));
    }
    for w in 0..4 {
        assert!(matches!(big.worker_state(w), WorkerState::Running { .. }));
    }
}

#[test]
fn hundred_tasks_all_finish_exactly_once() {
    let mut pool = ThreadPool::new(4);
    for i in 0..100u64 {
        pool.execute(i);
    }
    let mut turn: usize = 0;
    while pool.pending_count() > 0 {
        let w: usize = turn % 4;
        turn += 1;
        match pool.worker_dequeue(w) {
            Dequeued::Task(_) => pool.finish_task(w),
            _ => unreachable!(),
        }
    }
    pool.close();
    for w in 0..4 {
        assert_eq!(pool.worker_dequeue(w), Dequeued::Disconnected);
        assert_eq!(pool.worker_state(w), WorkerState::Terminated);
    }
    assert_eq!(pool.finished_count(), 100);
    let mut seen = Vec::new();
    for i in 0..100 {
        seen.push(pool.finished_task(i));
    }
    seen.sort();
    for i in 0..100u64 {
        assert_eq!(seen[i as usize], i);
    }
}

#[test]
fn zero_thread_pool_accepts_but_never_executes() {
    let mut pool = ThreadPool::new(0);
    assert_eq!(pool.thread_count(), 0);
    pool.execute(7);
    pool.close();
    // No worker exists, so the task is never executed and nothing hangs.
    assert_eq!(pool.finished_count(), 0);
    assert_eq!(pool.pending_count(), 1);
    assert!(pool.is_closed());
}

#[test]
fn close_keeps_already_queued_tasks() {
    let mut pool = ThreadPool::new(1);
    pool.execute(9);
    pool.close();
    assert!(pool.is_closed());
    // The task enqueued before the close is still delivered.
    assert_eq!(pool.pending_count(), 1);
    assert_eq!(pool.worker_dequeue(0), Dequeued::Task(9));
    pool.finish_task(0);
    assert_eq!(pool.worker_dequeue(0), Dequeued::Disconnected);
    assert_eq!(pool.finished_count(), 1);
    assert_eq!(pool.finished_task(0), 9);
}

#[test]
fn closed_pool_rejects_new_tasks() {
    let mut pool = ThreadPool::new(1);
    assert!(pool.try_execute(1));
    pool.close();
    // Submission after shutdown has begun fails; nothing is enqueued.
    assert!(!pool.try_execute(2));
    assert_eq!(pool.pending_count(), 1);
    assert_eq!(pool.worker_dequeue(0), Dequeued::Task(1));
    pool.finish_task(0);
    assert_eq!(pool.worker_dequeue(0), Dequeued::Disconnected);
    assert_eq!(pool.finished_count(), 1);
}

#[test]
fn shutdown_terminates_every_worker() {
    let mut pool = ThreadPool::new(3);
    pool.execute(1);
    pool.execute(2);
    pool.close();
    assert_eq!(pool.worker_dequeue(0), Dequeued::Task(1));
    pool.finish_task(0);
    assert_eq!(pool.worker_dequeue(1), Dequeued::Task(2));
    pool.finish_task(1);
    for w in 0..3 {
        assert_eq!(pool.worker_dequeue(w), Dequeued::Disconnected);
    }
    for w in 0..3 {
        assert_eq!(pool.worker_state(w), WorkerState::Terminated);
    }
    assert_eq!(pool.pending_count(), 0);
    assert_eq!(pool.finished_count(), 2);
}

#[test]
fn drain_worker_completes_all_queued_work() {
    let mut pool = ThreadPool::new(2);
    for t in 0..5u64 {
        pool.execute(t);
    }
    pool.close();
    // One worker drains the whole queue, then terminates.
    pool.drain_worker(0);
    assert_eq!(pool.worker_state(0), WorkerState::Terminated);
    assert_eq!(pool.pending_count(), 0);
    assert_eq!(pool.finished_count(), 5);
    for i in 0..5 {
        assert_eq!(pool.finished_task(i), i as u64);
    }
    // The other worker finds nothing left and terminates at once.
    pool.drain_worker(1);
    assert_eq!(pool.worker_state(1), WorkerState::Terminated);
    assert_eq!(pool.finished_count(), 5);
}

#[test]
fn failed_worker_is_lost_but_others_continue() {
    let mut pool = ThreadPool::new(2);
    pool.execute(5);
    assert_eq!(pool.worker_dequeue(0), Dequeued::Task(5));
    // The task fails while running: worker 0 dies with it.
    pool.fail_task(0);
    assert_eq!(pool.worker_state(0), WorkerState::Failed { task: 5 });
    // The remaining worker keeps accepting and completing new tasks.
    pool.execute(6);
    pool.execute(7);
    assert_eq!(pool.worker_dequeue(1), Dequeued::Task(6));
    pool.finish_task(1);
    assert_eq!(pool.worker_dequeue(1), Dequeued::Task(7));
    pool.finish_task(1);
    assert_eq!(pool.finished_count(), 2);
    assert_eq!(pool.finished_task(0), 6);
    assert_eq!(pool.finished_task(1), 7);
    pool.close();
    assert_eq!(pool.worker_dequeue(1), Dequeued::Disconnected);
    assert_eq!(pool.worker_state(0), WorkerState::Failed { task: 5 });
    assert_eq!(pool.worker_state(1), WorkerState::Terminated);
}
