use blitz::message::Message;
use blitz::pool::ThreadPool;
use blitz::worker::{Phase, Worker};

fn executed_tokens(pool: &ThreadPool) -> Vec<u64> {
    let mut all: Vec<u64> = Vec::new();
    for w in pool.workers.iter() {
        all.extend(w.executed.iter().copied());
    }
    all.sort();
    all
}

#[test]
fn construct_yields_n_live_workers() {
    for n in 1..=4usize {
        let pool = ThreadPool::new(n);
        assert_eq!(pool.workers.len(), n);
        assert!(pool.queue.is_empty());
        assert!(!pool.shutting_down);
        for (i, w) in pool.workers.iter().enumerate() {
            assert_eq!(w.id, i);
            assert!(matches!(w.phase, Phase::Waiting));
            assert!(w.executed.is_empty());
        }
    }
}

#[test]
fn fresh_worker_is_waiting() {
    let w = Worker::new(5);
    assert_eq!(w.id, 5);
    assert!(matches!(w.phase, Phase::Waiting));
    assert!(w.executed.is_empty());
}

#[test]
fn submission_keeps_fifo_order_in_queue() {
    let mut pool = ThreadPool::new(2);
    pool.execute(5);
    pool.execute(6);
    assert_eq!(pool.queue, vec![Message::Work { job: 5 }, Message::Work { job: 6 }]);
}

#[test]
fn dispatch_delivers_front_entry() {
    let mut pool = ThreadPool::new(2);
    pool.execute(42);
    pool.execute(43);
    let m = pool.dispatch(0);
    assert_eq!(m, Message::Work { job: 42 });
    assert!(matches!(pool.workers[0].phase, Phase::Executing));
    assert_eq!(pool.workers[0].current, Some(42));
    assert_eq!(pool.queue, vec![Message::Work { job: 43 }]);
    let done = pool.complete(0);
    assert_eq!(done, 42);
    assert_eq!(pool.workers[0].executed, vec![42]);
    assert!(matches!(pool.workers[0].phase, Phase::Waiting));
    assert_eq!(pool.workers[0].current, None);
}

#[test]
fn slow_job_does_not_serialize_the_pool() {
    // one worker holds a long job while the other takes three more entries
    let mut pool = ThreadPool::new(2);
    for job in [1u64, 2, 3, 4] {
        pool.execute(job);
    }
    pool.begin_shutdown();
    let a = pool.dispatch(0);
    assert_eq!(a, Message::Work { job: 1 });
    assert_eq!(pool.dispatch(1), Message::Work { job: 2 });
    assert_eq!(pool.complete(1), 2);
    assert_eq!(pool.dispatch(1), Message::Work { job: 3 });
    assert_eq!(pool.complete(1), 3);
    assert_eq!(pool.dispatch(1), Message::Work { job: 4 });
    assert_eq!(pool.complete(1), 4);
    assert_eq!(pool.dispatch(1), Message::Stop);
    assert_eq!(pool.complete(0), 1);
    assert_eq!(pool.dispatch(0), Message::Stop);
    assert!(pool.queue.is_empty());
    assert_eq!(pool.workers[0].executed, vec![1]);
    assert_eq!(pool.workers[1].executed, vec![2, 3, 4]);
    assert!(matches!(pool.workers[0].phase, Phase::Terminated));
    assert!(matches!(pool.workers[1].phase, Phase::Terminated));
}

#[test]
fn shutdown_enqueues_one_stop_per_worker() {
    let mut pool = ThreadPool::new(3);
    pool.execute(1);
    pool.begin_shutdown();
    assert!(pool.shutting_down);
    assert_eq!(pool.queue.len(), 4);
    assert_eq!(pool.queue[0], Message::Work { job: 1 });
    for m in pool.queue.iter().skip(1) {
        assert!(matches!(m, Message::Stop));
    }
}

#[test]
fn every_job_runs_exactly_once() {
    let mut pool = ThreadPool::new(2);
    for job in 1..=5u64 {
        pool.execute(job);
    }
    pool.shutdown();
    assert_eq!(executed_tokens(&pool), vec![1, 2, 3, 4, 5]);
}

#[test]
fn duplicate_tokens_run_as_often_as_submitted() {
    let mut pool = ThreadPool::new(2);
    pool.execute(9);
    pool.execute(9);
    pool.shutdown();
    assert_eq!(executed_tokens(&pool), vec![9, 9]);
}

#[test]
fn single_worker_runs_jobs_in_submission_order() {
    let mut pool = ThreadPool::new(1);
    pool.execute(1);
    pool.execute(2);
    pool.execute(3);
    pool.shutdown();
    assert_eq!(pool.workers[0].executed, vec![1, 2, 3]);
    assert!(matches!(pool.workers[0].phase, Phase::Terminated));
}

#[test]
fn destruction_waits_for_every_worker() {
    let mut pool = ThreadPool::new(3);
    pool.execute(7);
    pool.shutdown();
    let exited = pool.workers.iter().filter(|w| matches!(w.phase, Phase::Terminated)).count();
    assert_eq!(exited, 3);
    assert!(pool.queue.is_empty());
}

#[test]
fn empty_shutdown_terminates_cleanly() {
    for n in [1usize, 4] {
        let mut pool = ThreadPool::new(n);
        pool.shutdown();
        assert!(pool.queue.is_empty());
        assert_eq!(executed_tokens(&pool), Vec::<u64>::new());
        for w in pool.workers.iter() {
            assert!(matches!(w.phase, Phase::Terminated));
        }
    }
}

#[test]
fn two_workers_complete_four_jobs() {
    let mut pool = ThreadPool::new(2);
    for job in [10u64, 11, 12, 13] {
        pool.execute(job);
    }
    pool.shutdown();
    assert_eq!(executed_tokens(&pool), vec![10, 11, 12, 13]);
    for w in pool.workers.iter() {
        assert!(matches!(w.phase, Phase::Terminated));
    }
}
