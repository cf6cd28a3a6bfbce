use std::cell::{Cell, RefCell};
use std::rc::Rc;
use thread_pool::{Claim, ThreadPool};

type Task = Box<dyn FnOnce()>;

/// Lets the workers claim in turn, running each task handed out, until every
/// worker has stopped. Returns the number of claims that were made.
fn drain(pool: &mut ThreadPool<Task>) -> usize {
    let size = pool.size();
    let mut claims = 0;
    let mut id = 0;
    while !pool.is_finished() {
        match pool.claim(id) {
            Claim::Run(task) => task(),
            Claim::Wait => panic!("a worker was told to wait during teardown"),
            Claim::Exit => {}
        }
        claims += 1;
        id = (id + 1) % size;
        assert!(claims <= 1_000_000);
    }
    claims
}

fn counter_after(tasks: usize, size: usize) -> usize {
    let counter = Rc::new(Cell::new(0usize));
    let mut pool: ThreadPool<Task> = ThreadPool::new(size);
    for _ in 0..tasks {
        let counter = Rc::clone(&counter);
        pool.execute(Box::new(move || counter.set(counter.get() + 1)));
    }
    assert_eq!(pool.pending(), tasks);
    pool.terminate();
    assert_eq!(pool.pending(), tasks + size);
    drain(&mut pool);
    assert_eq!(pool.pending(), 0);
    counter.get()
}

#[test]
fn new_pool_has_size_running_workers() {
    for size in [1usize, 2, 4, 64] {
        let pool: ThreadPool<u64> = ThreadPool::new(size);
        assert_eq!(pool.size(), size);
        assert_eq!(pool.live_workers(), size);
        assert_eq!(pool.pending(), 0);
        assert!(!pool.is_closing());
        assert!(!pool.is_finished());
        for id in 0..size {
            assert!(pool.is_running(id));
        }
    }
}

#[test]
fn counter_equals_zero_tasks() {
    assert_eq!(counter_after(0, 4), 0);
}

#[test]
fn counter_equals_one_task() {
    assert_eq!(counter_after(1, 4), 1);
}

#[test]
fn counter_equals_thousand_tasks() {
    assert_eq!(counter_after(1000, 4), 1000);
    assert_eq!(counter_after(1000, 1), 1000);
}

#[test]
fn teardown_without_tasks_completes() {
    let mut pool: ThreadPool<Task> = ThreadPool::new(3);
    pool.terminate();
    assert!(pool.is_closing());
    assert_eq!(pool.pending(), 3);
    assert_eq!(drain(&mut pool), 3);
    assert!(pool.is_finished());
    assert_eq!(pool.live_workers(), 0);
    assert_eq!(pool.pending(), 0);
}

#[test]
fn teardown_hands_out_queued_tasks_before_any_worker_stops() {
    let mut pool: ThreadPool<u64> = ThreadPool::new(2);
    pool.execute(10);
    pool.execute(11);
    pool.execute(12);
    pool.terminate();
    assert_eq!(pool.pending(), 5);
    assert!(matches!(pool.claim(1), Claim::Run(10)));
    assert!(matches!(pool.claim(1), Claim::Run(11)));
    assert_eq!(pool.live_workers(), 2);
    assert!(matches!(pool.claim(0), Claim::Run(12)));
    assert!(!pool.is_finished());
    assert!(matches!(pool.claim(0), Claim::Exit));
    assert!(!pool.is_running(0));
    assert!(pool.is_running(1));
    assert_eq!(pool.live_workers(), 1);
    assert_eq!(pool.pending(), 1);
    assert!(!pool.is_finished());
    assert!(matches!(pool.claim(1), Claim::Exit));
    assert!(pool.is_finished());
    assert_eq!(pool.pending(), 0);
}

#[test]
fn each_task_is_handed_out_exactly_once() {
    let tasks = 257usize;
    let size = 5usize;
    let marks: Rc<RefCell<Vec<usize>>> = Rc::new(RefCell::new(vec![0; tasks]));
    let order: Rc<RefCell<Vec<usize>>> = Rc::new(RefCell::new(Vec::new()));
    let mut pool: ThreadPool<Task> = ThreadPool::new(size);
    for marker in 0..tasks {
        let marks = Rc::clone(&marks);
        let order = Rc::clone(&order);
        pool.execute(Box::new(move || {
            marks.borrow_mut()[marker] += 1;
            order.borrow_mut().push(marker);
        }));
    }
    // Some tasks are claimed while the pool is alive, by workers in an uneven order.
    for turn in 0..100usize {
        match pool.claim((turn * turn) % size) {
            Claim::Run(task) => task(),
            _ => panic!("a task was pending"),
        }
    }
    pool.terminate();
    drain(&mut pool);
    assert!(marks.borrow().iter().all(|&count| count == 1));
    let expected: Vec<usize> = (0..tasks).collect();
    assert_eq!(*order.borrow(), expected);
}

#[test]
fn teardown_stops_exactly_size_workers() {
    let size = 6usize;
    let mut pool: ThreadPool<u64> = ThreadPool::new(size);
    pool.terminate();
    let mut exits = 0;
    for id in 0..size {
        assert_eq!(pool.live_workers(), size - id);
        assert!(matches!(pool.claim(id), Claim::Exit));
        exits += 1;
    }
    assert_eq!(exits, size);
    assert!(pool.is_finished());
    assert_eq!(pool.pending(), 0);
    for id in 0..size {
        assert!(!pool.is_running(id));
    }
}

#[test]
fn stopped_worker_claims_nothing() {
    let mut pool: ThreadPool<u64> = ThreadPool::new(2);
    pool.execute(7);
    pool.terminate();
    assert!(matches!(pool.claim(0), Claim::Run(7)));
    assert!(matches!(pool.claim(0), Claim::Exit));
    assert_eq!(pool.pending(), 1);
    // Worker 0 has stopped: it leaves the other worker's signal in place.
    assert!(matches!(pool.claim(0), Claim::Exit));
    assert!(matches!(pool.claim(0), Claim::Exit));
    assert_eq!(pool.pending(), 1);
    assert_eq!(pool.live_workers(), 1);
    assert!(matches!(pool.claim(1), Claim::Exit));
    assert!(pool.is_finished());
}

#[test]
fn empty_queue_tells_worker_to_wait() {
    let mut pool: ThreadPool<u64> = ThreadPool::new(2);
    assert!(matches!(pool.claim(0), Claim::Wait));
    assert!(matches!(pool.claim(1), Claim::Wait));
    assert_eq!(pool.live_workers(), 2);
    assert_eq!(pool.pending(), 0);
    pool.execute(3);
    assert_eq!(pool.pending(), 1);
    assert!(matches!(pool.claim(1), Claim::Run(3)));
    assert!(matches!(pool.claim(0), Claim::Wait));
    assert_eq!(pool.live_workers(), 2);
}

#[test]
fn tasks_are_claimed_in_submission_order() {
    let mut pool: ThreadPool<u64> = ThreadPool::new(3);
    for task in 0..9u64 {
        pool.execute(task * 100);
    }
    for task in 0..9u64 {
        let id = ((task * 2) % 3) as usize;
        match pool.claim(id) {
            Claim::Run(got) => assert_eq!(got, task * 100),
            _ => panic!("a task was pending"),
        }
        assert_eq!(pool.pending() as u64, 8 - task);
    }
    assert!(matches!(pool.claim(0), Claim::Wait));
}

#[test]
fn terminate_twice_sends_no_more_signals() {
    let mut pool: ThreadPool<u64> = ThreadPool::new(4);
    pool.execute(1);
    pool.terminate();
    assert!(pool.is_closing());
    assert_eq!(pool.pending(), 5);
    pool.terminate();
    assert!(pool.is_closing());
    assert_eq!(pool.pending(), 5);
    assert_eq!(pool.live_workers(), 4);
}

#[test]
fn single_worker_runs_all_then_stops() {
    let mut pool: ThreadPool<u64> = ThreadPool::new(1);
    pool.execute(1);
    pool.execute(2);
    pool.terminate();
    assert_eq!(pool.pending(), 3);
    assert!(matches!(pool.claim(0), Claim::Run(1)));
    assert!(matches!(pool.claim(0), Claim::Run(2)));
    assert!(!pool.is_finished());
    assert!(matches!(pool.claim(0), Claim::Exit));
    assert!(pool.is_finished());
    assert_eq!(pool.size(), 1);
}
