use std::cell::RefCell;
use std::rc::Rc;

use worker_pool::message::{Action, Message};
use worker_pool::pool::ThreadPool;

type Task = Box<dyn FnOnce()>;

/// Lets the running workers take turns until all have stopped; returns the
/// number of messages taken.
fn drive(pool: &mut ThreadPool<Task>) -> usize {
    let mut steps = 0;
    while !pool.is_finished() {
        assert!(pool.queued() > 0, "a running worker is left without a message");
        for worker in 0..pool.worker_count() {
            if pool.is_running(worker) {
                if let Some(action) = pool.receive(worker) {
                    steps += 1;
                    action.perform();
                }
            }
        }
    }
    steps
}

fn logging_task(log: &Rc<RefCell<Vec<usize>>>, index: usize) -> Task {
    let log = Rc::clone(log);
    Box::new(move || log.borrow_mut().push(index))
}

#[test]
fn it_works() {
    let mut pool: ThreadPool<Box<dyn FnOnce() + Send>> = ThreadPool::new(4);
    for i in 0..4 {
        pool.excute(Box::new(move || loop {
            println!("{}", i);
        }));
    }
    pool.excute(Box::new(move || loop {
        println!("{}", "2333333");
    }));
    assert_eq!(pool.worker_count(), 4);
    assert_eq!(pool.queued(), 5);
}

#[test]
fn new_pool_has_running_workers_and_empty_queue() {
    let pool: ThreadPool<Task> = ThreadPool::new(3);
    assert_eq!(pool.worker_count(), 3);
    assert_eq!(pool.queued(), 0);
    assert!(!pool.is_closed());
    assert!(!pool.is_finished());
    for worker in 0..3 {
        assert!(pool.is_running(worker));
    }
    assert!(!pool.is_running(3));
}

#[test]
fn receive_on_empty_queue_waits() {
    let mut pool: ThreadPool<Task> = ThreadPool::new(2);
    assert!(pool.receive(0).is_none());
    assert!(pool.is_running(0));
    assert_eq!(pool.queued(), 0);
}

#[test]
fn tasks_leave_in_submission_order() {
    let mut pool: ThreadPool<u32> = ThreadPool::new(3);
    pool.excute(10);
    pool.excute(20);
    pool.excute(30);
    assert_eq!(pool.queued(), 3);
    assert!(matches!(pool.receive(2), Some(Action::Run(10))));
    assert!(matches!(pool.receive(0), Some(Action::Run(20))));
    assert!(matches!(pool.receive(2), Some(Action::Run(30))));
    assert!(pool.receive(1).is_none());
    assert_eq!(pool.queued(), 0);
}

#[test]
fn shutdown_sends_one_signal_per_worker() {
    let mut pool: ThreadPool<u32> = ThreadPool::new(5);
    pool.excute(1);
    pool.shutdown();
    assert!(pool.is_closed());
    assert_eq!(pool.queued(), 6);
}

#[test]
fn signals_come_after_queued_work() {
    let mut pool: ThreadPool<u32> = ThreadPool::new(2);
    pool.excute(7);
    pool.excute(8);
    pool.shutdown();
    assert!(matches!(pool.receive(1), Some(Action::Run(7))));
    assert!(matches!(pool.receive(1), Some(Action::Run(8))));
    assert!(matches!(pool.receive(1), Some(Action::Exit)));
    assert!(!pool.is_running(1));
    assert!(pool.is_running(0));
    assert!(!pool.is_finished());
    assert!(matches!(pool.receive(0), Some(Action::Exit)));
    assert!(pool.is_finished());
    assert_eq!(pool.queued(), 0);
}

#[test]
fn idle_pool_tears_down_for_every_size() {
    for count in 1..=16 {
        let mut pool: ThreadPool<Task> = ThreadPool::new(count);
        pool.shutdown();
        assert_eq!(pool.queued(), count);
        assert_eq!(drive(&mut pool), count);
        assert!(pool.is_finished());
        assert_eq!(pool.queued(), 0);
    }
}

#[test]
fn two_idle_workers_stop_after_two_steps() {
    let mut pool: ThreadPool<Task> = ThreadPool::new(2);
    pool.shutdown();
    assert_eq!(drive(&mut pool), 2);
    assert!(pool.is_finished());
}

#[test]
fn eight_tasks_on_four_workers_run_once_each() {
    let log = Rc::new(RefCell::new(Vec::new()));
    let mut pool: ThreadPool<Task> = ThreadPool::new(4);
    for index in 0..8 {
        pool.excute(logging_task(&log, index));
    }
    pool.shutdown();
    assert_eq!(drive(&mut pool), 12);
    let mut seen = log.borrow().clone();
    seen.sort();
    assert_eq!(seen, vec![0, 1, 2, 3, 4, 5, 6, 7]);
}

#[test]
fn single_worker_runs_tasks_one_after_the_other() {
    let log = Rc::new(RefCell::new(Vec::new()));
    let mut pool: ThreadPool<Task> = ThreadPool::new(1);
    pool.excute(logging_task(&log, 0));
    pool.excute(logging_task(&log, 1));
    pool.shutdown();
    assert_eq!(drive(&mut pool), 3);
    assert_eq!(*log.borrow(), vec![0, 1]);
}

#[test]
fn work_taken_before_teardown_is_not_handed_out_again() {
    let log = Rc::new(RefCell::new(Vec::new()));
    let mut pool: ThreadPool<Task> = ThreadPool::new(2);
    for index in 0..5 {
        pool.excute(logging_task(&log, index));
    }
    for worker in [1, 0, 1] {
        match pool.receive(worker) {
            Some(action) => assert!(action.perform()),
            None => panic!("work was queued"),
        }
    }
    assert_eq!(*log.borrow(), vec![0, 1, 2]);
    pool.shutdown();
    assert_eq!(drive(&mut pool), 4);
    assert_eq!(*log.borrow(), vec![0, 1, 2, 3, 4]);
}

#[test]
fn interleaved_submitters_lose_nothing() {
    let log = Rc::new(RefCell::new(Vec::new()));
    let mut pool: ThreadPool<Task> = ThreadPool::new(4);
    for round in 0..100 {
        for submitter in 0..10 {
            pool.excute(logging_task(&log, submitter * 100 + round));
        }
        if round % 7 == 0 {
            if let Some(action) = pool.receive(round % 4) {
                action.perform();
            }
        }
    }
    pool.shutdown();
    drive(&mut pool);
    let mut seen = log.borrow().clone();
    assert_eq!(seen.len(), 1000);
    seen.sort();
    assert_eq!(seen, (0..1000).collect::<Vec<usize>>());
}

#[test]
fn message_becomes_its_action() {
    assert!(matches!(Message::Work(5u8).into_action(), Action::Run(5)));
    assert!(matches!(Message::<u8>::Shutdown.into_action(), Action::Exit));
}

#[test]
fn perform_runs_the_task_once() {
    let log = Rc::new(RefCell::new(Vec::new()));
    assert!(Action::Run(logging_task(&log, 42)).perform());
    assert_eq!(*log.borrow(), vec![42]);
    assert!(!Action::<Task>::Exit.perform());
    assert_eq!(*log.borrow(), vec![42]);
}
