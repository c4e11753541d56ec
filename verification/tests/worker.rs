use worker_pool::channel::DispatchChannel;
use worker_pool::message::{Action, Message};
use worker_pool::worker::Worker;

#[test]
fn new_worker_runs_under_its_ordinal() {
    let worker = Worker::new(3);
    assert_eq!(worker.id(), 3);
    assert!(worker.is_running());
}

#[test]
fn worker_keeps_running_after_work() {
    let mut worker = Worker::new(0);
    assert!(matches!(worker.step(Message::Work(9u64)), Action::Run(9)));
    assert!(worker.is_running());
    assert!(matches!(worker.step(Message::Work(11u64)), Action::Run(11)));
    assert!(worker.is_running());
    assert_eq!(worker.id(), 0);
}

#[test]
fn worker_stops_on_shutdown() {
    let mut worker = Worker::new(1);
    assert!(matches!(worker.step(Message::<u64>::Shutdown), Action::Exit));
    assert!(!worker.is_running());
    assert_eq!(worker.id(), 1);
}

#[test]
fn channel_is_first_in_first_out() {
    let mut channel: DispatchChannel<char> = DispatchChannel::new();
    assert!(channel.is_empty());
    assert!(channel.receive().is_none());
    channel.send(Message::Work('a'));
    channel.send(Message::Shutdown);
    channel.send(Message::Work('b'));
    assert_eq!(channel.len(), 3);
    assert!(matches!(channel.receive(), Some(Message::Work('a'))));
    assert!(matches!(channel.receive(), Some(Message::Shutdown)));
    assert!(matches!(channel.receive(), Some(Message::Work('b'))));
    assert!(channel.receive().is_none());
    assert!(channel.is_empty());
}
