//! The lifecycle of one worker: running until it takes a shutdown signal.
use vstd::prelude::*;
use crate::message::{Action, Message};

verus! {

/// One worker of the pool.
///
/// The ordinal serves diagnostics only; no message is addressed to a worker.
pub struct Worker {
    id: usize,
    running: bool,
}

impl Worker {
    /// The worker's ordinal within its pool.
    pub closed spec fn spec_id(&self) -> usize {
        self.id
    }

    /// Whether the worker is still in its loop.
    pub closed spec fn spec_is_running(&self) -> bool {
        self.running
    }

    /// A worker that has just been started.
    pub fn new(id: usize) -> (worker: Self)
        ensures
            worker.spec_id() == id,
            worker.spec_is_running(),
    {
        Worker { id, running: true }
    }

    /// The worker's ordinal within its pool.
    #[verifier::when_used_as_spec(spec_id)]
    pub fn id(&self) -> (id: usize)
        ensures
            id == self.spec_id(),
    {
        self.id
    }

    /// Whether the worker is still in its loop.
    #[verifier::when_used_as_spec(spec_is_running)]
    pub fn is_running(&self) -> (running: bool)
        ensures
            running == self.spec_is_running(),
    {
        self.running
    }

    /// Acts on a message that this worker has taken off the queue.
    ///
    /// A task is handed back to be run and the worker stays in its loop; a
    /// shutdown signal stops the worker for good.
    pub fn step<T>(&mut self, message: Message<T>) -> (action: Action<T>)
        requires
            old(self).is_running(),
        ensures
            action == message.action(),
            final(self).id() == old(self).id(),
            final(self).is_running() == message.is_work(),
    {
        let action = message.into_action();
        if let Action::Exit = action {
            self.running = false;
        }
        action
    }
}

} // verus!
