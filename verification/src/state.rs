//! The pool as a transition system: its abstract state, the three transitions
//! (submit, shut down, receive) and the invariant that every reachable state
//! satisfies.
use vstd::prelude::*;
use crate::message::{
    lemma_drop_first_message, lemma_push_message, shutdowns_in, tasks_of, work_first, Message,
};

verus! {

/// Abstract state of a pool.
pub struct PoolState<T> {
    /// For each worker, by ordinal, whether it is still in its loop.
    pub running: Seq<bool>,
    /// The pending messages, oldest first.
    pub queue: Seq<Message<T>>,
    /// Whether the shutdown signals have been sent.
    pub closed: bool,
    /// Every task ever submitted, in submission order.
    pub submitted: Seq<T>,
    /// Every task ever handed to a worker, in the order of the hand-overs.
    pub dispatched: Seq<T>,
}

/// The number of `true` entries.
pub open spec fn count_running(running: Seq<bool>) -> nat
    decreases running.len(),
{
    if running.len() == 0 {
        0
    } else {
        count_running(running.drop_last()) + (if running.last() {
            1nat
        } else {
            0nat
        })
    }
}

/// `count` shutdown signals.
pub open spec fn shutdown_signals<T>(count: nat) -> Seq<Message<T>> {
    Seq::new(count, |i: int| Message::Shutdown)
}

impl<T> PoolState<T> {
    /// The state of a pool of `count` workers that has just been built.
    pub open spec fn init(count: nat) -> Self {
        PoolState {
            running: Seq::new(count, |i: int| true),
            queue: Seq::empty(),
            closed: false,
            submitted: Seq::empty(),
            dispatched: Seq::empty(),
        }
    }

    /// The number of workers, running or stopped.
    pub open spec fn worker_count(self) -> nat {
        self.running.len()
    }

    /// Whether `worker` names a worker that is still in its loop.
    pub open spec fn is_running(self, worker: int) -> bool {
        0 <= worker < self.running.len() && self.running[worker]
    }

    /// Whether every worker has left its loop.
    pub open spec fn is_finished(self) -> bool {
        forall|worker: int| 0 <= worker < self.running.len() ==> !self.running[worker]
    }

    /// The tasks that are queued and not yet handed to a worker.
    pub open spec fn pending(self) -> Seq<T> {
        tasks_of(self.queue)
    }

    /// The state after `task` has been submitted.
    pub open spec fn submit(self, task: T) -> Self {
        PoolState {
            queue: self.queue.push(Message::Work(task)),
            submitted: self.submitted.push(task),
            ..self
        }
    }

    /// The state after one shutdown signal per worker has been sent.
    pub open spec fn shutdown(self) -> Self {
        PoolState {
            queue: self.queue + shutdown_signals(self.running.len()),
            closed: true,
            ..self
        }
    }

    /// Whether `worker` can take a message now: it runs and one is pending.
    pub open spec fn can_receive(self, worker: int) -> bool {
        self.is_running(worker) && self.queue.len() > 0
    }

    /// The state after `worker` has taken the oldest message.
    pub open spec fn receive(self, worker: int) -> Self
        recommends
            self.can_receive(worker),
    {
        match self.queue.first() {
            Message::Work(task) => PoolState {
                queue: self.queue.drop_first(),
                dispatched: self.dispatched.push(task),
                ..self
            },
            Message::Shutdown => PoolState {
                queue: self.queue.drop_first(),
                running: self.running.update(worker, false),
                ..self
            },
        }
    }

    /// What holds of every state that a pool can reach.
    ///
    /// Every submitted task has been handed out or is still queued, in
    /// submission order. While the pool is open all workers run and no signal
    /// is queued. Once it is closed, the queue holds one signal per running
    /// worker behind all tasks, and no task after a worker has stopped.
    pub open spec fn inv(self) -> bool {
        &&& self.running.len() >= 1
        &&& self.submitted == self.dispatched + tasks_of(self.queue)
        &&& work_first(self.queue)
        &&& shutdowns_in(self.queue) == (if self.closed {
            count_running(self.running)
        } else {
            0
        })
        &&& !self.closed ==> count_running(self.running) == self.running.len()
        &&& count_running(self.running) < self.running.len() ==> tasks_of(self.queue).len() == 0
    }
}


/// No more entries are `true` than there are entries.
pub proof fn lemma_count_running_bound(running: Seq<bool>)
    ensures
        count_running(running) <= running.len(),
        count_running(running) == running.len() <==> (forall|i: int|
            0 <= i < running.len() ==> running[i]),
        count_running(running) == 0 <==> (forall|i: int| 0 <= i < running.len() ==> !running[i]),
    decreases running.len(),
{
    if running.len() > 0 {
        let front = running.drop_last();
        lemma_count_running_bound(front);
        assert(forall|i: int| 0 <= i < front.len() ==> front[i] == running[i]);
        if forall|i: int| 0 <= i < running.len() ==> running[i] {
            assert(running.last());
        }
        if forall|i: int| 0 <= i < running.len() ==> !running[i] {
            assert(!running.last());
        }
    }
}

/// Stopping one running worker lowers the count by one.
pub proof fn lemma_count_running_stop(running: Seq<bool>, worker: int)
    requires
        0 <= worker < running.len(),
        running[worker],
    ensures
        count_running(running.update(worker, false)) + 1 == count_running(running),
    decreases running.len(),
{
    let after = running.update(worker, false);
    if worker == running.len() - 1 {
        assert(after.drop_last() == running.drop_last());
    } else {
        lemma_count_running_stop(running.drop_last(), worker);
        assert(after.drop_last() == running.drop_last().update(worker, false));
    }
}

/// The signals sent at shutdown carry no task and count one each; behind a
/// queue in which tasks come first, tasks still come first.
pub proof fn lemma_append_signals<T>(queue: Seq<Message<T>>, count: nat)
    ensures
        tasks_of(queue + shutdown_signals::<T>(count)) == tasks_of(queue),
        shutdowns_in(queue + shutdown_signals::<T>(count)) == shutdowns_in(queue) + count,
        work_first(queue) ==> work_first(queue + shutdown_signals::<T>(count)),
    decreases count,
{
    let signals = shutdown_signals::<T>(count);
    if count == 0 {
        assert(queue + signals == queue);
    } else {
        let fewer = shutdown_signals::<T>((count - 1) as nat);
        lemma_append_signals(queue, (count - 1) as nat);
        assert(queue + signals == (queue + fewer).push(Message::Shutdown));
        lemma_push_message(queue + fewer, Message::Shutdown);
    }
}

/// A queue of signals alone carries no task.
pub proof fn lemma_only_signals<T>(queue: Seq<Message<T>>)
    requires
        forall|i: int| 0 <= i < queue.len() ==> queue[i] is Shutdown,
    ensures
        tasks_of(queue).len() == 0,
        shutdowns_in(queue) == queue.len(),
    decreases queue.len(),
{
    if queue.len() > 0 {
        lemma_only_signals(queue.drop_last());
    }
}

/// A queue without signals holds tasks only.
pub proof fn lemma_no_signal<T>(queue: Seq<Message<T>>, i: int)
    requires
        shutdowns_in(queue) == 0,
        0 <= i < queue.len(),
    ensures
        queue[i] is Work,
    decreases queue.len(),
{
    if i < queue.len() - 1 {
        lemma_no_signal(queue.drop_last(), i);
    }
}

impl<T> PoolState<T> {
    /// A new pool of at least one worker satisfies the invariant.
    pub proof fn lemma_init_inv(count: nat)
        requires
            count >= 1,
        ensures
            Self::init(count).inv(),
    {
        let s = Self::init(count);
        lemma_count_running_bound(s.running);
        assert(s.dispatched + tasks_of(s.queue) == Seq::<T>::empty());
    }

    /// Submitting to an open pool keeps the invariant.
    pub proof fn lemma_submit_inv(self, task: T)
        requires
            self.inv(),
            !self.closed,
        ensures
            self.submit(task).inv(),
    {
        let next = self.submit(task);
        lemma_push_message(self.queue, Message::Work(task));
        assert(next.submitted == next.dispatched + tasks_of(next.queue));
        assert(work_first(next.queue)) by {
            assert forall|i: int, j: int|
                0 <= i < j < next.queue.len() && next.queue[i] is Shutdown implies next.queue[j]
                is Shutdown by {
                lemma_no_signal(self.queue, i);
            }
        }
    }

    /// Shutting an open pool down keeps the invariant.
    pub proof fn lemma_shutdown_inv(self)
        requires
            self.inv(),
            !self.closed,
        ensures
            self.shutdown().inv(),
    {
        lemma_append_signals(self.queue, self.running.len());
    }

    /// A worker that takes a message keeps the invariant.
    pub proof fn lemma_receive_inv(self, worker: int)
        requires
            self.inv(),
            self.can_receive(worker),
        ensures
            self.receive(worker).inv(),
    {
        let next = self.receive(worker);
        let rest = self.queue.drop_first();
        lemma_drop_first_message(self.queue);
        lemma_count_running_bound(self.running);
        assert(work_first(rest)) by {
            assert forall|i: int, j: int|
                0 <= i < j < rest.len() && rest[i] is Shutdown implies rest[j] is Shutdown by {
                assert(rest[i] == self.queue[i + 1]);
                assert(rest[j] == self.queue[j + 1]);
            }
        }
        match self.queue.first() {
            Message::Work(task) => {
                assert(self.dispatched + (seq![task] + tasks_of(rest)) == self.dispatched.push(
                    task,
                ) + tasks_of(rest));
            },
            Message::Shutdown => {
                lemma_count_running_stop(self.running, worker);
                assert forall|i: int| 0 <= i < rest.len() implies rest[i] is Shutdown by {
                    assert(rest[i] == self.queue[i + 1]);
                }
                lemma_only_signals(rest);
            },
        }
    }
}

} // verus!
