//! Histories of a pool: sequences of events, however the submitters and the
//! workers interleave, and what holds at the end of every one of them.
use vstd::prelude::*;
use crate::message::{lemma_message_counts, tasks_of};
use crate::state::{lemma_count_running_bound, PoolState};

verus! {

/// One atomic step of a pool.
pub enum Event<T> {
    /// Some caller submits a task.
    Submit(T),
    /// The owner begins teardown.
    Shutdown,
    /// The worker with this ordinal takes the oldest message.
    Receive(int),
}

/// The tasks submitted in the course of `trace`, in order.
pub open spec fn submissions<T>(trace: Seq<Event<T>>) -> Seq<T>
    decreases trace.len(),
{
    if trace.len() == 0 {
        Seq::empty()
    } else {
        let earlier = submissions(trace.drop_last());
        match trace.last() {
            Event::Submit(task) => earlier.push(task),
            _ => earlier,
        }
    }
}

impl<T> PoolState<T> {
    /// Whether `event` can happen in this state.
    pub open spec fn enabled(self, event: Event<T>) -> bool {
        match event {
            Event::Submit(_) => !self.closed,
            Event::Shutdown => !self.closed,
            Event::Receive(worker) => self.can_receive(worker),
        }
    }

    /// The state after `event`.
    pub open spec fn step(self, event: Event<T>) -> Self {
        match event {
            Event::Submit(task) => self.submit(task),
            Event::Shutdown => self.shutdown(),
            Event::Receive(worker) => self.receive(worker),
        }
    }

    /// The state after the events of `trace`, one after the other.
    pub open spec fn run(self, trace: Seq<Event<T>>) -> Self
        decreases trace.len(),
    {
        if trace.len() == 0 {
            self
        } else {
            self.run(trace.drop_last()).step(trace.last())
        }
    }

    /// Whether each event of `trace` can happen in the state that the events
    /// before it lead to.
    pub open spec fn admits(self, trace: Seq<Event<T>>) -> bool
        decreases trace.len(),
    {
        trace.len() == 0 || (self.admits(trace.drop_last()) && self.run(
            trace.drop_last(),
        ).enabled(trace.last()))
    }

    /// The invariant holds after every history that starts in a state where
    /// it holds, and the tasks submitted on the way are appended, in order, to
    /// those submitted before.
    pub proof fn lemma_run_inv(self, trace: Seq<Event<T>>)
        requires
            self.inv(),
            self.admits(trace),
        ensures
            self.run(trace).inv(),
            self.run(trace).submitted == self.submitted + submissions(trace),
            self.run(trace).running.len() == self.running.len(),
        decreases trace.len(),
    {
        if trace.len() == 0 {
            assert(self.submitted + submissions(trace) == self.submitted);
        } else {
            let before = self.run(trace.drop_last());
            self.lemma_run_inv(trace.drop_last());
            let earlier = submissions(trace.drop_last());
            match trace.last() {
                Event::Submit(task) => {
                    before.lemma_submit_inv(task);
                    assert((self.submitted + earlier).push(task) == self.submitted + earlier.push(
                        task,
                    ));
                },
                Event::Shutdown => {
                    before.lemma_shutdown_inv();
                },
                Event::Receive(worker) => {
                    before.lemma_receive_inv(worker);
                },
            }
        }
    }

    /// Once the pool is closed no worker is left waiting: while any worker
    /// runs, a message is queued for it, and the queue is empty exactly when
    /// every worker has stopped.
    pub proof fn lemma_closed_progress(self)
        requires
            self.inv(),
            self.closed,
        ensures
            forall|worker: int| self.is_running(worker) ==> self.can_receive(worker),
            self.is_finished() <==> self.queue.len() == 0,
    {
        lemma_count_running_bound(self.running);
        lemma_message_counts(self.queue);
    }

    /// After teardown has begun every step takes one message off the queue,
    /// so no history is longer than the queue was.
    pub proof fn lemma_closed_run(self, trace: Seq<Event<T>>)
        requires
            self.inv(),
            self.closed,
            self.admits(trace),
        ensures
            self.run(trace).closed,
            self.run(trace).queue.len() + trace.len() == self.queue.len(),
            submissions(trace).len() == 0,
        decreases trace.len(),
    {
        if trace.len() > 0 {
            self.lemma_closed_run(trace.drop_last());
        }
    }

    /// When every worker has stopped, teardown has begun, nothing is queued
    /// and every task that was submitted has been handed to a worker.
    pub proof fn lemma_finished_drained(self)
        requires
            self.inv(),
            self.is_finished(),
        ensures
            self.closed,
            self.queue.len() == 0,
            self.dispatched == self.submitted,
    {
        lemma_count_running_bound(self.running);
        lemma_message_counts(self.queue);
        assert(self.dispatched + tasks_of(self.queue) == self.dispatched);
    }
}

/// A pool that is built and torn down at once, with nothing submitted,
/// comes to an end: its workers take `count` steps at most, none of them is
/// ever left without a message while it runs, nothing is handed out, and
/// after `count` steps all of them have stopped.
pub proof fn lemma_idle_teardown_terminates<T>(count: nat, trace: Seq<Event<T>>)
    requires
        count >= 1,
        PoolState::<T>::init(count).shutdown().admits(trace),
    ensures
        trace.len() <= count,
        ({
            let end = PoolState::<T>::init(count).shutdown().run(trace);
            &&& end.is_finished() <==> trace.len() == count
            &&& forall|worker: int| end.is_running(worker) ==> end.can_receive(worker)
            &&& end.dispatched.len() == 0
        }),
{
    let open = PoolState::<T>::init(count);
    let start = open.shutdown();
    PoolState::<T>::lemma_init_inv(count);
    open.lemma_shutdown_inv();
    start.lemma_closed_run(trace);
    start.lemma_run_inv(trace);
    let end = start.run(trace);
    end.lemma_closed_progress();
    assert(start.submitted + submissions(trace) == Seq::<T>::empty());
    assert(end.submitted == end.dispatched + tasks_of(end.queue));
}

/// Each submitted task is handed to a worker exactly once: at every moment
/// of every history the tasks handed out so far, followed by the tasks still
/// queued, are the tasks submitted so far, one for one.
pub proof fn lemma_each_task_once<T>(count: nat, trace: Seq<Event<T>>)
    requires
        count >= 1,
        PoolState::<T>::init(count).admits(trace),
    ensures
        ({
            let end = PoolState::<T>::init(count).run(trace);
            end.dispatched + end.pending() == submissions(trace)
        }),
{
    let start = PoolState::<T>::init(count);
    PoolState::<T>::lemma_init_inv(count);
    start.lemma_run_inv(trace);
    assert(start.submitted + submissions(trace) == submissions(trace));
}

/// Tasks leave the queue in the order in which they were submitted: the
/// tasks handed out so far are the first so many of the submitted ones, so
/// none is handed out before one that was submitted earlier.
pub proof fn lemma_dispatch_is_fifo<T>(count: nat, trace: Seq<Event<T>>)
    requires
        count >= 1,
        PoolState::<T>::init(count).admits(trace),
    ensures
        ({
            let end = PoolState::<T>::init(count).run(trace);
            &&& end.dispatched.len() <= submissions(trace).len()
            &&& end.dispatched == submissions(trace).take(end.dispatched.len() as int)
        }),
{
    let end = PoolState::<T>::init(count).run(trace);
    lemma_each_task_once(count, trace);
    assert((end.dispatched + end.pending()).take(end.dispatched.len() as int) == end.dispatched);
}

/// Teardown is graceful: when all workers have stopped, every task that was
/// submitted before has been handed to a worker, and nothing is left queued.
pub proof fn lemma_teardown_drains<T>(count: nat, trace: Seq<Event<T>>)
    requires
        count >= 1,
        PoolState::<T>::init(count).admits(trace),
        PoolState::<T>::init(count).run(trace).is_finished(),
    ensures
        ({
            let end = PoolState::<T>::init(count).run(trace);
            &&& end.dispatched == submissions(trace)
            &&& end.queue.len() == 0
        }),
{
    let start = PoolState::<T>::init(count);
    PoolState::<T>::lemma_init_inv(count);
    start.lemma_run_inv(trace);
    start.run(trace).lemma_finished_drained();
    assert(start.submitted + submissions(trace) == submissions(trace));
}

} // verus!
