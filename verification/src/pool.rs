//! The pool: a fixed set of workers behind one dispatch channel.
use vstd::prelude::*;
use crate::channel::DispatchChannel;
use crate::message::{Action, Message};
use crate::state::{shutdown_signals, PoolState};
use crate::worker::Worker;

verus! {

/// A pool of a fixed number of workers that share one FIFO queue.
///
/// The pool holds the control state only. Whoever drives it runs one thread
/// per worker, lets each call [`ThreadPool::receive`] under mutual exclusion
/// and runs the task that comes back outside of it.
pub struct ThreadPool<T> {
    workers: Vec<Worker>,
    channel: DispatchChannel<T>,
    closed: bool,
    submitted: Ghost<Seq<T>>,
    dispatched: Ghost<Seq<T>>,
}

impl<T> View for ThreadPool<T> {
    type V = PoolState<T>;

    closed spec fn view(&self) -> PoolState<T> {
        PoolState {
            running: Seq::new(self.workers@.len(), |i: int| self.workers@[i].is_running()),
            queue: self.channel@,
            closed: self.closed,
            submitted: self.submitted@,
            dispatched: self.dispatched@,
        }
    }
}

impl<T> ThreadPool<T> {
    /// Whether the pool is in a state that its own operations can produce:
    /// the workers carry their ordinals and the abstract state satisfies
    /// [`PoolState::inv`].
    pub closed spec fn wf(&self) -> bool {
        &&& self@.inv()
        &&& forall|i: int| 0 <= i < self.workers@.len() ==> self.workers@[i].id() == i
    }

    /// A well-formed pool is in a state that satisfies the invariant.
    pub proof fn lemma_wf_inv(&self)
        requires
            self.wf(),
        ensures
            self@.inv(),
    {
    }

    /// A pool of `count` running workers with nothing queued.
    pub fn new(count: usize) -> (pool: Self)
        requires
            count >= 1,
        ensures
            pool.wf(),
            pool@ == PoolState::<T>::init(count as nat),
    {
        let mut workers: Vec<Worker> = Vec::with_capacity(count);
        for id in 0..count
            invariant
                workers@.len() == id,
                forall|i: int| 0 <= i < id ==> workers@[i].id() == i && workers@[i].is_running(),
        {
            let worker = Worker::new(id);
            workers.push(worker);
        }
        let channel = DispatchChannel::new();
        proof {
            let init = PoolState::<T>::init(count as nat);
            PoolState::<T>::lemma_init_inv(count as nat);
            assert(Seq::new(workers@.len(), |i: int| workers@[i].is_running()) == init.running);
        }
        let pool = ThreadPool {
            workers,
            channel,
            closed: false,
            submitted: Ghost(Seq::empty()),
            dispatched: Ghost(Seq::empty()),
        };
        pool
    }

    /// The number of workers, running or stopped.
    pub fn worker_count(&self) -> (count: usize)
        ensures
            count == self@.worker_count(),
    {
        self.workers.len()
    }

    /// Whether `worker` names a worker that is still in its loop.
    pub fn is_running(&self, worker: usize) -> (running: bool)
        ensures
            running == self@.is_running(worker as int),
    {
        worker < self.workers.len() && self.workers[worker].is_running()
    }

    /// Whether the shutdown signals have been sent.
    pub fn is_closed(&self) -> (closed: bool)
        ensures
            closed == self@.closed,
    {
        self.closed
    }

    /// The number of messages that no worker has taken yet.
    pub fn queued(&self) -> (count: usize)
        ensures
            count == self@.queue.len(),
    {
        self.channel.len()
    }

    /// Whether every worker has left its loop, so that none is left to wait
    /// for.
    pub fn is_finished(&self) -> (finished: bool)
        ensures
            finished == self@.is_finished(),
    {
        let count = self.workers.len();
        for worker in 0..count
            invariant
                count == self.workers@.len(),
                forall|i: int| 0 <= i < worker ==> !self@.running[i],
        {
            if self.workers[worker].is_running() {
                assert(self@.running[worker as int]);
                return false;
            }
        }
        true
    }

    /// Queues `f` behind everything submitted before it.
    ///
    /// Returns at once; the task is handed to whichever worker takes it off
    /// the queue.
    pub fn excute(&mut self, f: T)
        requires
            old(self).wf(),
            !old(self)@.closed,
        ensures
            final(self).wf(),
            final(self)@ == old(self)@.submit(f),
    {
        proof {
            self@.lemma_submit_inv(f);
        }
        self.channel.send(Message::Work(f));
        self.submitted = Ghost(self.submitted@.push(f));
    }

    /// Begins teardown: sends one shutdown signal per worker, behind
    /// everything submitted so far, and closes the pool to submissions.
    ///
    /// The signals are addressed to nobody; each worker leaves after taking
    /// one, so every worker gets exactly one.
    pub fn shutdown(&mut self)
        requires
            old(self).wf(),
            !old(self)@.closed,
        ensures
            final(self).wf(),
            final(self)@ == old(self)@.shutdown(),
    {
        let count = self.workers.len();
        for sent in 0..count
            invariant
                count == self.workers@.len(),
                self.workers == old(self).workers,
                self.closed == old(self).closed,
                self.submitted == old(self).submitted,
                self.dispatched == old(self).dispatched,
                self.channel@ == old(self).channel@ + shutdown_signals::<T>(sent as nat),
        {
            self.channel.send(Message::Shutdown);
            assert(self.channel@ == old(self).channel@ + shutdown_signals::<T>((sent + 1) as nat));
        }
        self.closed = true;
        proof {
            old(self)@.lemma_shutdown_inv();
        }
    }

    /// Lets `worker` take the oldest message off the queue.
    ///
    /// `None` means that nothing is queued: the worker has to wait until
    /// something is sent. A task comes back as [`Action::Run`], to be run
    /// once the caller has let go of the pool. A shutdown signal stops the
    /// worker and comes back as [`Action::Exit`].
    pub fn receive(&mut self, worker: usize) -> (action: Option<Action<T>>)
        requires
            old(self).wf(),
            old(self)@.is_running(worker as int),
        ensures
            final(self).wf(),
            old(self)@.queue.len() == 0 ==> action.is_none() && final(self)@ == old(self)@,
            old(self)@.queue.len() > 0 ==> action == Some(old(self)@.queue.first().action())
                && final(self)@ == old(self)@.receive(worker as int),
    {
        match self.channel.receive() {
            None => None,
            Some(message) => {
                proof {
                    old(self)@.lemma_receive_inv(worker as int);
                }
                let ghost task_or_none = message;
                let action = self.workers[worker].step(message);
                proof {
                    match task_or_none {
                        Message::Work(task) => {
                            self.dispatched@ = self.dispatched@.push(task);
                        },
                        Message::Shutdown => {},
                    }
                }
                assert(self@.running == old(self)@.receive(worker as int).running);
                Some(action)
            },
        }
    }
}

} // verus!
