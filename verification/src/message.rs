//! Messages carried by the dispatch queue and the actions they ask of a worker.
use vstd::prelude::*;

verus! {

/// One entry of the dispatch queue: a unit of work, or the signal that tells
/// exactly one worker to leave its loop.
pub enum Message<T> {
    /// A task, to be run once by the worker that takes the message.
    Work(T),
    /// The worker that takes the message stops.
    Shutdown,
}

/// What a worker has to do once it has taken a message off the queue.
pub enum Action<T> {
    /// Run the task, then come back for the next message.
    Run(T),
    /// Leave the loop; the worker's thread ends.
    Exit,
}

impl<T> Message<T> {
    /// Whether this message carries a task.
    pub open spec fn is_work(self) -> bool {
        self is Work
    }

    /// The action that a message asks of the worker that dequeued it.
    pub open spec fn action(self) -> Action<T> {
        match self {
            Message::Work(task) => Action::Run(task),
            Message::Shutdown => Action::Exit,
        }
    }

    /// Turns a dequeued message into the action it asks for.
    pub fn into_action(self) -> (action: Action<T>)
        ensures
            action == self.action(),
    {
        match self {
            Message::Work(task) => Action::Run(task),
            Message::Shutdown => Action::Exit,
        }
    }
}

impl<T: FnOnce()> Action<T> {
    /// Carries the action out: runs the task, if there is one, exactly once.
    ///
    /// Returns whether the worker goes on to its next message.
    pub fn perform(self) -> (proceed: bool)
        requires
            self matches Action::Run(task) ==> call_requires(task, ()),
        ensures
            proceed == (self is Run),
            self matches Action::Run(task) ==> call_ensures(task, (), ()),
    {
        match self {
            Action::Run(task) => {
                task();
                true
            },
            Action::Exit => false,
        }
    }
}

/// The tasks that a sequence of messages carries, in the order of the messages.
pub open spec fn tasks_of<T>(messages: Seq<Message<T>>) -> Seq<T>
    decreases messages.len(),
{
    if messages.len() == 0 {
        Seq::empty()
    } else {
        let earlier = tasks_of(messages.drop_last());
        match messages.last() {
            Message::Work(task) => earlier.push(task),
            Message::Shutdown => earlier,
        }
    }
}

/// The number of shutdown signals in a sequence of messages.
pub open spec fn shutdowns_in<T>(messages: Seq<Message<T>>) -> nat
    decreases messages.len(),
{
    if messages.len() == 0 {
        0
    } else {
        let earlier = shutdowns_in(messages.drop_last());
        match messages.last() {
            Message::Work(_) => earlier,
            Message::Shutdown => earlier + 1,
        }
    }
}

/// Whether every task in the sequence stands before every shutdown signal.
pub open spec fn work_first<T>(messages: Seq<Message<T>>) -> bool {
    forall|i: int, j: int|
        0 <= i < j < messages.len() && messages[i] is Shutdown ==> messages[j] is Shutdown
}

/// Appending a message appends its task, or counts its signal.
pub proof fn lemma_push_message<T>(messages: Seq<Message<T>>, message: Message<T>)
    ensures
        tasks_of(messages.push(message)) == match message {
            Message::Work(task) => tasks_of(messages).push(task),
            Message::Shutdown => tasks_of(messages),
        },
        shutdowns_in(messages.push(message)) == shutdowns_in(messages) + (if message is Shutdown {
            1nat
        } else {
            0nat
        }),
{
    assert(messages.push(message).drop_last() == messages);
}

/// Taking the oldest message takes the oldest task, or one signal.
pub proof fn lemma_drop_first_message<T>(messages: Seq<Message<T>>)
    requires
        messages.len() > 0,
    ensures
        tasks_of(messages) == match messages.first() {
            Message::Work(task) => seq![task] + tasks_of(messages.drop_first()),
            Message::Shutdown => tasks_of(messages.drop_first()),
        },
        shutdowns_in(messages) == shutdowns_in(messages.drop_first()) + (if messages.first()
            is Shutdown {
            1nat
        } else {
            0nat
        }),
    decreases messages.len(),
{
    if messages.len() == 1 {
        assert(messages.drop_last() == Seq::<Message<T>>::empty());
        assert(messages.drop_first() == Seq::<Message<T>>::empty());
        assert(messages.last() == messages.first());
        assert(tasks_of(messages.drop_first()) == Seq::<T>::empty());
        match messages.first() {
            Message::Work(task) => {
                assert(Seq::<T>::empty().push(task) == seq![task] + Seq::<T>::empty());
            },
            Message::Shutdown => {},
        }
    } else {
        let front = messages.drop_last();
        lemma_drop_first_message(front);
        assert(front.first() == messages.first());
        assert(front.drop_first() == messages.drop_first().drop_last());
        assert(messages.drop_first().last() == messages.last());
        match messages.first() {
            Message::Work(task) => {
                let rest = tasks_of(front.drop_first());
                match messages.last() {
                    Message::Work(last) => {
                        assert((seq![task] + rest).push(last) == seq![task] + rest.push(last));
                    },
                    Message::Shutdown => {},
                }
            },
            Message::Shutdown => {},
        }
    }
}

/// A sequence carries no more tasks and signals than it has messages.
pub proof fn lemma_message_counts<T>(messages: Seq<Message<T>>)
    ensures
        tasks_of(messages).len() + shutdowns_in(messages) == messages.len(),
    decreases messages.len(),
{
    if messages.len() > 0 {
        lemma_message_counts(messages.drop_last());
    }
}

} // verus!
