//! The dispatch channel: an unbounded first-in, first-out queue of messages.
use std::collections::VecDeque;
use vstd::prelude::*;
use crate::message::Message;

verus! {

/// Unbounded FIFO queue of messages between submitters and workers.
///
/// Its view is the sequence of pending messages, oldest first.
pub struct DispatchChannel<T> {
    queue: VecDeque<Message<T>>,
}

impl<T> View for DispatchChannel<T> {
    type V = Seq<Message<T>>;

    closed spec fn view(&self) -> Seq<Message<T>> {
        self.queue@
    }
}

impl<T> DispatchChannel<T> {
    /// An empty channel.
    pub fn new() -> (channel: Self)
        ensures
            channel@ == Seq::<Message<T>>::empty(),
    {
        DispatchChannel { queue: VecDeque::new() }
    }

    /// Number of pending messages.
    pub fn len(&self) -> (n: usize)
        ensures
            n == self@.len(),
    {
        self.queue.len()
    }

    /// Whether no message is pending.
    pub fn is_empty(&self) -> (empty: bool)
        ensures
            empty == (self@.len() == 0),
    {
        self.queue.len() == 0
    }

    /// Appends a message behind every message sent before it.
    pub fn send(&mut self, message: Message<T>)
        ensures
            final(self)@ == old(self)@.push(message),
    {
        self.queue.push_back(message);
    }

    /// Removes and returns the oldest pending message, or `None` when the
    /// channel holds nothing.
    pub fn receive(&mut self) -> (message: Option<Message<T>>)
        ensures
            old(self)@.len() == 0 ==> message.is_none() && final(self)@ == old(self)@,
            old(self)@.len() > 0 ==> message == Some(old(self)@.first()) && final(self)@
                == old(self)@.drop_first(),
    {
        self.queue.pop_front()
    }
}

} // verus!
