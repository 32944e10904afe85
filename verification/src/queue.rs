use std::collections::VecDeque;
use vstd::prelude::*;

verus! {

/// What travels through the queue: a unit of work, or the order to stop.
#[derive(Debug, PartialEq, Eq)]
pub enum Message<J> {
    /// A job that exactly one worker will run.
    NewJob(J),
    /// The poison pill: the worker that takes it leaves its loop.
    Terminate,
}

/// What a worker finds when it asks the queue for its next message.
#[derive(Debug, PartialEq, Eq)]
pub enum Received<J> {
    /// The oldest pending message, which has left the queue.
    Delivered(Message<J>),
    /// Nothing is pending, but the sending half is alive: the worker waits.
    Empty,
    /// Nothing will ever arrive: no message is pending and the sending half
    /// is gone, or the receiving half itself is gone.
    Disconnected,
}

/// The test for the poison pill.
pub open spec fn terminate<J>() -> spec_fn(Message<J>) -> bool {
    |m: Message<J>| m is Terminate
}

/// The jobs among the pending messages, oldest first.
pub open spec fn jobs<J>(pending: Seq<Message<J>>) -> Seq<J>
    decreases pending.len(),
{
    if pending.len() == 0 {
        Seq::empty()
    } else {
        match pending.last() {
            Message::NewJob(job) => jobs(pending.drop_last()).push(job),
            Message::Terminate => jobs(pending.drop_last()),
        }
    }
}

/// The mathematical content of a [`JobQueue`].
pub struct QueueView<J> {
    /// The pending messages, oldest first.
    pub pending: Seq<Message<J>>,
    /// Whether the sending half still exists.
    pub sender_alive: bool,
    /// How many handles on the receiving half exist.
    pub receivers: nat,
}

impl<J> QueueView<J> {
    /// The queue as it is created: empty, with its sending half and no
    /// receiver.
    pub open spec fn fresh() -> Self {
        QueueView { pending: Seq::empty(), sender_alive: true, receivers: 0 }
    }

    /// The queue with one more receiver.
    pub open spec fn attach_receiver(self) -> Self {
        QueueView { receivers: self.receivers + 1, ..self }
    }

    /// The queue with one receiver less, if it had any.
    pub open spec fn detach_receiver(self) -> Self {
        if self.receivers > 0 {
            QueueView { receivers: (self.receivers - 1) as nat, ..self }
        } else {
            self
        }
    }

    /// The queue without its sending half.
    pub open spec fn drop_sender(self) -> Self {
        QueueView { sender_alive: false, ..self }
    }

    /// A message can be sent: both halves exist.
    pub open spec fn accepts(self) -> bool {
        self.sender_alive && self.receivers > 0
    }

    /// The queue after an attempt to send `message`.
    pub open spec fn send(self, message: Message<J>) -> Self {
        if self.accepts() {
            QueueView { pending: self.pending.push(message), ..self }
        } else {
            self
        }
    }

    /// What the next call of `receive` hands out.
    pub open spec fn front(self) -> Received<J> {
        if self.receivers == 0 {
            Received::Disconnected
        } else if self.pending.len() > 0 {
            Received::Delivered(self.pending[0])
        } else if self.sender_alive {
            Received::Empty
        } else {
            Received::Disconnected
        }
    }

    /// The queue after a call of `receive`.
    pub open spec fn receive(self) -> Self {
        if self.front() is Delivered {
            QueueView { pending: self.pending.drop_first(), ..self }
        } else {
            self
        }
    }
}

/// An unbounded first-in, first-out queue of messages with a sending half
/// and a counted receiving half.
pub struct JobQueue<J> {
    pending: VecDeque<Message<J>>,
    sender_alive: bool,
    receivers: usize,
}

impl<J> View for JobQueue<J> {
    type V = QueueView<J>;

    closed spec fn view(&self) -> QueueView<J> {
        QueueView {
            pending: self.pending@,
            sender_alive: self.sender_alive,
            receivers: self.receivers as nat,
        }
    }
}

impl<J> JobQueue<J> {
    /// An empty queue with its sending half, to which no receiver is
    /// attached yet.
    pub fn new() -> (queue: Self)
        ensures
            queue@ == QueueView::<J>::fresh(),
    {
        JobQueue { pending: VecDeque::new(), sender_alive: true, receivers: 0 }
    }

    /// Attaches one more handle on the receiving half.
    pub fn attach_receiver(&mut self)
        requires
            old(self)@.receivers < usize::MAX,
        ensures
            final(self)@ == old(self)@.attach_receiver(),
    {
        self.receivers = self.receivers + 1;
    }

    /// Releases one handle on the receiving half. With the last one the
    /// receiving half is gone.
    pub fn detach_receiver(&mut self)
        ensures
            final(self)@ == old(self)@.detach_receiver(),
    {
        if self.receivers > 0 {
            self.receivers = self.receivers - 1;
        }
    }

    /// Gives up the sending half: nothing can be sent from now on.
    pub fn drop_sender(&mut self)
        ensures
            final(self)@ == old(self)@.drop_sender(),
    {
        self.sender_alive = false;
    }

    /// The number of handles on the receiving half.
    pub fn receivers(&self) -> (n: usize)
        ensures
            n == self@.receivers,
    {
        self.receivers
    }

    /// Whether a message that is sent now is accepted.
    pub fn accepts(&self) -> (open: bool)
        ensures
            open == self@.accepts(),
    {
        self.sender_alive && self.receivers > 0
    }

    /// The number of pending messages.
    pub fn len(&self) -> (n: usize)
        ensures
            n == self@.pending.len(),
    {
        self.pending.len()
    }

    /// Enqueues `message` behind all pending ones. The message comes back
    /// as the error when one of the two halves is gone.
    pub fn send(&mut self, message: Message<J>) -> (sent: Result<(), Message<J>>)
        ensures
            final(self)@ == old(self)@.send(message),
            sent == if old(self)@.accepts() { Ok::<(), Message<J>>(()) } else { Err(message) },
    {
        if self.sender_alive && self.receivers > 0 {
            self.pending.push_back(message);
            Ok(())
        } else {
            Err(message)
        }
    }

    /// Takes the oldest pending message out of the queue.
    pub fn receive(&mut self) -> (received: Received<J>)
        ensures
            final(self)@ == old(self)@.receive(),
            received == old(self)@.front(),
    {
        if self.receivers == 0 {
            return Received::Disconnected;
        }
        match self.pending.pop_front() {
            Some(message) => Received::Delivered(message),
            None => if self.sender_alive {
                Received::Empty
            } else {
                Received::Disconnected
            },
        }
    }
}

} // verus!
