use crate::queue::{JobQueue, Message, QueueView, Received};
use vstd::prelude::*;

verus! {

/// Where a worker stands in its loop.
#[derive(Clone, Copy, Debug, PartialEq, Eq, Structural)]
pub enum WorkerState {
    /// Waiting for its next message.
    Idle,
    /// Running a job it took from the queue.
    Executing,
    /// Out of its loop after a `Terminate`, or after it found the queue
    /// disconnected. Final.
    Stopped,
    /// Lost: a job failed under it, or it could not get at the queue. Final.
    Failed,
}

/// Whether the handle of a worker's thread is still to be joined.
#[derive(Clone, Copy, Debug, PartialEq, Eq, Structural)]
pub enum ThreadSlot {
    /// The handle is held; nobody has joined the thread.
    Running,
    /// The handle was taken to be joined. Final.
    Joined,
}

/// What a worker's thread has to do after a step of its loop.
#[derive(Debug, PartialEq, Eq)]
pub enum Action<J> {
    /// Run this job, outside any exclusive access to the queue, and report
    /// how it ended.
    Run(J),
    /// Nothing to do yet: ask again when something may have arrived.
    Wait,
    /// Leave the loop.
    Exit,
}

/// One worker of a pool: its identity, its place in its loop and the state
/// of its thread handle.
#[derive(Clone, Copy, Debug, PartialEq, Eq, Structural)]
pub struct Worker {
    pub id: usize,
    pub state: WorkerState,
    pub thread: ThreadSlot,
}

/// The test for a live worker.
pub open spec fn live() -> spec_fn(Worker) -> bool {
    |w: Worker| w.is_live()
}

/// The test for a worker that runs a job.
pub open spec fn executing() -> spec_fn(Worker) -> bool {
    |w: Worker| w.state == WorkerState::Executing
}

impl Worker {
    /// The worker still takes messages or runs a job.
    pub open spec fn is_live(self) -> bool {
        self.state == WorkerState::Idle || self.state == WorkerState::Executing
    }

    /// The worker `id` as it is created.
    pub open spec fn fresh(id: usize) -> Worker {
        Worker { id, state: WorkerState::Idle, thread: ThreadSlot::Running }
    }

    /// What one step of the loop tells the thread to do, given the queue
    /// before the step.
    pub open spec fn step_action<J>(self, queue: QueueView<J>) -> Action<J> {
        match self.state {
            WorkerState::Idle => match queue.front() {
                Received::Delivered(Message::NewJob(job)) => Action::Run(job),
                Received::Delivered(Message::Terminate) => Action::Exit,
                Received::Empty => Action::Wait,
                Received::Disconnected => Action::Exit,
            },
            WorkerState::Executing => Action::Wait,
            WorkerState::Stopped => Action::Exit,
            WorkerState::Failed => Action::Exit,
        }
    }

    /// The worker after one step of its loop.
    pub open spec fn step_worker<J>(self, queue: QueueView<J>) -> Worker {
        match self.state {
            WorkerState::Idle => match queue.front() {
                Received::Delivered(Message::NewJob(_)) => Worker {
                    state: WorkerState::Executing,
                    ..self
                },
                Received::Delivered(Message::Terminate) => Worker {
                    state: WorkerState::Stopped,
                    ..self
                },
                Received::Empty => self,
                Received::Disconnected => Worker { state: WorkerState::Stopped, ..self },
            },
            _ => self,
        }
    }

    /// The queue after one step of the worker's loop: an idle worker takes
    /// the oldest message, and gives up its receiver if it stops.
    pub open spec fn step_queue<J>(self, queue: QueueView<J>) -> QueueView<J> {
        if self.state == WorkerState::Idle {
            if self.step_worker(queue).state == WorkerState::Stopped {
                queue.receive().detach_receiver()
            } else {
                queue.receive()
            }
        } else {
            queue
        }
    }

    /// The worker after the job it was running has returned.
    pub open spec fn finish_worker(self) -> Worker {
        if self.state == WorkerState::Executing {
            Worker { state: WorkerState::Idle, ..self }
        } else {
            self
        }
    }

    /// The worker after a failure that ends its thread.
    pub open spec fn fail_worker(self) -> Worker {
        if self.is_live() {
            Worker { state: WorkerState::Failed, ..self }
        } else {
            self
        }
    }

    /// The queue after the worker has failed: a live worker gives up its
    /// receiver.
    pub open spec fn fail_queue<J>(self, queue: QueueView<J>) -> QueueView<J> {
        if self.is_live() {
            queue.detach_receiver()
        } else {
            queue
        }
    }

    /// The worker after its thread handle was asked for.
    pub open spec fn take_worker(self) -> Worker {
        Worker { thread: ThreadSlot::Joined, ..self }
    }

    /// Creates worker `id`, idle, and attaches it to the receiving half of
    /// `queue`.
    pub fn new<J>(id: usize, queue: &mut JobQueue<J>) -> (worker: Worker)
        requires
            old(queue)@.receivers < usize::MAX,
        ensures
            worker == Worker::fresh(id),
            final(queue)@ == old(queue)@.attach_receiver(),
    {
        queue.attach_receiver();
        Worker { id, state: WorkerState::Idle, thread: ThreadSlot::Running }
    }

    /// One step of the worker's loop. An idle worker takes the oldest
    /// message: a job makes it busy and is handed out to be run, `Terminate`
    /// or a disconnected queue stops it, an empty queue leaves it waiting. A
    /// worker that is not idle takes nothing.
    pub fn step<J>(&mut self, queue: &mut JobQueue<J>) -> (action: Action<J>)
        ensures
            action == old(self).step_action(old(queue)@),
            *final(self) == old(self).step_worker(old(queue)@),
            final(queue)@ == old(self).step_queue(old(queue)@),
    {
        match self.state {
            WorkerState::Idle => match queue.receive() {
                Received::Delivered(Message::NewJob(job)) => {
                    self.state = WorkerState::Executing;
                    Action::Run(job)
                },
                Received::Delivered(Message::Terminate) => {
                    self.state = WorkerState::Stopped;
                    queue.detach_receiver();
                    Action::Exit
                },
                Received::Empty => Action::Wait,
                Received::Disconnected => {
                    self.state = WorkerState::Stopped;
                    queue.detach_receiver();
                    Action::Exit
                },
            },
            WorkerState::Executing => Action::Wait,
            WorkerState::Stopped => Action::Exit,
            WorkerState::Failed => Action::Exit,
        }
    }

    /// Records that the job the worker was running has returned: the worker
    /// is idle again. Any other worker is left as it is.
    pub fn finish(&mut self)
        ensures
            *final(self) == old(self).finish_worker(),
    {
        match self.state {
            WorkerState::Executing => {
                self.state = WorkerState::Idle;
            },
            _ => {},
        }
    }

    /// Records a failure that ends the worker's thread: a job that failed
    /// under it, or the exclusive access to the queue that it could not get.
    /// A live worker is lost and gives up its receiver; it is not replaced.
    pub fn fail<J>(&mut self, queue: &mut JobQueue<J>)
        ensures
            *final(self) == old(self).fail_worker(),
            final(queue)@ == old(self).fail_queue(old(queue)@),
    {
        match self.state {
            WorkerState::Idle | WorkerState::Executing => {
                self.state = WorkerState::Failed;
                queue.detach_receiver();
            },
            _ => {},
        }
    }

    /// Asks for the worker's thread handle, to join it. The answer is `true`
    /// once: later calls find the handle taken and change nothing.
    pub fn take_thread(&mut self) -> (due: bool)
        ensures
            due == (old(self).thread == ThreadSlot::Running),
            *final(self) == old(self).take_worker(),
    {
        match self.thread {
            ThreadSlot::Running => {
                self.thread = ThreadSlot::Joined;
                true
            },
            ThreadSlot::Joined => false,
        }
    }
}

} // verus!
