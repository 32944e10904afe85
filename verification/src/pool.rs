use crate::counting::count;
use crate::queue::{terminate, JobQueue, Message, QueueView};
use crate::schedule::{lemma_fresh_pool, lemma_step_keeps_wf, Step};
use crate::worker::{executing, live, Action, ThreadSlot, Worker, WorkerState};
use vstd::prelude::*;

verus! {

/// The mathematical content of a [`ThreadPool`]: the queue and the workers,
/// in the order of their identities.
pub struct PoolView<J> {
    pub queue: QueueView<J>,
    pub workers: Seq<Worker>,
}

/// The identities, in order, of the workers whose thread handle is still
/// held: the threads that a teardown has to join.
pub open spec fn held_threads(workers: Seq<Worker>) -> Seq<usize>
    decreases workers.len(),
{
    if workers.len() == 0 {
        Seq::empty()
    } else if workers.last().thread == ThreadSlot::Running {
        held_threads(workers.drop_last()).push(workers.last().id)
    } else {
        held_threads(workers.drop_last())
    }
}

impl<J> PoolView<J> {
    /// A pool of `size` workers right after its creation: worker `i` has
    /// identity `i`, is idle and holds its thread; nothing is pending.
    pub open spec fn fresh(size: nat) -> Self {
        PoolView {
            queue: QueueView { pending: Seq::empty(), sender_alive: true, receivers: size },
            workers: Seq::new(size, |i: int| Worker::fresh(i as usize)),
        }
    }

    /// What holds of a pool in every state that it can reach.
    ///
    /// The workers are numbered by their place and there is at least one.
    /// Each live worker holds one receiver. Until the teardown no
    /// `Terminate` is pending, no worker has stopped and every thread handle
    /// is held. After it every thread handle is taken and a `Terminate` is
    /// pending for each live worker.
    pub open spec fn wf(self) -> bool {
        &&& self.workers.len() > 0
        &&& forall|i: int| 0 <= i < self.workers.len() ==> (#[trigger] self.workers[i]).id == i
        &&& self.queue.receivers == count(self.workers, live())
        &&& self.queue.sender_alive ==> {
            &&& count(self.queue.pending, terminate()) == 0
            &&& forall|i: int|
                0 <= i < self.workers.len() ==> {
                    &&& (#[trigger] self.workers[i]).state != WorkerState::Stopped
                    &&& self.workers[i].thread == ThreadSlot::Running
                }
        }
        &&& !self.queue.sender_alive ==> {
            &&& count(self.queue.pending, terminate()) >= count(self.workers, live())
            &&& forall|i: int|
                0 <= i < self.workers.len() ==> (#[trigger] self.workers[i]).thread
                    == ThreadSlot::Joined
        }
    }

    /// The number of workers.
    pub open spec fn size(self) -> nat {
        self.workers.len()
    }

    /// The pool accepts jobs: it was not torn down and a worker is left to
    /// receive them.
    pub open spec fn accepts(self) -> bool {
        self.queue.accepts()
    }

    /// The pool after `job` was submitted.
    pub open spec fn execute(self, job: J) -> Self {
        PoolView { queue: self.queue.send(Message::NewJob(job)), ..self }
    }

    /// What a step of worker `id` tells its thread to do.
    pub open spec fn step_action(self, id: usize) -> Action<J> {
        if id < self.workers.len() {
            self.workers[id as int].step_action(self.queue)
        } else {
            Action::Exit
        }
    }

    /// The pool after a step of worker `id`.
    pub open spec fn step(self, id: usize) -> Self {
        if id < self.workers.len() {
            PoolView {
                queue: self.workers[id as int].step_queue(self.queue),
                workers: self.workers.update(
                    id as int,
                    self.workers[id as int].step_worker(self.queue),
                ),
            }
        } else {
            self
        }
    }

    /// The pool after the job of worker `id` has returned.
    pub open spec fn finish(self, id: usize) -> Self {
        if id < self.workers.len() {
            PoolView {
                workers: self.workers.update(id as int, self.workers[id as int].finish_worker()),
                ..self
            }
        } else {
            self
        }
    }

    /// The pool after worker `id` has failed.
    pub open spec fn fail(self, id: usize) -> Self {
        if id < self.workers.len() {
            PoolView {
                queue: self.workers[id as int].fail_queue(self.queue),
                workers: self.workers.update(id as int, self.workers[id as int].fail_worker()),
            }
        } else {
            self
        }
    }

    /// One `Terminate` for each of `n` workers.
    pub open spec fn terminates(n: nat) -> Seq<Message<J>> {
        Seq::new(n, |i: int| Message::Terminate)
    }

    /// The pool after its teardown: one `Terminate` per worker is pending
    /// behind everything that was pending before, if a receiver is left to
    /// take them; the sending half is gone; every thread handle is taken.
    pub open spec fn teardown(self) -> Self {
        PoolView {
            queue: QueueView {
                pending: if self.queue.accepts() {
                    self.queue.pending + Self::terminates(self.workers.len())
                } else {
                    self.queue.pending
                },
                sender_alive: false,
                receivers: self.queue.receivers,
            },
            workers: Seq::new(self.workers.len(), |i: int| self.workers[i].take_worker()),
        }
    }
}

/// A fixed set of workers that take jobs from one shared queue.
///
/// The pool holds every decision and all the state of the workers' loops;
/// whoever drives it runs the jobs it hands out and joins the threads it
/// names.
pub struct ThreadPool<J> {
    workers: Vec<Worker>,
    queue: JobQueue<J>,
}

impl<J> View for ThreadPool<J> {
    type V = PoolView<J>;

    closed spec fn view(&self) -> PoolView<J> {
        PoolView { queue: self.queue@, workers: self.workers@ }
    }
}

impl<J> ThreadPool<J> {
    /// Creates a pool of `size` workers, all idle, that share one empty
    /// queue.
    pub fn new(size: usize) -> (pool: Self)
        requires
            size > 0,
        ensures
            pool@ == PoolView::<J>::fresh(size as nat),
            pool@.wf(),
    {
        let mut queue: JobQueue<J> = JobQueue::new();
        let mut workers: Vec<Worker> = Vec::with_capacity(size);
        let mut id: usize = 0;
        while id < size
            invariant
                id <= size,
                workers@.len() == id,
                forall|i: int| 0 <= i < id ==> workers@[i] == Worker::fresh(i as usize),
                queue@ == (QueueView::<J> {
                    pending: Seq::empty(),
                    sender_alive: true,
                    receivers: id as nat,
                }),
            decreases size - id,
        {
            let worker = Worker::new(id, &mut queue);
            workers.push(worker);
            id = id + 1;
        }
        let pool = ThreadPool { workers, queue };
        proof {
            assert(pool@.workers =~= PoolView::<J>::fresh(size as nat).workers);
            lemma_fresh_pool::<J>(size);
        }
        pool
    }

    /// The number of workers, which never changes.
    pub fn size(&self) -> (size: usize)
        ensures
            size == self@.size(),
    {
        self.workers.len()
    }

    /// The number of messages that wait in the queue.
    pub fn pending(&self) -> (pending: usize)
        ensures
            pending == self@.queue.pending.len(),
    {
        self.queue.len()
    }

    /// Whether a job that is submitted now is accepted.
    pub fn accepts(&self) -> (open: bool)
        ensures
            open == self@.accepts(),
    {
        self.queue.accepts()
    }

    /// Worker `id` as it stands, if there is such a worker.
    pub fn worker(&self, id: usize) -> (worker: Option<Worker>)
        ensures
            worker == if id < self@.size() {
                Some(self@.workers[id as int])
            } else {
                None
            },
    {
        if id < self.workers.len() {
            Some(self.workers[id])
        } else {
            None
        }
    }

    /// The number of workers that are running a job at this moment.
    pub fn executing(&self) -> (busy: usize)
        ensures
            busy == count(self@.workers, executing()),
    {
        let mut busy: usize = 0;
        let mut id: usize = 0;
        while id < self.workers.len()
            invariant
                id <= self.workers.len(),
                busy == count(self.workers@.take(id as int), executing()),
                busy <= id,
            decreases self.workers.len() - id,
        {
            proof {
                assert(self.workers@.take(id + 1).drop_last() =~= self.workers@.take(id as int));
            }
            match self.workers[id].state {
                WorkerState::Executing => {
                    busy = busy + 1;
                },
                _ => {},
            }
            id = id + 1;
        }
        assert(self.workers@.take(self.workers.len() as int) =~= self.workers@);
        busy
    }

    /// Submits `job`: it goes behind everything pending, for exactly one
    /// worker to take. A pool that was torn down, or that has lost all its
    /// workers, hands the job back as the error and changes nothing.
    pub fn execute(&mut self, job: J) -> (submitted: Result<(), J>)
        ensures
            final(self)@ == old(self)@.execute(job),
            submitted == if old(self)@.accepts() { Ok::<(), J>(()) } else { Err(job) },
            old(self)@.wf() ==> final(self)@.wf(),
    {
        proof {
            if self@.wf() {
                lemma_step_keeps_wf(self@, Step::Execute(job));
            }
        }
        match self.queue.send(Message::NewJob(job)) {
            Ok(()) => Ok(()),
            Err(Message::NewJob(job)) => Err(job),
            Err(Message::Terminate) => vstd::pervasive::unreached(),
        }
    }

    /// One step of the loop of worker `id`, see [`Worker::step`]. Only that
    /// worker and the queue change. A number that names no worker gets
    /// `Exit` and changes nothing.
    pub fn step(&mut self, id: usize) -> (action: Action<J>)
        ensures
            action == old(self)@.step_action(id),
            final(self)@ == old(self)@.step(id),
            old(self)@.wf() ==> final(self)@.wf(),
    {
        proof {
            if self@.wf() {
                lemma_step_keeps_wf(self@, Step::<J>::Work(id));
            }
        }
        if id < self.workers.len() {
            let mut worker = self.workers[id];
            let action = worker.step(&mut self.queue);
            self.workers[id] = worker;
            action
        } else {
            Action::Exit
        }
    }

    /// Records that the job which worker `id` was running has returned.
    pub fn finish(&mut self, id: usize)
        ensures
            final(self)@ == old(self)@.finish(id),
            old(self)@.wf() ==> final(self)@.wf(),
    {
        proof {
            if self@.wf() {
                lemma_step_keeps_wf(self@, Step::<J>::Finish(id));
            }
        }
        if id < self.workers.len() {
            let mut worker = self.workers[id];
            worker.finish();
            self.workers[id] = worker;
        }
    }

    /// Records that worker `id` is lost, see [`Worker::fail`].
    pub fn fail(&mut self, id: usize)
        ensures
            final(self)@ == old(self)@.fail(id),
            old(self)@.wf() ==> final(self)@.wf(),
    {
        proof {
            if self@.wf() {
                lemma_step_keeps_wf(self@, Step::<J>::Fail(id));
            }
        }
        if id < self.workers.len() {
            let mut worker = self.workers[id];
            worker.fail(&mut self.queue);
            self.workers[id] = worker;
        }
    }

    /// Tears the pool down, in two phases. First one `Terminate` per worker
    /// is sent, all of them before anything else happens. Then every thread
    /// handle that is still held is taken. The result names, in order, the
    /// workers whose threads are now to be joined.
    pub fn teardown(&mut self) -> (joins: Vec<usize>)
        ensures
            final(self)@ == old(self)@.teardown(),
            joins@ == held_threads(old(self)@.workers),
            old(self)@.wf() ==> final(self)@.wf(),
    {
        proof {
            if self@.wf() {
                lemma_step_keeps_wf(self@, Step::<J>::Teardown);
            }
        }
        let size = self.workers.len();
        let mut sent: usize = 0;
        while sent < size
            invariant
                sent <= size,
                size == self.workers@.len(),
                self.workers@ == old(self).workers@,
                self.queue@.sender_alive == old(self).queue@.sender_alive,
                self.queue@.receivers == old(self).queue@.receivers,
                self.queue@.pending == if old(self).queue@.accepts() {
                    old(self).queue@.pending + PoolView::<J>::terminates(sent as nat)
                } else {
                    old(self).queue@.pending
                },
            decreases size - sent,
        {
            let _ = self.queue.send(Message::Terminate);
            sent = sent + 1;
            assert(old(self).queue@.pending + PoolView::<J>::terminates((sent - 1) as nat).push(
                Message::Terminate,
            ) =~= old(self).queue@.pending + PoolView::<J>::terminates(sent as nat));
        }
        self.queue.drop_sender();
        let mut joins: Vec<usize> = Vec::new();
        let mut index: usize = 0;
        while index < size
            invariant
                index <= size,
                size == self.workers@.len(),
                size == old(self).workers@.len(),
                self.queue@ == old(self)@.teardown().queue,
                forall|i: int| 0 <= i < index ==> self.workers@[i] == old(self).workers@[i].take_worker(),
                forall|i: int| index <= i < size ==> self.workers@[i] == old(self).workers@[i],
                joins@ == held_threads(old(self).workers@.subrange(0, index as int)),
            decreases size - index,
        {
            let mut worker = self.workers[index];
            let due = worker.take_thread();
            self.workers[index] = worker;
            if due {
                joins.push(worker.id);
            }
            assert(old(self).workers@.subrange(0, index + 1).drop_last() =~= old(
                self,
            ).workers@.subrange(0, index as int));
            index = index + 1;
        }
        assert(old(self).workers@.subrange(0, size as int) =~= old(self).workers@);
        assert(self@.workers =~= old(self)@.teardown().workers);
        joins
    }
}

} // verus!
