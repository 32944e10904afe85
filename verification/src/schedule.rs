use crate::counting::{
    count, lemma_count_all, lemma_count_bounded, lemma_count_concat, lemma_count_drop_first,
    lemma_count_none, lemma_count_update,
};
use crate::pool::{held_threads, PoolView};
use crate::queue::{jobs, terminate, Message, QueueView, Received};
use crate::worker::{executing, live, Action, ThreadSlot, Worker, WorkerState};
use vstd::prelude::*;

verus! {

/// One thing that can happen to a pool.
pub enum Step<J> {
    /// A caller submits a job.
    Execute(J),
    /// The worker with this identity makes one step of its loop.
    Work(usize),
    /// The job of the worker with this identity returns.
    Finish(usize),
    /// The worker with this identity is lost.
    Fail(usize),
    /// The pool is torn down.
    Teardown,
}

impl<J> PoolView<J> {
    /// The pool after `step`.
    pub open spec fn apply(self, step: Step<J>) -> Self {
        match step {
            Step::Execute(job) => self.execute(job),
            Step::Work(id) => self.step(id),
            Step::Finish(id) => self.finish(id),
            Step::Fail(id) => self.fail(id),
            Step::Teardown => self.teardown(),
        }
    }

    /// The pool after `steps`, in their order.
    pub open spec fn run(self, steps: Seq<Step<J>>) -> Self
        decreases steps.len(),
    {
        if steps.len() == 0 {
            self
        } else {
            self.run(steps.drop_last()).apply(steps.last())
        }
    }

    /// The job that `step` brings into the queue, if it does.
    pub open spec fn accepted_by(self, step: Step<J>) -> Seq<J> {
        match step {
            Step::Execute(job) if self.accepts() => seq![job],
            _ => Seq::empty(),
        }
    }

    /// The job that `step` hands to a worker, if it does.
    pub open spec fn handed_out_by(self, step: Step<J>) -> Seq<J> {
        match step {
            Step::Work(id) => match self.step_action(id) {
                Action::Run(job) => seq![job],
                _ => Seq::empty(),
            },
            _ => Seq::empty(),
        }
    }

    /// The jobs that were accepted in the course of `steps`, in their order.
    pub open spec fn accepted(self, steps: Seq<Step<J>>) -> Seq<J>
        decreases steps.len(),
    {
        if steps.len() == 0 {
            Seq::empty()
        } else {
            self.accepted(steps.drop_last()) + self.run(steps.drop_last()).accepted_by(
                steps.last(),
            )
        }
    }

    /// The jobs that were handed to workers in the course of `steps`, in
    /// their order.
    pub open spec fn handed_out(self, steps: Seq<Step<J>>) -> Seq<J>
        decreases steps.len(),
    {
        if steps.len() == 0 {
            Seq::empty()
        } else {
            self.handed_out(steps.drop_last()) + self.run(steps.drop_last()).handed_out_by(
                steps.last(),
            )
        }
    }

    /// What is left to do before the pool is at rest: each pending message
    /// counts twice, each running job once.
    pub open spec fn backlog(self) -> nat {
        2 * self.queue.pending.len() + count(self.workers, executing())
    }

    /// `step` is a step of one of the pool's workers: a turn of its loop, or
    /// the return of its job.
    pub open spec fn is_worker_step(self, step: Step<J>) -> bool {
        match step {
            Step::Work(id) => id < self.workers.len(),
            Step::Finish(id) => id < self.workers.len(),
            _ => false,
        }
    }

    /// Every one of `steps` is a step of one of the pool's workers.
    pub open spec fn are_worker_steps(self, steps: Seq<Step<J>>) -> bool {
        forall|i: int| 0 <= i < steps.len() ==> self.is_worker_step(#[trigger] steps[i])
    }

    /// Worker `id` takes a message and, if it is a job, runs it to its end;
    /// and so on, `rounds` times.
    pub open spec fn serve(id: usize, rounds: nat) -> Seq<Step<J>>
        decreases rounds,
    {
        if rounds == 0 {
            Seq::empty()
        } else {
            Self::serve(id, (rounds - 1) as nat).push(Step::Work(id)).push(Step::Finish(id))
        }
    }
}

/// The jobs of a concatenation are the jobs of its parts.
pub proof fn lemma_jobs_concat<J>(a: Seq<Message<J>>, b: Seq<Message<J>>)
    ensures
        jobs(a + b) == jobs(a) + jobs(b),
    decreases b.len(),
{
    if b.len() == 0 {
        assert(a + b =~= a);
        assert(jobs(a) + jobs(b) =~= jobs(a));
    } else {
        assert((a + b).drop_last() =~= a + b.drop_last());
        lemma_jobs_concat(a, b.drop_last());
        match b.last() {
            Message::NewJob(job) => {
                assert(jobs(a + b) =~= jobs(a) + jobs(b));
            },
            Message::Terminate => {},
        }
    }
}

/// A run of poison pills holds no job, and as many pills as it is long.
pub proof fn lemma_terminates<J>(n: nat)
    ensures
        jobs(PoolView::<J>::terminates(n)) == Seq::<J>::empty(),
        count(PoolView::<J>::terminates(n), terminate()) == n,
    decreases n,
{
    if n > 0 {
        assert(PoolView::<J>::terminates(n).drop_last() =~= PoolView::<J>::terminates(
            (n - 1) as nat,
        ));
        lemma_terminates::<J>((n - 1) as nat);
    }
}

/// Taking the oldest message takes the oldest job, if that message is one.
pub proof fn lemma_jobs_drop_first<J>(pending: Seq<Message<J>>)
    requires
        pending.len() > 0,
    ensures
        jobs(pending) == match pending[0] {
            Message::NewJob(job) => seq![job] + jobs(pending.drop_first()),
            Message::Terminate => jobs(pending.drop_first()),
        },
{
    let head = seq![pending[0]];
    assert(pending =~= head + pending.drop_first());
    lemma_jobs_concat(head, pending.drop_first());
    assert(head.drop_last() =~= Seq::<Message<J>>::empty());
    reveal_with_fuel(jobs, 2);
    match pending[0] {
        Message::NewJob(job) => {
            assert(jobs(head) =~= seq![job]);
        },
        Message::Terminate => {
            assert(jobs(head) + jobs(pending.drop_first()) =~= jobs(pending.drop_first()));
        },
    }
}

/// A pool of any positive size is well-formed when it is created, and has
/// exactly that many workers, all of them idle.
pub proof fn lemma_fresh_pool<J>(size: usize)
    requires
        size > 0,
    ensures
        PoolView::<J>::fresh(size as nat).wf(),
        PoolView::<J>::fresh(size as nat).size() == size,
        forall|i: int|
            0 <= i < size ==> (#[trigger] PoolView::<J>::fresh(size as nat).workers[i]).state
                == WorkerState::Idle,
{
    let pool = PoolView::<J>::fresh(size as nat);
    lemma_count_all(pool.workers, live());
    assert(pool.queue.pending =~= Seq::<Message<J>>::empty());
}

/// No step changes the number of workers or their identities, and every
/// step leaves a well-formed pool well-formed.
pub proof fn lemma_step_keeps_wf<J>(pool: PoolView<J>, step: Step<J>)
    requires
        pool.wf(),
    ensures
        pool.apply(step).wf(),
        pool.apply(step).size() == pool.size(),
{
    let next = pool.apply(step);
    match step {
        Step::Execute(job) => {
            if pool.accepts() {
                let message = Message::NewJob(job);
                assert(next.queue.pending.drop_last() =~= pool.queue.pending);
            }
        },
        Step::Work(id) => {
            if id < pool.workers.len() {
                let worker = pool.workers[id as int];
                lemma_count_update(pool.workers, live(), id as int, worker.step_worker(pool.queue));
                if worker.state == WorkerState::Idle {
                    lemma_count_none(pool.workers, live());
                    assert(pool.queue.receivers > 0);
                    if pool.queue.pending.len() > 0 {
                        lemma_count_drop_first(pool.queue.pending, terminate());
                    }
                }
            }
        },
        Step::Finish(id) => {
            if id < pool.workers.len() {
                let worker = pool.workers[id as int];
                lemma_count_update(pool.workers, live(), id as int, worker.finish_worker());
            }
        },
        Step::Fail(id) => {
            if id < pool.workers.len() {
                let worker = pool.workers[id as int];
                lemma_count_update(pool.workers, live(), id as int, worker.fail_worker());
                if worker.is_live() {
                    lemma_count_none(pool.workers, live());
                }
            }
        },
        Step::Teardown => {
            lemma_count_match(pool.workers, next.workers);
            lemma_count_bounded(pool.workers, live());
            if pool.queue.accepts() {
                lemma_count_concat(
                    pool.queue.pending,
                    PoolView::<J>::terminates(pool.workers.len()),
                    terminate(),
                );
                lemma_terminates::<J>(pool.workers.len());
            } else if pool.queue.sender_alive {
                assert(count(pool.workers, live()) == 0);
            }
        },
    }
}

/// Taking the thread handles changes no worker's place in its loop.
proof fn lemma_count_match(before: Seq<Worker>, after: Seq<Worker>)
    requires
        before.len() == after.len(),
        forall|i: int| 0 <= i < before.len() ==> after[i] == (#[trigger] before[i]).take_worker(),
    ensures
        count(after, live()) == count(before, live()),
        count(after, executing()) == count(before, executing()),
    decreases before.len(),
{
    if before.len() > 0 {
        lemma_count_match(before.drop_last(), after.drop_last());
        assert(after.last() == before.last().take_worker());
    }
}

/// Every state that a well-formed pool reaches is well-formed, with the
/// number of workers it was created with.
pub proof fn lemma_run_keeps_wf<J>(pool: PoolView<J>, steps: Seq<Step<J>>)
    requires
        pool.wf(),
    ensures
        pool.run(steps).wf(),
        pool.run(steps).size() == pool.size(),
    decreases steps.len(),
{
    if steps.len() > 0 {
        lemma_run_keeps_wf(pool, steps.drop_last());
        lemma_step_keeps_wf(pool.run(steps.drop_last()), steps.last());
    }
}

/// Every job is handed to a worker exactly once or is still pending,
/// whatever happens and in whatever order: the jobs that were pending at
/// first, followed by those accepted since, are the jobs handed out since,
/// followed by those pending now.
pub proof fn lemma_every_job_once<J>(pool: PoolView<J>, steps: Seq<Step<J>>)
    ensures
        jobs(pool.queue.pending) + pool.accepted(steps) == pool.handed_out(steps) + jobs(
            pool.run(steps).queue.pending,
        ),
    decreases steps.len(),
{
    if steps.len() == 0 {
        assert(jobs(pool.queue.pending) + pool.accepted(steps) =~= pool.handed_out(steps) + jobs(
            pool.run(steps).queue.pending,
        ));
    } else {
        let before = pool.run(steps.drop_last());
        let after = pool.run(steps);
        let step = steps.last();
        lemma_every_job_once(pool, steps.drop_last());
        assert(before.handed_out_by(step) + jobs(after.queue.pending) == jobs(before.queue.pending)
            + before.accepted_by(step)) by {
            lemma_step_moves_one_job(before, step);
        }
        assert(jobs(pool.queue.pending) + pool.accepted(steps) =~= (jobs(pool.queue.pending)
            + pool.accepted(steps.drop_last())) + before.accepted_by(step));
        assert(pool.handed_out(steps) + jobs(after.queue.pending) =~= pool.handed_out(
            steps.drop_last(),
        ) + (before.handed_out_by(step) + jobs(after.queue.pending)));
        assert((pool.handed_out(steps.drop_last()) + jobs(before.queue.pending))
            + before.accepted_by(step) =~= pool.handed_out(steps.drop_last()) + (jobs(
            before.queue.pending,
        ) + before.accepted_by(step)));
    }
}

/// What one step does to the jobs: the job it hands out left the front of
/// the queue, the job it accepts went to its back, and nothing else moved.
pub proof fn lemma_step_moves_one_job<J>(pool: PoolView<J>, step: Step<J>)
    ensures
        pool.handed_out_by(step) + jobs(pool.apply(step).queue.pending) == jobs(
            pool.queue.pending,
        ) + pool.accepted_by(step),
{
    let next = pool.apply(step);
    let left = pool.handed_out_by(step) + jobs(next.queue.pending);
    let right = jobs(pool.queue.pending) + pool.accepted_by(step);
    match step {
        Step::Execute(job) => {
            if pool.accepts() {
                assert(next.queue.pending.drop_last() =~= pool.queue.pending);
            }
            assert(left =~= right);
        },
        Step::Work(id) => {
            if id < pool.workers.len() && pool.workers[id as int].state == WorkerState::Idle
                && pool.queue.front() is Delivered {
                lemma_jobs_drop_first(pool.queue.pending);
            }
            assert(left =~= right);
        },
        Step::Finish(id) => {
            assert(left =~= right);
        },
        Step::Fail(id) => {
            assert(left =~= right);
        },
        Step::Teardown => {
            if pool.queue.accepts() {
                lemma_jobs_concat(pool.queue.pending, PoolView::<J>::terminates(pool.workers.len()));
                lemma_terminates::<J>(pool.workers.len());
            }
            assert(left =~= right);
        },
    }
}


/// The first teardown of a pool names every worker once, in order, and puts
/// exactly one `Terminate` per worker behind what was pending, provided a
/// worker is left to receive them. After it no thread handle is held.
pub proof fn lemma_teardown_reaches_all<J>(pool: PoolView<J>)
    requires
        pool.wf(),
        pool.queue.sender_alive,
    ensures
        held_threads(pool.workers) == Seq::new(pool.size(), |i: int| i as usize),
        pool.queue.receivers > 0 ==> pool.teardown().queue.pending == pool.queue.pending
            + PoolView::<J>::terminates(pool.size()),
        count(pool.teardown().queue.pending, terminate()) == if pool.queue.receivers > 0 {
            pool.size()
        } else {
            0
        },
        held_threads(pool.teardown().workers) == Seq::<usize>::empty(),
{
    lemma_held_threads_all(pool.workers, pool.workers.len());
    assert(pool.workers.take(pool.workers.len() as int) =~= pool.workers);
    lemma_held_threads_none(pool.teardown().workers);
    if pool.queue.receivers > 0 {
        lemma_count_concat(
            pool.queue.pending,
            PoolView::<J>::terminates(pool.workers.len()),
            terminate(),
        );
        lemma_terminates::<J>(pool.workers.len());
    }
}

/// Where every handle is held and the workers are numbered by their place,
/// the threads to join are all of them, in order.
proof fn lemma_held_threads_all(workers: Seq<Worker>, n: nat)
    requires
        n <= workers.len(),
        forall|i: int|
            0 <= i < workers.len() ==> (#[trigger] workers[i]).id == i && workers[i].thread
                == ThreadSlot::Running,
    ensures
        held_threads(workers.take(n as int)) == Seq::new(n, |i: int| i as usize),
    decreases n,
{
    if n == 0 {
        assert(held_threads(workers.take(0)) =~= Seq::new(0, |i: int| i as usize));
    } else {
        lemma_held_threads_all(workers, (n - 1) as nat);
        assert(workers.take(n as int).drop_last() =~= workers.take(n - 1));
        assert(workers.take(n as int).last() == workers[n - 1]);
        assert(held_threads(workers.take(n as int)) =~= Seq::new(n, |i: int| i as usize));
    }
}

/// Where every handle was taken, no thread is left to join.
proof fn lemma_held_threads_none(workers: Seq<Worker>)
    requires
        forall|i: int| 0 <= i < workers.len() ==> (#[trigger] workers[i]).thread == ThreadSlot::Joined,
    ensures
        held_threads(workers) == Seq::<usize>::empty(),
    decreases workers.len(),
{
    if workers.len() > 0 {
        lemma_held_threads_none(workers.drop_last());
    }
}

/// A second teardown is a safe no-op: it changes nothing and names no
/// thread, so that no thread is joined twice.
pub proof fn lemma_teardown_twice<J>(pool: PoolView<J>)
    ensures
        pool.teardown().teardown() == pool.teardown(),
        held_threads(pool.teardown().workers) == Seq::<usize>::empty(),
{
    lemma_held_threads_none(pool.teardown().workers);
    assert(pool.teardown().teardown().workers =~= pool.teardown().workers);
}

/// Once a torn-down pool has nothing pending, every worker has left its
/// loop; and every worker has stopped on a `Terminate` unless it was lost
/// to a failure.
pub proof fn lemma_drained_pool_has_stopped<J>(pool: PoolView<J>)
    requires
        pool.wf(),
        !pool.queue.sender_alive,
        pool.queue.pending.len() == 0,
    ensures
        forall|i: int| 0 <= i < pool.size() ==> !(#[trigger] pool.workers[i]).is_live(),
        forall|i: int|
            0 <= i < pool.size() && (#[trigger] pool.workers[i]).state != WorkerState::Failed
                ==> pool.workers[i].state == WorkerState::Stopped,
{
    lemma_count_none(pool.workers, live());
}

/// A step of a worker never adds to the backlog, whoever takes it and in
/// whatever state.
pub proof fn lemma_workers_add_no_backlog<J>(pool: PoolView<J>, id: usize)
    ensures
        pool.step(id).backlog() <= pool.backlog(),
        pool.finish(id).backlog() <= pool.backlog(),
        pool.fail(id).backlog() <= pool.backlog(),
{
    if id < pool.workers.len() {
        let worker = pool.workers[id as int];
        lemma_count_update(pool.workers, executing(), id as int, worker.step_worker(pool.queue));
        lemma_count_update(pool.workers, executing(), id as int, worker.finish_worker());
        lemma_count_update(pool.workers, executing(), id as int, worker.fail_worker());
    }
}

/// As long as anything is left to do and a worker is alive to do it, some
/// worker has a step that brings the pool closer to rest: the return of a
/// running job, or a turn of an idle worker's loop. In a pool that was torn
/// down the same holds as long as a worker is alive at all.
pub proof fn lemma_some_worker_makes_progress<J>(pool: PoolView<J>) -> (step: Step<J>)
    requires
        pool.wf(),
        count(pool.workers, live()) > 0,
        pool.backlog() > 0 || !pool.queue.sender_alive,
    ensures
        pool.is_worker_step(step),
        pool.apply(step).backlog() < pool.backlog(),
{
    lemma_count_none(pool.workers, live());
    lemma_count_none(pool.workers, executing());
    if count(pool.workers, executing()) > 0 {
        let id = choose|i: int| 0 <= i < pool.workers.len() && executing()(#[trigger] pool.workers[i]);
        lemma_count_update(pool.workers, executing(), id, pool.workers[id].finish_worker());
        Step::Finish(id as usize)
    } else {
        let id = choose|i: int| 0 <= i < pool.workers.len() && live()(#[trigger] pool.workers[i]);
        assert(!executing()(pool.workers[id]));
        assert(pool.workers[id].state == WorkerState::Idle);
        assert(pool.queue.pending.len() > 0) by {
            if pool.queue.pending.len() == 0 {
                assert(count(pool.queue.pending, terminate()) == 0);
            }
        }
        lemma_count_update(
            pool.workers,
            executing(),
            id,
            pool.workers[id].step_worker(pool.queue),
        );
        Step::Work(id as usize)
    }
}

/// A waiting worker is held up by no other: whatever the others do, be it
/// that each of them is stuck in a job for ever, the worker takes the
/// oldest pending jobs one after the other, in their order, and is idle
/// again after each. Nothing else in the pool changes.
pub proof fn lemma_idle_worker_serves<J>(pool: PoolView<J>, id: usize, rounds: nat)
    requires
        pool.wf(),
        id < pool.size(),
        pool.workers[id as int].state == WorkerState::Idle,
        rounds <= pool.queue.pending.len(),
        forall|k: int| 0 <= k < rounds ==> (#[trigger] pool.queue.pending[k]) is NewJob,
    ensures
        pool.run(PoolView::<J>::serve(id, rounds)).workers == pool.workers,
        pool.run(PoolView::<J>::serve(id, rounds)).queue == (QueueView {
            pending: pool.queue.pending.skip(rounds as int),
            ..pool.queue
        }),
        pool.handed_out(PoolView::<J>::serve(id, rounds)) == jobs(
            pool.queue.pending.take(rounds as int),
        ),
    decreases rounds,
{
    let steps = PoolView::<J>::serve(id, rounds);
    if rounds == 0 {
        assert(pool.queue.pending.skip(0) =~= pool.queue.pending);
        assert(pool.queue.pending.take(0) =~= Seq::<Message<J>>::empty());
        assert(pool.handed_out(steps) =~= jobs(pool.queue.pending.take(0)));
    } else {
        let earlier = PoolView::<J>::serve(id, (rounds - 1) as nat);
        lemma_idle_worker_serves(pool, id, (rounds - 1) as nat);
        lemma_run_keeps_wf(pool, earlier);
        let start = pool.run(earlier);
        let taken = start.step(id);
        let done = taken.finish(id);
        let turn = earlier.push(Step::Work(id));
        assert(steps.drop_last() =~= turn);
        assert(turn.drop_last() =~= earlier);
        assert(pool.run(turn) == taken);
        assert(pool.run(steps) == done);
        lemma_count_none(start.workers, live());
        assert(start.queue.receivers > 0);
        assert(start.queue.pending[0] == pool.queue.pending[rounds - 1]);
        let job = pool.queue.pending[rounds - 1]->NewJob_0;
        assert(start.step_action(id) == Action::Run(job));
        assert(done.workers =~= pool.workers);
        assert(done.queue.pending =~= pool.queue.pending.skip(rounds as int));
        assert(pool.queue.pending.take(rounds as int).drop_last() =~= pool.queue.pending.take(
            rounds - 1,
        ));
        assert(pool.handed_out(turn) =~= pool.handed_out(earlier) + seq![job]);
        assert(pool.handed_out(steps) =~= pool.handed_out(turn));
        assert(pool.handed_out(steps) =~= jobs(pool.queue.pending.take(rounds as int)));
    }
}

/// Once nothing is pending, the jobs that were handed to workers are the
/// jobs that were accepted, one for one and in their order: each of them was
/// handed out exactly once, and no other.
pub proof fn lemma_all_jobs_handed_out<J>(size: usize, steps: Seq<Step<J>>)
    requires
        size > 0,
        jobs(PoolView::<J>::fresh(size as nat).run(steps).queue.pending).len() == 0,
    ensures
        PoolView::<J>::fresh(size as nat).handed_out(steps) == PoolView::<J>::fresh(
            size as nat,
        ).accepted(steps),
{
    let pool = PoolView::<J>::fresh(size as nat);
    lemma_every_job_once(pool, steps);
    assert(jobs(pool.queue.pending) =~= Seq::<J>::empty());
    assert(jobs(pool.queue.pending) + pool.accepted(steps) =~= pool.accepted(steps));
    assert(pool.handed_out(steps) + jobs(pool.run(steps).queue.pending) =~= pool.handed_out(
        steps,
    ));
}

/// A worker of a pool stops on a `Terminate` that it took from the queue,
/// and on nothing else: a pool never leaves a waiting worker with a
/// disconnected queue.
pub proof fn lemma_stops_on_terminate_only<J>(pool: PoolView<J>, step: Step<J>, id: usize)
    requires
        pool.wf(),
        id < pool.size(),
        pool.workers[id as int].state != WorkerState::Stopped,
        pool.apply(step).workers[id as int].state == WorkerState::Stopped,
    ensures
        step == Step::<J>::Work(id),
        pool.workers[id as int].state == WorkerState::Idle,
        pool.queue.front() == Received::<J>::Delivered(Message::Terminate),
{
    lemma_count_none(pool.workers, live());
    if pool.queue.pending.len() == 0 {
        assert(count(pool.queue.pending, terminate()) == 0);
    }
}

/// A worker that has left its loop stays where it is, whatever happens: a
/// stopped worker is never started again, a lost one never replaced, and a
/// thread handle that was taken is never held again.
pub proof fn lemma_no_way_back<J>(pool: PoolView<J>, step: Step<J>, id: usize)
    requires
        id < pool.size(),
    ensures
        pool.apply(step).workers[id as int].id == pool.workers[id as int].id,
        !pool.workers[id as int].is_live() ==> pool.apply(step).workers[id as int].state
            == pool.workers[id as int].state,
        pool.workers[id as int].thread == ThreadSlot::Joined ==> pool.apply(
            step,
        ).workers[id as int].thread == ThreadSlot::Joined,
{
}

/// A job occupies exactly the worker that took it: when a step of worker
/// `id` hands out a job, that worker is busy, one more worker than before
/// is busy, and every other worker is as it was. The steps of a worker
/// never touch another worker.
pub proof fn lemma_job_occupies_one_worker<J>(pool: PoolView<J>, id: usize)
    requires
        id < pool.size(),
    ensures
        pool.step_action(id) is Run ==> {
            &&& pool.step(id).workers[id as int].state == WorkerState::Executing
            &&& count(pool.step(id).workers, executing()) == count(pool.workers, executing()) + 1
        },
        forall|other: int|
            0 <= other < pool.size() && other != id ==> {
                &&& #[trigger] pool.step(id).workers[other] == pool.workers[other]
                &&& pool.finish(id).workers[other] == pool.workers[other]
                &&& pool.fail(id).workers[other] == pool.workers[other]
            },
{
    lemma_count_update(
        pool.workers,
        executing(),
        id as int,
        pool.workers[id as int].step_worker(pool.queue),
    );
}

/// Running one schedule after another is running the two as one.
pub proof fn lemma_run_concat<J>(pool: PoolView<J>, first: Seq<Step<J>>, then: Seq<Step<J>>)
    ensures
        pool.run(first + then) == pool.run(first).run(then),
    decreases then.len(),
{
    if then.len() == 0 {
        assert(first + then =~= first);
    } else {
        assert((first + then).drop_last() =~= first + then.drop_last());
        lemma_run_concat(pool, first, then.drop_last());
    }
}

/// The workers bring every pool to rest, in finitely many steps of their
/// own, where each job returns when its turn comes. Before the teardown
/// they empty the queue and finish every job, and none of them leaves its
/// loop. After the teardown every one of them leaves its loop.
pub proof fn lemma_workers_come_to_rest<J>(pool: PoolView<J>) -> (steps: Seq<Step<J>>)
    requires
        pool.wf(),
        count(pool.workers, live()) > 0,
    ensures
        pool.are_worker_steps(steps),
        pool.run(steps).wf(),
        pool.queue.sender_alive ==> {
            &&& pool.run(steps).queue.pending.len() == 0
            &&& count(pool.run(steps).workers, executing()) == 0
            &&& count(pool.run(steps).workers, live()) == count(pool.workers, live())
        },
        !pool.queue.sender_alive ==> count(pool.run(steps).workers, live()) == 0,
    decreases pool.backlog(),
{
    if pool.queue.sender_alive && pool.backlog() == 0 {
        Seq::empty()
    } else {
        let step = lemma_some_worker_makes_progress(pool);
        let next = pool.apply(step);
        lemma_step_keeps_wf(pool, step);
        let one = seq![step];
        assert(one.drop_last() =~= Seq::<Step<J>>::empty());
        assert(pool.run(one) == next) by {
            reveal_with_fuel(PoolView::run, 2);
        }
        match step {
            Step::Work(id) => {
                lemma_count_update(
                    pool.workers,
                    live(),
                    id as int,
                    pool.workers[id as int].step_worker(pool.queue),
                );
                if pool.queue.sender_alive && pool.queue.pending.len() > 0 {
                    lemma_count_drop_first(pool.queue.pending, terminate());
                }
            },
            Step::Finish(id) => {
                lemma_count_update(
                    pool.workers,
                    live(),
                    id as int,
                    pool.workers[id as int].finish_worker(),
                );
            },
            _ => {},
        }
        if count(next.workers, live()) == 0 {
            one
        } else {
            let rest = lemma_workers_come_to_rest(next);
            lemma_run_concat(pool, one, rest);
            one + rest
        }
    }
}

} // verus!
