use workbench::pool::ThreadPool;
use workbench::queue::{JobQueue, Message, Received};
use workbench::worker::{Action, ThreadSlot, Worker, WorkerState};

fn state_of(pool: &ThreadPool<u32>, id: usize) -> WorkerState {
    match pool.worker(id) {
        Some(worker) => worker.state,
        None => panic!("no worker {}", id),
    }
}

#[test]
fn new_pool_has_as_many_workers_as_asked_for() {
    let mut size = 1;
    while size <= 8 {
        let pool: ThreadPool<u32> = ThreadPool::new(size);
        assert_eq!(size, pool.size());
        assert_eq!(0, pool.pending());
        assert_eq!(0, pool.executing());
        assert!(pool.accepts());
        let mut id = 0;
        while id < size {
            assert_eq!(
                Some(Worker { id, state: WorkerState::Idle, thread: ThreadSlot::Running }),
                pool.worker(id)
            );
            id += 1;
        }
        assert_eq!(None, pool.worker(size));
        size += 1;
    }
}

#[test]
fn four_jobs_run_at_once_on_four_workers() {
    let mut pool: ThreadPool<u32> = ThreadPool::new(4);
    for job in [10, 11, 12, 13] {
        assert_eq!(Ok(()), pool.execute(job));
    }
    assert_eq!(4, pool.pending());
    assert_eq!(Action::Run(10), pool.step(2));
    assert_eq!(Action::Run(11), pool.step(0));
    assert_eq!(Action::Run(12), pool.step(3));
    assert_eq!(Action::Run(13), pool.step(1));
    assert_eq!(4, pool.executing());
    assert_eq!(0, pool.pending());
    for id in [0, 1, 2, 3] {
        pool.finish(id);
    }
    assert_eq!(0, pool.executing());
    for id in [0, 1, 2, 3] {
        assert_eq!(WorkerState::Idle, state_of(&pool, id));
    }
}

#[test]
fn stuck_job_holds_up_one_worker_only() {
    let mut pool: ThreadPool<u32> = ThreadPool::new(2);
    assert_eq!(Ok(()), pool.execute(1));
    assert_eq!(Ok(()), pool.execute(2));
    assert_eq!(Action::Run(1), pool.step(0));
    assert_eq!(Action::Run(2), pool.step(1));
    pool.finish(1);
    assert_eq!(WorkerState::Executing, state_of(&pool, 0));
    assert_eq!(WorkerState::Idle, state_of(&pool, 1));
    assert_eq!(1, pool.executing());
    for job in [3, 4, 5] {
        assert_eq!(Ok(()), pool.execute(job));
        assert_eq!(Action::Wait, pool.step(0));
        assert_eq!(Action::Run(job), pool.step(1));
        pool.finish(1);
    }
    assert_eq!(WorkerState::Executing, state_of(&pool, 0));
    assert_eq!(0, pool.pending());
}

#[test]
fn idle_pool_of_one_is_torn_down_at_once() {
    let mut pool: ThreadPool<u32> = ThreadPool::new(1);
    assert_eq!(vec![0], pool.teardown());
    assert_eq!(1, pool.pending());
    assert_eq!(Action::Exit, pool.step(0));
    assert_eq!(0, pool.pending());
    assert_eq!(
        Some(Worker { id: 0, state: WorkerState::Stopped, thread: ThreadSlot::Joined }),
        pool.worker(0)
    );
}

#[test]
fn every_job_runs_once_whatever_the_order() {
    let mut pool: ThreadPool<u32> = ThreadPool::new(3);
    let mut ran: Vec<u32> = Vec::new();
    let mut next_job = 0;
    let mut turn = 0;
    while turn < 60 {
        if turn % 3 != 2 && next_job < 10 {
            assert_eq!(Ok(()), pool.execute(next_job));
            next_job += 1;
        }
        let id = (turn * 7 + turn / 5) % 3;
        match pool.step(id) {
            Action::Run(job) => ran.push(job),
            Action::Wait => pool.finish(id),
            Action::Exit => panic!("worker {} left its loop", id),
        }
        turn += 1;
    }
    for id in [0, 1, 2] {
        pool.finish(id);
    }
    assert_eq!(10, next_job);
    assert_eq!(0, pool.pending());
    assert_eq!(0, pool.executing());
    assert_eq!(vec![0, 1, 2, 3, 4, 5, 6, 7, 8, 9], ran);
}

#[test]
fn jobs_leave_the_queue_in_the_order_they_came() {
    let mut pool: ThreadPool<String> = ThreadPool::new(2);
    assert_eq!(Ok(()), pool.execute(String::from("first")));
    assert_eq!(Ok(()), pool.execute(String::from("second")));
    assert_eq!(Ok(()), pool.execute(String::from("third")));
    assert_eq!(Action::Run(String::from("first")), pool.step(1));
    assert_eq!(Action::Run(String::from("second")), pool.step(0));
    assert_eq!(Action::Wait, pool.step(1));
    pool.finish(1);
    assert_eq!(Action::Run(String::from("third")), pool.step(1));
    assert_eq!(Action::Wait, pool.step(0));
}

#[test]
fn waiting_worker_stays_idle() {
    let mut pool: ThreadPool<u32> = ThreadPool::new(2);
    assert_eq!(Action::Wait, pool.step(0));
    assert_eq!(WorkerState::Idle, state_of(&pool, 0));
    assert_eq!(Action::Exit, pool.step(2));
    pool.finish(0);
    assert_eq!(WorkerState::Idle, state_of(&pool, 0));
}

#[test]
fn teardown_sends_one_terminate_for_each_worker_and_names_each_once() {
    let mut pool: ThreadPool<u32> = ThreadPool::new(3);
    assert_eq!(Ok(()), pool.execute(5));
    assert_eq!(vec![0, 1, 2], pool.teardown());
    assert_eq!(4, pool.pending());
    assert!(!pool.accepts());
    for id in [0, 1, 2] {
        assert_eq!(Some(ThreadSlot::Joined), pool.worker(id).map(|w| w.thread));
    }
    assert_eq!(Action::Run(5), pool.step(1));
    assert_eq!(Action::Exit, pool.step(0));
    assert_eq!(Action::Exit, pool.step(2));
    assert_eq!(Action::Wait, pool.step(1));
    pool.finish(1);
    assert_eq!(Action::Exit, pool.step(1));
    assert_eq!(0, pool.pending());
    for id in [0, 1, 2] {
        assert_eq!(WorkerState::Stopped, state_of(&pool, id));
        assert_eq!(Action::Exit, pool.step(id));
    }
    assert_eq!(0, pool.pending());
}

#[test]
fn busy_worker_finishes_its_job_before_it_stops() {
    let mut pool: ThreadPool<u32> = ThreadPool::new(2);
    assert_eq!(Ok(()), pool.execute(1));
    assert_eq!(Action::Run(1), pool.step(0));
    assert_eq!(vec![0, 1], pool.teardown());
    assert_eq!(Action::Exit, pool.step(1));
    assert_eq!(WorkerState::Executing, state_of(&pool, 0));
    assert_eq!(1, pool.pending());
    pool.finish(0);
    assert_eq!(Action::Exit, pool.step(0));
    assert_eq!(WorkerState::Stopped, state_of(&pool, 0));
    assert_eq!(WorkerState::Stopped, state_of(&pool, 1));
    assert_eq!(0, pool.pending());
}

#[test]
fn second_teardown_changes_nothing() {
    let mut pool: ThreadPool<u32> = ThreadPool::new(2);
    assert_eq!(vec![0, 1], pool.teardown());
    assert_eq!(2, pool.pending());
    let none: Vec<usize> = Vec::new();
    assert_eq!(none, pool.teardown());
    assert_eq!(2, pool.pending());
    assert_eq!(Action::Exit, pool.step(0));
    assert_eq!(Action::Exit, pool.step(1));
    assert_eq!(none, pool.teardown());
    assert_eq!(0, pool.pending());
    assert_eq!(WorkerState::Stopped, state_of(&pool, 0));
    assert_eq!(WorkerState::Stopped, state_of(&pool, 1));
}

#[test]
fn torn_down_pool_hands_jobs_back() {
    let mut pool: ThreadPool<u32> = ThreadPool::new(2);
    pool.teardown();
    assert_eq!(Err(9), pool.execute(9));
    assert_eq!(2, pool.pending());
}

#[test]
fn failed_worker_is_lost_and_the_others_go_on() {
    let mut pool: ThreadPool<u32> = ThreadPool::new(2);
    assert_eq!(Ok(()), pool.execute(1));
    assert_eq!(Action::Run(1), pool.step(0));
    pool.fail(0);
    assert_eq!(WorkerState::Failed, state_of(&pool, 0));
    assert_eq!(2, pool.size());
    assert_eq!(Action::Exit, pool.step(0));
    assert_eq!(Ok(()), pool.execute(2));
    assert_eq!(Action::Run(2), pool.step(1));
    pool.finish(1);
    pool.finish(0);
    assert_eq!(WorkerState::Failed, state_of(&pool, 0));
    assert_eq!(vec![0, 1], pool.teardown());
    assert_eq!(2, pool.pending());
    assert_eq!(Action::Exit, pool.step(1));
    assert_eq!(WorkerState::Stopped, state_of(&pool, 1));
    assert_eq!(1, pool.pending());
}

#[test]
fn pool_without_workers_left_hands_jobs_back() {
    let mut pool: ThreadPool<u32> = ThreadPool::new(2);
    pool.fail(0);
    assert!(pool.accepts());
    pool.fail(1);
    pool.fail(1);
    assert!(!pool.accepts());
    assert_eq!(Err(4), pool.execute(4));
    assert_eq!(0, pool.pending());
    assert_eq!(vec![0, 1], pool.teardown());
    assert_eq!(0, pool.pending());
}

#[test]
fn queue_delivers_each_message_once_in_order() {
    let mut queue: JobQueue<u32> = JobQueue::new();
    queue.attach_receiver();
    assert_eq!(Ok(()), queue.send(Message::NewJob(1)));
    assert_eq!(Ok(()), queue.send(Message::Terminate));
    assert_eq!(Ok(()), queue.send(Message::NewJob(2)));
    assert_eq!(3, queue.len());
    assert_eq!(Received::Delivered(Message::NewJob(1)), queue.receive());
    assert_eq!(Received::Delivered(Message::Terminate), queue.receive());
    assert_eq!(Received::Delivered(Message::NewJob(2)), queue.receive());
    assert_eq!(Received::Empty, queue.receive());
    assert_eq!(0, queue.len());
}

#[test]
fn queue_without_receiver_refuses_to_send() {
    let mut queue: JobQueue<u32> = JobQueue::new();
    assert!(!queue.accepts());
    assert_eq!(Err(Message::NewJob(3)), queue.send(Message::NewJob(3)));
    assert_eq!(0, queue.len());
    queue.attach_receiver();
    assert!(queue.accepts());
    assert_eq!(Ok(()), queue.send(Message::NewJob(3)));
    queue.detach_receiver();
    queue.detach_receiver();
    assert_eq!(Err(Message::Terminate), queue.send(Message::Terminate));
    assert_eq!(Received::Disconnected, queue.receive());
    assert_eq!(1, queue.len());
}

#[test]
fn queue_without_sender_drains_and_disconnects() {
    let mut queue: JobQueue<u32> = JobQueue::new();
    queue.attach_receiver();
    assert_eq!(Ok(()), queue.send(Message::NewJob(8)));
    queue.drop_sender();
    assert_eq!(Err(Message::NewJob(9)), queue.send(Message::NewJob(9)));
    assert_eq!(Received::Delivered(Message::NewJob(8)), queue.receive());
    assert_eq!(Received::Disconnected, queue.receive());
    assert_eq!(Received::Disconnected, queue.receive());
}

#[test]
fn worker_alone_follows_its_loop() {
    let mut queue: JobQueue<u32> = JobQueue::new();
    let mut worker = Worker::new(7, &mut queue);
    assert_eq!(Worker { id: 7, state: WorkerState::Idle, thread: ThreadSlot::Running }, worker);
    assert_eq!(Action::Wait, worker.step(&mut queue));
    assert_eq!(Ok(()), queue.send(Message::NewJob(1)));
    assert_eq!(Action::Run(1), worker.step(&mut queue));
    assert_eq!(WorkerState::Executing, worker.state);
    assert_eq!(Ok(()), queue.send(Message::NewJob(2)));
    assert_eq!(Action::Wait, worker.step(&mut queue));
    assert_eq!(1, queue.len());
    worker.finish();
    assert_eq!(WorkerState::Idle, worker.state);
    assert_eq!(Action::Run(2), worker.step(&mut queue));
    worker.finish();
    assert_eq!(Ok(()), queue.send(Message::Terminate));
    assert_eq!(Action::Exit, worker.step(&mut queue));
    assert_eq!(WorkerState::Stopped, worker.state);
    assert_eq!(Err(Message::NewJob(3)), queue.send(Message::NewJob(3)));
    assert_eq!(Action::Exit, worker.step(&mut queue));
    worker.finish();
    worker.fail(&mut queue);
    assert_eq!(WorkerState::Stopped, worker.state);
}

#[test]
fn worker_stops_when_the_sender_is_gone() {
    let mut queue: JobQueue<u32> = JobQueue::new();
    let mut worker = Worker::new(0, &mut queue);
    assert_eq!(Ok(()), queue.send(Message::NewJob(1)));
    queue.drop_sender();
    assert_eq!(Action::Run(1), worker.step(&mut queue));
    worker.finish();
    assert_eq!(Action::Exit, worker.step(&mut queue));
    assert_eq!(WorkerState::Stopped, worker.state);
}

#[test]
fn worker_that_fails_gives_up_its_receiver() {
    let mut queue: JobQueue<u32> = JobQueue::new();
    let mut first = Worker::new(0, &mut queue);
    let mut second = Worker::new(1, &mut queue);
    first.fail(&mut queue);
    assert_eq!(WorkerState::Failed, first.state);
    assert!(queue.accepts());
    assert_eq!(Ok(()), queue.send(Message::NewJob(1)));
    assert_eq!(Action::Run(1), second.step(&mut queue));
    second.fail(&mut queue);
    assert_eq!(WorkerState::Failed, second.state);
    assert!(!queue.accepts());
    assert_eq!(Action::Exit, first.step(&mut queue));
    assert_eq!(Action::Exit, second.step(&mut queue));
}

#[test]
fn thread_handle_is_taken_once() {
    let mut queue: JobQueue<u32> = JobQueue::new();
    let mut worker = Worker::new(0, &mut queue);
    assert!(worker.take_thread());
    assert_eq!(ThreadSlot::Joined, worker.thread);
    assert!(!worker.take_thread());
    assert!(!worker.take_thread());
    assert_eq!(ThreadSlot::Joined, worker.thread);
    assert_eq!(WorkerState::Idle, worker.state);
}
