//! The bookkeeping of a fixed pool of workers that share one queue.
//!
//! Work goes in at the back of the queue and comes out at the front, one
//! item per worker at a time. The pool performs no work itself and starts no
//! thread: whoever owns the threads asks it, under a lock, what each worker
//! is to do next.

use std::collections::VecDeque;
use vstd::prelude::*;

verus! {

/// What travels through the queue.
#[derive(Debug, PartialEq, Eq)]
pub enum Message<J> {
    /// A job for whichever worker takes it.
    NewJob(J),
    /// The request that the worker who takes it stop.
    Terminate,
}

/// What a worker is to do next.
#[derive(Debug, PartialEq, Eq)]
pub enum Task<J> {
    /// Run this job, then ask again.
    Run(J),
    /// Stop for good.
    Exit,
    /// Nothing is queued: wait until something is, then ask again.
    Wait,
}

/// One worker of the pool.
pub struct Worker {
    id: usize,
    running: bool,
}

/// The mathematical value of a [`Worker`].
pub struct WorkerView {
    pub id: usize,
    pub running: bool,
}

impl View for Worker {
    type V = WorkerView;

    closed spec fn view(&self) -> WorkerView {
        WorkerView { id: self.id, running: self.running }
    }
}

/// What a running worker does with a message, and whether it runs on.
pub open spec fn received<J>(message: Message<J>) -> (bool, Task<J>) {
    match message {
        Message::NewJob(job) => (true, Task::Run(job)),
        Message::Terminate => (false, Task::Exit),
    }
}

impl Worker {
    /// A running worker.
    pub fn new(id: usize) -> (worker: Worker)
        ensures
            worker@ == (WorkerView { id, running: true }),
    {
        Worker { id, running: true }
    }

    /// The number of the worker in its pool.
    pub fn id(&self) -> (id: usize)
        ensures
            id == self@.id,
    {
        self.id
    }

    /// Whether the worker has not been told to stop.
    pub fn is_running(&self) -> (running: bool)
        ensures
            running == self@.running,
    {
        self.running
    }

    /// Takes a message: a job is handed back to be run, a termination stops
    /// the worker. A worker that has stopped takes nothing and stays
    /// stopped.
    pub fn receive<J>(&mut self, message: Message<J>) -> (task: Task<J>)
        ensures
            final(self)@.id == old(self)@.id,
            old(self)@.running ==> final(self)@.running == received(message).0 && task
                == received(message).1,
            !old(self)@.running ==> !final(self)@.running && task == Task::<J>::Exit,
    {
        if !self.running {
            return Task::Exit;
        }
        match message {
            Message::NewJob(job) => Task::Run(job),
            Message::Terminate => {
                self.running = false;
                Task::Exit
            },
        }
    }
}

/// A fixed set of workers and the queue they share.
pub struct ThreadPool<J> {
    workers: Vec<Worker>,
    queue: VecDeque<Message<J>>,
}

/// The mathematical value of a [`ThreadPool`].
pub struct PoolView<J> {
    pub workers: Seq<WorkerView>,
    pub queue: Seq<Message<J>>,
}

impl<J> View for ThreadPool<J> {
    type V = PoolView<J>;

    closed spec fn view(&self) -> PoolView<J> {
        PoolView { workers: Seq::new(self.workers@.len(), |i: int| self.workers@[i]@), queue: self.queue@ }
    }
}

/// The number of workers that have not stopped.
pub open spec fn running_count(workers: Seq<WorkerView>) -> nat
    decreases workers.len(),
{
    if workers.len() == 0 {
        0
    } else {
        running_count(workers.drop_last()) + if workers.last().running {
            1nat
        } else {
            0nat
        }
    }
}

/// The number of terminations in a queue.
pub open spec fn terminations<J>(queue: Seq<Message<J>>) -> nat
    decreases queue.len(),
{
    if queue.len() == 0 {
        0
    } else {
        terminations(queue.drop_last()) + if queue.last() is Terminate {
            1nat
        } else {
            0nat
        }
    }
}

/// The pool after a job has been handed in: the job waits behind everything
/// that was queued before it.
pub open spec fn executed<J>(pool: PoolView<J>, job: J) -> PoolView<J> {
    PoolView { queue: pool.queue.push(Message::NewJob(job)), ..pool }
}

/// The pool after it has been shut down: one termination for each worker
/// waits behind everything that was queued before.
pub open spec fn shut_down<J>(pool: PoolView<J>) -> PoolView<J> {
    PoolView {
        queue: pool.queue + Seq::new(pool.workers.len(), |i: int| Message::<J>::Terminate),
        ..pool
    }
}

/// Whether a worker of that number exists and has not stopped.
pub open spec fn can_take<J>(pool: PoolView<J>, worker: int) -> bool {
    0 <= worker < pool.workers.len() && pool.workers[worker].running
}

/// The pool after a worker has asked for its next task, and the task. A
/// worker that may take gets the oldest message of the queue.
pub open spec fn taken<J>(pool: PoolView<J>, worker: int) -> (PoolView<J>, Task<J>) {
    if !can_take(pool, worker) {
        (pool, Task::Exit)
    } else if pool.queue.len() == 0 {
        (pool, Task::Wait)
    } else {
        let (running, task) = received(pool.queue[0]);
        (
            PoolView {
                workers: pool.workers.update(
                    worker,
                    WorkerView { running, ..pool.workers[worker] },
                ),
                queue: pool.queue.drop_first(),
            },
            task,
        )
    }
}

impl<J> ThreadPool<J> {
    /// A pool of `size` running workers, numbered from zero, with nothing
    /// queued.
    pub fn new(size: usize) -> (pool: ThreadPool<J>)
        ensures
            pool@.queue == Seq::<Message<J>>::empty(),
            pool@.workers == Seq::new(
                size as nat,
                |i: int| WorkerView { id: i as usize, running: true },
            ),
    {
        let mut workers: Vec<Worker> = Vec::with_capacity(size);
        let mut id: usize = 0;
        while id < size
            invariant
                id <= size,
                workers@.len() == id,
                forall|i: int|
                    0 <= i < id ==> (#[trigger] workers@[i])@ == (WorkerView {
                        id: i as usize,
                        running: true,
                    }),
            decreases size - id,
        {
            workers.push(Worker::new(id));
            id = id + 1;
        }
        let pool = ThreadPool { workers, queue: VecDeque::new() };
        assert(pool@.workers =~= Seq::new(
            size as nat,
            |i: int| WorkerView { id: i as usize, running: true },
        ));
        pool
    }

    /// The number of workers, stopped or not.
    pub fn size(&self) -> (size: usize)
        ensures
            size == self@.workers.len(),
    {
        self.workers.len()
    }

    /// The number of messages that no worker has taken yet.
    pub fn queued(&self) -> (queued: usize)
        ensures
            queued == self@.queue.len(),
    {
        self.queue.len()
    }

    /// Hands in a job, to be run by the one worker that takes it.
    pub fn execute(&mut self, job: J)
        ensures
            final(self)@ == executed(old(self)@, job),
    {
        self.queue.push_back(Message::NewJob(job));
        assert(self@.workers =~= old(self)@.workers);
    }

    /// Queues one termination for each worker.
    pub fn shutdown(&mut self)
        ensures
            final(self)@ == shut_down(old(self)@),
    {
        let ghost size = self.workers@.len();
        let mut sent: usize = 0;
        while sent < self.workers.len()
            invariant
                sent <= size,
                self.workers == old(self).workers,
                size == self.workers@.len(),
                self.queue@ == old(self).queue@ + Seq::new(
                    sent as nat,
                    |i: int| Message::<J>::Terminate,
                ),
            decreases size - sent,
        {
            self.queue.push_back(Message::Terminate);
            assert(self.queue@ =~= old(self).queue@ + Seq::new(
                (sent + 1) as nat,
                |i: int| Message::<J>::Terminate,
            ));
            sent = sent + 1;
        }
        assert(self@.workers =~= old(self)@.workers);
    }

    /// Says what a worker is to do next. A worker that has stopped, or that
    /// the pool does not have, is told to stop; a running one gets the
    /// oldest message of the queue, or is told to wait for one.
    pub fn take(&mut self, worker: usize) -> (task: Task<J>)
        ensures
            final(self)@ == taken(old(self)@, worker as int).0,
            task == taken(old(self)@, worker as int).1,
    {
        if worker >= self.workers.len() || !self.workers[worker].is_running() {
            return Task::Exit;
        }
        match self.queue.pop_front() {
            None => {
                assert(self@.workers =~= old(self)@.workers);
                Task::Wait
            },
            Some(message) => {
                let task = self.workers[worker].receive(message);
                assert(self@.queue =~= old(self)@.queue.drop_first());
                assert(self@.workers =~= taken(old(self)@, worker as int).0.workers);
                task
            },
        }
    }

    /// Whether every worker has stopped.
    pub fn is_finished(&self) -> (finished: bool)
        ensures
            finished == (running_count(self@.workers) == 0),
    {
        let mut i: usize = 0;
        while i < self.workers.len()
            invariant
                i <= self.workers@.len(),
                running_count(self@.workers.take(i as int)) == 0,
            decreases self.workers@.len() - i,
        {
            proof {
                assert(self@.workers.take(i + 1).drop_last() =~= self@.workers.take(i as int));
            }
            if self.workers[i].is_running() {
                proof {
                    lemma_running_count_take(self@.workers, i + 1);
                }
                return false;
            }
            i = i + 1;
        }
        assert(self@.workers.take(i as int) =~= self@.workers);
        true
    }
}

/// The workers counted so far are never more than all of them.
pub proof fn lemma_running_count_take(workers: Seq<WorkerView>, n: int)
    requires
        0 <= n <= workers.len(),
    ensures
        running_count(workers.take(n)) <= running_count(workers),
    decreases workers.len() - n,
{
    if n < workers.len() {
        lemma_running_count_take(workers, n + 1);
        assert(workers.take(n + 1).drop_last() =~= workers.take(n));
    } else {
        assert(workers.take(n) =~= workers);
    }
}

/// First in, first out: of two jobs handed in one after the other to a pool
/// with nothing queued, a worker that takes twice gets the first job first
/// and the second job second.
pub proof fn lemma_first_in_first_out<J>(pool: PoolView<J>, worker: int, first: J, second: J)
    requires
        pool.queue.len() == 0,
        can_take(pool, worker),
    ensures
        ({
            let queued = executed(executed(pool, first), second);
            let (after_first, task_first) = taken(queued, worker);
            let (after_second, task_second) = taken(after_first, worker);
            &&& task_first == Task::Run(first)
            &&& task_second == Task::Run(second)
            &&& after_second.queue.len() == 0
        }),
{
    let queued = executed(executed(pool, first), second);
    assert(queued.queue.drop_first() =~= seq![Message::NewJob(second)]);
}

/// Whether as many terminations are queued as there are workers running,
/// or more: every running worker will come upon one.
pub open spec fn every_worker_told<J>(pool: PoolView<J>) -> bool {
    terminations(pool.queue) >= running_count(pool.workers)
}

/// No more workers are running than there are workers.
pub proof fn lemma_running_count_bound(workers: Seq<WorkerView>)
    ensures
        running_count(workers) <= workers.len(),
    decreases workers.len(),
{
    if workers.len() > 0 {
        lemma_running_count_bound(workers.drop_last());
    }
}

/// Replacing one worker changes the count by that worker alone.
pub proof fn lemma_running_count_update(workers: Seq<WorkerView>, i: int, w: WorkerView)
    requires
        0 <= i < workers.len(),
    ensures
        running_count(workers.update(i, w)) + (if workers[i].running {
            1nat
        } else {
            0nat
        }) == running_count(workers) + (if w.running {
            1nat
        } else {
            0nat
        }),
    decreases workers.len(),
{
    let updated = workers.update(i, w);
    if i == workers.len() - 1 {
        assert(updated.drop_last() =~= workers.drop_last());
    } else {
        lemma_running_count_update(workers.drop_last(), i, w);
        assert(updated.drop_last() =~= workers.drop_last().update(i, w));
    }
}

/// Taking the oldest message off a queue takes off one termination where
/// that message is one, and none where it is not.
pub proof fn lemma_terminations_drop_first<J>(queue: Seq<Message<J>>)
    requires
        queue.len() > 0,
    ensures
        terminations(queue.drop_first()) + (if queue[0] is Terminate {
            1nat
        } else {
            0nat
        }) == terminations(queue),
    decreases queue.len(),
{
    if queue.len() == 1 {
        assert(queue.drop_last() =~= Seq::<Message<J>>::empty());
        assert(queue.drop_first() =~= Seq::<Message<J>>::empty());
    } else {
        lemma_terminations_drop_first(queue.drop_last());
        assert(queue.drop_first().drop_last() =~= queue.drop_last().drop_first());
    }
}

/// Queueing `n` terminations adds `n` to their number.
pub proof fn lemma_terminations_appended<J>(queue: Seq<Message<J>>, n: nat)
    ensures
        terminations(queue + Seq::new(n, |i: int| Message::<J>::Terminate)) == terminations(queue)
            + n,
    decreases n,
{
    let longer = queue + Seq::new(n, |i: int| Message::<J>::Terminate);
    if n == 0 {
        assert(longer =~= queue);
    } else {
        lemma_terminations_appended(queue, (n - 1) as nat);
        assert(longer.drop_last() =~= queue + Seq::new(
            (n - 1) as nat,
            |i: int| Message::<J>::Terminate,
        ));
    }
}

/// Shutting down tells every worker, and once every worker is told, it
/// stays so whatever is handed in and whoever takes.
pub proof fn lemma_every_worker_told<J>(pool: PoolView<J>, job: J, worker: int)
    ensures
        every_worker_told(shut_down(pool)),
        every_worker_told(pool) ==> every_worker_told(executed(pool, job)),
        every_worker_told(pool) ==> every_worker_told(taken(pool, worker).0),
{
    lemma_terminations_appended(pool.queue, pool.workers.len());
    lemma_running_count_bound(pool.workers);
    assert(executed(pool, job).queue.drop_last() =~= pool.queue);
    if can_take(pool, worker) && pool.queue.len() > 0 {
        let (running, _) = received(pool.queue[0]);
        lemma_terminations_drop_first(pool.queue);
        lemma_running_count_update(
            pool.workers,
            worker,
            WorkerView { running, ..pool.workers[worker] },
        );
    }
}

/// Shutdown completes: once every worker is told and the queue has been
/// taken up, no worker is running.
pub proof fn lemma_no_worker_outlives_shutdown<J>(pool: PoolView<J>)
    requires
        every_worker_told(pool),
        pool.queue.len() == 0,
    ensures
        running_count(pool.workers) == 0,
        forall|i: int| 0 <= i < pool.workers.len() ==> !(#[trigger] pool.workers[i]).running,
{
    assert forall|i: int| 0 <= i < pool.workers.len() implies !(#[trigger] pool.workers[
        i
    ]).running by {
        if pool.workers[i].running {
            lemma_running_count_update(
                pool.workers,
                i,
                WorkerView { running: false, ..pool.workers[i] },
            );
        }
    }
}

} // verus!
