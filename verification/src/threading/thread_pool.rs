//! Workers of the pool, as state machines: a worker is busy or idle and holds
//! at most one task. The threaded runtime keeps each worker behind a lock,
//! performs the steps these functions decide and waits when told to.

use vstd::prelude::*;

verus! {

/// Something a worker can execute.
pub trait Executable {
    fn exec(&self);
}

/// The state of a worker, as plain values.
pub struct WorkerState<T> {
    pub busy: bool,
    pub task: Option<T>,
}

/// What a worker's thread does next.
#[derive(Debug)]
pub enum WorkStep<T> {
    /// A task to run.
    Run(T),
    /// The worker was woken up to shut down: leave the work loop.
    Exit,
    /// Nothing to do yet: wait to be notified.
    Wait,
}

/// A worker: whether it is busy, and the task it was assigned.
#[derive(Debug)]
pub struct Worker<T> {
    busy: bool,
    task: Option<T>,
}

impl<T> View for Worker<T> {
    type V = WorkerState<T>;

    closed spec fn view(&self) -> WorkerState<T> {
        WorkerState { busy: self.busy, task: self.task }
    }
}

/// Assigning `work` to a worker in state `s`: the new state and the outcome.
/// A busy worker, or one that still holds a task, hands the work back.
pub open spec fn assign_spec<T>(s: WorkerState<T>, work: T) -> (WorkerState<T>, Result<(), T>) {
    if s.busy {
        (s, Err(work))
    } else if s.task is None {
        (WorkerState { busy: true, task: Some(work) }, Ok(()))
    } else {
        (s, Err(work))
    }
}

/// One step of a worker's thread in state `s`: run the task it holds; else,
/// when it is marked busy without a task, it is being shut down, so it clears
/// the mark and exits; else it waits.
pub open spec fn work_spec<T>(s: WorkerState<T>) -> (WorkerState<T>, WorkStep<T>) {
    match s.task {
        Some(t) => (WorkerState { busy: s.busy, task: None }, WorkStep::Run(t)),
        None => if s.busy {
            (WorkerState { busy: false, task: None }, WorkStep::Exit)
        } else {
            (s, WorkStep::Wait)
        },
    }
}

impl<T> Default for Worker<T> {
    /// A worker that is idle and holds no task.
    fn default() -> (w: Worker<T>)
        ensures
            w@ == (WorkerState::<T> { busy: false, task: None }),
    {
        Worker::new()
    }
}

impl<T> Worker<T> {
    /// A worker that is idle and holds no task.
    pub fn new() -> (w: Worker<T>)
        ensures
            w@ == (WorkerState::<T> { busy: false, task: None }),
    {
        Worker { busy: false, task: None }
    }

    /// Whether the worker is busy.
    pub fn busy(&self) -> (b: bool)
        ensures
            b == self@.busy,
    {
        self.busy
    }

    /// Assigns `work` to the worker: `Ok` when it was idle and held no task,
    /// after which it is busy with that task; otherwise the work comes back
    /// in `Err` and the worker is unchanged.
    pub fn assign(&mut self, work: T) -> (r: Result<(), T>)
        ensures
            (final(self)@, r) == assign_spec(old(self)@, work),
    {
        if self.busy {
            return Err(work);
        }
        match self.task {
            None => {
                self.task = Some(work);
                self.busy = true;
                Ok(())
            },
            Some(_) => Err(work),
        }
    }

    /// Decides the next step of the worker's thread, as `work_spec` says.
    pub fn do_work(&mut self) -> (step: WorkStep<T>)
        ensures
            (final(self)@, step) == work_spec(old(self)@),
    {
        match self.task.take() {
            Some(t) => WorkStep::Run(t),
            None => {
                if self.busy {
                    self.busy = false;
                    WorkStep::Exit
                } else {
                    WorkStep::Wait
                }
            },
        }
    }

    /// Records that the task handed out by [`Worker::do_work`] has run: the
    /// worker is idle again.
    pub fn finish(&mut self)
        ensures
            final(self)@ == (WorkerState { busy: false, ..old(self)@ }),
    {
        self.busy = false;
    }

    /// Marks the worker busy so that, holding no task, its thread exits on its
    /// next step.
    pub fn wake_up(&mut self)
        ensures
            final(self)@ == (WorkerState { busy: true, ..old(self)@ }),
    {
        self.busy = true;
    }
}

/// A worker that is idle and holds no task accepts a task, refuses a second
/// one, and hands the first to its thread on its next step.
pub proof fn lemma_assigned_task_runs<T>(s: WorkerState<T>, work: T, other: T)
    requires
        !s.busy,
        s.task is None,
    ensures
        assign_spec(s, work).1 is Ok,
        assign_spec(s, work).0.busy,
        assign_spec(assign_spec(s, work).0, other) == (assign_spec(s, work).0, Err::<(), T>(other)),
        work_spec(assign_spec(s, work).0) == (WorkerState::<T> { busy: true, task: None }, WorkStep::Run(work)),
{
}

/// Once the task has run and the worker has finished it, the worker is idle
/// again and accepts new work.
pub proof fn lemma_finished_worker_accepts_work<T>(s: WorkerState<T>, work: T)
    requires
        s.task is None,
    ensures
        assign_spec(WorkerState { busy: false, ..s }, work) == (WorkerState { busy: true, task: Some(work) }, Ok::<(), T>(())),
{
}

/// Shutting down: a worker woken up while it holds no task exits on its next
/// step and is left idle.
pub proof fn lemma_woken_worker_exits<T>(s: WorkerState<T>)
    requires
        s.task is None,
    ensures
        work_spec(WorkerState { busy: true, ..s }) == (WorkerState::<T> { busy: false, task: None }, WorkStep::<T>::Exit),
{
}

/// The number of idle workers among the busy flags `busy`.
pub open spec fn idle_count(busy: Seq<bool>) -> nat
    decreases busy.len(),
{
    if busy.len() == 0 {
        0
    } else {
        idle_count(busy.drop_last()) + if busy.last() { 0nat } else { 1nat }
    }
}

/// The number of idle workers, given each worker's busy flag.
pub fn available_workers(busy: &[bool]) -> (n: usize)
    ensures
        n == idle_count(busy@),
{
    let mut n: usize = 0;
    let mut i: usize = 0;
    while i < busy.len()
        invariant
            i <= busy@.len(),
            n == idle_count(busy@.take(i as int)),
            n <= i,
        decreases busy@.len() - i,
    {
        assert(busy@.take(i as int + 1).drop_last() == busy@.take(i as int));
        if !busy[i] {
            n = n + 1;
        }
        i = i + 1;
    }
    assert(busy@.take(busy@.len() as int) == busy@);
    n
}

/// The worker to submit a task to, given each worker's busy flag: the first
/// idle one, or `None` when every worker is busy.
pub fn idle_worker(busy: &[bool]) -> (r: Option<usize>)
    ensures
        match r {
            Some(i) => i < busy@.len() && !busy@[i as int] && forall|j: int| 0 <= j < i ==> busy@[j],
            None => forall|j: int| 0 <= j < busy@.len() ==> busy@[j],
        },
{
    let mut i: usize = 0;
    while i < busy.len()
        invariant
            i <= busy@.len(),
            forall|j: int| 0 <= j < i ==> busy@[j],
        decreases busy@.len() - i,
    {
        if !busy[i] {
            return Some(i);
        }
        i = i + 1;
    }
    None
}

} // verus!
