use vstd::prelude::*;
use std::collections::VecDeque;
use crate::worker::{Action, WorkerState};

verus! {

/// Why the pool refused a job.
#[derive(Clone, Copy, Debug, PartialEq, Eq, Structural)]
pub enum PoolError {
    /// Every worker has stopped: no worker will ever take another job.
    Stopped,
}

/// The number of workers in `s` that are running a job.
pub open spec fn count_executing(s: Seq<WorkerState>) -> nat
    decreases s.len(),
{
    if s.len() == 0 {
        0
    } else {
        count_executing(s.drop_last()) + if s.last() is Executing {
            1nat
        } else {
            0nat
        }
    }
}

/// Changing one worker's state changes the number of executing workers by
/// what that worker stops or starts doing.
proof fn lemma_count_update(s: Seq<WorkerState>, w: int, x: WorkerState)
    requires
        0 <= w < s.len(),
    ensures
        count_executing(s.update(w, x)) + (if s[w] is Executing {
            1int
        } else {
            0int
        }) == count_executing(s) + (if x is Executing {
            1int
        } else {
            0int
        }),
    decreases s.len(),
{
    if w == s.len() - 1 {
        assert(s.update(w, x).drop_last() =~= s.drop_last());
    } else {
        lemma_count_update(s.drop_last(), w, x);
        assert(s.update(w, x).drop_last() =~= s.drop_last().update(w, x));
    }
}

/// A pool of `size` workers sharing one first-in first-out queue of jobs.
///
/// Jobs are numbered by the order of their submission. Each one is queued,
/// then run by exactly one worker, then done. The host program keeps the
/// pool behind a lock, so that every call below is one atomic step, and
/// runs each job outside that lock.
pub struct ThreadPool<J> {
    queue: VecDeque<J>,
    workers: Vec<WorkerState>,
    closed: bool,
    /// Every job ever submitted, in order of submission.
    history: Ghost<Seq<J>>,
    /// How many jobs have left the queue.
    taken: Ghost<nat>,
    /// For each executing worker, the number of the job it runs.
    job_of: Ghost<Seq<nat>>,
}

impl<J> ThreadPool<J> {
    /// The jobs waiting in the queue, front first.
    pub closed spec fn queued(&self) -> Seq<J> {
        self.queue@
    }

    /// The state of each worker, by worker number.
    pub closed spec fn states(&self) -> Seq<WorkerState> {
        self.workers@
    }

    /// Whether submission has been closed.
    pub closed spec fn queue_closed(&self) -> bool {
        self.closed
    }

    /// Every job ever submitted, in order of submission.
    pub closed spec fn history(&self) -> Seq<J> {
        self.history@
    }

    /// How many jobs have been handed to a worker.
    pub closed spec fn taken(&self) -> nat {
        self.taken@
    }

    /// For each executing worker, the number of the job that it runs.
    pub closed spec fn job_of(&self) -> Seq<nat> {
        self.job_of@
    }

    pub open spec fn size(&self) -> nat {
        self.states().len()
    }

    pub open spec fn submitted(&self) -> nat {
        self.history().len()
    }

    /// Job `id` waits in the queue.
    pub open spec fn is_queued(&self, id: nat) -> bool {
        self.taken() <= id < self.submitted()
    }

    /// Worker `w` is running job `id`.
    pub open spec fn runs(&self, w: int, id: nat) -> bool {
        &&& 0 <= w < self.size()
        &&& self.states()[w] is Executing
        &&& self.job_of()[w] == id
    }

    /// Some worker is running job `id`.
    pub open spec fn is_running(&self, id: nat) -> bool {
        exists|w: int| self.runs(w, id)
    }

    /// The jobs that have run to completion.
    pub open spec fn done(&self) -> Set<nat> {
        Set::new(|id: nat| id < self.taken() && !self.is_running(id))
    }

    /// The pool's invariant: the queue holds exactly the submitted jobs that no
    /// worker has taken, in order, and no job runs on two workers. A worker
    /// stops only once the queue is closed, and once all have stopped nothing
    /// is left queued.
    pub open spec fn wf(&self) -> bool {
        &&& self.size() > 0
        &&& self.job_of().len() == self.size()
        &&& self.taken() <= self.submitted()
        &&& self.queued() == self.history().subrange(self.taken() as int, self.submitted() as int)
        &&& forall|w: int|
            0 <= w < self.size() && self.states()[w] is Executing ==> #[trigger] self.job_of()[w]
                < self.taken()
        &&& forall|v: int, w: int|
            0 <= v < self.size() && 0 <= w < self.size() && v != w && self.states()[v] is Executing
                && self.states()[w] is Executing ==> #[trigger] self.job_of()[v]
                != #[trigger] self.job_of()[w]
        &&& forall|w: int|
            0 <= w < self.size() && #[trigger] self.states()[w] is Stopped ==> self.queue_closed()
        &&& self.all_stopped_spec() ==> self.queued().len() == 0
    }

    /// Every worker has stopped.
    pub open spec fn all_stopped_spec(&self) -> bool {
        forall|w: int| 0 <= w < self.size() ==> #[trigger] self.states()[w] is Stopped
    }

    /// Work not yet done: two steps for each queued job (taken, then finished)
    /// and one for each running job (finished).
    pub open spec fn outstanding(&self) -> nat {
        2 * self.queued().len() + count_executing(self.states())
    }

    /// The same pool in every respect but the states of its workers.
    pub open spec fn same_but_states(&self, other: &Self) -> bool {
        &&& self.queued() == other.queued()
        &&& self.history() == other.history()
        &&& self.taken() == other.taken()
        &&& self.queue_closed() == other.queue_closed()
        &&& self.size() == other.size()
    }

    /// Creates a pool of `size` workers, all waiting on an empty queue.
    /// A pool needs at least one worker.
    pub fn new(size: usize) -> (p: Self)
        requires
            size > 0,
        ensures
            p.wf(),
            p.size() == size,
            forall|w: int| 0 <= w < size ==> p.states()[w] == WorkerState::Waiting,
            p.submitted() == 0,
            p.queued().len() == 0,
            !p.queue_closed(),
    {
        let mut workers: Vec<WorkerState> = Vec::with_capacity(size);
        let mut id: usize = 0;
        while id < size
            invariant
                id <= size,
                workers@.len() == id,
                forall|w: int| 0 <= w < id ==> workers@[w] == WorkerState::Waiting,
            decreases size - id,
        {
            workers.push(WorkerState::Waiting);
            id = id + 1;
        }
        let pool = ThreadPool {
            queue: VecDeque::new(),
            workers,
            closed: false,
            history: Ghost(Seq::empty()),
            taken: Ghost(0),
            job_of: Ghost(Seq::new(size as nat, |w: int| 0nat)),
        };
        assert(pool.queued() =~= pool.history().subrange(0, 0));
        pool
    }

    /// Submits `job`. It joins the back of the queue as long as some worker has
    /// not stopped, closed queue or not; once every worker has stopped it is
    /// refused with `Stopped`.
    pub fn execute(&mut self, job: J) -> (r: Result<(), PoolError>)
        requires
            old(self).wf(),
        ensures
            final(self).wf(),
            old(self).all_stopped_spec() ==> r == Err::<(), PoolError>(PoolError::Stopped) && *final(self) == *old(self),
            !old(self).all_stopped_spec() ==> {
                &&& r is Ok
                &&& final(self).queued() == old(self).queued().push(job)
                &&& final(self).history() == old(self).history().push(job)
                &&& final(self).taken() == old(self).taken()
                &&& final(self).states() == old(self).states()
                &&& final(self).job_of() == old(self).job_of()
                &&& final(self).queue_closed() == old(self).queue_closed()
            },
            final(self).done() == old(self).done(),
    {
        if self.all_stopped() {
            return Err(PoolError::Stopped);
        }
        proof {
            self.history@ = self.history@.push(job);
        }
        self.queue.push_back(job);
        assert(self.queued() =~= self.history().subrange(self.taken() as int, self.submitted() as int));
        proof {
            Self::lemma_done_frame(*old(self), *self);
        }
        Ok(())
    }

    /// Decides what waiting worker `worker` does next. If a job is queued, the
    /// front one is removed and handed to it, and the worker is executing.
    /// Otherwise, if the queue is closed, the worker stops; else it waits.
    pub fn next_action(&mut self, worker: usize) -> (r: Action<J>)
        requires
            old(self).wf(),
            worker < old(self).size(),
            old(self).states()[worker as int] is Waiting,
        ensures
            final(self).wf(),
            final(self).history() == old(self).history(),
            final(self).queue_closed() == old(self).queue_closed(),
            final(self).done() == old(self).done(),
            old(self).queued().len() > 0 ==> {
                &&& r == Action::Run(old(self).queued()[0])
                &&& final(self).queued() == old(self).queued().drop_first()
                &&& final(self).states() == old(self).states().update(
                    worker as int,
                    WorkerState::Executing,
                )
                &&& final(self).taken() == old(self).taken() + 1
                &&& final(self).runs(worker as int, old(self).taken())
                &&& final(self).outstanding() + 1 == old(self).outstanding()
            },
            old(self).queued().len() == 0 && old(self).queue_closed() ==> {
                &&& r is Stop
                &&& final(self).states() == old(self).states().update(
                    worker as int,
                    WorkerState::Stopped,
                )
                &&& final(self).same_but_states(old(self))
            },
            old(self).queued().len() == 0 && !old(self).queue_closed() ==> r is Wait && *final(self) == *old(self),
    {
        if self.queue.len() > 0 {
            let job = self.queue.pop_front().unwrap();
            proof {
                self.job_of@ = self.job_of@.update(worker as int, self.taken@);
                self.taken@ = self.taken@ + 1;
            }
            self.workers.set(worker, WorkerState::Executing);
            assert(self.queued() =~= self.history().subrange(
                self.taken() as int,
                self.submitted() as int,
            ));
            proof {
                assert(self.states()[worker as int] is Executing);
                Self::lemma_done_idle_step(*old(self), *self, worker as int);
                lemma_count_update(old(self).states(), worker as int, WorkerState::Executing);
            }
            Action::Run(job)
        } else if self.closed {
            self.workers.set(worker, WorkerState::Stopped);
            proof {
                Self::lemma_done_idle_step(*old(self), *self, worker as int);
                if self.all_stopped_spec() {
                    assert(self.queued().len() == 0);
                }
            }
            Action::Stop
        } else {
            Action::Wait
        }
    }

    /// Records that executing worker `worker` is through with its job, whether
    /// the job returned or failed: the job is done and the worker waits again,
    /// so a failing job costs the pool no worker.
    pub fn finish(&mut self, worker: usize)
        requires
            old(self).wf(),
            worker < old(self).size(),
            old(self).states()[worker as int] is Executing,
        ensures
            final(self).wf(),
            final(self).states() == old(self).states().update(worker as int, WorkerState::Waiting),
            final(self).same_but_states(old(self)),
            !old(self).done().contains(old(self).job_of()[worker as int]),
            final(self).done() == old(self).done().insert(old(self).job_of()[worker as int]),
            final(self).outstanding() + 1 == old(self).outstanding(),
    {
        self.workers.set(worker, WorkerState::Waiting);
        proof {
            let j = old(self).job_of()[worker as int];
            assert(old(self).runs(worker as int, j));
            assert(self.states()[worker as int] is Waiting);
            assert forall|id: nat| #[trigger] self.is_running(id) == (old(self).is_running(id) && id
                != j) by {
                if old(self).is_running(id) && id != j {
                    let v = choose|v: int| old(self).runs(v, id);
                    assert(self.runs(v, id));
                }
                if self.is_running(id) {
                    let v = choose|v: int| self.runs(v, id);
                    assert(old(self).runs(v, id));
                    assert(old(self).job_of()[v] != old(self).job_of()[worker as int]);
                }
            }
            assert(self.done() =~= old(self).done().insert(j));
            lemma_count_update(old(self).states(), worker as int, WorkerState::Waiting);
        }
    }

    /// A worker that ran no job changes state. Whether it now runs the next job
    /// in line or still runs none, the set of done jobs stays the same.
    proof fn lemma_done_idle_step(a: Self, b: Self, w: int)
        requires
            a.wf(),
            0 <= w < a.size(),
            !(a.states()[w] is Executing),
            b.states() == a.states().update(w, b.states()[w]),
            b.job_of().len() == a.job_of().len(),
            forall|v: int| 0 <= v < a.size() && v != w ==> b.job_of()[v] == a.job_of()[v],
            b.states()[w] is Executing ==> b.job_of()[w] == a.taken() && b.taken() == a.taken() + 1,
            !(b.states()[w] is Executing) ==> b.taken() == a.taken(),
        ensures
            b.done() == a.done(),
    {
        if b.states()[w] is Executing {
            assert(b.runs(w, a.taken()));
        }
        assert forall|id: nat| #[trigger] b.done().contains(id) == a.done().contains(id) by {
            if a.is_running(id) {
                let v = choose|v: int| a.runs(v, id);
                assert(b.runs(v, id));
            }
            if b.is_running(id) {
                let v = choose|v: int| b.runs(v, id);
                if v != w {
                    assert(a.runs(v, id));
                }
            }
        }
        assert(b.done() =~= a.done());
    }

    /// Closes the queue to new jobs. Jobs already queued are still handed out;
    /// once the queue is empty, each waiting worker is told to stop.
    pub fn close(&mut self)
        requires
            old(self).wf(),
        ensures
            final(self).wf(),
            final(self).queue_closed(),
            final(self).states() == old(self).states(),
            final(self).job_of() == old(self).job_of(),
            final(self).queued() == old(self).queued(),
            final(self).history() == old(self).history(),
            final(self).taken() == old(self).taken(),
            final(self).done() == old(self).done(),
    {
        self.closed = true;
        proof {
            Self::lemma_done_frame(*old(self), *self);
        }
    }

    /// The number of workers.
    pub fn worker_count(&self) -> (r: usize)
        ensures
            r == self.size(),
    {
        self.workers.len()
    }

    /// The number of jobs waiting in the queue.
    pub fn pending_count(&self) -> (r: usize)
        ensures
            r == self.queued().len(),
    {
        self.queue.len()
    }

    /// Whether the queue has been closed to new jobs.
    pub fn is_closed(&self) -> (r: bool)
        ensures
            r == self.queue_closed(),
    {
        self.closed
    }

    /// The state of worker `worker`, or `None` if the pool has no such worker.
    pub fn worker_state(&self, worker: usize) -> (r: Option<WorkerState>)
        ensures
            worker < self.size() ==> r == Some(self.states()[worker as int]),
            worker >= self.size() ==> r is None,
    {
        if worker < self.workers.len() {
            Some(self.workers[worker])
        } else {
            None
        }
    }

    /// The number of workers running a job at this moment.
    pub fn executing_count(&self) -> (r: usize)
        ensures
            r == count_executing(self.states()),
    {
        let mut n: usize = 0;
        let mut i: usize = 0;
        while i < self.workers.len()
            invariant
                i <= self.workers@.len(),
                n == count_executing(self.workers@.subrange(0, i as int)),
                n <= i,
            decreases self.workers@.len() - i,
        {
            assert(self.workers@.subrange(0, i + 1).drop_last() =~= self.workers@.subrange(0, i as int));
            if self.workers[i] == WorkerState::Executing {
                n = n + 1;
            }
            i = i + 1;
        }
        assert(self.workers@.subrange(0, i as int) =~= self.workers@);
        n
    }

    /// Whether every worker has stopped, so that all their threads may be joined.
    pub fn all_stopped(&self) -> (r: bool)
        ensures
            r == self.all_stopped_spec(),
    {
        let mut i: usize = 0;
        while i < self.workers.len()
            invariant
                i <= self.workers@.len(),
                forall|w: int| 0 <= w < i ==> self.workers@[w] is Stopped,
            decreases self.workers@.len() - i,
        {
            match self.workers[i] {
                WorkerState::Stopped => {},
                _ => {
                    return false;
                },
            }
            i = i + 1;
        }
        true
    }

    /// What is done is decided by the workers' states, their jobs and the
    /// number of jobs taken alone.
    proof fn lemma_done_frame(a: Self, b: Self)
        requires
            a.states() == b.states(),
            a.job_of() == b.job_of(),
            a.taken() == b.taken(),
        ensures
            a.done() == b.done(),
    {
        assert forall|id: nat| a.is_running(id) == b.is_running(id) by {
            if a.is_running(id) {
                let v = choose|v: int| a.runs(v, id);
                assert(b.runs(v, id));
            }
            if b.is_running(id) {
                let v = choose|v: int| b.runs(v, id);
                assert(a.runs(v, id));
            }
        }
        assert(a.done() =~= b.done());
    }

}

} // verus!
