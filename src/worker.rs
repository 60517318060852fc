use vstd::prelude::*;

verus! {

/// Where a worker stands in its life cycle.
#[derive(Clone, Copy, Debug, PartialEq, Eq, Structural)]
pub enum WorkerState {
    /// Blocked on the queue, ready to take the next job.
    Waiting,
    /// Running a job that it took from the queue.
    Executing,
    /// The queue is closed and drained: the worker's thread may exit.
    Stopped,
}

/// What a waiting worker is told to do next.
pub enum Action<J> {
    /// Run this job, which has been removed from the queue.
    Run(J),
    /// Nothing is queued yet: block until a job is submitted or the queue closes.
    Wait,
    /// Nothing is queued and nothing more will be: leave the dispatch loop.
    Stop,
}

} // verus!
