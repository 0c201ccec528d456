use vstd::prelude::*;

verus! {

/// What travels on the pool's queue: a task to run, or the sentinel that
/// tells exactly one worker to leave its loop.
pub enum Msg<J> {
    /// Instructs the worker that takes it to stop.
    Terminate,
    /// A task for the worker that takes it.
    Task(J),
}

impl<J> Msg<J> {
    /// The task carried by a `Task` message.
    pub open spec fn job(self) -> J
        recommends
            self is Task,
    {
        match self {
            Msg::Task(j) => j,
            Msg::Terminate => arbitrary(),
        }
    }

    /// Whether this message is the shutdown sentinel.
    pub fn is_terminate(&self) -> (b: bool)
        ensures
            b == (*self is Terminate),
    {
        match self {
            Msg::Terminate => true,
            Msg::Task(_) => false,
        }
    }
}

/// What a worker is told when it asks the pool for work.
pub enum Step<J> {
    /// Execute the job with the pool unlocked, then tell the pool how it ended.
    Run(J),
    /// Leave the loop: a sentinel was taken, or the pool was forced to stop.
    Exit,
    /// Nothing is queued: block until something is appended and ask again.
    Wait,
    /// The caller is no idle worker of this pool; nothing changed.
    Refused,
}

/// Where a worker stands in its loop.
#[derive(Clone, Copy, Debug, PartialEq, Eq, Structural)]
pub enum WorkerState {
    /// Waiting for a message.
    Idle,
    /// Running a task it was handed.
    Busy,
    /// Left its loop in an orderly way.
    Exited,
    /// Ended because the task it ran aborted.
    Failed,
}

/// The life of a pool: `Running` until shutdown begins, `Draining` while
/// workers are still alive, `Joined` once none is.
#[derive(Clone, Copy, Debug, PartialEq, Eq, Structural)]
pub enum Phase {
    Running,
    Draining,
    Joined,
}

/// Why the pool refused an operation.
#[derive(Clone, Copy, Debug, PartialEq, Eq, Structural)]
pub enum PoolError {
    /// A pool needs at least one worker.
    Construction,
    /// The queue no longer accepts tasks: shutdown has begun, or no worker
    /// is left that could take one.
    Submission,
}

} // verus!
