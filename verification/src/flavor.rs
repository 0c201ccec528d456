use vstd::prelude::*;

verus! {

/// The kind of asynchronous runtime a caller asks for.
#[derive(Clone, Copy, Debug, PartialEq, Eq, Structural)]
pub enum AsyncFlavor {
    /// Everything runs on the thread that drives the runtime.
    CurrentThread,
    /// A multi-threaded runtime with as many workers as the machine offers.
    AllThreads,
    /// A multi-threaded runtime with the given number of workers.
    WorkerThreads(usize),
}

/// How a runtime is to be built: on one thread or on several, and with how
/// many workers where the caller fixed their number.
#[derive(Clone, Copy, Debug, PartialEq, Eq, Structural)]
pub struct RuntimePlan {
    pub multi_thread: bool,
    pub worker_threads: Option<usize>,
}

impl AsyncFlavor {
    /// Whether a runtime of this flavor can be built at all: a fixed number
    /// of workers must be positive.
    pub open spec fn buildable(self) -> bool {
        self != AsyncFlavor::WorkerThreads(0)
    }

    /// The plan that this flavor stands for.
    pub open spec fn plan_of(self) -> RuntimePlan {
        match self {
            AsyncFlavor::CurrentThread => RuntimePlan { multi_thread: false, worker_threads: None },
            AsyncFlavor::AllThreads => RuntimePlan { multi_thread: true, worker_threads: None },
            AsyncFlavor::WorkerThreads(n) => RuntimePlan {
                multi_thread: true,
                worker_threads: Some(n),
            },
        }
    }

    /// The plan to build a runtime by, or `None` for a multi-threaded runtime
    /// without workers.
    pub fn plan(&self) -> (r: Option<RuntimePlan>)
        ensures
            r == (if self.buildable() {
                Some(self.plan_of())
            } else {
                None
            }),
    {
        match *self {
            AsyncFlavor::CurrentThread => Some(
                RuntimePlan { multi_thread: false, worker_threads: None },
            ),
            AsyncFlavor::AllThreads => Some(
                RuntimePlan { multi_thread: true, worker_threads: None },
            ),
            AsyncFlavor::WorkerThreads(n) => {
                if n == 0 {
                    None
                } else {
                    Some(RuntimePlan { multi_thread: true, worker_threads: Some(n) })
                }
            },
        }
    }
}

} // verus!
