//! A fixed-size worker pool, stated as a verified state machine.
//!
//! The pool owns one FIFO queue of messages and a fixed set of workers. Every
//! decision of the pool (what a submission appends, which message a worker is
//! handed, when the pool counts as joined) is a function of this crate with a
//! proved contract. `FixedThreadPool` puts that state machine behind a lock
//! for use from many threads, and holds the lock only while a worker asks for
//! its next message. Spawning the threads that act as workers is left to the
//! caller.
use vstd::prelude::*;

pub mod fixed;
pub mod flavor;
pub mod message;
pub mod model;
pub mod pool;
pub mod redex;

pub use crate::fixed::{FixedThreadPool, Sound};
pub use crate::flavor::{AsyncFlavor, RuntimePlan};
pub use crate::message::{Msg, Phase, PoolError, Step, WorkerState};
pub use crate::pool::ThreadPool;
pub use crate::redex::Redex;
