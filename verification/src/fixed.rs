use crate::message::{Phase, PoolError, Step, WorkerState};
use crate::model::PoolView;
use crate::pool::ThreadPool;
use parking_lot::lock_api::{Mutex, MutexGuard};
use parking_lot::{Condvar, RawMutex};
use vstd::prelude::*;

verus! {

/// `parking_lot::RawMutex`, the lock inside a `parking_lot::Mutex`; nothing
/// is claimed of it.
#[verifier::external_type_specification]
#[verifier::external_body]
pub struct ExRawMutex(RawMutex);

/// `lock_api::Mutex`, of which `parking_lot::Mutex<T>` is the instance with
/// `RawMutex`; nothing is claimed of what it holds.
#[verifier::external_type_specification]
#[verifier::external_body]
#[verifier::reject_recursive_types(R)]
#[verifier::reject_recursive_types(T)]
pub struct ExMutex<R, T: ?Sized>(Mutex<R, T>);

/// `parking_lot::Condvar`; nothing is claimed of it.
#[verifier::external_type_specification]
#[verifier::external_body]
pub struct ExCondvar(Condvar);

/// The held lock of a pool: the `MutexGuard` of its mutex, whose own
/// declaration is bound by a trait of `lock_api`, beside the condition
/// variable of the same pool. Dropping it unlocks.
#[verifier::external_body]
#[verifier::reject_recursive_types(J)]
struct Held<'a, J> {
    guard: MutexGuard<'a, RawMutex, Sound<J>>,
    wake: &'a Condvar,
}

/// `Mutex::new` of parking_lot: an unlocked mutex around `value`.
#[verifier::external_body]
fn mutex_new<T>(value: T) -> Mutex<RawMutex, T> {
    Mutex::new(value)
}

/// `Condvar::new` of parking_lot.
#[verifier::external_body]
fn condvar_new() -> Condvar {
    Condvar::new()
}

/// `Mutex::lock` of parking_lot: blocks until the lock is free and holds it
/// from then on. What the mutex holds by then is up to the other threads, so
/// nothing is said of it. It never returns to a thread that holds the lock
/// already; the functions of this file lock once and unlock when they return.
#[verifier::external_body]
fn lock<'a, J>(pool: &'a FixedThreadPool<J>) -> Held<'a, J> {
    Held { guard: pool.state.lock(), wake: &pool.wake }
}

/// `DerefMut::deref_mut` of the guard: the value behind the held lock.
#[verifier::external_body]
fn guarded<'g, 'a, J>(held: &'g mut Held<'a, J>) -> &'g mut Sound<J> {
    &mut *held.guard
}

/// `Condvar::wait` of parking_lot: releases the lock, sleeps until notified,
/// and holds the lock again on return. It panics where one condition
/// variable serves two mutexes; here each is tied to the mutex it was made
/// beside.
#[verifier::external_body]
fn wait<'a, J>(held: &mut Held<'a, J>) {
    held.wake.wait(&mut held.guard)
}

/// `Condvar::notify_all` of parking_lot: wakes every thread that waits.
#[verifier::external_body]
fn notify_all(wake: &Condvar) {
    wake.notify_all();
}

/// What the lock guards: the pool, in a state it can reach, or nothing once
/// an operation on it was cut short.
///
/// Every method says what it returns and how the cell changes for each
/// content that the lock can hand over; the methods of `FixedThreadPool` lock,
/// make one such call, and unlock.
pub struct Sound<J> {
    pool: Option<ThreadPool<J>>,
}

/// Takes the pool out of its cell, leaving the cell empty.
fn check_out<J>(cell: &mut Sound<J>) -> (pool: Option<ThreadPool<J>>)
    ensures
        pool == old(cell).pool,
        pool matches Some(p) ==> p.wf(),
        final(cell).pool is None,
{
    let mut taken = Sound { pool: None };
    std::mem::swap(cell, &mut taken);
    proof {
        use_type_invariant(&taken);
    }
    let Sound { pool } = taken;
    pool
}

/// Puts the pool back into its cell.
fn check_in<J>(cell: &mut Sound<J>, pool: ThreadPool<J>)
    requires
        pool.wf(),
    ensures
        final(cell).pool == Some(pool),
{
    *cell = Sound { pool: Some(pool) };
}

impl<J> Sound<J> {
    #[verifier::type_invariant]
    spec fn sound(self) -> bool {
        self.pool matches Some(p) ==> p.wf()
    }

    /// The state of the pool in the cell, or `None` where the cell is empty.
    pub closed spec fn state(&self) -> Option<PoolView<J>> {
        match self.pool {
            Some(p) => Some(p@),
            None => None,
        }
    }

    /// A cell around `pool`.
    pub fn new(pool: ThreadPool<J>) -> (cell: Self)
        requires
            pool.wf(),
        ensures
            cell.state() == Some(pool@),
    {
        Sound { pool: Some(pool) }
    }

    /// Whether the cell holds a pool of exactly `size` workers.
    pub fn fits(&self, size: usize) -> (b: bool)
        ensures
            b == (self.state() matches Some(v) && v.inv() && v.workers.len() == size),
    {
        proof {
            use_type_invariant(self);
        }
        match &self.pool {
            Some(pool) => pool.size() == size,
            None => false,
        }
    }

    /// Submits `job` to the pool in the cell, which refuses it once shutdown
    /// has begun or no worker is left; an empty cell refuses it too.
    pub fn submit(&mut self, job: J) -> (r: Result<(), PoolError>)
        ensures
            match old(self).state() {
                Some(v) => final(self).state() == Some(v.submit(job)) && ((v.closed
                    || v.all_gone()) <==> r is Err),
                None => final(self).state() is None && r is Err,
            },
            r matches Err(e) ==> e == PoolError::Submission,
    {
        match check_out(self) {
            Some(mut pool) => {
                let r = pool.execute(job);
                check_in(self, pool);
                r
            },
            None => Err(PoolError::Submission),
        }
    }

    /// Begins shutdown of the pool in the cell, if that is a pool of `size`
    /// workers, and returns the number of sentinels appended: `size` the
    /// first time, none afterwards. A cell that is empty or holds a pool of
    /// another size is left as it is, with nothing appended.
    pub fn close(&mut self, size: usize) -> (sent: usize)
        ensures
            match old(self).state() {
                Some(v) => if v.workers.len() == size {
                    final(self).state() == Some(v.close()) && sent == (if v.closed {
                        0
                    } else {
                        v.workers.len()
                    })
                } else {
                    final(self).state() == old(self).state() && sent == 0
                },
                None => final(self).state() is None && sent == 0,
            },
    {
        proof {
            use_type_invariant(&*self);
        }
        if !self.fits(size) {
            return 0;
        }
        match check_out(self) {
            Some(mut pool) => {
                let sent = pool.join();
                check_in(self, pool);
                sent
            },
            None => 0,
        }
    }

    /// Raises the stop signal of the pool in the cell.
    pub fn force(&mut self)
        ensures
            match old(self).state() {
                Some(v) => final(self).state() == Some(v.force()),
                None => final(self).state() is None,
            },
    {
        match check_out(self) {
            Some(mut pool) => {
                pool.terminate();
                check_in(self, pool);
            },
            None => {},
        }
    }

    /// Worker `id` asks the pool in the cell for work; an empty cell sends
    /// every worker home.
    pub fn serve(&mut self, id: usize) -> (step: Step<J>)
        ensures
            match old(self).state() {
                Some(v) => final(self).state() == Some(v.take(id as int)) && step == v.step(
                    id as int,
                ),
                None => final(self).state() is None && step == Step::<J>::Exit,
            },
    {
        match check_out(self) {
            Some(mut pool) => {
                let step = pool.take(id);
                check_in(self, pool);
                step
            },
            None => Step::Exit,
        }
    }

    /// Worker `id` reports how its task ended, `finished` or aborted, and
    /// learns whether it was a busy worker; in an empty cell it was not.
    pub fn settle(&mut self, id: usize, finished: bool) -> (was_busy: bool)
        ensures
            match old(self).state() {
                Some(v) => final(self).state() == Some(
                    if finished {
                        v.complete(id as int)
                    } else {
                        v.abort(id as int)
                    },
                ) && was_busy == (v.knows(id as int) && v.workers[id as int]
                    == WorkerState::Busy),
                None => final(self).state() is None && !was_busy,
            },
    {
        match check_out(self) {
            Some(mut pool) => {
                let was_busy = if finished {
                    pool.complete(id)
                } else {
                    pool.abort(id)
                };
                check_in(self, pool);
                was_busy
            },
            None => false,
        }
    }

    /// The ids of the workers that the pool in the cell lost to aborted
    /// tasks, if that is a pool of `size` workers: each of them once,
    /// ascending, and no other. None for a cell that is empty or holds a pool
    /// of another size.
    pub fn failed(&self, size: usize) -> (ids: Vec<usize>)
        ensures
            match self.state() {
                Some(v) => if v.workers.len() == size {
                    &&& forall|j: int|
                        0 <= j < ids@.len() ==> v.knows(ids@[j] as int) && v.workers[ids@[j] as int]
                            == WorkerState::Failed
                    &&& forall|j: int, k: int| 0 <= j < k < ids@.len() ==> ids@[j] < ids@[k]
                    &&& forall|w: int|
                        0 <= w < v.workers.len() && v.workers[w] == WorkerState::Failed
                            ==> ids@.contains(w as usize)
                } else {
                    ids@.len() == 0
                },
                None => ids@.len() == 0,
            },
    {
        proof {
            use_type_invariant(self);
        }
        if !self.fits(size) {
            return Vec::new();
        }
        match &self.pool {
            Some(pool) => pool.failures(),
            None => Vec::new(),
        }
    }

    /// Whether the pool in the cell is joined. An empty cell counts as
    /// joined: its workers are sent home.
    pub fn joined(&self) -> (b: bool)
        ensures
            b == match self.state() {
                Some(v) => v.phase() == Phase::Joined,
                None => true,
            },
    {
        proof {
            use_type_invariant(self);
        }
        match &self.pool {
            Some(pool) => pool.is_joined(),
            None => true,
        }
    }
}

/// A worker pool behind a lock, for use from many threads at once.
///
/// The lock is held only while the pool's state is read or changed: a worker
/// that is handed a task by `next` runs it with the pool unlocked. A worker
/// that finds nothing queued sleeps until a submission, a shutdown or a stop
/// signal wakes it.
#[verifier::reject_recursive_types(J)]
pub struct FixedThreadPool<J> {
    state: Mutex<RawMutex, Sound<J>>,
    wake: Condvar,
    size: usize,
}

impl<J> FixedThreadPool<J> {
    /// Creates a pool of `size` idle workers, or refuses a pool without
    /// workers.
    pub fn new(size: usize) -> (r: Result<Self, PoolError>)
        ensures
            size == 0 <==> r is Err,
            r matches Err(e) ==> e == PoolError::Construction,
            r matches Ok(p) ==> p.workers() == size,
    {
        match ThreadPool::new(size) {
            Ok(pool) => Ok(
                FixedThreadPool {
                    state: mutex_new(Sound::new(pool)),
                    wake: condvar_new(),
                    size,
                },
            ),
            Err(e) => Err(e),
        }
    }

    /// The number of workers the pool was made for.
    pub closed spec fn workers(&self) -> nat {
        self.size as nat
    }

    /// The number of workers the pool was made for: the ids that `next`
    /// serves are those below it.
    pub fn size(&self) -> (n: usize)
        ensures
            n == self.workers(),
    {
        self.size
    }

    /// Submits `job` and wakes the workers. Fails once shutdown has begun or
    /// no worker is left to take the task: see `Sound::submit` for each state
    /// that the lock can hand over.
    pub fn execute(&self, job: J) -> (r: Result<(), PoolError>)
        ensures
            r matches Err(e) ==> e == PoolError::Submission,
    {
        let mut held = lock(self);
        let cell = guarded(&mut held);
        let r = cell.submit(job);
        notify_all(&self.wake);
        r
    }

    /// Begins shutdown and wakes the workers. Returns the number of sentinels
    /// appended: one for each worker the first time, none afterwards; see
    /// `Sound::close` for each state that the lock can hand over.
    pub fn join(&self) -> (sent: usize)
        ensures
            sent == 0 || sent == self.workers(),
    {
        let mut held = lock(self);
        let cell = guarded(&mut held);
        let sent = cell.close(self.size);
        notify_all(&self.wake);
        sent
    }

    /// Raises the stop signal and wakes the workers, so that every idle one
    /// exits at once.
    pub fn terminate(&self) {
        let mut held = lock(self);
        let cell = guarded(&mut held);
        cell.force();
        notify_all(&self.wake);
    }

    /// Worker `id` asks for work, and sleeps once if nothing is queued. The
    /// answer is `Wait` only if it woke to an empty queue: ask again. A worker
    /// that is told to exit wakes whoever waits for the pool to be joined. An
    /// `id` that names no worker of this pool is refused without locking.
    pub fn next(&self, id: usize) -> (step: Step<J>)
        ensures
            id >= self.workers() ==> step == Step::<J>::Refused,
    {
        if id >= self.size {
            return Step::Refused;
        }
        let mut held = lock(self);
        let cell = guarded(&mut held);
        let first = cell.serve(id);
        let step = match first {
            Step::Wait => {
                wait(&mut held);
                let cell = guarded(&mut held);
                cell.serve(id)
            },
            other => other,
        };
        match &step {
            Step::Exit => notify_all(&self.wake),
            _ => {},
        }
        step
    }

    /// Worker `id` reports how its task ended: `true` for a task that ran to
    /// the end, `false` for one that aborted, which costs the pool this
    /// worker. Returns whether `id` was a busy worker, which an `id` that
    /// names no worker of this pool never is.
    pub fn settle(&self, id: usize, finished: bool) -> (was_busy: bool)
        ensures
            id >= self.workers() ==> !was_busy,
    {
        if id >= self.size {
            return false;
        }
        let mut held = lock(self);
        let cell = guarded(&mut held);
        let was_busy = cell.settle(id, finished);
        notify_all(&self.wake);
        was_busy
    }

    /// The ids of the workers lost to aborted tasks so far: ids of this
    /// pool, ascending; see `Sound::failed` for each state that the lock can
    /// hand over.
    pub fn failures(&self) -> (ids: Vec<usize>)
        ensures
            forall|j: int| 0 <= j < ids@.len() ==> ids@[j] < self.workers(),
            forall|j: int, k: int| 0 <= j < k < ids@.len() ==> ids@[j] < ids@[k],
            ids@.len() <= self.workers(),
    {
        let mut held = lock(self);
        let cell = guarded(&mut held);
        let ids = cell.failed(self.size);
        proof {
            lemma_ascending_is_short(ids@, self.size as nat);
        }
        ids
    }

    /// Whether shutdown has begun and no worker is alive any more. A pool
    /// whose state was lost counts as joined: its workers are told to exit.
    pub fn is_joined(&self) -> (b: bool) {
        let mut held = lock(self);
        let cell = guarded(&mut held);
        cell.joined()
    }

    /// Waits for the pool to be joined, sleeping once if it is not yet.
    /// Returns whether it is joined by then: if not, ask again. Once a pool
    /// is joined it stays so.
    pub fn await_joined(&self) -> (joined: bool) {
        let mut held = lock(self);
        let cell = guarded(&mut held);
        if cell.joined() {
            return true;
        }
        wait(&mut held);
        let cell = guarded(&mut held);
        cell.joined()
    }
}

/// A strictly ascending sequence of numbers below `bound` has at most
/// `bound` entries.
proof fn lemma_ascending_is_short(ids: Seq<usize>, bound: nat)
    requires
        forall|j: int| 0 <= j < ids.len() ==> ids[j] < bound,
        forall|j: int, k: int| 0 <= j < k < ids.len() ==> ids[j] < ids[k],
    ensures
        ids.len() <= bound,
    decreases ids.len(),
{
    if ids.len() > 0 {
        let rest = ids.drop_last();
        let top = ids.last();
        assert forall|j: int| 0 <= j < rest.len() implies rest[j] < top by {
            assert(rest[j] == ids[j]);
        }
        assert forall|j: int, k: int| 0 <= j < k < rest.len() implies rest[j] < rest[k] by {
            assert(rest[j] == ids[j] && rest[k] == ids[k]);
        }
        lemma_ascending_is_short(rest, top as nat);
    }
}

} // verus!
