use crate::message::{Msg, Phase, PoolError, Step, WorkerState};
use crate::model::{
    lemma_close_inv, lemma_force_inv, lemma_fresh_inv, lemma_settle_inv, lemma_submit_inv,
    lemma_take_inv, Outcome, PoolView,
};
use std::collections::VecDeque;
use vstd::prelude::*;

verus! {

/// A pool of a fixed number of workers around one FIFO queue of messages.
///
/// All lifecycle state lives in the value itself. Workers are named by their
/// index. A worker's loop is: `take`, and on `Run` execute the task with the
/// pool unlocked, then `complete` or `abort`; on `Wait` block until the queue
/// changes; on `Exit` stop.
pub struct ThreadPool<J> {
    queue: VecDeque<Msg<J>>,
    sentinels: usize,
    workers: Vec<WorkerState>,
    closed: bool,
    forced: bool,
    submitted: Ghost<Seq<J>>,
    started: Ghost<Seq<J>>,
    ticket: Ghost<Seq<Option<int>>>,
    outcome: Ghost<Seq<Outcome>>,
}

impl<J> View for ThreadPool<J> {
    type V = PoolView<J>;

    closed spec fn view(&self) -> PoolView<J> {
        PoolView {
            queue: self.queue@,
            sentinels: self.sentinels as nat,
            workers: self.workers@,
            closed: self.closed,
            forced: self.forced,
            submitted: self.submitted@,
            started: self.started@,
            ticket: self.ticket@,
            outcome: self.outcome@,
        }
    }
}

/// Appends `n` sentinels to `queue`.
fn push_sentinels<J>(queue: &mut VecDeque<Msg<J>>, n: usize)
    ensures
        final(queue)@ == old(queue)@ + Seq::new(n as nat, |i: int| Msg::<J>::Terminate),
{
    let mut k: usize = 0;
    assert(queue@ =~= old(queue)@ + Seq::new(0, |i: int| Msg::<J>::Terminate));
    while k < n
        invariant
            k <= n,
            queue@ == old(queue)@ + Seq::new(k as nat, |i: int| Msg::<J>::Terminate),
        decreases n - k,
    {
        queue.push_back(Msg::Terminate);
        k += 1;
        assert(queue@ =~= old(queue)@ + Seq::new(k as nat, |i: int| Msg::<J>::Terminate));
    }
}

impl<J> ThreadPool<J> {
    /// Whether the pool is in a state it can reach; every constructor
    /// establishes this and every method keeps it.
    pub open spec fn wf(&self) -> bool {
        self@.inv()
    }

    /// Creates a pool of `size` idle workers with an empty queue, or refuses
    /// a pool without workers.
    pub fn new(size: usize) -> (r: Result<Self, PoolError>)
        ensures
            size == 0 <==> r is Err,
            r matches Err(e) ==> e == PoolError::Construction,
            r matches Ok(p) ==> p.wf() && p@ == PoolView::<J>::fresh(size as nat),
    {
        if size == 0 {
            return Err(PoolError::Construction);
        }
        let mut workers: Vec<WorkerState> = Vec::with_capacity(size);
        let mut k: usize = 0;
        while k < size
            invariant
                k <= size,
                workers@.len() == k,
                forall|i: int| 0 <= i < k ==> workers@[i] == WorkerState::Idle,
            decreases size - k,
        {
            workers.push(WorkerState::Idle);
            k += 1;
        }
        let pool = ThreadPool {
            queue: VecDeque::new(),
            sentinels: 0,
            workers,
            closed: false,
            forced: false,
            submitted: Ghost(Seq::empty()),
            started: Ghost(Seq::empty()),
            ticket: Ghost(Seq::new(size as nat, |i: int| None)),
            outcome: Ghost(Seq::empty()),
        };
        proof {
            lemma_fresh_inv::<J>(size as nat);
            assert(pool@.workers =~= PoolView::<J>::fresh(size as nat).workers);
            assert(pool@.queue =~= PoolView::<J>::fresh(size as nat).queue);
        }
        Ok(pool)
    }

    /// Submits `job`: appends it to the queue as a task while the pool is
    /// running and has a worker left. Once shutdown has begun, or once every
    /// worker has left its loop, nothing could take the task: it is refused
    /// and the pool stays as it was.
    pub fn execute(&mut self, job: J) -> (r: Result<(), PoolError>)
        requires
            old(self).wf(),
        ensures
            final(self).wf(),
            final(self)@ == old(self)@.submit(job),
            (old(self)@.closed || old(self)@.all_gone()) <==> r is Err,
            r is Err ==> final(self)@ == old(self)@,
            r matches Err(e) ==> e == PoolError::Submission,
    {
        if self.closed || self.all_gone() {
            return Err(PoolError::Submission);
        }
        proof {
            lemma_submit_inv(self@, job);
        }
        self.queue.push_back(Msg::Task(job));
        self.submitted = Ghost(self.submitted@.push(job));
        Ok(())
    }

    /// Begins shutdown: appends one sentinel for each worker behind
    /// everything queued so far and closes the pool to submissions. Returns
    /// how many sentinels were appended: the number of workers the first
    /// time, none afterwards.
    pub fn join(&mut self) -> (sent: usize)
        requires
            old(self).wf(),
        ensures
            final(self).wf(),
            final(self)@ == old(self)@.close(),
            sent == (if old(self)@.closed { 0 } else { old(self)@.workers.len() }),
    {
        if self.closed {
            return 0;
        }
        proof {
            lemma_close_inv(self@);
        }
        let n = self.workers.len();
        push_sentinels(&mut self.queue, n);
        self.sentinels = n;
        self.closed = true;
        n
    }

    /// Raises the out-of-band stop signal: from now on an idle worker that
    /// asks for work is told to exit, whatever is queued.
    pub fn terminate(&mut self)
        requires
            old(self).wf(),
        ensures
            final(self).wf(),
            final(self)@ == old(self)@.force(),
    {
        proof {
            lemma_force_inv(self@);
        }
        self.forced = true;
    }

    /// Worker `id` asks for work. An idle worker is handed the oldest message
    /// of the queue: a task to run, or the order to exit. With nothing queued
    /// it is told to wait and nothing changes.
    pub fn take(&mut self, id: usize) -> (step: Step<J>)
        requires
            old(self).wf(),
        ensures
            final(self).wf(),
            step == old(self)@.step(id as int),
            final(self)@ == old(self)@.take(id as int),
    {
        proof {
            lemma_take_inv(self@, id as int);
        }
        if id >= self.workers.len() {
            return Step::Refused;
        }
        match self.workers[id] {
            WorkerState::Idle => {},
            _ => {
                return Step::Refused;
            },
        }
        if self.forced {
            self.workers.set(id, WorkerState::Exited);
            return Step::Exit;
        }
        match self.queue.pop_front() {
            None => Step::Wait,
            Some(Msg::Task(job)) => {
                self.workers.set(id, WorkerState::Busy);
                self.ticket = Ghost(
                    self.ticket@.update(id as int, Some(self.started@.len() as int)),
                );
                self.outcome = Ghost(self.outcome@.push(Outcome::Running(id as int)));
                self.started = Ghost(self.started@.push(job));
                Step::Run(job)
            },
            Some(Msg::Terminate) => {
                self.sentinels = self.sentinels - 1;
                self.workers.set(id, WorkerState::Exited);
                Step::Exit
            },
        }
    }

    /// Moves worker `id` from `Busy` to `to`, and says whether it was busy.
    fn settle(&mut self, id: usize, to: WorkerState) -> (was_busy: bool)
        requires
            old(self).wf(),
            to == WorkerState::Idle || to == WorkerState::Failed,
        ensures
            final(self).wf(),
            final(self)@ == old(self)@.settle(id as int, to),
            was_busy == (old(self)@.knows(id as int) && old(self)@.workers[id as int]
                == WorkerState::Busy),
    {
        proof {
            lemma_settle_inv(self@, id as int, to);
        }
        if id >= self.workers.len() {
            return false;
        }
        match self.workers[id] {
            WorkerState::Busy => {
                self.workers.set(id, to);
                self.outcome = Ghost(
                    self.outcome@.update(
                        self.ticket@[id as int].unwrap(),
                        if to == WorkerState::Idle {
                            Outcome::Finished
                        } else {
                            Outcome::Aborted(id as int)
                        },
                    ),
                );
                self.ticket = Ghost(self.ticket@.update(id as int, None));
                true
            },
            _ => false,
        }
    }

    /// Worker `id` reports that its task ran to the end: it is idle again.
    /// Returns whether `id` was a busy worker; if not, nothing changes.
    pub fn complete(&mut self, id: usize) -> (was_busy: bool)
        requires
            old(self).wf(),
        ensures
            final(self).wf(),
            final(self)@ == old(self)@.complete(id as int),
            was_busy == (old(self)@.knows(id as int) && old(self)@.workers[id as int]
                == WorkerState::Busy),
    {
        self.settle(id, WorkerState::Idle)
    }

    /// The task of worker `id` aborted: the worker is lost for good and is
    /// not replaced. Returns whether `id` was a busy worker; if not, nothing
    /// changes.
    pub fn abort(&mut self, id: usize) -> (was_busy: bool)
        requires
            old(self).wf(),
        ensures
            final(self).wf(),
            final(self)@ == old(self)@.abort(id as int),
            was_busy == (old(self)@.knows(id as int) && old(self)@.workers[id as int]
                == WorkerState::Busy),
    {
        self.settle(id, WorkerState::Failed)
    }

    /// Whether every worker has left its loop.
    fn all_gone(&self) -> (b: bool)
        ensures
            b == self@.all_gone(),
    {
        let mut w: usize = 0;
        while w < self.workers.len()
            invariant
                w <= self.workers@.len(),
                forall|i: int| 0 <= i < w ==> self@.gone(i),
            decreases self.workers@.len() - w,
        {
            match self.workers[w] {
                WorkerState::Exited | WorkerState::Failed => {},
                _ => {
                    assert(!self@.gone(w as int));
                    return false;
                },
            }
            w += 1;
        }
        true
    }

    /// Where the pool stands in its life.
    pub fn phase(&self) -> (p: Phase)
        ensures
            p == self@.phase(),
    {
        if !self.closed {
            Phase::Running
        } else if self.all_gone() {
            Phase::Joined
        } else {
            Phase::Draining
        }
    }

    /// Whether shutdown has begun and no worker is alive any more: the moment
    /// a blocking shutdown may return.
    pub fn is_joined(&self) -> (b: bool)
        requires
            self.wf(),
        ensures
            b == (self@.phase() == Phase::Joined),
            b ==> forall|w: int|
                0 <= w < self@.workers.len() ==> (#[trigger] self@.workers[w]) != WorkerState::Idle
                    && self@.workers[w] != WorkerState::Busy,
            b ==> forall|i: int|
                0 <= i < self@.started.len() ==> !((#[trigger] self@.outcome[i]) is Running),
    {
        let b = self.closed && self.all_gone();
        proof {
            if b {
                crate::model::lemma_joined_no_worker_alive(self@);
            }
        }
        b
    }

    /// The ids of the workers that were lost to an aborted task: each of
    /// them once, in ascending order, and no other.
    pub fn failures(&self) -> (ids: Vec<usize>)
        ensures
            forall|j: int|
                0 <= j < ids@.len() ==> self@.knows(ids@[j] as int) && self@.workers[ids@[j] as int]
                    == WorkerState::Failed,
            forall|j: int, k: int| 0 <= j < k < ids@.len() ==> ids@[j] < ids@[k],
            forall|w: int|
                0 <= w < self@.workers.len() && self@.workers[w] == WorkerState::Failed
                    ==> ids@.contains(w as usize),
    {
        let mut ids: Vec<usize> = Vec::new();
        let mut w: usize = 0;
        while w < self.workers.len()
            invariant
                w <= self.workers@.len(),
                forall|j: int|
                    0 <= j < ids@.len() ==> ids@[j] < w && self.workers@[ids@[j] as int]
                        == WorkerState::Failed,
                forall|j: int, k: int| 0 <= j < k < ids@.len() ==> ids@[j] < ids@[k],
                forall|i: int|
                    0 <= i < w && self.workers@[i] == WorkerState::Failed ==> ids@.contains(
                        i as usize,
                    ),
            decreases self.workers@.len() - w,
        {
            let ghost before = ids@;
            match self.workers[w] {
                WorkerState::Failed => {
                    ids.push(w);
                    assert(ids@[before.len() as int] == w);
                },
                _ => {},
            }
            assert forall|i: int|
                0 <= i < w + 1 && self.workers@[i] == WorkerState::Failed implies ids@.contains(
                i as usize,
            ) by {
                if i < w {
                    assert(before.contains(i as usize));
                    let j = choose|j: int| 0 <= j < before.len() && before[j] == i as usize;
                    assert(ids@[j] == i as usize);
                } else {
                    assert(ids@[before.len() as int] == w);
                }
            }
            w += 1;
        }
        ids
    }

    /// The number of workers the pool was made with.
    pub fn size(&self) -> (n: usize)
        ensures
            n == self@.workers.len(),
    {
        self.workers.len()
    }

    /// The number of messages in the queue, sentinels included.
    pub fn queued(&self) -> (n: usize)
        ensures
            n == self@.queue.len(),
    {
        self.queue.len()
    }

    /// The state of worker `id`, if the pool has such a worker.
    pub fn state_of(&self, id: usize) -> (s: Option<WorkerState>)
        ensures
            s == (if self@.knows(id as int) {
                Some(self@.workers[id as int])
            } else {
                None
            }),
    {
        if id < self.workers.len() {
            Some(self.workers[id])
        } else {
            None
        }
    }

    /// Whether the stop signal was raised.
    pub fn is_forced(&self) -> (b: bool)
        ensures
            b == self@.forced,
    {
        self.forced
    }
}

} // verus!
