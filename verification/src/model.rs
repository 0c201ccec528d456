use crate::message::{Msg, Phase, Step, WorkerState};
use vstd::prelude::*;

verus! {

/// What became of a task that was handed to a worker.
pub enum Outcome {
    /// The worker of this id is still running it.
    Running(int),
    /// It ran to the end.
    Finished,
    /// It aborted, and took the worker of this id with it.
    Aborted(int),
}

/// One thing that can happen to a pool.
pub enum Op<J> {
    /// A task is submitted.
    Submit(J),
    /// Shutdown begins.
    Close,
    /// The stop signal is raised.
    Force,
    /// The worker of this id asks for work.
    Take(int),
    /// The worker of this id reports that its task ran to the end.
    Complete(int),
    /// The worker of this id reports that its task aborted.
    Abort(int),
}

/// The mathematical state of a pool.
///
/// `queue` is the message queue, oldest first; its last `sentinels` entries
/// are the shutdown sentinels. `submitted` lists every task ever accepted and
/// `started` every task ever handed to a worker, both in order. `outcome`
/// says of each started task, by its position in `started`, what became of
/// it, and `ticket` says of each worker which started task it is running.
pub struct PoolView<J> {
    pub queue: Seq<Msg<J>>,
    pub sentinels: nat,
    pub workers: Seq<WorkerState>,
    pub closed: bool,
    pub forced: bool,
    pub submitted: Seq<J>,
    pub started: Seq<J>,
    pub ticket: Seq<Option<int>>,
    pub outcome: Seq<Outcome>,
}

impl<J> PoolView<J> {
    /// A fresh pool of `size` idle workers.
    pub open spec fn fresh(size: nat) -> Self {
        PoolView {
            queue: Seq::empty(),
            sentinels: 0,
            workers: Seq::new(size, |i: int| WorkerState::Idle),
            closed: false,
            forced: false,
            submitted: Seq::empty(),
            started: Seq::empty(),
            ticket: Seq::new(size, |i: int| None),
            outcome: Seq::empty(),
        }
    }

    /// The tasks that are queued and not yet handed out, oldest first.
    pub open spec fn pending(self) -> Seq<J> {
        Seq::new((self.queue.len() - self.sentinels) as nat, |i: int| self.queue[i].job())
    }

    /// Whether `id` names a worker of this pool.
    pub open spec fn knows(self, id: int) -> bool {
        0 <= id < self.workers.len()
    }

    /// Whether worker `id` has left its loop, in either way.
    pub open spec fn gone(self, id: int) -> bool {
        self.workers[id] == WorkerState::Exited || self.workers[id] == WorkerState::Failed
    }

    /// Whether no worker is alive any more.
    pub open spec fn all_gone(self) -> bool {
        forall|w: int| 0 <= w < self.workers.len() ==> self.gone(w)
    }

    /// Whether no worker has left its loop in an orderly way.
    pub open spec fn none_exited(self) -> bool {
        forall|w: int|
            0 <= w < self.workers.len() ==> #[trigger] self.workers[w] != WorkerState::Exited
    }

    /// Where the pool stands in its life.
    pub open spec fn phase(self) -> Phase {
        if !self.closed {
            Phase::Running
        } else if self.all_gone() {
            Phase::Joined
        } else {
            Phase::Draining
        }
    }

    /// Whether worker `w` holds the ticket of a started task that is recorded
    /// as running on it.
    pub open spec fn runs(self, w: int) -> bool {
        self.ticket[w] matches Some(i) && 0 <= i < self.outcome.len() && self.outcome[i]
            == Outcome::Running(w)
    }

    /// Whether the record of started task `i` agrees with the workers: one
    /// that is running is on a busy worker that holds its ticket, and one that
    /// aborted names a worker that is lost.
    pub open spec fn accounted(self, i: int) -> bool {
        match self.outcome[i] {
            Outcome::Running(w) => 0 <= w < self.workers.len() && self.workers[w]
                == WorkerState::Busy && self.ticket[w] == Some(i),
            Outcome::Finished => true,
            Outcome::Aborted(w) => 0 <= w < self.workers.len() && self.workers[w]
                == WorkerState::Failed,
        }
    }

    /// What holds of every state a pool can reach.
    pub open spec fn inv(self) -> bool {
        &&& self.workers.len() >= 1
        &&& self.sentinels <= self.queue.len()
        &&& forall|i: int|
            0 <= i < self.queue.len() ==> ((#[trigger] self.queue[i]) is Task <==> i
                < self.queue.len() - self.sentinels)
        &&& (!self.closed ==> self.sentinels == 0)
        &&& self.started + self.pending() == self.submitted
        &&& (!self.forced && (!self.closed || self.pending().len() > 0) ==> self.none_exited())
        &&& self.ticket.len() == self.workers.len()
        &&& self.outcome.len() == self.started.len()
        &&& forall|w: int|
            0 <= w < self.workers.len() && #[trigger] self.workers[w] == WorkerState::Busy
                ==> self.runs(w)
        &&& forall|i: int| 0 <= i < self.outcome.len() ==> self.accounted(i)
    }

    /// Whether a submission is accepted: shutdown has not begun and at least
    /// one worker is left that could take the task.
    pub open spec fn accepts(self) -> bool {
        !self.closed && !self.all_gone()
    }

    /// The state after `job` is submitted: appended while the pool accepts
    /// tasks; refused, with nothing changed, once shutdown has begun or no
    /// worker is left.
    pub open spec fn submit(self, job: J) -> Self {
        if !self.accepts() {
            self
        } else {
            PoolView {
                queue: self.queue.push(Msg::Task(job)),
                submitted: self.submitted.push(job),
                ..self
            }
        }
    }

    /// The state after shutdown begins: one sentinel per worker is appended,
    /// once.
    pub open spec fn close(self) -> Self {
        if self.closed {
            self
        } else {
            PoolView {
                queue: self.queue + Seq::new(self.workers.len(), |i: int| Msg::Terminate),
                sentinels: self.workers.len(),
                closed: true,
                ..self
            }
        }
    }

    /// The state after the out-of-band stop signal is raised.
    pub open spec fn force(self) -> Self {
        PoolView { forced: true, ..self }
    }

    /// What worker `id` is told when it asks for work.
    pub open spec fn step(self, id: int) -> Step<J> {
        if !self.knows(id) || self.workers[id] != WorkerState::Idle {
            Step::Refused
        } else if self.forced {
            Step::Exit
        } else if self.queue.len() == 0 {
            Step::Wait
        } else {
            match self.queue[0] {
                Msg::Task(j) => Step::Run(j),
                Msg::Terminate => Step::Exit,
            }
        }
    }

    /// The state after worker `id` asked for work.
    pub open spec fn take(self, id: int) -> Self {
        if !self.knows(id) || self.workers[id] != WorkerState::Idle {
            self
        } else if self.forced {
            PoolView { workers: self.workers.update(id, WorkerState::Exited), ..self }
        } else if self.queue.len() == 0 {
            self
        } else {
            match self.queue[0] {
                Msg::Task(j) => PoolView {
                    queue: self.queue.drop_first(),
                    workers: self.workers.update(id, WorkerState::Busy),
                    started: self.started.push(j),
                    ticket: self.ticket.update(id, Some(self.started.len() as int)),
                    outcome: self.outcome.push(Outcome::Running(id)),
                    ..self
                },
                Msg::Terminate => PoolView {
                    queue: self.queue.drop_first(),
                    sentinels: (self.sentinels - 1) as nat,
                    workers: self.workers.update(id, WorkerState::Exited),
                    ..self
                },
            }
        }
    }

    /// The state after the workers `ids` asked for work one after the other,
    /// in that order, none of them reporting back in between.
    pub open spec fn take_each(self, ids: Seq<int>) -> Self
        decreases ids.len(),
    {
        if ids.len() == 0 {
            self
        } else {
            self.take_each(ids.drop_last()).take(ids.last())
        }
    }

    /// Whether `ids` names idle workers of this pool, each of them once.
    pub open spec fn idle_crew(self, ids: Seq<int>) -> bool {
        &&& forall|k: int|
            0 <= k < ids.len() ==> self.knows(#[trigger] ids[k]) && self.workers[ids[k]]
                == WorkerState::Idle
        &&& forall|j: int, k: int| 0 <= j < k < ids.len() ==> ids[j] != ids[k]
    }

    /// The state after `op`.
    pub open spec fn apply(self, op: Op<J>) -> Self {
        match op {
            Op::Submit(job) => self.submit(job),
            Op::Close => self.close(),
            Op::Force => self.force(),
            Op::Take(id) => self.take(id),
            Op::Complete(id) => self.complete(id),
            Op::Abort(id) => self.abort(id),
        }
    }

    /// The state after `ops` happened one after the other.
    pub open spec fn run(self, ops: Seq<Op<J>>) -> Self
        decreases ops.len(),
    {
        if ops.len() == 0 {
            self
        } else {
            self.run(ops.drop_last()).apply(ops.last())
        }
    }

    /// The state after worker `id` is moved from `Busy` to `to`, with the
    /// task it ran recorded as finished where `to` is `Idle` and as aborted
    /// otherwise; unchanged where `id` is no busy worker.
    pub open spec fn settle(self, id: int, to: WorkerState) -> Self {
        if self.knows(id) && self.workers[id] == WorkerState::Busy {
            PoolView {
                workers: self.workers.update(id, to),
                ticket: self.ticket.update(id, None),
                outcome: self.outcome.update(
                    self.ticket[id].unwrap(),
                    if to == WorkerState::Idle {
                        Outcome::Finished
                    } else {
                        Outcome::Aborted(id)
                    },
                ),
                ..self
            }
        } else {
            self
        }
    }

    /// The state after worker `id` ran its task to the end.
    pub open spec fn complete(self, id: int) -> Self {
        self.settle(id, WorkerState::Idle)
    }

    /// The state after the task of worker `id` aborted: that worker is lost,
    /// everything else stands.
    pub open spec fn abort(self, id: int) -> Self {
        self.settle(id, WorkerState::Failed)
    }
}

/// A fresh pool with at least one worker is in a valid state.
pub proof fn lemma_fresh_inv<J>(size: nat)
    requires
        size >= 1,
    ensures
        PoolView::<J>::fresh(size).inv(),
        PoolView::<J>::fresh(size).phase() == Phase::Running,
{
    let v = PoolView::<J>::fresh(size);
    assert(v.started + v.pending() =~= v.submitted);
}

/// The record of started tasks stays sound where neither it nor the workers
/// change.
proof fn lemma_books_carry<J>(v: PoolView<J>, n: PoolView<J>)
    requires
        v.inv(),
        n.workers == v.workers,
        n.ticket == v.ticket,
        n.outcome == v.outcome,
    ensures
        forall|w: int|
            0 <= w < n.workers.len() && #[trigger] n.workers[w] == WorkerState::Busy ==> n.runs(w),
        forall|i: int| 0 <= i < n.outcome.len() ==> n.accounted(i),
{
    assert forall|w: int|
        0 <= w < n.workers.len() && #[trigger] n.workers[w] == WorkerState::Busy implies n.runs(
        w,
    ) by {
        assert(v.runs(w));
    }
    assert forall|i: int| 0 <= i < n.outcome.len() implies n.accounted(i) by {
        assert(v.accounted(i));
    }
}

/// Submitting keeps the state valid.
pub proof fn lemma_submit_inv<J>(v: PoolView<J>, job: J)
    requires
        v.inv(),
    ensures
        v.submit(job).inv(),
{
    let n = v.submit(job);
    lemma_books_carry(v, n);
    if v.accepts() {
        assert(n.pending() =~= v.pending().push(job));
        assert(n.started + n.pending() =~= n.submitted);
    }
}

/// Beginning shutdown keeps the state valid, and leaves the pool closed.
pub proof fn lemma_close_inv<J>(v: PoolView<J>)
    requires
        v.inv(),
    ensures
        v.close().inv(),
        v.close().closed,
        v.close().pending() == v.pending(),
{
    let n = v.close();
    lemma_books_carry(v, n);
    if !v.closed {
        assert(n.pending() =~= v.pending());
    }
}

/// Raising the stop signal keeps the state valid.
pub proof fn lemma_force_inv<J>(v: PoolView<J>)
    requires
        v.inv(),
    ensures
        v.force().inv(),
{
    lemma_books_carry(v, v.force());
    assert(v.force().pending() =~= v.pending());
}

/// Handing a worker its next message keeps the state valid.
pub proof fn lemma_take_inv<J>(v: PoolView<J>, id: int)
    requires
        v.inv(),
    ensures
        v.take(id).inv(),
{
    let n = v.take(id);
    if v.knows(id) && v.workers[id] == WorkerState::Idle {
        assert forall|w: int|
            0 <= w < n.workers.len() && #[trigger] n.workers[w]
                == WorkerState::Busy implies n.runs(w) by {
            if w != id {
                assert(v.workers[w] == WorkerState::Busy);
                assert(v.runs(w));
            }
        }
        assert forall|i: int| 0 <= i < n.outcome.len() implies n.accounted(i) by {
            if i < v.outcome.len() {
                assert(v.accounted(i));
                if let Outcome::Running(w) = v.outcome[i] {
                    assert(w != id);
                }
            }
        }
        if v.forced {
            assert(n.pending() =~= v.pending());
        } else if v.queue.len() > 0 {
            match v.queue[0] {
                Msg::Task(j) => {
                    assert(n.pending() =~= v.pending().drop_first());
                    assert(v.pending()[0] == j);
                    assert(n.started + n.pending() =~= v.started + v.pending());
                },
                Msg::Terminate => {
                    assert(v.pending().len() == 0);
                    assert(n.pending() =~= v.pending());
                    assert(v.closed);
                },
            }
        }
    }
}

/// Settling a busy worker keeps the state valid, whichever way its task
/// ended.
pub proof fn lemma_settle_inv<J>(v: PoolView<J>, id: int, to: WorkerState)
    requires
        v.inv(),
        to == WorkerState::Idle || to == WorkerState::Failed,
    ensures
        v.settle(id, to).inv(),
{
    let n = v.settle(id, to);
    assert(n.pending() =~= v.pending());
    if v.knows(id) && v.workers[id] == WorkerState::Busy {
        assert(v.runs(id));
        let t = v.ticket[id].unwrap();
        assert forall|w: int|
            0 <= w < n.workers.len() && #[trigger] n.workers[w]
                == WorkerState::Busy implies n.runs(w) by {
            assert(v.workers[w] == WorkerState::Busy);
            assert(v.runs(w));
        }
        assert forall|i: int| 0 <= i < n.outcome.len() implies n.accounted(i) by {
            if i != t {
                assert(v.accounted(i));
            }
        }
    }
}

/// Tasks are handed out in the order in which they were submitted, none lost
/// and none twice: what was handed out so far, followed by what is still
/// queued, is exactly what was submitted.
pub proof fn lemma_fifo<J>(v: PoolView<J>)
    requires
        v.inv(),
    ensures
        v.started + v.pending() == v.submitted,
        v.started.len() <= v.submitted.len(),
        forall|i: int| 0 <= i < v.started.len() ==> v.started[i] == v.submitted[i],
{
    let whole = v.started + v.pending();
    assert forall|i: int| 0 <= i < v.started.len() implies v.started[i] == v.submitted[i] by {
        assert(whole[i] == v.started[i]);
    }
}

/// An idle worker never waits while a task is queued: unless the pool was
/// forced to stop, it is handed the oldest pending task, which thereby
/// becomes the latest one started.
pub proof fn lemma_idle_worker_runs_oldest<J>(v: PoolView<J>, id: int)
    requires
        v.inv(),
        v.knows(id),
        v.workers[id] == WorkerState::Idle,
        !v.forced,
        v.pending().len() > 0,
    ensures
        v.step(id) == Step::Run(v.pending()[0]),
        v.take(id).started == v.started.push(v.pending()[0]),
        v.take(id).pending() == v.pending().drop_first(),
        v.take(id).submitted == v.submitted,
{
    assert(v.queue[0] is Task);
    assert(v.pending()[0] == v.queue[0].job());
    assert(v.take(id).pending() =~= v.pending().drop_first());
}

/// Once a pool is joined, no worker is idle or busy any more, and no task
/// that was started is still running.
pub proof fn lemma_joined_no_worker_alive<J>(v: PoolView<J>)
    requires
        v.inv(),
        v.phase() == Phase::Joined,
    ensures
        forall|w: int|
            0 <= w < v.workers.len() ==> (#[trigger] v.workers[w]) != WorkerState::Idle
                && v.workers[w] != WorkerState::Busy,
        forall|i: int|
            0 <= i < v.started.len() ==> !((#[trigger] v.outcome[i]) is Running),
{
    assert forall|i: int| 0 <= i < v.started.len() implies !((#[trigger] v.outcome[i])
        is Running) by {
        assert(v.accounted(i));
        if let Outcome::Running(w) = v.outcome[i] {
            assert(v.gone(w));
        }
    }
    assert forall|w: int| 0 <= w < v.workers.len() implies (#[trigger] v.workers[w])
        != WorkerState::Idle && v.workers[w] != WorkerState::Busy by {
        assert(v.gone(w));
    }
}

/// A pool that was shut down and joined, that was never forced to stop and in
/// which no task aborted, has handed out every submitted task exactly once
/// and in order, and every one of them has run to the end.
pub proof fn lemma_joined_ran_everything<J>(v: PoolView<J>)
    requires
        v.inv(),
        v.phase() == Phase::Joined,
        !v.forced,
        forall|w: int| 0 <= w < v.workers.len() ==> v.workers[w] != WorkerState::Failed,
    ensures
        v.started == v.submitted,
        v.pending().len() == 0,
        v.outcome.len() == v.submitted.len(),
        forall|i: int| 0 <= i < v.submitted.len() ==> v.outcome[i] == Outcome::Finished,
        forall|w: int| 0 <= w < v.workers.len() ==> v.workers[w] == WorkerState::Exited,
{
    assert forall|w: int| 0 <= w < v.workers.len() implies v.workers[w]
        == WorkerState::Exited by {
        assert(v.gone(w));
    }
    assert(v.workers[0] == WorkerState::Exited);
    assert(v.pending().len() == 0);
    assert(v.started + v.pending() =~= v.started);
    assert forall|i: int| 0 <= i < v.submitted.len() implies v.outcome[i]
        == Outcome::Finished by {
        assert(v.accounted(i));
    }
}

/// A task that aborts costs the pool the worker that ran it and nothing
/// else: the queue, the record of what was submitted and started, every other
/// worker, and what every other worker is told next all stand as they were.
pub proof fn lemma_abort_spares_the_rest<J>(v: PoolView<J>, id: int, other: int)
    requires
        v.inv(),
        v.knows(other),
        other != id,
    ensures
        v.abort(id).inv(),
        v.abort(id).queue == v.queue,
        v.abort(id).pending() == v.pending(),
        v.abort(id).submitted == v.submitted,
        v.abort(id).started == v.started,
        v.abort(id).workers[other] == v.workers[other],
        v.abort(id).step(other) == v.step(other),
        v.abort(id).take(other).queue == v.take(other).queue,
        v.abort(id).take(other).started == v.take(other).started,
        v.abort(id).ticket[other] == v.ticket[other],
{
    lemma_settle_inv(v, id, WorkerState::Failed);
}

/// The number of workers is fixed for the life of a pool: no operation adds
/// or removes one.
pub proof fn lemma_size_is_fixed<J>(v: PoolView<J>, job: J, id: int)
    requires
        v.inv(),
    ensures
        v.submit(job).workers.len() == v.workers.len(),
        v.close().workers.len() == v.workers.len(),
        v.force().workers.len() == v.workers.len(),
        v.take(id).workers.len() == v.workers.len(),
        v.complete(id).workers.len() == v.workers.len(),
        v.abort(id).workers.len() == v.workers.len(),
{
}

/// Shutdown begins once: it appends exactly one sentinel per worker behind
/// every task queued so far, and a second call changes nothing.
pub proof fn lemma_close_once<J>(v: PoolView<J>)
    requires
        v.inv(),
        !v.closed,
    ensures
        v.close().queue.len() == v.queue.len() + v.workers.len(),
        v.close().sentinels == v.workers.len(),
        v.close().pending() == v.pending(),
        v.close().close() == v.close(),
        v.close().phase() != Phase::Running,
        forall|job: J| v.close().submit(job) == v.close(),
{
    lemma_close_inv(v);
}

/// Lost workers do not cost the pool its queue: in a joined pool that was
/// never forced to stop and in which at least one worker lived to take its
/// sentinel, every submitted task was handed out, in order, and each of them
/// either ran to the end or is the one that took its worker with it.
pub proof fn lemma_survivor_drains_queue<J>(v: PoolView<J>, survivor: int)
    requires
        v.inv(),
        v.phase() == Phase::Joined,
        !v.forced,
        v.knows(survivor),
        v.workers[survivor] == WorkerState::Exited,
    ensures
        v.started == v.submitted,
        v.outcome.len() == v.submitted.len(),
        forall|i: int|
            0 <= i < v.submitted.len() ==> (#[trigger] v.outcome[i]) == Outcome::Finished
                || v.outcome[i] is Aborted,
{
    assert(v.pending().len() == 0);
    assert(v.started + v.pending() =~= v.started);
    lemma_joined_no_worker_alive(v);
}

/// How far a pool has come in its life.
pub open spec fn rank(p: Phase) -> int {
    match p {
        Phase::Running => 0,
        Phase::Draining => 1,
        Phase::Joined => 2,
    }
}

/// A worker that has left its loop never comes back, whatever happens to the
/// pool next.
pub proof fn lemma_gone_stays_gone<J>(v: PoolView<J>, job: J, id: int, w: int)
    requires
        v.knows(w),
        v.gone(w),
    ensures
        v.submit(job).gone(w),
        v.close().gone(w),
        v.force().gone(w),
        v.take(id).gone(w),
        v.complete(id).gone(w),
        v.abort(id).gone(w),
{
}

/// The life of a pool only moves forward, from running to draining to
/// joined: no operation takes it back, and a joined pool stays joined.
pub proof fn lemma_no_way_back<J>(v: PoolView<J>, job: J, id: int)
    requires
        v.inv(),
    ensures
        rank(v.submit(job).phase()) >= rank(v.phase()),
        rank(v.close().phase()) >= rank(v.phase()),
        rank(v.force().phase()) >= rank(v.phase()),
        rank(v.take(id).phase()) >= rank(v.phase()),
        rank(v.complete(id).phase()) >= rank(v.phase()),
        rank(v.abort(id).phase()) >= rank(v.phase()),
{
    if v.closed && v.all_gone() {
        let t = v.take(id);
        let c = v.complete(id);
        let a = v.abort(id);
        let f = v.force();
        assert forall|w: int| 0 <= w < t.workers.len() implies #[trigger] t.gone(w) by {
            assert(v.gone(w));
        }
        assert forall|w: int| 0 <= w < c.workers.len() implies #[trigger] c.gone(w) by {
            assert(v.gone(w));
        }
        assert forall|w: int| 0 <= w < a.workers.len() implies #[trigger] a.gone(w) by {
            assert(v.gone(w));
        }
        assert forall|w: int| 0 <= w < f.workers.len() implies #[trigger] f.gone(w) by {
            assert(v.gone(w));
        }
    }
}

/// A task is accepted only while something could take it: a pool that is
/// shut down, or that has no worker left, refuses every submission and stays
/// as it is; any other pool appends the task behind everything queued.
pub proof fn lemma_submission_needs_a_worker<J>(v: PoolView<J>, job: J)
    requires
        v.inv(),
    ensures
        v.closed || v.all_gone() ==> v.submit(job) == v,
        !v.closed && !v.all_gone() ==> v.submit(job).submitted == v.submitted.push(job)
            && v.submit(job).pending() == v.pending().push(job) && v.submit(job).queue.last()
            == Msg::Task(job),
{
    if v.accepts() {
        assert(v.submit(job).pending() =~= v.pending().push(job));
    }
}

/// One worker that has not left its loop is enough for a running pool to
/// accept a task.
pub proof fn lemma_live_worker_accepts<J>(v: PoolView<J>, w: int)
    requires
        v.knows(w),
        !v.gone(w),
        !v.closed,
    ensures
        !v.all_gone(),
        v.accepts(),
{
}

/// Idle workers start queued tasks together: where as many idle workers ask
/// for work as there are tasks pending, or fewer, and the pool was not forced
/// to stop, the k-th of them is handed the k-th oldest task at once, while
/// all those before it are still running theirs. None waits for another to
/// finish, and every other worker stands as it was.
pub proof fn lemma_idle_workers_start_together<J>(v: PoolView<J>, ids: Seq<int>)
    requires
        v.inv(),
        !v.forced,
        v.idle_crew(ids),
        ids.len() <= v.pending().len(),
    ensures
        v.take_each(ids).inv(),
        !v.take_each(ids).forced,
        v.take_each(ids).closed == v.closed,
        v.take_each(ids).workers.len() == v.workers.len(),
        v.take_each(ids).submitted == v.submitted,
        v.take_each(ids).started == v.started + v.pending().take(ids.len() as int),
        v.take_each(ids).pending() == v.pending().skip(ids.len() as int),
        forall|k: int|
            0 <= k < ids.len() ==> #[trigger] v.take_each(ids.take(k)).step(ids[k]) == Step::Run(
                v.pending()[k],
            ),
        forall|k: int|
            0 <= k < ids.len() ==> v.take_each(ids).workers[#[trigger] ids[k]]
                == WorkerState::Busy,
        forall|w: int|
            0 <= w < v.workers.len() && !ids.contains(w) ==> #[trigger] v.take_each(ids).workers[w]
                == v.workers[w],
    decreases ids.len(),
{
    let n = v.take_each(ids);
    if ids.len() == 0 {
        assert(v.pending().take(0) =~= Seq::<J>::empty());
        assert(v.started + v.pending().take(0) =~= v.started);
        assert(v.pending().skip(0) =~= v.pending());
    } else {
        let front = ids.drop_last();
        let last = ids.last();
        let m = v.take_each(front);
        let c = front.len() as int;
        assert(v.idle_crew(front)) by {
            assert forall|k: int| 0 <= k < front.len() implies v.knows(#[trigger] front[k])
                && v.workers[front[k]] == WorkerState::Idle by {
                assert(front[k] == ids[k]);
            }
            assert forall|j: int, k: int| 0 <= j < k < front.len() implies front[j]
                != front[k] by {
                assert(front[j] == ids[j] && front[k] == ids[k]);
            }
        }
        lemma_idle_workers_start_together(v, front);
        assert(!front.contains(last)) by {
            if front.contains(last) {
                let j = choose|j: int| 0 <= j < front.len() && front[j] == last;
                assert(ids[j] == front[j]);
                assert(ids[c] == last);
            }
        }
        assert(v.knows(ids[c]));
        assert(m.workers[last] == v.workers[last]);
        assert(m.pending().len() == v.pending().len() - c);
        assert(m.pending()[0] == v.pending()[c]);
        lemma_idle_worker_runs_oldest(m, last);
        lemma_take_inv(m, last);
        assert(n == m.take(last));
        assert(n.started =~= v.started + v.pending().take(ids.len() as int));
        assert(n.pending() =~= v.pending().skip(ids.len() as int));
        assert forall|k: int| 0 <= k < ids.len() implies #[trigger] v.take_each(
            ids.take(k),
        ).step(ids[k]) == Step::Run(v.pending()[k]) by {
            if k < c {
                assert(ids.take(k) =~= front.take(k));
                assert(ids[k] == front[k]);
            } else {
                assert(ids.take(k) =~= front);
            }
        }
        assert forall|k: int| 0 <= k < ids.len() implies n.workers[#[trigger] ids[k]]
            == WorkerState::Busy by {
            if k < c {
                assert(ids[k] == front[k]);
                assert(ids[k] != last);
            }
        }
        assert forall|w: int|
            0 <= w < v.workers.len() && !ids.contains(w) implies #[trigger] n.workers[w]
            == v.workers[w] by {
            assert(ids[c] == last);
            assert(w != last);
            if front.contains(w) {
                let j = choose|j: int| 0 <= j < front.len() && front[j] == w;
                assert(ids[j] == w);
            }
        }
    }
}

/// An aborting task costs the pool one worker and nothing more: the worker
/// that ran it is lost, capacity drops by exactly that one, and the idle
/// workers among the others are handed the tasks already queued, oldest
/// first, as if nothing had happened.
pub proof fn lemma_abort_leaves_the_others_working<J>(v: PoolView<J>, id: int, ids: Seq<int>)
    requires
        v.inv(),
        !v.forced,
        v.knows(id),
        v.workers[id] == WorkerState::Busy,
        v.idle_crew(ids),
        ids.len() <= v.pending().len(),
    ensures
        v.abort(id).inv(),
        v.abort(id).workers[id] == WorkerState::Failed,
        v.abort(id).workers.len() == v.workers.len(),
        forall|w: int|
            0 <= w < v.workers.len() && w != id ==> #[trigger] v.abort(id).workers[w]
                == v.workers[w],
        v.abort(id).queue == v.queue,
        v.abort(id).pending() == v.pending(),
        forall|k: int|
            0 <= k < ids.len() ==> #[trigger] v.abort(id).take_each(ids.take(k)).step(ids[k])
                == Step::Run(v.pending()[k]),
        v.abort(id).take_each(ids).started == v.started + v.pending().take(ids.len() as int),
        v.abort(id).take_each(ids).workers[id] == WorkerState::Failed,
{
    let a = v.abort(id);
    lemma_settle_inv(v, id, WorkerState::Failed);
    assert(a.pending() =~= v.pending());
    assert(a.idle_crew(ids)) by {
        assert forall|k: int| 0 <= k < ids.len() implies a.knows(#[trigger] ids[k])
            && a.workers[ids[k]] == WorkerState::Idle by {
            assert(v.knows(ids[k]) && v.workers[ids[k]] == WorkerState::Idle);
        }
    }
    lemma_idle_workers_start_together(a, ids);
    assert(!ids.contains(id)) by {
        if ids.contains(id) {
            let j = choose|j: int| 0 <= j < ids.len() && ids[j] == id;
            assert(v.workers[ids[j]] == WorkerState::Idle);
        }
    }
}

/// Whatever happens to a valid pool, in whatever order, it stays valid,
/// keeps its number of workers, and never moves back in its life.
pub proof fn lemma_run_inv<J>(v: PoolView<J>, ops: Seq<Op<J>>)
    requires
        v.inv(),
    ensures
        v.run(ops).inv(),
        v.run(ops).workers.len() == v.workers.len(),
        rank(v.run(ops).phase()) >= rank(v.phase()),
        v.closed ==> v.run(ops).closed,
    decreases ops.len(),
{
    if ops.len() > 0 {
        let m = v.run(ops.drop_last());
        lemma_run_inv(v, ops.drop_last());
        match ops.last() {
            Op::Submit(job) => {
                lemma_submit_inv(m, job);
                lemma_no_way_back(m, job, 0);
            },
            Op::Close => {
                lemma_close_inv(m);
                if !m.closed {
                    assert(rank(m.phase()) == 0);
                }
            },
            Op::Force => {
                lemma_force_inv(m);
                let f = m.force();
                assert(f.phase() == m.phase()) by {
                    if m.all_gone() {
                        assert forall|w: int| 0 <= w < f.workers.len() implies #[trigger] f.gone(
                            w,
                        ) by {
                            assert(m.gone(w));
                        }
                    }
                    if f.all_gone() {
                        assert forall|w: int| 0 <= w < m.workers.len() implies #[trigger] m.gone(
                            w,
                        ) by {
                            assert(f.gone(w));
                        }
                    }
                }
            },
            Op::Take(id) => {
                lemma_take_inv(m, id);
                lemma_no_way_back(m, arbitrary(), id);
            },
            Op::Complete(id) => {
                lemma_settle_inv(m, id, WorkerState::Idle);
                lemma_no_way_back(m, arbitrary(), id);
            },
            Op::Abort(id) => {
                lemma_settle_inv(m, id, WorkerState::Failed);
                lemma_no_way_back(m, arbitrary(), id);
            },
        }
    }
}

/// Every state that a pool of at least one worker can reach from its
/// construction is valid.
pub proof fn lemma_every_run_is_sound<J>(size: nat, ops: Seq<Op<J>>)
    requires
        size >= 1,
    ensures
        PoolView::<J>::fresh(size).run(ops).inv(),
        PoolView::<J>::fresh(size).run(ops).workers.len() == size,
{
    lemma_fresh_inv::<J>(size);
    lemma_run_inv(PoolView::<J>::fresh(size), ops);
}

/// Whatever was submitted to a pool and in whatever order its workers took
/// their turns: once the pool is shut down and joined, if it was never forced
/// to stop and lost no worker, every task that was accepted was handed out
/// exactly once, in the order of submission, and has run to the end.
pub proof fn lemma_shutdown_runs_everything<J>(size: nat, ops: Seq<Op<J>>, v: PoolView<J>)
    requires
        size >= 1,
        v == PoolView::<J>::fresh(size).run(ops),
        v.phase() == Phase::Joined,
        !v.forced,
        forall|w: int| 0 <= w < v.workers.len() ==> v.workers[w] != WorkerState::Failed,
    ensures
        v.started == v.submitted,
        v.outcome.len() == v.submitted.len(),
        forall|i: int| 0 <= i < v.submitted.len() ==> v.outcome[i] == Outcome::Finished,
{
    lemma_every_run_is_sound::<J>(size, ops);
    lemma_joined_ran_everything(v);
}

} // verus!
