//! The pool itself: a FIFO queue of submitted task identifiers, a fixed
//! set of workers, ghost histories of every submission and every claim,
//! and the two-phase shutdown protocol.

use vstd::prelude::*;

use crate::worker::Dequeued;
use crate::worker::WorkerState;
use crate::worker::failed_tasks;
use crate::worker::lemma_inactive_workers_hold_nothing;
use crate::worker::lemma_update_worker_counts;
use crate::worker::running_tasks;

verus! {

broadcast use vstd::multiset::group_multiset_axioms, vstd::seq_lib::group_to_multiset_ensures;

/// A fixed-size worker pool, modelled over task identifiers.
///
/// Tasks are identified by the `u64` the submitter hands to `execute`.
/// `pending` holds the identifiers of submitted, not yet claimed tasks in
/// submission order; `finished` records completed tasks in completion
/// order; the ghost `submitted` and `claimed` histories record every
/// submission and every hand-off to a worker.
pub struct ThreadPool {
    workers: Vec<WorkerState>,
    pending: Vec<u64>,
    finished: Vec<u64>,
    closed: bool,
    submitted: Ghost<Seq<u64>>,
    claimed: Ghost<Seq<u64>>,
}

impl ThreadPool {
    /// The fixed number of workers, established at construction.
    pub closed spec fn num_workers(&self) -> nat {
        self.workers@.len()
    }

    /// The state of every worker, indexed by the worker's number.
    pub closed spec fn worker_states(&self) -> Seq<WorkerState> {
        self.workers@
    }

    /// Tasks submitted and not yet claimed by any worker, oldest first.
    pub closed spec fn pending_tasks(&self) -> Seq<u64> {
        self.pending@
    }

    /// Tasks that ran to completion, in completion order.
    pub closed spec fn finished_tasks(&self) -> Seq<u64> {
        self.finished@
    }

    /// Every task ever submitted, in submission order.
    pub closed spec fn submitted_tasks(&self) -> Seq<u64> {
        self.submitted@
    }

    /// Every task handed to a worker, in the order workers claimed them.
    pub closed spec fn claimed_tasks(&self) -> Seq<u64> {
        self.claimed@
    }

    /// Whether the sending side of the queue has been closed (shutdown
    /// phase one). Once closed, nothing can be submitted any more.
    pub closed spec fn queue_closed(&self) -> bool {
        self.closed
    }

    /// Shutdown is complete: the queue is closed and no worker waits for
    /// work or runs a task any more.
    pub open spec fn shutdown_complete(&self) -> bool {
        &&& self.queue_closed()
        &&& forall|w: int|
            0 <= w < self.num_workers()
                ==> (#[trigger] self.worker_states()[w] is Terminated
                    || self.worker_states()[w] is Failed)
    }

    /// The pool's invariant, established by `new` and preserved by every
    /// operation:
    /// - the submission history is exactly the claim history followed by
    ///   the pending queue (tasks are claimed in submission order and
    ///   none is lost or duplicated while queued);
    /// - every claimed task is accounted for exactly once: it finished,
    ///   it is running on some worker, or its worker failed on it;
    /// - a worker terminates only once the queue is closed and drained.
    pub closed spec fn wf(&self) -> bool {
        &&& self.submitted@ == self.claimed@ + self.pending@
        &&& self.claimed@.to_multiset() == self.finished@.to_multiset().add(
            running_tasks(self.workers@),
        ).add(failed_tasks(self.workers@))
        &&& (exists|w: int|
            0 <= w < self.workers@.len() && (#[trigger] self.workers@[w]) is Terminated) ==> (
        self.closed && self.pending@.len() == 0)
    }

    /// Construct a pool with exactly `n_threads` workers, all waiting on
    /// an empty, open queue. `n_threads == 0` is legal: such a pool
    /// accepts submissions but never executes anything.
    pub fn new(n_threads: usize) -> (pool: ThreadPool)
        ensures
            pool.wf(),
            pool.num_workers() == n_threads,
            !pool.queue_closed(),
            pool.pending_tasks() == Seq::<u64>::empty(),
            pool.submitted_tasks() == Seq::<u64>::empty(),
            pool.claimed_tasks() == Seq::<u64>::empty(),
            pool.finished_tasks() == Seq::<u64>::empty(),
            forall|w: int| 0 <= w < n_threads ==> #[trigger] pool.worker_states()[w] is Waiting,
    {
        let mut workers: Vec<WorkerState> = Vec::new();
        let mut i: usize = 0;
        while i < n_threads
            invariant
                i <= n_threads,
                workers@.len() == i,
                forall|j: int| 0 <= j < i ==> #[trigger] workers@[j] is Waiting,
            decreases n_threads - i,
        {
            workers.push(WorkerState::Waiting);
            i += 1;
        }
        let pool = ThreadPool {
            workers,
            pending: Vec::new(),
            finished: Vec::new(),
            closed: false,
            submitted: Ghost(Seq::empty()),
            claimed: Ghost(Seq::empty()),
        };
        proof {
            lemma_inactive_workers_hold_nothing(pool.workers@);
            assert(pool.claimed@.to_multiset() =~= pool.finished@.to_multiset().add(
                running_tasks(pool.workers@),
            ).add(failed_tasks(pool.workers@)));
        }
        pool
    }

    /// Submit a task: enqueue its identifier at the back of the queue.
    /// The call never blocks and gives no promise about when the task
    /// runs, only that it joins the queue behind every earlier submission.
    ///
    /// Submitting after shutdown has begun is a usage error and is ruled
    /// out by `requires`; an unverified caller must check `is_closed`
    /// first and treat a violation as fatal.
    pub fn execute(&mut self, task: u64)
        requires
            old(self).wf(),
            !old(self).queue_closed(),
        ensures
            final(self).wf(),
            !final(self).queue_closed(),
            final(self).num_workers() == old(self).num_workers(),
            final(self).worker_states() == old(self).worker_states(),
            final(self).pending_tasks() == old(self).pending_tasks().push(task),
            final(self).submitted_tasks() == old(self).submitted_tasks().push(task),
            final(self).claimed_tasks() == old(self).claimed_tasks(),
            final(self).finished_tasks() == old(self).finished_tasks(),
    {
        self.pending.push(task);
        proof {
            self.submitted@ = self.submitted@.push(task);
            assert(self.submitted@ =~= self.claimed@ + self.pending@);
            assert forall|w: int|
                0 <= w < self.workers@.len() implies !((#[trigger] self.workers@[w])
                is Terminated) by {
                if self.workers@[w] is Terminated {
                    assert(0 <= w < old(self).workers@.len() && old(self).workers@[w]
                        is Terminated);
                }
            }
        }
    }

    /// Submission, total on every well-formed pool: an open pool enqueues
    /// the task exactly as `execute` does and the call reports acceptance;
    /// a pool whose shutdown has begun rejects it — the task is not
    /// enqueued and never runs, and the pool is left untouched. A caller
    /// for whom a rejected submission is fatal checks the result and
    /// aborts, loudly.
    pub fn try_execute(&mut self, task: u64) -> (accepted: bool)
        requires
            old(self).wf(),
        ensures
            final(self).wf(),
            accepted == !old(self).queue_closed(),
            final(self).queue_closed() == old(self).queue_closed(),
            final(self).num_workers() == old(self).num_workers(),
            final(self).worker_states() == old(self).worker_states(),
            final(self).claimed_tasks() == old(self).claimed_tasks(),
            final(self).finished_tasks() == old(self).finished_tasks(),
            accepted ==> {
                &&& final(self).pending_tasks() == old(self).pending_tasks().push(task)
                &&& final(self).submitted_tasks() == old(self).submitted_tasks().push(task)
            },
            !accepted ==> {
                &&& final(self).pending_tasks() == old(self).pending_tasks()
                &&& final(self).submitted_tasks() == old(self).submitted_tasks()
            },
    {
        if self.closed {
            false
        } else {
            self.execute(task);
            true
        }
    }

    /// Shutdown phase one: close the sending side of the queue. This is
    /// the sole shutdown signal; no pending task is dropped by it, and
    /// workers keep draining the queue before they observe the closure.
    /// Closing is one-shot: it must not run twice.
    pub fn close(&mut self)
        requires
            old(self).wf(),
            !old(self).queue_closed(),
        ensures
            final(self).wf(),
            final(self).queue_closed(),
            final(self).num_workers() == old(self).num_workers(),
            final(self).worker_states() == old(self).worker_states(),
            final(self).pending_tasks() == old(self).pending_tasks(),
            final(self).submitted_tasks() == old(self).submitted_tasks(),
            final(self).claimed_tasks() == old(self).claimed_tasks(),
            final(self).finished_tasks() == old(self).finished_tasks(),
    {
        self.closed = true;
        proof {
            assert forall|w: int|
                0 <= w < self.workers@.len() implies !((#[trigger] self.workers@[w])
                is Terminated) by {
                if self.workers@[w] is Terminated {
                    assert(0 <= w < old(self).workers@.len() && old(self).workers@[w]
                        is Terminated);
                }
            }
        }
    }

    /// One dequeue attempt by waiting worker `w`, made under exclusive
    /// access to the receiving end of the queue. Exactly one of three
    /// things happens, decided by the queue alone:
    /// - a task is pending: the oldest one is handed to `w` and `w` runs
    ///   it, with the queue released — no other worker's state changes,
    ///   so tasks already running elsewhere keep running;
    /// - the queue is empty but still open: nothing changes and `w` keeps
    ///   waiting (the real dequeue blocks here);
    /// - the queue is closed and drained: `w` terminates, for good.
    pub fn worker_dequeue(&mut self, w: usize) -> (r: Dequeued)
        requires
            old(self).wf(),
            w < old(self).num_workers(),
            old(self).worker_states()[w as int] is Waiting,
        ensures
            final(self).wf(),
            final(self).num_workers() == old(self).num_workers(),
            final(self).queue_closed() == old(self).queue_closed(),
            final(self).submitted_tasks() == old(self).submitted_tasks(),
            final(self).finished_tasks() == old(self).finished_tasks(),
            old(self).pending_tasks().len() > 0 ==> {
                &&& r == Dequeued::Task(old(self).pending_tasks()[0])
                &&& final(self).pending_tasks() == old(self).pending_tasks().drop_first()
                &&& final(self).claimed_tasks() == old(self).claimed_tasks().push(
                    old(self).pending_tasks()[0],
                )
                &&& final(self).worker_states() == old(self).worker_states().update(
                    w as int,
                    (WorkerState::Running { task: old(self).pending_tasks()[0] }),
                )
            },
            old(self).pending_tasks().len() == 0 && !old(self).queue_closed() ==> {
                &&& r == Dequeued::Empty
                &&& final(self).pending_tasks() == old(self).pending_tasks()
                &&& final(self).claimed_tasks() == old(self).claimed_tasks()
                &&& final(self).worker_states() == old(self).worker_states()
            },
            old(self).pending_tasks().len() == 0 && old(self).queue_closed() ==> {
                &&& r == Dequeued::Disconnected
                &&& final(self).pending_tasks() == old(self).pending_tasks()
                &&& final(self).claimed_tasks() == old(self).claimed_tasks()
                &&& final(self).worker_states() == old(self).worker_states().update(
                    w as int,
                    WorkerState::Terminated,
                )
            },
    {
        if self.pending.len() > 0 {
            let task = self.pending.remove(0);
            self.workers.set(w, WorkerState::Running { task });
            proof {
                self.claimed@ = self.claimed@.push(task);
                assert(self.pending@ =~= old(self).pending@.drop_first());
                assert(self.submitted@ =~= self.claimed@ + self.pending@) by {
                    assert(old(self).submitted@ == old(self).claimed@ + old(self).pending@);
                    assert(self.submitted@.len() == self.claimed@.len() + self.pending@.len());
                    assert(forall|i: int|
                        0 <= i < self.submitted@.len() ==> #[trigger] self.submitted@[i] == (
                        old(self).claimed@ + old(self).pending@)[i]);
                }
                lemma_update_worker_counts(
                    old(self).workers@,
                    w as int,
                    WorkerState::Running { task },
                );
                assert(self.claimed@.to_multiset() =~= self.finished@.to_multiset().add(
                    running_tasks(self.workers@),
                ).add(failed_tasks(self.workers@))) by {
                    assert(self.claimed@.to_multiset() =~= old(self).claimed@.to_multiset().insert(
                        task,
                    ));
                }
                assert forall|v: int|
                    0 <= v < self.workers@.len() implies !((#[trigger] self.workers@[v])
                    is Terminated) by {
                    if self.workers@[v] is Terminated {
                        assert(v != w);
                        assert(0 <= v < old(self).workers@.len() && old(self).workers@[v]
                            is Terminated);
                        assert(old(self).pending@.len() == 0);
                    }
                }
            }
            Dequeued::Task(task)
        } else if self.closed {
            self.workers.set(w, WorkerState::Terminated);
            proof {
                lemma_update_worker_counts(old(self).workers@, w as int, WorkerState::Terminated);
                assert(self.claimed@.to_multiset() =~= self.finished@.to_multiset().add(
                    running_tasks(self.workers@),
                ).add(failed_tasks(self.workers@)));
            }
            Dequeued::Disconnected
        } else {
            Dequeued::Empty
        }
    }

    /// Worker `w` finished running its claimed task: the task is recorded
    /// as completed and `w` goes back to waiting for the next one.
    pub fn finish_task(&mut self, w: usize)
        requires
            old(self).wf(),
            w < old(self).num_workers(),
            old(self).worker_states()[w as int] is Running,
        ensures
            final(self).wf(),
            final(self).num_workers() == old(self).num_workers(),
            final(self).queue_closed() == old(self).queue_closed(),
            final(self).pending_tasks() == old(self).pending_tasks(),
            final(self).submitted_tasks() == old(self).submitted_tasks(),
            final(self).claimed_tasks() == old(self).claimed_tasks(),
            final(self).worker_states() == old(self).worker_states().update(
                w as int,
                WorkerState::Waiting,
            ),
            (old(self).worker_states()[w as int] matches WorkerState::Running { task }
                && final(self).finished_tasks() == old(self).finished_tasks().push(task)),
    {
        let state = self.workers[w];
        match state {
            WorkerState::Running { task } => {
                self.workers.set(w, WorkerState::Waiting);
                self.finished.push(task);
                proof {
                    lemma_update_worker_counts(old(self).workers@, w as int, WorkerState::Waiting);
                    assert(self.claimed@.to_multiset() =~= self.finished@.to_multiset().add(
                        running_tasks(self.workers@),
                    ).add(failed_tasks(self.workers@))) by {
                        assert(self.finished@.to_multiset() =~= old(
                            self,
                        ).finished@.to_multiset().insert(task));
                    }
                    assert forall|v: int|
                        0 <= v < self.workers@.len() && (#[trigger] self.workers@[v])
                            is Terminated implies old(self).closed && old(self).pending@.len()
                        == 0 by {
                        assert(v != w);
                        assert(0 <= v < old(self).workers@.len() && old(self).workers@[v]
                            is Terminated);
                    }
                }
            },
            _ => {
                proof {
                    assert(false);
                }
            },
        }
    }

    /// Worker `w` died while running its claimed task: the task failed,
    /// and `w` is permanently lost to the pool — it is never respawned.
    /// Other workers and queued tasks are untouched.
    pub fn fail_task(&mut self, w: usize)
        requires
            old(self).wf(),
            w < old(self).num_workers(),
            old(self).worker_states()[w as int] is Running,
        ensures
            final(self).wf(),
            final(self).num_workers() == old(self).num_workers(),
            final(self).queue_closed() == old(self).queue_closed(),
            final(self).pending_tasks() == old(self).pending_tasks(),
            final(self).submitted_tasks() == old(self).submitted_tasks(),
            final(self).claimed_tasks() == old(self).claimed_tasks(),
            final(self).finished_tasks() == old(self).finished_tasks(),
            (old(self).worker_states()[w as int] matches WorkerState::Running { task }
                && final(self).worker_states() == old(self).worker_states().update(
                w as int,
                (WorkerState::Failed { task }),
            )),
    {
        let state = self.workers[w];
        match state {
            WorkerState::Running { task } => {
                self.workers.set(w, WorkerState::Failed { task });
                proof {
                    lemma_update_worker_counts(
                        old(self).workers@,
                        w as int,
                        WorkerState::Failed { task },
                    );
                    assert(self.claimed@.to_multiset() =~= self.finished@.to_multiset().add(
                        running_tasks(self.workers@),
                    ).add(failed_tasks(self.workers@)));
                    assert forall|v: int|
                        0 <= v < self.workers@.len() && (#[trigger] self.workers@[v])
                            is Terminated implies old(self).closed && old(self).pending@.len()
                        == 0 by {
                        assert(v != w);
                        assert(0 <= v < old(self).workers@.len() && old(self).workers@[v]
                            is Terminated);
                    }
                }
            },
            _ => {
                proof {
                    assert(false);
                }
            },
        }
    }

    /// The worker loop's drain phase. Once shutdown has begun, waiting
    /// worker `w` keeps claiming and completing the oldest pending task
    /// until it observes the closed, drained queue and terminates: every
    /// task queued before the close is still claimed, in order, and
    /// finishes exactly once. (Before the close the loop cannot be
    /// rendered here: an empty-but-open queue blocks the real worker.)
    pub fn drain_worker(&mut self, w: usize)
        requires
            old(self).wf(),
            old(self).queue_closed(),
            w < old(self).num_workers(),
            old(self).worker_states()[w as int] is Waiting,
        ensures
            final(self).wf(),
            final(self).queue_closed(),
            final(self).num_workers() == old(self).num_workers(),
            final(self).pending_tasks().len() == 0,
            final(self).submitted_tasks() == old(self).submitted_tasks(),
            final(self).worker_states() == old(self).worker_states().update(
                w as int,
                WorkerState::Terminated,
            ),
            final(self).claimed_tasks() == old(self).claimed_tasks() + old(self).pending_tasks(),
            final(self).finished_tasks() == old(self).finished_tasks() + old(self).pending_tasks(),
    {
        proof {
            assert(self.pending_tasks() =~= old(self).pending_tasks().skip(0));
            assert(self.claimed_tasks() =~= old(self).claimed_tasks() + old(
                self,
            ).pending_tasks().take(0));
            assert(self.finished_tasks() =~= old(self).finished_tasks() + old(
                self,
            ).pending_tasks().take(0));
        }
        loop
            invariant_except_break
                self.worker_states() == old(self).worker_states(),
                self.worker_states()[w as int] is Waiting,
            invariant
                self.wf(),
                self.queue_closed(),
                w < self.num_workers(),
                self.num_workers() == old(self).num_workers(),
                self.submitted_tasks() == old(self).submitted_tasks(),
                self.pending_tasks().len() <= old(self).pending_tasks().len(),
                self.pending_tasks() == old(self).pending_tasks().skip(
                    old(self).pending_tasks().len() - self.pending_tasks().len(),
                ),
                self.claimed_tasks() == old(self).claimed_tasks() + old(self).pending_tasks().take(
                    old(self).pending_tasks().len() - self.pending_tasks().len(),
                ),
                self.finished_tasks() == old(self).finished_tasks() + old(self).pending_tasks().take(
                    old(self).pending_tasks().len() - self.pending_tasks().len(),
                ),
            ensures
                self.pending_tasks().len() == 0,
                self.worker_states() == old(self).worker_states().update(
                    w as int,
                    WorkerState::Terminated,
                ),
            decreases self.pending_tasks().len(),
        {
            let ghost done = old(self).pending_tasks().len() - self.pending_tasks().len();
            let ghost before = *self;
            match self.worker_dequeue(w) {
                Dequeued::Task(_) => {
                    self.finish_task(w);
                    proof {
                        let p = old(self).pending_tasks();
                        assert(before.pending_tasks()[0] == p[done]);
                        assert(self.pending_tasks() =~= p.skip(done + 1));
                        assert(p.take(done + 1) =~= p.take(done).push(p[done]));
                        assert(self.claimed_tasks() =~= old(self).claimed_tasks() + p.take(
                            done + 1,
                        ));
                        assert(self.finished_tasks() =~= old(self).finished_tasks() + p.take(
                            done + 1,
                        ));
                        assert(self.worker_states() =~= old(self).worker_states());
                    }
                },
                Dequeued::Disconnected => {
                    proof {
                        let p = old(self).pending_tasks();
                        assert(before.pending_tasks().len() == 0);
                        assert(p.take(done) =~= p);
                        assert(self.claimed_tasks() =~= old(self).claimed_tasks() + p);
                    }
                    break;
                },
                Dequeued::Empty => {
                    proof {
                        assert(false);
                    }
                },
            }
        }
    }

    /// Whether shutdown has begun and the queue no longer accepts work.
    pub fn is_closed(&self) -> (b: bool)
        ensures
            b == self.queue_closed(),
    {
        self.closed
    }

    /// The fixed worker count established at construction.
    pub fn thread_count(&self) -> (n: usize)
        ensures
            n == self.num_workers(),
    {
        self.workers.len()
    }

    /// The current state of worker `w`.
    pub fn worker_state(&self, w: usize) -> (s: WorkerState)
        requires
            w < self.num_workers(),
        ensures
            s == self.worker_states()[w as int],
    {
        self.workers[w]
    }

    /// How many submitted tasks no worker has claimed yet.
    pub fn pending_count(&self) -> (n: usize)
        ensures
            n == self.pending_tasks().len(),
    {
        self.pending.len()
    }

    /// How many tasks have run to completion so far.
    pub fn finished_count(&self) -> (n: usize)
        ensures
            n == self.finished_tasks().len(),
    {
        self.finished.len()
    }

    /// The `i`-th task to have run to completion.
    pub fn finished_task(&self, i: usize) -> (t: u64)
        requires
            i < self.finished_tasks().len(),
        ensures
            t == self.finished_tasks()[i as int],
    {
        self.finished[i]
    }
}

/// Law: the worker-state sequence has exactly one entry per worker, so
/// knowing the worker count is knowing the length of `worker_states()`
/// and the other way round — any worker number below `num_workers()`
/// indexes into `worker_states()`.
pub proof fn lemma_worker_count_is_state_length(p: &ThreadPool)
    ensures
        p.worker_states().len() == p.num_workers(),
{
}

/// Law: workers observe tasks in submission order. In every reachable
/// pool state the claim history is exactly the prefix, of its own length,
/// of the submission history — so tasks submitted sequentially by one
/// caller are handed out first-in, first-out, whatever order they later
/// finish in.
pub proof fn lemma_claims_follow_submission_order(p: &ThreadPool)
    requires
        p.wf(),
    ensures
        p.claimed_tasks() == p.submitted_tasks().take(p.claimed_tasks().len() as int),
{
    assert(p.claimed_tasks() =~= p.submitted_tasks().take(p.claimed_tasks().len() as int));
}

/// Law: no task is lost while the queue is open. Once every worker of a
/// non-empty pool has terminated normally — which a worker only does
/// after the queue is closed and drained — the queue is empty, every
/// submitted task was claimed, in submission order, and every submitted
/// task finished exactly once (with multiplicity: the completion history
/// holds each submission occurrence once, in an unconstrained order).
pub proof fn lemma_every_submitted_task_finished(p: &ThreadPool)
    requires
        p.wf(),
        p.num_workers() > 0,
        forall|w: int| 0 <= w < p.num_workers() ==> #[trigger] p.worker_states()[w] is Terminated,
    ensures
        p.queue_closed(),
        p.pending_tasks().len() == 0,
        p.claimed_tasks() == p.submitted_tasks(),
        p.finished_tasks().to_multiset() == p.submitted_tasks().to_multiset(),
{
    assert(p.worker_states()[0] is Terminated);
    lemma_inactive_workers_hold_nothing(p.worker_states());
    assert(p.claimed_tasks() =~= p.submitted_tasks());
    assert(p.finished_tasks().to_multiset() =~= p.claimed_tasks().to_multiset());
}

/// Law: shutdown is quiescence. When shutdown is complete no worker is
/// waiting or running any longer; and as long as at least one worker
/// terminated normally, the queue was drained first, so every task queued
/// before the close was still handed out — closing the queue loses no
/// submitted work.
pub proof fn lemma_shutdown_complete_drains_queue(p: &ThreadPool)
    requires
        p.wf(),
        p.shutdown_complete(),
        exists|w: int|
            0 <= w < p.num_workers() && (#[trigger] p.worker_states()[w]) is Terminated,
    ensures
        p.queue_closed(),
        p.pending_tasks().len() == 0,
        p.claimed_tasks() == p.submitted_tasks(),
        forall|w: int|
            0 <= w < p.num_workers() ==> !((#[trigger] p.worker_states()[w]) is Waiting) && !(
            p.worker_states()[w] is Running),
{
    assert(p.claimed_tasks() =~= p.submitted_tasks());
}

} // verus!
